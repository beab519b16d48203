use vstd::prelude::*;
use crate::player::clamp_frame;

verus! {

/// Scroll speed at the start of every run: 200 units per second, in
/// thousandths of a unit per second.
pub const INITIAL_VELOCITY: u32 = 200_000;

/// Millionths of a unit in one unit: the score is kept in millionths and
/// shown in whole units.
pub const MICROS_PER_UNIT: u64 = 1_000_000;

#[derive(Clone, Copy, Debug, PartialEq, Eq, Structural)]
pub enum GameState {
    WaitingForStart,
    Running,
    Dead,
}

/// Lifecycle events, raised by input and by obstacle contact and handled in
/// the order they are raised.
#[derive(Clone, Copy, Debug, PartialEq, Eq, Structural)]
pub enum GameEvent {
    GameStart,
    GameEnd,
    GameReset,
    PlayerJump,
}

/// The session of one run.
#[derive(Clone, Copy, Debug, PartialEq, Eq, Structural)]
pub struct GameData {
    pub game_state: GameState,
    /// Score of the run before this one, in millionths of a unit.
    pub previous_score: u64,
    /// Distance travelled in this run, in millionths of a unit.
    pub current_score: u64,
    /// Scroll speed, in thousandths of a unit per second.
    pub velocity: u32,
}

/// What an activation raises in each state: start, jump, or reset.
pub open spec fn input_event(state: GameState, activate: bool) -> Option<GameEvent> {
    if !activate {
        None
    } else {
        match state {
            GameState::WaitingForStart => Some(GameEvent::GameStart),
            GameState::Running => Some(GameEvent::PlayerJump),
            GameState::Dead => Some(GameEvent::GameReset),
        }
    }
}

/// Distance scrolled at `velocity` in a frame of `dt_ms`, in millionths of a unit.
pub open spec fn frame_distance(velocity: int, dt_ms: int) -> int {
    velocity * clamp_frame(dt_ms)
}

impl GameData {
    /// The session of a fresh start, after a run that scored `previous_score`.
    pub open spec fn fresh(previous_score: u64, initial_velocity: u32) -> GameData {
        GameData {
            game_state: GameState::WaitingForStart,
            previous_score,
            current_score: 0,
            velocity: initial_velocity,
        }
    }

    /// The session after handling `event`. Each event acts only in the state
    /// that raises it; a jump concerns the player alone.
    pub open spec fn handled(self, event: GameEvent, initial_velocity: u32) -> GameData {
        match event {
            GameEvent::GameStart => if self.game_state == GameState::WaitingForStart {
                GameData { game_state: GameState::Running, ..self }
            } else {
                self
            },
            GameEvent::GameEnd => if self.game_state == GameState::Running {
                GameData { game_state: GameState::Dead, ..self }
            } else {
                self
            },
            GameEvent::GameReset => if self.game_state == GameState::Dead {
                GameData::fresh(self.current_score, initial_velocity)
            } else {
                self
            },
            GameEvent::PlayerJump => self,
        }
    }

    /// The session after a frame of `dt_ms`: a running game adds the distance
    /// scrolled to the score, saturating at the largest score.
    pub open spec fn accrued(self, dt_ms: int) -> GameData {
        if self.game_state == GameState::Running {
            let s = self.current_score + frame_distance(self.velocity as int, dt_ms);
            GameData { current_score: if s > u64::MAX { u64::MAX } else { s as u64 }, ..self }
        } else {
            self
        }
    }

    pub fn new(initial_velocity: u32) -> (r: GameData)
        ensures
            r == GameData::fresh(0, initial_velocity),
    {
        GameData { game_state: GameState::WaitingForStart, previous_score: 0, current_score: 0, velocity: initial_velocity }
    }

    /// The event that an activation raises in the current state, if any.
    pub fn handle_input(&self, activate: bool) -> (r: Option<GameEvent>)
        ensures
            r == input_event(self.game_state, activate),
    {
        if !activate {
            None
        } else {
            match self.game_state {
                GameState::WaitingForStart => Some(GameEvent::GameStart),
                GameState::Running => Some(GameEvent::PlayerJump),
                GameState::Dead => Some(GameEvent::GameReset),
            }
        }
    }

    /// Starts the run.
    pub fn handle_game_start(&mut self)
        requires
            old(self).game_state == GameState::WaitingForStart,
        ensures
            *final(self) == (GameData { game_state: GameState::Running, ..*old(self) }),
    {
        self.game_state = GameState::Running;
    }

    /// Ends the run: scrolling and scoring stop.
    pub fn handle_game_end(&mut self)
        requires
            old(self).game_state == GameState::Running,
        ensures
            *final(self) == (GameData { game_state: GameState::Dead, ..*old(self) }),
    {
        self.game_state = GameState::Dead;
    }

    /// Resets the session: the score moves to `previous_score`, the current
    /// score restarts at zero, the speed is the initial one, and the game
    /// waits for a start.
    pub fn handle_model_reset(&mut self, initial_velocity: u32)
        ensures
            *final(self) == GameData::fresh(old(self).current_score, initial_velocity),
            final(self).current_score == 0,
            final(self).velocity == initial_velocity,
            final(self).game_state == GameState::WaitingForStart,
    {
        self.previous_score = self.current_score;
        self.current_score = 0;
        self.velocity = initial_velocity;
        self.game_state = GameState::WaitingForStart;
    }

    /// Handles one lifecycle event.
    pub fn apply(&mut self, event: GameEvent, initial_velocity: u32)
        ensures
            *final(self) == old(self).handled(event, initial_velocity),
    {
        match event {
            GameEvent::GameStart => if self.game_state == GameState::WaitingForStart {
                self.handle_game_start();
            },
            GameEvent::GameEnd => if self.game_state == GameState::Running {
                self.handle_game_end();
            },
            GameEvent::GameReset => if self.game_state == GameState::Dead {
                self.handle_model_reset(initial_velocity);
            },
            GameEvent::PlayerJump => {},
        }
    }

    /// Adds the distance scrolled in a frame of `dt_ms` to the score while
    /// running. The score never decreases while running and stays as it is
    /// otherwise.
    pub fn update_distance(&mut self, dt_ms: u32)
        ensures
            *final(self) == old(self).accrued(dt_ms as int),
            old(self).game_state == GameState::Running ==> final(self).current_score >= old(self).current_score,
            old(self).game_state != GameState::Running ==> final(self).current_score == old(self).current_score,
    {
        if self.game_state == GameState::Running {
            let dt = crate::player::clamped_frame(dt_ms);
            assert(self.velocity as u64 * dt as u64 <= 0xffff_ffff * 250) by (nonlinear_arith)
                requires self.velocity <= 0xffff_ffff, dt <= 250;
            let d: u64 = self.velocity as u64 * dt as u64;
            self.current_score = self.current_score.saturating_add(d);
        }
    }

    /// The score to display, in whole units, truncated.
    pub fn display_score(&self) -> (r: u64)
        ensures
            r == self.current_score / MICROS_PER_UNIT,
    {
        self.current_score / MICROS_PER_UNIT
    }

    /// The previous run's score to display, in whole units, truncated.
    pub fn display_previous_score(&self) -> (r: u64)
        ensures
            r == self.previous_score / MICROS_PER_UNIT,
    {
        self.previous_score / MICROS_PER_UNIT
    }
}

} // verus!
