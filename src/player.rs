use vstd::prelude::*;
use crate::animation::AnimationConfig;
use crate::lane::in_coord_range;

verus! {

/// Longest frame that is integrated in one step, in milliseconds; longer
/// frames (after a stall) count as this long.
pub const MAX_FRAME_MS: u32 = 250;

/// Largest initial jump speed, in thousandths of a unit per second.
pub const MAX_JUMP_SPEED: i64 = 1_000_000_000;

/// Largest magnitude of gravity, in units per second squared.
pub const MAX_GRAVITY: i64 = 10_000_000;

/// Frame rate of the running sprite sheet.
pub const RUN_FPS: u8 = 4;

/// The frame time that is integrated for a frame of `dt_ms` milliseconds.
pub open spec fn clamp_frame(dt_ms: int) -> int {
    if dt_ms > MAX_FRAME_MS {
        MAX_FRAME_MS as int
    } else {
        dt_ms
    }
}

/// Caps a frame time at `MAX_FRAME_MS`.
pub fn clamped_frame(dt_ms: u32) -> (r: u32)
    ensures
        r == clamp_frame(dt_ms as int),
{
    if dt_ms > MAX_FRAME_MS {
        MAX_FRAME_MS
    } else {
        dt_ms
    }
}

#[derive(Clone, Copy, Debug, PartialEq, Eq, Structural)]
pub enum PlayerState {
    Running,
    Jumping,
    Dead,
}

/// Vertical motion of the player.
#[derive(Clone, Copy, Debug, PartialEq, Eq, Structural)]
pub struct Jump {
    /// Vertical speed, in thousandths of a unit per second; positive is up.
    pub velocity: i64,
    /// Vertical acceleration, in units per second squared; negative.
    pub gravity: i64,
    /// Resting height, in millionths of a unit.
    pub ground_y: i64,
    /// Speed given at take-off, in thousandths of a unit per second.
    pub initial_speed: i64,
}

#[derive(Clone, Copy, Debug, PartialEq, Eq, Structural)]
pub struct Player {
    pub x: i64,
    pub y: i64,
    pub state: PlayerState,
    pub jump: Jump,
    /// The sprite sheet on display, named by the state it shows.
    pub sheet: PlayerState,
    pub animation: AnimationConfig,
}

/// The sprite clock that a sheet starts with: two running frames at
/// `RUN_FPS`, the two jumping frames (rising, falling), one dead pose.
pub open spec fn sheet_clock(sheet: PlayerState) -> AnimationConfig {
    match sheet {
        PlayerState::Dead => AnimationConfig {
            first_sprite_index: 0,
            last_sprite_index: 0,
            fps: 1,
            elapsed_ms: 0,
            index: 0,
        },
        _ => AnimationConfig {
            first_sprite_index: 0,
            last_sprite_index: 1,
            fps: RUN_FPS,
            elapsed_ms: 0,
            index: 0,
        },
    }
}

fn make_sheet_clock(sheet: PlayerState) -> (r: AnimationConfig)
    ensures
        r == sheet_clock(sheet),
        r.wf(),
{
    match sheet {
        PlayerState::Dead => AnimationConfig::new(0, 0, 1),
        _ => AnimationConfig::new(0, 1, RUN_FPS),
    }
}

/// Twice the mechanical energy of a jump per unit of mass: squared speed plus
/// twice the height above ground times the magnitude of gravity. Each step of
/// the integration below lowers it by `(gravity * dt)^2`.
pub open spec fn energy(j: Jump, y: int) -> int {
    j.velocity * j.velocity - 2 * j.gravity * (y - j.ground_y)
}

impl Jump {
    pub open spec fn wf(self) -> bool {
        &&& 0 < self.initial_speed <= MAX_JUMP_SPEED
        &&& -MAX_GRAVITY <= self.gravity < 0
        &&& in_coord_range(self.ground_y as int)
    }
}

impl Player {
    /// Constants in range; grounded and still while running; never below
    /// ground and with no more energy than at take-off otherwise.
    pub open spec fn wf(self) -> bool {
        &&& self.jump.wf()
        &&& in_coord_range(self.x as int)
        &&& self.animation.wf()
        &&& self.state == PlayerState::Running ==> self.y == self.jump.ground_y && self.jump.velocity == 0
        &&& self.y >= self.jump.ground_y
        &&& energy(self.jump, self.y as int) <= self.jump.initial_speed * self.jump.initial_speed
    }

    /// Standing on the ground at rest, running.
    pub open spec fn grounded(self) -> bool {
        &&& self.state == PlayerState::Running
        &&& self.jump.velocity == 0
        &&& self.y == self.jump.ground_y
    }

    /// Back on the ground at rest, running, showing the running sheet.
    pub open spec fn restarted(self) -> Player {
        Player {
            y: self.jump.ground_y,
            state: PlayerState::Running,
            jump: Jump { velocity: 0, ..self.jump },
            sheet: PlayerState::Running,
            animation: sheet_clock(PlayerState::Running),
            ..self
        }
    }

    /// After an activation: a running player at rest takes off.
    pub open spec fn triggered(self) -> Player {
        if self.state == PlayerState::Running && self.jump.velocity == 0 {
            Player {
                state: PlayerState::Jumping,
                jump: Jump { velocity: self.jump.initial_speed, ..self.jump },
                ..self
            }
        } else {
            self
        }
    }

    /// One frame of jump integration (explicit update of speed, then of
    /// height with the new speed), with the sprite frame chosen by direction
    /// and the landing check.
    pub open spec fn jump_step(self, dt_ms: int) -> Player {
        if self.state == PlayerState::Jumping {
            let dt = clamp_frame(dt_ms);
            let v = self.jump.velocity + self.jump.gravity * dt;
            let y = self.y + v * dt;
            let index: usize = if v > 0 { 0 } else { 1 };
            let animation = AnimationConfig { index, ..self.animation };
            if y <= self.jump.ground_y {
                Player {
                    y: self.jump.ground_y,
                    state: PlayerState::Running,
                    jump: Jump { velocity: 0, ..self.jump },
                    animation,
                    ..self
                }
            } else {
                Player { y: y as i64, jump: Jump { velocity: v as i64, ..self.jump }, animation, ..self }
            }
        } else {
            self
        }
    }

    /// The sprite after a frame of `dt_ms`: the sheet follows the state,
    /// restarting its clock on a change, and only the running sheet cycles.
    pub open spec fn animated(self, dt_ms: int) -> Player {
        let switched = if self.sheet != self.state {
            Player { sheet: self.state, animation: sheet_clock(self.state), ..self }
        } else {
            self
        };
        if self.state == PlayerState::Running {
            Player { animation: switched.animation.ticked(dt_ms), ..switched }
        } else {
            switched
        }
    }

    /// A running player at `x` on the ground at `ground_y`.
    pub fn new(x: i64, ground_y: i64, gravity: i64, initial_speed: i64) -> (r: Player)
        requires
            in_coord_range(x as int),
            in_coord_range(ground_y as int),
            -MAX_GRAVITY <= gravity < 0,
            0 < initial_speed <= MAX_JUMP_SPEED,
        ensures
            r.wf(),
            r.grounded(),
            r.x == x,
            r.jump == (Jump { velocity: 0, gravity, ground_y, initial_speed }),
            r.sheet == PlayerState::Running,
            r.animation == sheet_clock(PlayerState::Running),
    {
        let r = Player {
            x,
            y: ground_y,
            state: PlayerState::Running,
            jump: Jump { velocity: 0, gravity, ground_y, initial_speed },
            sheet: PlayerState::Running,
            animation: make_sheet_clock(PlayerState::Running),
        };
        assert(energy(r.jump, r.y as int) == 0);
        assert(initial_speed * initial_speed >= 0) by (nonlinear_arith);
        r
    }

    /// Takes off with the initial jump speed if running and at rest.
    pub fn trigger_jump(&mut self)
        requires
            old(self).wf(),
        ensures
            *final(self) == old(self).triggered(),
            final(self).wf(),
    {
        if self.state == PlayerState::Running && self.jump.velocity == 0 {
            self.state = PlayerState::Jumping;
            self.jump.velocity = self.jump.initial_speed;
            let ghost j = self.jump;
            assert(energy(j, self.y as int) == j.initial_speed * j.initial_speed) by (nonlinear_arith)
                requires self.y == j.ground_y, j.velocity == j.initial_speed,
                    energy(j, self.y as int) == j.velocity * j.velocity - 2 * j.gravity * (self.y - j.ground_y);
        }
    }

    /// Integrates one frame of a jump; lands on the ground when it reaches it.
    pub fn update_jump(&mut self, dt_ms: u32)
        requires
            old(self).wf(),
        ensures
            *final(self) == old(self).jump_step(dt_ms as int),
            final(self).wf(),
    {
        if self.state == PlayerState::Jumping {
            let dt: i64 = clamped_frame(dt_ms) as i64;
            let ghost p = *self;
            let v0 = self.jump.initial_speed;
            let g = self.jump.gravity;
            proof {
                lemma_jump_bounds(p.jump, p.y as int);
            }
            assert(-2_500_000_000 <= g * dt <= 0) by (nonlinear_arith)
                requires -MAX_GRAVITY <= g < 0, 0 <= dt <= 250;
            let v: i64 = self.jump.velocity + g * dt;
            assert(-3_500_000_000 <= v <= 3_500_000_000) by (nonlinear_arith)
                requires v == p.jump.velocity + g * dt, -MAX_JUMP_SPEED <= p.jump.velocity <= MAX_JUMP_SPEED,
                    -MAX_GRAVITY <= g < 0, 0 <= dt <= 250;
            assert(-1_000_000_000_000 <= v * dt <= 1_000_000_000_000) by (nonlinear_arith)
                requires -3_500_000_000 <= v <= 3_500_000_000, 0 <= dt <= 250;
            assert(v0 * v0 <= 1_000_000_000_000_000_000) by (nonlinear_arith)
                requires 0 < v0 <= MAX_JUMP_SPEED;
            let y: i64 = self.y + v * dt;
            self.animation.index = if v > 0 { 0 } else { 1 };
            if y <= self.jump.ground_y {
                self.y = self.jump.ground_y;
                self.jump.velocity = 0;
                self.state = PlayerState::Running;
                assert(v0 * v0 >= 0) by (nonlinear_arith);
                let ghost j = self.jump;
                assert(energy(j, self.y as int) == 0) by (nonlinear_arith)
                    requires self.y == j.ground_y, j.velocity == 0,
                        energy(j, self.y as int) == j.velocity * j.velocity - 2 * j.gravity * (self.y - j.ground_y);
            } else {
                self.y = y;
                self.jump.velocity = v;
                proof {
                    lemma_energy_step(p.jump, p.y as int, dt as int);
                    assert((g * dt) * (g * dt) >= 0) by (nonlinear_arith);
                    assert(energy(self.jump, self.y as int) == v * v - 2 * g * (y - p.jump.ground_y));
                }
            }
        }
    }

    /// Ends the run: no further motion is integrated.
    pub fn kill(&mut self)
        requires
            old(self).wf(),
        ensures
            *final(self) == (Player { state: PlayerState::Dead, ..*old(self) }),
            final(self).wf(),
    {
        self.state = PlayerState::Dead;
    }

    /// Back on the ground at rest, running, showing the running sheet.
    pub fn reset(&mut self)
        requires
            old(self).wf(),
        ensures
            *final(self) == old(self).restarted(),
            final(self).wf(),
            final(self).grounded(),
    {
        *self = Player::new(self.x, self.jump.ground_y, self.jump.gravity, self.jump.initial_speed);
    }

    /// Shows the sprite sheet of the current state and advances its clock.
    pub fn animate(&mut self, dt_ms: u32)
        requires
            old(self).wf(),
        ensures
            *final(self) == old(self).animated(dt_ms as int),
            final(self).wf(),
    {
        if self.sheet != self.state {
            self.sheet = self.state;
            self.animation = make_sheet_clock(self.state);
        }
        if self.state == PlayerState::Running {
            self.animation.tick(dt_ms);
        }
    }
}

/// While above ground with no more energy than at take-off, speed and height
/// stay within what the take-off speed allows.
proof fn lemma_jump_bounds(j: Jump, y: int)
    requires
        j.wf(),
        y >= j.ground_y,
        energy(j, y) <= j.initial_speed * j.initial_speed,
    ensures
        -j.initial_speed <= j.velocity <= j.initial_speed,
        y - j.ground_y <= j.initial_speed * j.initial_speed,
{
    let s = j.initial_speed as int;
    let v = j.velocity as int;
    let h = y - j.ground_y;
    let g = j.gravity as int;
    assert(energy(j, y) == v * v - 2 * g * h);
    assert(v * v <= s * s && h <= s * s) by (nonlinear_arith)
        requires v * v - 2 * g * h <= s * s, g <= -1, h >= 0;
    assert(-s <= v <= s) by (nonlinear_arith)
        requires v * v <= s * s, s > 0;
}

/// One integration step lowers the energy by `(gravity * dt)^2`.
proof fn lemma_energy_step(j: Jump, y: int, dt: int)
    ensures
        ({
            let v = j.velocity + j.gravity * dt;
            let y1 = y + v * dt;
            v * v - 2 * j.gravity * (y1 - j.ground_y) == energy(j, y) - (j.gravity * dt) * (j.gravity * dt)
        }),
{
    let g = j.gravity as int;
    let v0 = j.velocity as int;
    let v = v0 + g * dt;
    let y1 = y + v * dt;
    let gy = j.ground_y as int;
    assert(v * v - 2 * g * (y1 - gy) == v0 * v0 - 2 * g * (y - gy) - (g * dt) * (g * dt)) by (nonlinear_arith)
        requires v == v0 + g * dt, y1 == y + v * dt;
}


/// The player after `n` frames of `dt_ms` each.
pub open spec fn jump_steps(p: Player, dt_ms: int, n: nat) -> Player
    decreases n,
{
    if n == 0 {
        p
    } else {
        jump_steps(p.jump_step(dt_ms), dt_ms, (n - 1) as nat)
    }
}

/// Frames of `dt_ms` bring `p` back to the ground after exactly `n` of them,
/// the player staying in the air before.
pub open spec fn lands_after(p: Player, dt_ms: int, n: nat) -> bool {
    &&& n > 0
    &&& jump_steps(p, dt_ms, n).grounded()
    &&& forall|k: nat| 0 < k < n ==> (#[trigger] jump_steps(p, dt_ms, k)).state == PlayerState::Jumping
}

proof fn lemma_airborne_lands(p: Player, dt_ms: int)
    requires
        p.wf(),
        p.state == PlayerState::Jumping,
        dt_ms > 0,
    ensures
        exists|n: nat| lands_after(p, dt_ms, n),
    decreases energy(p.jump, p.y as int),
{
    let q = p.jump_step(dt_ms);
    let dt = clamp_frame(dt_ms);
    let g = p.jump.gravity as int;
    assert(jump_steps(q, dt_ms, 0) == q);
    assert(jump_steps(p, dt_ms, 1) == q);
    if q.state == PlayerState::Running {
        assert(lands_after(p, dt_ms, 1));
    } else {
        lemma_airborne_step(p, dt_ms);
        assert((g * dt) * (g * dt) >= 1) by (nonlinear_arith)
            requires g <= -1, dt >= 1;
        assert(energy(q.jump, q.y as int) >= 0) by (nonlinear_arith)
            requires q.y >= q.jump.ground_y, q.jump.gravity < 0,
                energy(q.jump, q.y as int) == q.jump.velocity * q.jump.velocity - 2 * q.jump.gravity * (q.y - q.jump.ground_y);
        lemma_airborne_lands(q, dt_ms);
        let m = choose|m: nat| lands_after(q, dt_ms, m);
        assert(jump_steps(p, dt_ms, m + 1) == jump_steps(q, dt_ms, m));
        assert forall|k: nat| 0 < k < m + 1 implies (#[trigger] jump_steps(p, dt_ms, k)).state == PlayerState::Jumping by {
            assert(jump_steps(p, dt_ms, k) == jump_steps(q, dt_ms, (k - 1) as nat));
            if k > 1 {
                assert(jump_steps(q, dt_ms, (k - 1) as nat).state == PlayerState::Jumping);
            }
        }
        assert(lands_after(p, dt_ms, m + 1));
    }
}

/// A frame in the air that does not land keeps the player well formed and
/// lowers its vertical speed by `|gravity| * dt`.
proof fn lemma_airborne_step(p: Player, dt_ms: int)
    requires
        p.wf(),
        p.state == PlayerState::Jumping,
        dt_ms > 0,
        p.jump_step(dt_ms).state == PlayerState::Jumping,
    ensures
        p.jump_step(dt_ms).wf(),
        p.jump_step(dt_ms).jump == (Jump { velocity: (p.jump.velocity + p.jump.gravity * clamp_frame(dt_ms)) as i64, ..p.jump }),
        p.jump_step(dt_ms).jump.velocity == p.jump.velocity + p.jump.gravity * clamp_frame(dt_ms),
        energy(p.jump_step(dt_ms).jump, p.jump_step(dt_ms).y as int) == energy(p.jump, p.y as int)
            - (p.jump.gravity * clamp_frame(dt_ms)) * (p.jump.gravity * clamp_frame(dt_ms)),
{
    let q = p.jump_step(dt_ms);
    let dt = clamp_frame(dt_ms);
    let g = p.jump.gravity as int;
    lemma_jump_bounds(p.jump, p.y as int);
    let v = p.jump.velocity + g * dt;
    assert(-3_500_000_000 <= v <= 3_500_000_000) by (nonlinear_arith)
        requires -MAX_JUMP_SPEED <= p.jump.velocity <= MAX_JUMP_SPEED, -MAX_GRAVITY <= g < 0,
            0 < dt <= 250, v == p.jump.velocity + g * dt;
    assert(-1_000_000_000_000 <= v * dt <= 1_000_000_000_000) by (nonlinear_arith)
        requires -3_500_000_000 <= v <= 3_500_000_000, 0 <= dt <= 250;
    let s0 = p.jump.initial_speed as int;
    assert(s0 * s0 <= 1_000_000_000_000_000_000) by (nonlinear_arith)
        requires 0 < s0 <= MAX_JUMP_SPEED;
    assert(q.y == p.y + v * dt);
    assert(q.jump.velocity == v);
    lemma_energy_step(p.jump, p.y as int, dt);
    assert((g * dt) * (g * dt) >= 1) by (nonlinear_arith)
        requires g <= -1, dt >= 1;
    assert(energy(q.jump, q.y as int) == energy(p.jump, p.y as int) - (g * dt) * (g * dt));
}

/// After `k` frames in the air the player is well formed and its vertical
/// speed has dropped by `k * |gravity| * dt`.
proof fn lemma_flight_speed(q: Player, dt_ms: int, k: nat)
    requires
        q.wf(),
        q.state == PlayerState::Jumping,
        dt_ms > 0,
        forall|j: nat| 0 < j <= k ==> (#[trigger] jump_steps(q, dt_ms, j)).state == PlayerState::Jumping,
    ensures
        jump_steps(q, dt_ms, k).wf(),
        jump_steps(q, dt_ms, k).jump.initial_speed == q.jump.initial_speed,
        jump_steps(q, dt_ms, k).jump.gravity == q.jump.gravity,
        jump_steps(q, dt_ms, k).jump.velocity == q.jump.velocity + k * q.jump.gravity * clamp_frame(dt_ms),
    decreases k,
{
    let dt = clamp_frame(dt_ms);
    if k == 0 {
        assert(k * q.jump.gravity * dt == 0) by (nonlinear_arith)
            requires k == 0;
    } else {
        let q1 = q.jump_step(dt_ms);
        assert(jump_steps(q1, dt_ms, 0) == q1);
        assert(jump_steps(q, dt_ms, 1) == q1);
        lemma_airborne_step(q, dt_ms);
        assert forall|j: nat| 0 < j <= (k - 1) as nat implies (#[trigger] jump_steps(q1, dt_ms, j)).state
            == PlayerState::Jumping by {
            assert(jump_steps(q, dt_ms, j + 1) == jump_steps(q1, dt_ms, j));
        }
        lemma_flight_speed(q1, dt_ms, (k - 1) as nat);
        assert(jump_steps(q, dt_ms, k) == jump_steps(q1, dt_ms, (k - 1) as nat));
        assert(q.jump.velocity + q.jump.gravity * dt + (k - 1) * q.jump.gravity * dt
            == q.jump.velocity + k * q.jump.gravity * dt) by (nonlinear_arith);
    }
}

/// A jump always ends, and soon: from the ground at rest, after an
/// activation, frames of a fixed positive length bring the player back to
/// the ground, running, at rest and exactly at ground height, within
/// `2 * initial_speed / (|gravity| * dt) + 1` frames, staying in the air
/// until then.
pub proof fn lemma_jump_closure(p: Player, dt_ms: u32)
    requires
        p.wf(),
        p.grounded(),
        dt_ms > 0,
    ensures
        exists|n: nat|
            #[trigger] lands_after(p.triggered(), dt_ms as int, n)
                && n <= 2 * p.jump.initial_speed / (-p.jump.gravity * clamp_frame(dt_ms as int)) + 1,
{
    let q = p.triggered();
    let dt = clamp_frame(dt_ms as int);
    assert(energy(q.jump, q.y as int) == q.jump.initial_speed * q.jump.initial_speed) by (nonlinear_arith)
        requires q.y == q.jump.ground_y, q.jump.velocity == q.jump.initial_speed,
            energy(q.jump, q.y as int) == q.jump.velocity * q.jump.velocity - 2 * q.jump.gravity * (q.y - q.jump.ground_y);
    lemma_airborne_lands(q, dt_ms as int);
    let n = choose|n: nat| lands_after(q, dt_ms as int, n);
    let s0 = p.jump.initial_speed as int;
    let m = -p.jump.gravity * dt;
    assert(m >= 1) by (nonlinear_arith)
        requires m == -p.jump.gravity * dt, p.jump.gravity <= -1, dt >= 1;
    assert(2 * s0 / m >= 0) by (nonlinear_arith)
        requires s0 > 0, m >= 1;
    if n >= 2 {
        let k = (n - 1) as nat;
        lemma_flight_speed(q, dt_ms as int, k);
        let r = jump_steps(q, dt_ms as int, k);
        lemma_jump_bounds(r.jump, r.y as int);
        assert(s0 - k * m >= -s0) by (nonlinear_arith)
            requires r.jump.velocity == s0 + k * p.jump.gravity * dt, r.jump.velocity >= -s0,
                m == -p.jump.gravity * dt;
        assert(k <= 2 * s0 / m) by (nonlinear_arith)
            requires k * m <= 2 * s0, m >= 1, k >= 0;
    }
    assert(lands_after(q, dt_ms as int, n) && n <= 2 * s0 / m + 1);
}

} // verus!
