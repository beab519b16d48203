use vstd::prelude::*;
use rand::rngs::StdRng;
use crate::lane::{
    advanced, marker_label, EntityKind, covered, in_coord_range, lane_wf, lemma_bounded_population, lemma_lane_coverage, on_grid, on_or_right_of, rightmost, spawned,
    ticked_lane, touches, Lane, LaneConfig, LaneDraw, LaneEntity, LaneRole, Spacing, MAX_SHIFT,
};
use crate::player::{clamp_frame, clamped_frame, Player, PlayerState, MAX_GRAVITY, MAX_JUMP_SPEED};
use crate::random::{random_between, seeded_rng};
use crate::session::{frame_distance, input_event, GameData, GameEvent, GameState, INITIAL_VELOCITY, MICROS_PER_UNIT};

verus! {

/// One world unit, in millionths of a unit.
pub const UNIT: i64 = 1_000_000;

/// Half the viewport width, in units.
pub const VIEW_HALF_WIDTH: i64 = 600;

/// Width of a ground tile and of the sprites, in units.
pub const TILE_WIDTH: i64 = 120;

/// Height at which the player and walking obstacles stand, in units.
pub const GROUND_LEVEL: i64 = -136;

/// How far above ground level flying obstacles stand, in units.
pub const FLYING_HEIGHT: i64 = 150;

/// Horizontal position of the player, in units.
pub const PLAYER_X: i64 = -360;

/// Gravity, in units per second squared.
pub const GRAVITY: i64 = -980;

/// Take-off speed, in thousandths of a unit per second.
pub const JUMP_SPEED: i64 = 500_000;

/// Contact distance between the player and an obstacle, in units.
pub const COLLISION_RADIUS: i64 = 60;

/// Smallest and largest gap between obstacles, in units.
pub const OBSTACLE_MIN_GAP: i64 = 200;
pub const OBSTACLE_MAX_GAP: i64 = 500;

/// Where the first obstacle of a run stands, in units.
pub const OBSTACLE_INITIAL_X: i64 = 800;

/// World distance between two distance markers, in units.
pub const MARKER_SPACING: i64 = 1000;

/// Every tunable constant of the game.
#[derive(Clone, Copy, Debug, PartialEq, Eq, Structural)]
pub struct Settings {
    pub ground: LaneConfig,
    pub obstacles: LaneConfig,
    pub markers: LaneConfig,
    /// Horizontal position of the player, in millionths of a unit.
    pub player_x: i64,
    /// Height of the player at rest, in millionths of a unit.
    pub ground_y: i64,
    /// In units per second squared; negative.
    pub gravity: i64,
    /// Take-off speed, in thousandths of a unit per second.
    pub jump_speed: i64,
    /// In millionths of a unit.
    pub collision_radius: i64,
    /// Scroll speed at the start of a run, in thousandths of a unit per second.
    pub initial_velocity: u32,
}

/// The random choices of one frame, one spawn per lane.
#[derive(Clone, Copy, Debug, PartialEq, Eq, Structural)]
pub struct FrameDraws {
    pub ground: LaneDraw,
    pub obstacles: LaneDraw,
    pub markers: LaneDraw,
}

impl Settings {
    pub open spec fn wf(self) -> bool {
        &&& self.ground.wf()
        &&& self.obstacles.wf()
        &&& self.markers.wf()
        &&& self.ground.role == LaneRole::Ground
        &&& self.obstacles.role == LaneRole::Obstacle
        &&& self.markers.role == LaneRole::Marker
        &&& in_coord_range(self.player_x as int)
        &&& in_coord_range(self.ground_y as int)
        &&& -MAX_GRAVITY <= self.gravity < 0
        &&& 0 < self.jump_speed <= MAX_JUMP_SPEED
        &&& 0 <= self.collision_radius
    }

    pub open spec fn draws_fit(self, d: FrameDraws) -> bool {
        &&& self.ground.draw_fits(d.ground)
        &&& self.obstacles.draw_fits(d.obstacles)
        &&& self.markers.draw_fits(d.markers)
    }

    /// The game's standard tuning: a 1200-unit viewport, 120-unit tiles,
    /// obstacles 200 to 500 units apart, a marker every 1000 units.
    pub fn standard() -> (r: Settings)
        ensures
            r.wf(),
            r.ground == (LaneConfig {
                role: LaneRole::Ground,
                spacing: Spacing::Fixed((TILE_WIDTH * UNIT) as i64),
                view_left: (-VIEW_HALF_WIDTH * UNIT) as i64,
                view_right: (VIEW_HALF_WIDTH * UNIT) as i64,
                half_width: (TILE_WIDTH / 2 * UNIT) as i64,
                initial_x: (-VIEW_HALF_WIDTH * UNIT) as i64,
                base_y: (GROUND_LEVEL * UNIT) as i64,
                raised_y: (GROUND_LEVEL * UNIT) as i64,
                label_origin: (PLAYER_X * UNIT) as i64,
                label_unit: (MARKER_SPACING * UNIT) as i64,
            }),
            r.obstacles == (LaneConfig {
                role: LaneRole::Obstacle,
                spacing: Spacing::Uniform {
                    min_gap: (OBSTACLE_MIN_GAP * UNIT) as i64,
                    max_gap: (OBSTACLE_MAX_GAP * UNIT) as i64,
                },
                initial_x: (OBSTACLE_INITIAL_X * UNIT) as i64,
                raised_y: ((GROUND_LEVEL + FLYING_HEIGHT) * UNIT) as i64,
                ..r.ground
            }),
            r.markers == (LaneConfig {
                role: LaneRole::Marker,
                spacing: Spacing::Fixed((MARKER_SPACING * UNIT) as i64),
                initial_x: ((PLAYER_X + MARKER_SPACING) * UNIT) as i64,
                ..r.ground
            }),
            r.player_x == PLAYER_X * UNIT,
            r.ground_y == GROUND_LEVEL * UNIT,
            r.gravity == GRAVITY,
            r.jump_speed == JUMP_SPEED,
            r.collision_radius == COLLISION_RADIUS * UNIT,
            r.initial_velocity == INITIAL_VELOCITY,
    {
        let view_left = -VIEW_HALF_WIDTH * UNIT;
        let view_right = VIEW_HALF_WIDTH * UNIT;
        let half_width = TILE_WIDTH / 2 * UNIT;
        let ground_y = GROUND_LEVEL * UNIT;
        let player_x = PLAYER_X * UNIT;
        let ground = LaneConfig {
            role: LaneRole::Ground,
            spacing: Spacing::Fixed(TILE_WIDTH * UNIT),
            view_left,
            view_right,
            half_width,
            initial_x: view_left,
            base_y: ground_y,
            raised_y: ground_y,
            label_origin: player_x,
            label_unit: MARKER_SPACING * UNIT,
        };
        let obstacles = LaneConfig {
            role: LaneRole::Obstacle,
            spacing: Spacing::Uniform { min_gap: OBSTACLE_MIN_GAP * UNIT, max_gap: OBSTACLE_MAX_GAP * UNIT },
            initial_x: OBSTACLE_INITIAL_X * UNIT,
            raised_y: ground_y + FLYING_HEIGHT * UNIT,
            ..ground
        };
        let markers = LaneConfig {
            role: LaneRole::Marker,
            spacing: Spacing::Fixed(MARKER_SPACING * UNIT),
            initial_x: player_x + MARKER_SPACING * UNIT,
            ..ground
        };
        Settings {
            ground,
            obstacles,
            markers,
            player_x,
            ground_y,
            gravity: GRAVITY,
            jump_speed: JUMP_SPEED,
            collision_radius: COLLISION_RADIUS * UNIT,
            initial_velocity: INITIAL_VELOCITY,
        }
    }
}

/// `s` holds just the first entity that `d` gives in a lane configured by `cfg`.
pub open spec fn first_entity_from(s: Seq<LaneEntity>, cfg: LaneConfig, d: LaneDraw) -> bool {
    cfg.draw_fits(d) && s == seq![spawned(cfg, None, d, 0)]
}

/// Draws the random choices of one spawn for a lane: a kind index, uniform
/// over the lane's kind set, and for uniform spacing a gap.
pub fn draw_spawn(rng: &mut StdRng, cfg: &LaneConfig) -> (r: LaneDraw)
    requires
        cfg.wf(),
    ensures
        cfg.draw_fits(r),
{
    let count: i64 = match cfg.role {
        LaneRole::Marker => 1,
        _ => 3,
    };
    let kind_index = random_between(rng, 0, count - 1) as u64;
    let gap = match cfg.spacing {
        Spacing::Fixed(s) => s,
        Spacing::Uniform { min_gap, max_gap } => random_between(rng, min_gap, max_gap),
    };
    LaneDraw { kind_index, gap }
}

/// Draws the random choices of one frame.
pub fn draw_frame(rng: &mut StdRng, settings: &Settings) -> (r: FrameDraws)
    requires
        settings.wf(),
    ensures
        settings.draws_fit(r),
{
    let ground = draw_spawn(rng, &settings.ground);
    let obstacles = draw_spawn(rng, &settings.obstacles);
    let markers = draw_spawn(rng, &settings.markers);
    FrameDraws { ground, obstacles, markers }
}

/// The whole simulation: session, player, and the three lanes.
pub struct Model {
    pub settings: Settings,
    pub session: GameData,
    pub player: Player,
    pub ground: Lane,
    pub obstacles: Lane,
    pub markers: Lane,
    pub rng: StdRng,
}

/// A lane after the input phase: back to its single first entity on a reset.
pub open spec fn lane_after_input(s: Seq<LaneEntity>, cfg: LaneConfig, reset: bool, draw: LaneDraw) -> Seq<LaneEntity> {
    if reset {
        seq![spawned(cfg, None, draw, 0)]
    } else {
        s
    }
}

/// A lane after the movement phase: a frame of the conveyor while running;
/// otherwise only the despawn rule applies.
pub open spec fn lane_after_move(
    s: Seq<LaneEntity>,
    cfg: LaneConfig,
    running: bool,
    shift: int,
    draw: LaneDraw,
    score: int,
) -> Seq<LaneEntity> {
    if running {
        advanced(s, cfg, shift, draw, score)
    } else {
        s.filter(on_or_right_of(cfg.despawn_x()))
    }
}

impl Model {
    /// Settings in range, every part well formed, the player built from the settings.
    pub open spec fn wf(self) -> bool {
        &&& self.settings.wf()
        &&& self.player.wf()
        &&& self.player.x == self.settings.player_x
        &&& self.player.jump.gravity == self.settings.gravity
        &&& self.player.jump.ground_y == self.settings.ground_y
        &&& self.player.jump.initial_speed == self.settings.jump_speed
        &&& lane_wf(self.ground@, self.settings.ground)
        &&& lane_wf(self.obstacles@, self.settings.obstacles)
        &&& lane_wf(self.markers@, self.settings.markers)
    }

    pub open spec fn event(self, activate: bool) -> Option<GameEvent> {
        input_event(self.session.game_state, activate)
    }

    pub open spec fn resets(self, activate: bool) -> bool {
        self.event(activate) == Some(GameEvent::GameReset)
    }

    /// The session after the input phase.
    pub open spec fn session_after_input(self, activate: bool) -> GameData {
        match self.event(activate) {
            Some(e) => self.session.handled(e, self.settings.initial_velocity),
            None => self.session,
        }
    }

    /// The player after the input phase: a jump, or a reset.
    pub open spec fn player_after_input(self, activate: bool) -> Player {
        match self.event(activate) {
            Some(GameEvent::PlayerJump) => self.player.triggered(),
            Some(GameEvent::GameReset) => self.player.restarted(),
            _ => self.player,
        }
    }

    pub open spec fn running_after_input(self, activate: bool) -> bool {
        self.session_after_input(activate).game_state == GameState::Running
    }

    /// How far the lanes scroll this frame.
    pub open spec fn shift(self, activate: bool, dt_ms: int) -> int {
        frame_distance(self.session_after_input(activate).velocity as int, dt_ms)
    }

    /// The session after scoring.
    pub open spec fn session_after_move(self, activate: bool, dt_ms: int) -> GameData {
        self.session_after_input(activate).accrued(dt_ms)
    }

    pub open spec fn next_ground(self, activate: bool, dt_ms: int, d: FrameDraws) -> Seq<LaneEntity> {
        lane_after_move(
            self.ground@,
            self.settings.ground,
            self.running_after_input(activate),
            self.shift(activate, dt_ms),
            d.ground,
            self.session_after_move(activate, dt_ms).current_score as int,
        )
    }

    /// The obstacle lane after the movement phase, before its clocks run.
    pub open spec fn moved_obstacles(self, activate: bool, dt_ms: int, d: FrameDraws) -> Seq<LaneEntity> {
        lane_after_move(
            lane_after_input(self.obstacles@, self.settings.obstacles, self.resets(activate), d.obstacles),
            self.settings.obstacles,
            self.running_after_input(activate),
            self.shift(activate, dt_ms),
            d.obstacles,
            self.session_after_move(activate, dt_ms).current_score as int,
        )
    }

    pub open spec fn next_obstacles(self, activate: bool, dt_ms: int, d: FrameDraws) -> Seq<LaneEntity> {
        ticked_lane(self.moved_obstacles(activate, dt_ms, d), dt_ms)
    }

    pub open spec fn next_markers(self, activate: bool, dt_ms: int, d: FrameDraws) -> Seq<LaneEntity> {
        lane_after_move(
            lane_after_input(self.markers@, self.settings.markers, self.resets(activate), d.markers),
            self.settings.markers,
            self.running_after_input(activate),
            self.shift(activate, dt_ms),
            d.markers,
            self.session_after_move(activate, dt_ms).current_score as int,
        )
    }

    /// The player after its jump integration.
    pub open spec fn moved_player(self, activate: bool, dt_ms: int) -> Player {
        self.player_after_input(activate).jump_step(dt_ms)
    }

    /// Whether the running player touches an obstacle this frame.
    pub open spec fn contact(self, activate: bool, dt_ms: int, d: FrameDraws) -> bool {
        let p = self.moved_player(activate, dt_ms);
        &&& self.running_after_input(activate)
        &&& touches(self.moved_obstacles(activate, dt_ms, d), p.x as int, p.y as int, self.settings.collision_radius as int)
    }

    pub open spec fn next_session(self, activate: bool, dt_ms: int, d: FrameDraws) -> GameData {
        let s = self.session_after_move(activate, dt_ms);
        if self.contact(activate, dt_ms, d) {
            s.handled(GameEvent::GameEnd, self.settings.initial_velocity)
        } else {
            s
        }
    }

    /// `next` is this model one frame later, made with the random choices `d`.
    pub open spec fn steps_to(self, next: Model, activate: bool, dt_ms: int, d: FrameDraws) -> bool {
        &&& next.session == self.next_session(activate, dt_ms, d)
        &&& next.player == self.next_player(activate, dt_ms, d)
        &&& next.ground@ == self.next_ground(activate, dt_ms, d)
        &&& next.obstacles@ == self.next_obstacles(activate, dt_ms, d)
        &&& next.markers@ == self.next_markers(activate, dt_ms, d)
    }

    pub open spec fn next_player(self, activate: bool, dt_ms: int, d: FrameDraws) -> Player {
        let p = self.moved_player(activate, dt_ms);
        let q = if self.contact(activate, dt_ms, d) {
            Player { state: PlayerState::Dead, ..p }
        } else {
            p
        };
        q.animated(dt_ms)
    }
}


/// Distance scrolled at `velocity` in a frame of `dt_ms`, in millionths of a unit.
fn shift_of(velocity: u32, dt_ms: u32) -> (r: i64)
    ensures
        r == frame_distance(velocity as int, dt_ms as int),
        0 <= r <= MAX_SHIFT,
{
    let dt = clamped_frame(dt_ms);
    assert(velocity as i64 * dt as i64 <= 0xffff_ffff * 250) by (nonlinear_arith)
        requires velocity <= 0xffff_ffff, dt <= 250;
    assert(velocity as i64 * dt as i64 >= 0) by (nonlinear_arith)
        requires velocity >= 0, dt >= 0;
    velocity as i64 * dt as i64
}

/// Spawns entities until the rightmost stands at or right of the spawn
/// threshold, so that the lane spans the viewport. With fixed spacing a lane
/// laid out on a grid from its initial position stays on that grid.
fn fill_lane(lane: &mut Lane, rng: &mut StdRng, cfg: &LaneConfig)
    requires
        cfg.wf(),
        lane_wf(old(lane)@, *cfg),
        old(lane)@.len() > 0,
    ensures
        lane_wf(final(lane)@, *cfg),
        covered(final(lane)@, *cfg),
        final(lane)@.len() >= old(lane)@.len(),
        forall|w: i64| cfg.spacing == Spacing::Fixed(w) && on_grid(old(lane)@, cfg.initial_x as int, w as int)
            ==> #[trigger] on_grid(final(lane)@, cfg.initial_x as int, w as int),
{
    let ghost start = lane@;
    while lane.needs_spawn(cfg)
        invariant
            cfg.wf(),
            lane_wf(lane@, *cfg),
            lane@.len() >= start.len() > 0,
            forall|w: i64| cfg.spacing == Spacing::Fixed(w) && on_grid(start, cfg.initial_x as int, w as int)
                ==> #[trigger] on_grid(lane@, cfg.initial_x as int, w as int),
        decreases cfg.x_limit() - lane@.last().x,
    {
        let d = draw_spawn(rng, cfg);
        let ghost prev = lane@;
        lane.spawn(cfg, d, 0);
        proof {
            let e = spawned(*cfg, rightmost(prev), d, 0);
            assert(lane@.last() == e);
            assert(e.x >= prev.last().x + cfg.min_step());
            assert forall|w: i64| cfg.spacing == Spacing::Fixed(w) && on_grid(start, cfg.initial_x as int, w as int)
                implies #[trigger] on_grid(lane@, cfg.initial_x as int, w as int) by {
                let n = prev.len();
                assert(on_grid(prev, cfg.initial_x as int, w as int));
                assert(prev[n - 1].x == cfg.initial_x + (n - 1) * w);
                assert(e.x == prev[n - 1].x + w);
                assert(cfg.initial_x + (n - 1) * w + w == cfg.initial_x + n * w) by (nonlinear_arith);
                assert forall|i: int| 0 <= i < lane@.len() implies #[trigger] lane@[i].x == cfg.initial_x + i * w by {
                    if i < n {
                        assert(lane@[i] == prev[i]);
                    }
                }
            }
        }
    }
}

impl Model {
    /// A model waiting for a start, with the ground laid across the viewport
    /// and one obstacle and one marker at their initial positions. `seed`
    /// fixes every random choice of the game.
    pub fn new(settings: Settings, seed: u64) -> (r: Model)
        requires
            settings.wf(),
        ensures
            r.wf(),
            r.settings == settings,
            r.session == GameData::fresh(0, settings.initial_velocity),
            r.player.grounded(),
            covered(r.ground@, settings.ground),
            r.ground@.len() >= 2 ==> r.ground@[r.ground@.len() - 2].x < settings.ground.spawn_threshold(),
            forall|w: i64| settings.ground.spacing == Spacing::Fixed(w)
                ==> #[trigger] on_grid(r.ground@, settings.ground.initial_x as int, w as int),
            exists|d: LaneDraw| settings.obstacles.draw_fits(d)
                && r.obstacles@ == seq![#[trigger] spawned(settings.obstacles, None, d, 0)],
            exists|d: LaneDraw| settings.markers.draw_fits(d)
                && r.markers@ == seq![#[trigger] spawned(settings.markers, None, d, 0)],
            r.obstacles@.len() == 1,
            r.obstacles@[0].x == settings.obstacles.initial_x,
            r.markers@.len() == 1,
            r.markers@[0].x == settings.markers.initial_x,
    {
        let mut rng = seeded_rng(seed);
        let d = draw_spawn(&mut rng, &settings.ground);
        let mut ground = Lane::new(&settings.ground, d, 0);
        assert(forall|w: i64| settings.ground.spacing == Spacing::Fixed(w)
            ==> #[trigger] on_grid(ground@, settings.ground.initial_x as int, w as int)) by {
            assert forall|w: i64| settings.ground.spacing == Spacing::Fixed(w)
                implies #[trigger] on_grid(ground@, settings.ground.initial_x as int, w as int) by {
                assert(ground@.len() == 1);
                assert(0 * w == 0);
            }
        }
        fill_lane(&mut ground, &mut rng, &settings.ground);
        let d = draw_spawn(&mut rng, &settings.obstacles);
        let obstacles = Lane::new(&settings.obstacles, d, 0);
        let d2 = draw_spawn(&mut rng, &settings.markers);
        let markers = Lane::new(&settings.markers, d2, 0);
        assert(first_entity_from(obstacles@, settings.obstacles, d));
        assert(first_entity_from(markers@, settings.markers, d2));
        Model {
            settings,
            session: GameData::new(settings.initial_velocity),
            player: Player::new(settings.player_x, settings.ground_y, settings.gravity, settings.jump_speed),
            ground,
            obstacles,
            markers,
            rng,
        }
    }

    /// Resets the run: the session starts afresh keeping the last score as the
    /// previous one, the player is back on the ground, and the obstacle and
    /// marker lanes hold only their first entity at its initial position.
    ///
    /// The ground lane is left as it is: it already spans the viewport, and
    /// cutting it down to a single tile would open a visible gap.
    pub fn reset(&mut self, draws: FrameDraws)
        requires
            old(self).wf(),
            old(self).settings.draws_fit(draws),
        ensures
            final(self).wf(),
            final(self).settings == old(self).settings,
            final(self).session == GameData::fresh(old(self).session.current_score, old(self).settings.initial_velocity),
            final(self).session.current_score == 0,
            final(self).session.velocity == old(self).settings.initial_velocity,
            final(self).session.game_state == GameState::WaitingForStart,
            final(self).player == old(self).player.restarted(),
            final(self).ground@ == old(self).ground@,
            final(self).obstacles@ == seq![spawned(old(self).settings.obstacles, None, draws.obstacles, 0)],
            final(self).obstacles@[0].x == old(self).settings.obstacles.initial_x,
            final(self).markers@ == seq![spawned(old(self).settings.markers, None, draws.markers, 0)],
            final(self).markers@[0].x == old(self).settings.markers.initial_x,
    {
        let settings = self.settings;
        self.session.handle_model_reset(settings.initial_velocity);
        self.player.reset();
        self.obstacles.reset(&settings.obstacles, draws.obstacles, 0);
        self.markers.reset(&settings.markers, draws.markers, 0);
    }

    /// One frame of `dt_ms` milliseconds, with `activate` telling whether the
    /// activation input fired and `draws` holding the random choices.
    ///
    /// First the input is handled: it starts, jumps or resets according to
    /// the state. Then, while running, the score grows by the distance
    /// scrolled, every lane scrolls, spawns and despawns, and the player
    /// dies on contact with an obstacle; otherwise the lanes only despawn.
    /// Last, the sprite clocks run.
    pub fn step(&mut self, activate: bool, dt_ms: u32, draws: FrameDraws)
        requires
            old(self).wf(),
            old(self).settings.draws_fit(draws),
        ensures
            final(self).wf(),
            final(self).settings == old(self).settings,
            final(self).session == old(self).next_session(activate, dt_ms as int, draws),
            final(self).player == old(self).next_player(activate, dt_ms as int, draws),
            final(self).ground@ == old(self).next_ground(activate, dt_ms as int, draws),
            final(self).obstacles@ == old(self).next_obstacles(activate, dt_ms as int, draws),
            final(self).markers@ == old(self).next_markers(activate, dt_ms as int, draws),
    {
        let settings = self.settings;
        match self.session.handle_input(activate) {
            Some(GameEvent::PlayerJump) => self.player.trigger_jump(),
            Some(GameEvent::GameReset) => self.reset(draws),
            Some(e) => self.session.apply(e, settings.initial_velocity),
            None => {},
        }
        if self.session.game_state == GameState::Running {
            self.session.update_distance(dt_ms);
            let shift = shift_of(self.session.velocity, dt_ms);
            let score = self.session.current_score;
            self.ground.advance(&settings.ground, shift, draws.ground, score);
            self.obstacles.advance(&settings.obstacles, shift, draws.obstacles, score);
            self.markers.advance(&settings.markers, shift, draws.markers, score);
            self.player.update_jump(dt_ms);
            if self.obstacles.touches(self.player.x, self.player.y, settings.collision_radius) {
                self.session.apply(GameEvent::GameEnd, settings.initial_velocity);
                self.player.kill();
            }
        } else {
            self.ground.despawn(&settings.ground);
            self.obstacles.despawn(&settings.obstacles);
            self.markers.despawn(&settings.markers);
            self.player.update_jump(dt_ms);
        }
        self.player.animate(dt_ms);
        self.obstacles.tick_animations(&settings.obstacles, dt_ms);
    }

    /// One frame as `step` makes it, with the random choices drawn from the
    /// model's generator.
    pub fn frame(&mut self, activate: bool, dt_ms: u32)
        requires
            old(self).wf(),
        ensures
            final(self).wf(),
            final(self).settings == old(self).settings,
            exists|d: FrameDraws| old(self).settings.draws_fit(d) && #[trigger] old(self).steps_to(*final(self), activate, dt_ms as int, d),
    {
        let ghost before = *self;
        let settings = self.settings;
        let draws = draw_frame(&mut self.rng, &settings);
        let ghost drawn = *self;
        assert(drawn.next_session(activate, dt_ms as int, draws) == before.next_session(activate, dt_ms as int, draws));
        assert(drawn.next_player(activate, dt_ms as int, draws) == before.next_player(activate, dt_ms as int, draws));
        assert(drawn.next_ground(activate, dt_ms as int, draws) == before.next_ground(activate, dt_ms as int, draws));
        assert(drawn.next_obstacles(activate, dt_ms as int, draws) == before.next_obstacles(activate, dt_ms as int, draws));
        assert(drawn.next_markers(activate, dt_ms as int, draws) == before.next_markers(activate, dt_ms as int, draws));
        self.step(activate, dt_ms, draws);
        assert(before.steps_to(*self, activate, dt_ms as int, draws));
    }

    /// The score to display, in whole units.
    pub fn display_score(&self) -> (r: u64)
        ensures
            r == self.session.current_score / MICROS_PER_UNIT,
    {
        self.session.display_score()
    }
}

/// The score never decreases while running, and stays as it is in a frame
/// that starts waiting or dead without an activation. (An activation when
/// dead resets it to zero; one while waiting starts the run, which scores
/// in the same frame.)
pub proof fn lemma_score_monotone(m: Model, activate: bool, dt_ms: u32, d: FrameDraws)
    requires
        m.wf(),
    ensures
        m.session.game_state == GameState::Running
            ==> m.next_session(activate, dt_ms as int, d).current_score >= m.session.current_score,
        m.session.game_state != GameState::Running && !activate
            ==> m.next_session(activate, dt_ms as int, d).current_score == m.session.current_score,
{
    if m.session.game_state == GameState::Running {
        assert(frame_distance(m.session.velocity as int, dt_ms as int) >= 0) by (nonlinear_arith)
            requires m.session.velocity >= 0, dt_ms >= 0,
                frame_distance(m.session.velocity as int, dt_ms as int) == m.session.velocity * clamp_frame(dt_ms as int);
    }
}

/// No visible gap opens while running: in a frame that starts running and
/// scrolls no more than a lane's smallest spacing, a lane whose rightmost
/// entity stands at or right of its spawn threshold still has one there.
pub proof fn lemma_frame_coverage(m: Model, activate: bool, dt_ms: u32, d: FrameDraws)
    requires
        m.wf(),
        m.settings.draws_fit(d),
        m.session.game_state == GameState::Running,
    ensures
        covered(m.ground@, m.settings.ground) && m.shift(activate, dt_ms as int) <= m.settings.ground.min_step()
            ==> covered(m.next_ground(activate, dt_ms as int, d), m.settings.ground),
        covered(m.obstacles@, m.settings.obstacles) && m.shift(activate, dt_ms as int) <= m.settings.obstacles.min_step()
            ==> covered(m.next_obstacles(activate, dt_ms as int, d), m.settings.obstacles),
        covered(m.markers@, m.settings.markers) && m.shift(activate, dt_ms as int) <= m.settings.markers.min_step()
            ==> covered(m.next_markers(activate, dt_ms as int, d), m.settings.markers),
{
    let shift = m.shift(activate, dt_ms as int);
    let score = m.session_after_move(activate, dt_ms as int).current_score as int;
    assert(shift >= 0) by (nonlinear_arith)
        requires shift == m.session.velocity * clamp_frame(dt_ms as int), m.session.velocity >= 0, clamp_frame(dt_ms as int) >= 0;
    assert(m.session_after_input(activate) == m.session);
    if covered(m.ground@, m.settings.ground) && shift <= m.settings.ground.min_step() {
        lemma_lane_coverage(m.ground@, m.settings.ground, shift, d.ground, score);
    }
    if covered(m.obstacles@, m.settings.obstacles) && shift <= m.settings.obstacles.min_step() {
        lemma_lane_coverage(m.obstacles@, m.settings.obstacles, shift, d.obstacles, score);
        let moved = m.moved_obstacles(activate, dt_ms as int, d);
        let t = ticked_lane(moved, dt_ms as int);
        assert(t.last().x == moved.last().x);
    }
    if covered(m.markers@, m.settings.markers) && shift <= m.settings.markers.min_step() {
        lemma_lane_coverage(m.markers@, m.settings.markers, shift, d.markers, score);
    }
}

/// A reset frame restores the canonical start: an activation while dead
/// leaves the score at zero, the speed at its initial value and the game
/// waiting, the player grounded, and the obstacle and marker lanes holding
/// exactly their first entity at its initial position, the marker labelled
/// with its distance ahead of the player.
pub proof fn lemma_reset_frame(m: Model, dt_ms: u32, d: FrameDraws)
    requires
        m.wf(),
        m.settings.draws_fit(d),
        m.session.game_state == GameState::Dead,
    ensures
        m.next_session(true, dt_ms as int, d) == GameData::fresh(m.session.current_score, m.settings.initial_velocity),
        m.next_session(true, dt_ms as int, d).current_score == 0,
        m.next_session(true, dt_ms as int, d).velocity == m.settings.initial_velocity,
        m.next_session(true, dt_ms as int, d).game_state == GameState::WaitingForStart,
        m.next_player(true, dt_ms as int, d).grounded(),
        m.next_obstacles(true, dt_ms as int, d).len() == 1,
        m.next_obstacles(true, dt_ms as int, d)[0].x == m.settings.obstacles.initial_x,
        m.next_obstacles(true, dt_ms as int, d)[0].kind == spawned(m.settings.obstacles, None, d.obstacles, 0).kind,
        m.next_markers(true, dt_ms as int, d) == seq![spawned(m.settings.markers, None, d.markers, 0)],
        m.next_markers(true, dt_ms as int, d)[0].x == m.settings.markers.initial_x,
        m.next_markers(true, dt_ms as int, d)[0].kind == EntityKind::Marker(
            marker_label(m.settings.markers.initial_x - m.settings.markers.label_origin, m.settings.markers.label_unit as int)
                as u64,
        ),
{
    let o = seq![spawned(m.settings.obstacles, None, d.obstacles, 0)];
    let k = seq![spawned(m.settings.markers, None, d.markers, 0)];
    reveal(Seq::filter);
    assert(o.drop_last() =~= Seq::<LaneEntity>::empty());
    assert(k.drop_last() =~= Seq::<LaneEntity>::empty());
    assert(o.filter(on_or_right_of(m.settings.obstacles.despawn_x())) =~= o);
    assert(k.filter(on_or_right_of(m.settings.markers.despawn_x())) =~= k);
    let t = ticked_lane(o, dt_ms as int);
    assert(t[0].x == o[0].x && t[0].kind == o[0].kind);
}

/// Whatever the frames that came before, no lane holds more entities than
/// fit across the viewport at its minimal spacing, plus two.
pub proof fn lemma_model_population(m: Model)
    requires
        m.wf(),
    ensures
        m.ground@.len() <= (m.settings.ground.view_width() + m.settings.ground.min_step() - 1)
            / m.settings.ground.min_step() + 2,
        m.obstacles@.len() <= (m.settings.obstacles.view_width() + m.settings.obstacles.min_step() - 1)
            / m.settings.obstacles.min_step() + 2,
        m.markers@.len() <= (m.settings.markers.view_width() + m.settings.markers.min_step() - 1)
            / m.settings.markers.min_step() + 2,
{
    lemma_bounded_population(m.ground@, m.settings.ground);
    lemma_bounded_population(m.obstacles@, m.settings.obstacles);
    lemma_bounded_population(m.markers@, m.settings.markers);
}

} // verus!
