//! Frame-stepped simulation core of an endless runner: a lifecycle state
//! machine with scoring, scrolling lanes of ground tiles, obstacles and
//! distance markers, the player's jump physics, and per-entity sprite clocks.
//!
//! All quantities are integers in fixed units:
//! - time in milliseconds,
//! - positions in millionths of a world unit,
//! - speeds in thousandths of a world unit per second,
//! - gravity in world units per second squared.
//!
//! With these units a speed times a frame time is a distance, and gravity
//! times a frame time is a change of speed, both without rounding.

mod animation;
mod lane;
mod model;
mod player;
mod random;
mod session;

pub use animation::{AnimationConfig, MILLIS_PER_SECOND};
pub use lane::{
    label_at, spawn_entity, EnemyType, EntityKind, GroundType, Lane, LaneConfig, LaneDraw, LaneEntity, LaneRole,
    Spacing, COORD_LIMIT, MAX_SHIFT, MIN_LABEL_UNIT,
};
pub use model::{
    draw_frame, draw_spawn, FrameDraws, Model, Settings, COLLISION_RADIUS, FLYING_HEIGHT, GRAVITY, GROUND_LEVEL,
    JUMP_SPEED, MARKER_SPACING, OBSTACLE_INITIAL_X, OBSTACLE_MAX_GAP, OBSTACLE_MIN_GAP, PLAYER_X, TILE_WIDTH, UNIT,
    VIEW_HALF_WIDTH,
};
pub use player::{clamped_frame, Jump, Player, PlayerState, MAX_FRAME_MS, MAX_GRAVITY, MAX_JUMP_SPEED, RUN_FPS};
pub use session::{GameData, GameEvent, GameState, INITIAL_VELOCITY, MICROS_PER_UNIT};
