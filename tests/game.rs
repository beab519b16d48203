use capy_run::{
    clamped_frame, AnimationConfig, FrameDraws, GameData, GameEvent, GameState, LaneDraw, Model, Player,
    PlayerState, Settings, INITIAL_VELOCITY, MAX_FRAME_MS, UNIT,
};

fn standard_player() -> Player {
    let s = Settings::standard();
    Player::new(s.player_x, s.ground_y, s.gravity, s.jump_speed)
}

fn quiet_draws() -> FrameDraws {
    FrameDraws {
        ground: LaneDraw { kind_index: 0, gap: 120 * UNIT },
        obstacles: LaneDraw { kind_index: 1, gap: 500 * UNIT },
        markers: LaneDraw { kind_index: 0, gap: 1000 * UNIT },
    }
}

#[test]
fn first_jump_tick_updates_speed_then_height() {
    // Take-off at 500 units/s, gravity -980 units/s², 10 ms: the speed is
    // updated first, and the height moves with the new speed.
    let mut p = standard_player();
    let ground = p.y;
    p.trigger_jump();
    assert_eq!(p.state, PlayerState::Jumping);
    assert_eq!(p.jump.velocity, 500_000);
    p.update_jump(10);
    assert_eq!(p.jump.velocity, 490_200);
    assert_eq!(p.y - ground, 4_902_000);
    assert_eq!(p.animation.index, 0);
}

#[test]
fn jump_lands_exactly_on_the_ground() {
    for dt in [1u32, 10, 16, 33, 100, 250, 1000] {
        let mut p = standard_player();
        let ground = p.jump.ground_y;
        p.trigger_jump();
        let mut frames = 0;
        let mut highest = p.y;
        while p.state == PlayerState::Jumping {
            p.update_jump(dt);
            highest = highest.max(p.y);
            frames += 1;
            assert!(frames < 100_000);
        }
        assert_eq!(p.state, PlayerState::Running);
        assert_eq!(p.jump.velocity, 0);
        assert_eq!(p.y, ground);
        assert!(highest <= ground + 128 * UNIT);
    }
}

#[test]
fn jump_only_from_the_ground_at_rest() {
    let mut p = standard_player();
    p.trigger_jump();
    p.update_jump(16);
    let airborne = p;
    p.trigger_jump();
    assert_eq!(p, airborne);
    let mut dead = standard_player();
    dead.kill();
    dead.trigger_jump();
    assert_eq!(dead.state, PlayerState::Dead);
    dead.update_jump(16);
    assert_eq!(dead.y, dead.jump.ground_y);
}

#[test]
fn falling_shows_the_second_jump_frame() {
    let mut p = standard_player();
    p.trigger_jump();
    p.update_jump(250);
    p.update_jump(250);
    p.update_jump(100);
    assert_eq!(p.state, PlayerState::Jumping);
    assert!(p.jump.velocity <= 0);
    assert_eq!(p.animation.index, 1);
}

#[test]
fn long_frames_are_clamped() {
    assert_eq!(clamped_frame(5000), MAX_FRAME_MS);
    assert_eq!(clamped_frame(16), 16);
    let mut s = GameData::new(INITIAL_VELOCITY);
    s.handle_game_start();
    s.update_distance(10_000);
    assert_eq!(s.current_score, 200_000 * 250);
}

#[test]
fn clock_wraps_from_last_to_first() {
    let mut c = AnimationConfig::new(0, 1, 4);
    c.tick(249);
    assert_eq!((c.index, c.elapsed_ms), (0, 249));
    c.tick(1);
    assert_eq!((c.index, c.elapsed_ms), (1, 0));
    c.tick(250);
    assert_eq!((c.index, c.elapsed_ms), (0, 0));
    // A late frame drops the surplus rather than carrying it over.
    c.tick(400);
    assert_eq!((c.index, c.elapsed_ms), (1, 0));
    let mut three = AnimationConfig::new(2, 4, 3);
    three.tick(333);
    assert_eq!(three.index, 2);
    three.tick(1);
    assert_eq!(three.index, 3);
}

#[test]
fn player_sheet_follows_state() {
    let mut p = standard_player();
    p.animate(250);
    assert_eq!(p.animation.index, 1);
    p.trigger_jump();
    p.animate(16);
    assert_eq!(p.sheet, PlayerState::Jumping);
    assert_eq!(p.animation.index, 0);
    p.kill();
    p.animate(16);
    assert_eq!(p.sheet, PlayerState::Dead);
    assert_eq!((p.animation.first_sprite_index, p.animation.last_sprite_index), (0, 0));
    p.reset();
    assert_eq!(p.state, PlayerState::Running);
    assert_eq!(p.sheet, PlayerState::Running);
    assert_eq!(p.y, p.jump.ground_y);
}

#[test]
fn activation_raises_the_event_of_each_state() {
    let mut s = GameData::new(INITIAL_VELOCITY);
    assert_eq!(s.handle_input(false), None);
    assert_eq!(s.handle_input(true), Some(GameEvent::GameStart));
    s.apply(GameEvent::GameStart, INITIAL_VELOCITY);
    assert_eq!(s.game_state, GameState::Running);
    assert_eq!(s.handle_input(true), Some(GameEvent::PlayerJump));
    s.apply(GameEvent::PlayerJump, INITIAL_VELOCITY);
    assert_eq!(s.game_state, GameState::Running);
    s.apply(GameEvent::GameEnd, INITIAL_VELOCITY);
    assert_eq!(s.game_state, GameState::Dead);
    assert_eq!(s.handle_input(true), Some(GameEvent::GameReset));
    // Events out of their state change nothing.
    let before = s;
    s.apply(GameEvent::GameStart, INITIAL_VELOCITY);
    s.apply(GameEvent::GameEnd, INITIAL_VELOCITY);
    assert_eq!(s, before);
}

#[test]
fn score_grows_only_while_running() {
    let mut s = GameData::new(INITIAL_VELOCITY);
    s.update_distance(100);
    assert_eq!(s.current_score, 0);
    s.handle_game_start();
    s.update_distance(100);
    assert_eq!(s.current_score, 20 * UNIT as u64);
    s.update_distance(25);
    assert_eq!(s.current_score, 25 * UNIT as u64);
    assert_eq!(s.display_score(), 25);
    s.handle_game_end();
    s.update_distance(100);
    assert_eq!(s.current_score, 25 * UNIT as u64);
    s.handle_model_reset(INITIAL_VELOCITY);
    assert_eq!(s.current_score, 0);
    assert_eq!(s.display_previous_score(), 25);
    assert_eq!(s.game_state, GameState::WaitingForStart);
    s.current_score = u64::MAX - 5;
    s.handle_game_start();
    s.update_distance(100);
    assert_eq!(s.current_score, u64::MAX);
}

#[test]
fn new_model_covers_the_viewport() {
    let m = Model::new(Settings::standard(), 3);
    assert_eq!(m.session.game_state, GameState::WaitingForStart);
    assert_eq!(m.ground.len(), 11);
    for (i, tile) in m.ground.entities.iter().enumerate() {
        assert_eq!(tile.x, -600 * UNIT + i as i64 * 120 * UNIT);
        assert_eq!(tile.y, -136 * UNIT);
    }
    assert_eq!(m.ground.rightmost_x(), Some(600 * UNIT));
    assert_eq!(m.obstacles.len(), 1);
    assert_eq!(m.obstacles.entities[0].x, 800 * UNIT);
    assert_eq!(m.markers.len(), 1);
    assert_eq!(m.markers.entities[0].x, 640 * UNIT);
}

#[test]
fn frame_scrolls_everything_by_twenty_units() {
    let mut m = Model::new(Settings::standard(), 3);
    m.step(true, 0, quiet_draws());
    assert_eq!(m.session.game_state, GameState::Running);
    let ground: Vec<i64> = m.ground.entities.iter().map(|e| e.x).collect();
    let obstacle = m.obstacles.entities[0].x;
    let marker = m.markers.entities[0].x;
    m.step(false, 100, quiet_draws());
    for (e, x) in m.ground.entities.iter().zip(ground.iter()) {
        assert_eq!(e.x, x - 20 * UNIT);
    }
    assert_eq!(m.obstacles.entities[0].x, obstacle - 20 * UNIT);
    assert_eq!(m.markers.entities[0].x, marker - 20 * UNIT);
    assert_eq!(m.session.current_score, 20 * UNIT as u64);
}

#[test]
fn waiting_game_does_not_scroll() {
    let mut m = Model::new(Settings::standard(), 3);
    let ground: Vec<i64> = m.ground.entities.iter().map(|e| e.x).collect();
    m.step(false, 100, quiet_draws());
    let after: Vec<i64> = m.ground.entities.iter().map(|e| e.x).collect();
    assert_eq!(ground, after);
    assert_eq!(m.session.current_score, 0);
}

#[test]
fn contact_with_an_obstacle_ends_the_run() {
    let mut m = Model::new(Settings::standard(), 3);
    m.step(true, 0, quiet_draws());
    m.obstacles.entities[0].x = m.player.x + 30 * UNIT;
    m.obstacles.entities[0].y = m.player.y;
    m.step(false, 16, quiet_draws());
    assert_eq!(m.session.game_state, GameState::Dead);
    assert_eq!(m.player.state, PlayerState::Dead);
    let score = m.session.current_score;
    m.step(false, 16, quiet_draws());
    assert_eq!(m.session.current_score, score);
}

#[test]
fn running_under_a_flying_obstacle_is_safe() {
    let mut m = Model::new(Settings::standard(), 3);
    m.step(true, 0, quiet_draws());
    let raised = m.settings.obstacles.raised_y;
    m.obstacles.entities[0].x = m.player.x;
    m.obstacles.entities[0].y = raised;
    m.step(false, 16, quiet_draws());
    assert_eq!(m.session.game_state, GameState::Running);
}

#[test]
fn reset_restores_the_canonical_start() {
    let mut m = Model::new(Settings::standard(), 11);
    m.step(true, 0, quiet_draws());
    for _ in 0..50 {
        m.step(false, 16, quiet_draws());
    }
    m.session.game_state = GameState::Dead;
    m.player.kill();
    let score = m.session.current_score;
    assert!(score > 0);
    m.step(true, 16, quiet_draws());
    assert_eq!(m.session.game_state, GameState::WaitingForStart);
    assert_eq!(m.session.current_score, 0);
    assert_eq!(m.session.previous_score, score);
    assert_eq!(m.session.velocity, INITIAL_VELOCITY);
    assert_eq!(m.obstacles.len(), 1);
    assert_eq!(m.obstacles.entities[0].x, m.settings.obstacles.initial_x);
    assert_eq!(m.markers.len(), 1);
    assert_eq!(m.markers.entities[0].x, m.settings.markers.initial_x);
    assert_eq!(m.markers.entities[0].kind, capy_run::EntityKind::Marker(1));
    assert_eq!(m.player.state, PlayerState::Running);
    assert_eq!(m.player.y, m.player.jump.ground_y);
}

#[test]
fn long_run_keeps_lanes_covered_bounded_and_clean() {
    let settings = Settings::standard();
    for seed in 0..5u64 {
        let mut m = Model::new(settings, seed);
        let mut last_score = 0;
        for i in 0..3000u32 {
            let state = m.session.game_state;
            let activate = i == 0 || (i % 45 == 0 && state == GameState::Running) || state == GameState::Dead;
            m.frame(activate, 16);
            let score = m.session.current_score;
            if state == GameState::Running {
                assert!(score >= last_score);
            } else if !activate {
                assert_eq!(score, last_score);
            }
            last_score = score;
            for (lane, cfg) in [(&m.ground, &settings.ground), (&m.obstacles, &settings.obstacles), (&m.markers, &settings.markers)] {
                let left = cfg.view_left - cfg.half_width;
                assert!(lane.entities.iter().all(|e| e.x >= left));
                let min_step = match cfg.spacing {
                    capy_run::Spacing::Fixed(s) => s,
                    capy_run::Spacing::Uniform { min_gap, .. } => min_gap,
                };
                let width = cfg.view_right - cfg.view_left;
                let bound = ((width + min_step - 1) / min_step + 2) as usize;
                assert!(lane.len() <= bound);
                if m.session.game_state == GameState::Running && lane.len() > 0 {
                    assert!(lane.rightmost_x().unwrap() >= cfg.view_right - cfg.half_width);
                }
            }
        }
    }
}

#[test]
fn jump_takes_at_most_the_bounded_number_of_frames() {
    // 500 units/s take-off, gravity -980 units/s²: at most 2 * 500 / (980 * dt) + 1 frames.
    for dt in [1u32, 10, 16, 50, 250] {
        let mut p = standard_player();
        p.trigger_jump();
        let mut frames: i64 = 0;
        while p.state == PlayerState::Jumping {
            p.update_jump(dt);
            frames += 1;
        }
        let bound = 2 * 500_000 / (980 * dt as i64) + 1;
        assert!(frames <= bound, "dt {dt}: {frames} frames, bound {bound}");
    }
}

#[test]
fn standard_settings_hold_the_game_constants() {
    let s = Settings::standard();
    assert_eq!(s.ground.spacing, capy_run::Spacing::Fixed(120 * UNIT));
    assert_eq!(s.ground.view_left, -600 * UNIT);
    assert_eq!(s.ground.view_right, 600 * UNIT);
    assert_eq!(s.ground.half_width, 60 * UNIT);
    assert_eq!(s.obstacles.spacing, capy_run::Spacing::Uniform { min_gap: 200 * UNIT, max_gap: 500 * UNIT });
    assert_eq!(s.obstacles.initial_x, 800 * UNIT);
    assert_eq!(s.obstacles.raised_y, 14 * UNIT);
    assert_eq!(s.markers.spacing, capy_run::Spacing::Fixed(1000 * UNIT));
    assert_eq!(s.markers.initial_x, 640 * UNIT);
    assert_eq!(s.player_x, -360 * UNIT);
    assert_eq!(s.gravity, -980);
    assert_eq!(s.jump_speed, 500_000);
    assert_eq!(s.collision_radius, 60 * UNIT);
    assert_eq!(s.initial_velocity, 200_000);
}
