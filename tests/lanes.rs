use capy_run::{
    draw_spawn, label_at, spawn_entity, EnemyType, EntityKind, GroundType, Lane, LaneConfig, LaneDraw, LaneRole,
    Settings, Spacing, UNIT,
};
use rand::rngs::StdRng;
use rand::SeedableRng;

fn obstacle_lane(min_gap: i64, max_gap: i64) -> LaneConfig {
    let mut cfg = Settings::standard().obstacles;
    cfg.spacing = Spacing::Uniform { min_gap: min_gap * UNIT, max_gap: max_gap * UNIT };
    cfg
}

fn despawn_x(cfg: &LaneConfig) -> i64 {
    cfg.view_left - cfg.half_width
}

fn threshold(cfg: &LaneConfig) -> i64 {
    cfg.view_right - cfg.half_width
}

#[test]
fn scroll_moves_every_entity_by_velocity_times_time() {
    // 200 units per second for 0.1 s: 20 units.
    let cfg = Settings::standard().ground;
    let mut lane = Lane { entities: Vec::new() };
    for i in 0..11 {
        let draw = LaneDraw { kind_index: 0, gap: 0 };
        let mut e = spawn_entity(&cfg, None, draw, 0);
        e.x = -600 * UNIT + i * 120 * UNIT;
        lane.entities.push(e);
    }
    let before: Vec<i64> = lane.entities.iter().map(|e| e.x).collect();
    let shift = 200_000i64 * 100;
    assert_eq!(shift, 20 * UNIT);
    lane.advance(&cfg, shift, LaneDraw { kind_index: 1, gap: 0 }, 0);
    assert_eq!(lane.entities.len(), before.len());
    for (e, x) in lane.entities.iter().zip(before.iter()) {
        assert_eq!(e.x, x - 20 * UNIT);
    }
}

#[test]
fn empty_lane_spawns_at_initial_position() {
    let cfg = Settings::standard().obstacles;
    let mut lane = Lane { entities: Vec::new() };
    assert!(lane.needs_spawn(&cfg));
    lane.advance(&cfg, 5 * UNIT, LaneDraw { kind_index: 2, gap: 300 * UNIT }, 0);
    assert_eq!(lane.entities.len(), 1);
    assert_eq!(lane.entities[0].x, cfg.initial_x);
    assert_eq!(lane.entities[0].kind, EntityKind::Enemy(EnemyType::Croco));
}

#[test]
fn ground_spawns_one_tile_width_right_of_rightmost() {
    let cfg = Settings::standard().ground;
    let mut lane = Lane::new(&cfg, LaneDraw { kind_index: 0, gap: 0 }, 0);
    assert_eq!(lane.entities[0].x, -600 * UNIT);
    lane.spawn(&cfg, LaneDraw { kind_index: 1, gap: 0 }, 0);
    assert_eq!(lane.entities[1].x, -480 * UNIT);
    assert_eq!(lane.entities[1].kind, EntityKind::Ground(GroundType::Grass));
    assert_eq!(lane.rightmost_x(), Some(-480 * UNIT));
}

#[test]
fn one_spawn_per_frame_even_with_a_wide_gap() {
    let cfg = Settings::standard().ground;
    let mut lane = Lane::new(&cfg, LaneDraw { kind_index: 0, gap: 0 }, 0);
    lane.entities[0].x = 0;
    lane.advance(&cfg, 0, LaneDraw { kind_index: 2, gap: 0 }, 0);
    assert_eq!(lane.entities.len(), 2);
    assert_eq!(lane.entities[1].x, 120 * UNIT);
    assert!(lane.rightmost_x().unwrap() < threshold(&cfg));
}

#[test]
fn no_spawn_while_rightmost_reaches_threshold() {
    let cfg = Settings::standard().ground;
    let mut lane = Lane::new(&cfg, LaneDraw { kind_index: 0, gap: 0 }, 0);
    lane.entities[0].x = threshold(&cfg);
    assert!(!lane.needs_spawn(&cfg));
    lane.advance(&cfg, 0, LaneDraw { kind_index: 0, gap: 0 }, 0);
    assert_eq!(lane.entities.len(), 1);
}

#[test]
fn despawn_removes_entities_left_of_the_boundary() {
    let cfg = Settings::standard().ground;
    let mut lane = Lane::new(&cfg, LaneDraw { kind_index: 0, gap: 0 }, 0);
    while lane.needs_spawn(&cfg) {
        lane.spawn(&cfg, LaneDraw { kind_index: 0, gap: 0 }, 0);
    }
    assert_eq!(lane.entities.len(), 11);
    // The first tile stands at -600; after 61 units it is at -661, left of -660.
    lane.advance(&cfg, 61 * UNIT, LaneDraw { kind_index: 0, gap: 0 }, 0);
    assert_eq!(lane.entities.len(), 11);
    assert_eq!(lane.entities[0].x, -541 * UNIT);
    assert!(lane.entities.iter().all(|e| e.x >= despawn_x(&cfg)));
    // An entity exactly on the boundary stays.
    let mut lane = Lane::new(&cfg, LaneDraw { kind_index: 0, gap: 0 }, 0);
    lane.entities[0].x = despawn_x(&cfg);
    lane.despawn(&cfg);
    assert_eq!(lane.entities.len(), 1);
}

#[test]
fn obstacle_gaps_and_kinds_over_a_thousand_spawns() {
    let cfg = obstacle_lane(200, 500);
    let mut rng = StdRng::seed_from_u64(7);
    let first = draw_spawn(&mut rng, &cfg);
    let mut lane = Lane::new(&cfg, first, 0);
    let mut seen = [false; 3];
    let mut gaps_seen = std::collections::BTreeSet::new();
    for _ in 0..1000 {
        let last = *lane.entities.last().unwrap();
        // Scroll just far enough for the spawn rule to fire.
        let shift = (last.x - threshold(&cfg) + 1).max(0);
        let draw = draw_spawn(&mut rng, &cfg);
        lane.advance(&cfg, shift, draw, 0);
        let new = *lane.entities.last().unwrap();
        let gap = new.x - (last.x - shift);
        assert!(gap >= 200 * UNIT && gap <= 500 * UNIT, "gap {gap}");
        gaps_seen.insert(gap);
        match new.kind {
            EntityKind::Enemy(EnemyType::Eagle) => {
                seen[0] = true;
                assert_eq!(new.y, cfg.raised_y);
            }
            EntityKind::Enemy(EnemyType::Lion) => {
                seen[1] = true;
                assert_eq!(new.y, cfg.base_y);
            }
            EntityKind::Enemy(EnemyType::Croco) => {
                seen[2] = true;
                assert_eq!(new.y, cfg.base_y);
            }
            other => panic!("kind {other:?} is not an obstacle"),
        }
        assert!(new.animation.is_some());
    }
    assert!(seen.iter().all(|s| *s));
    assert!(gaps_seen.len() > 100);
}

#[test]
fn drawn_values_stay_in_range_and_vary() {
    let cfg = obstacle_lane(200, 500);
    let mut rng = StdRng::seed_from_u64(1);
    let mut kinds = std::collections::BTreeSet::new();
    let mut gaps = std::collections::BTreeSet::new();
    for _ in 0..200 {
        let d = draw_spawn(&mut rng, &cfg);
        assert!(d.kind_index < 3);
        assert!(d.gap >= 200 * UNIT && d.gap <= 500 * UNIT);
        kinds.insert(d.kind_index);
        gaps.insert(d.gap);
    }
    assert_eq!(kinds.len(), 3);
    assert!(gaps.len() > 50);
    let markers = Settings::standard().markers;
    let d = draw_spawn(&mut rng, &markers);
    assert_eq!(d.kind_index, 0);
    assert_eq!(d.gap, 1000 * UNIT);
}

#[test]
fn marker_labels_round_thousands_of_units() {
    let cfg = Settings::standard().markers;
    assert_eq!(cfg.role, LaneRole::Marker);
    // The first marker stands 1000 units ahead of the player.
    assert_eq!(label_at(&cfg, cfg.initial_x, 0), 1);
    assert_eq!(label_at(&cfg, cfg.label_origin + 1_500 * UNIT, 0), 2);
    assert_eq!(label_at(&cfg, cfg.label_origin + 1_499 * UNIT, 0), 1);
    assert_eq!(label_at(&cfg, cfg.label_origin + 400 * UNIT, 0), 0);
    assert_eq!(label_at(&cfg, cfg.label_origin - 4_000 * UNIT, 0), 0);
    // The score counts as distance already travelled.
    assert_eq!(label_at(&cfg, cfg.label_origin + 1_000 * UNIT, 2_000 * UNIT as u64), 3);
    let e = spawn_entity(&cfg, Some(cfg.initial_x - 500 * UNIT), LaneDraw { kind_index: 0, gap: 0 }, 0);
    assert_eq!(e.x, cfg.initial_x + 500 * UNIT);
    assert_eq!(e.kind, EntityKind::Marker(2));
}

#[test]
fn lane_reset_keeps_only_the_first_entity() {
    let cfg = Settings::standard().obstacles;
    let mut lane = Lane::new(&cfg, LaneDraw { kind_index: 1, gap: 300 * UNIT }, 0);
    lane.spawn(&cfg, LaneDraw { kind_index: 1, gap: 300 * UNIT }, 0);
    lane.reset(&cfg, LaneDraw { kind_index: 0, gap: 250 * UNIT }, 0);
    assert_eq!(lane.len(), 1);
    assert_eq!(lane.entities[0].x, cfg.initial_x);
    assert_eq!(lane.entities[0].kind, EntityKind::Enemy(EnemyType::Eagle));
}

#[test]
fn contact_needs_both_axes_within_radius() {
    let cfg = Settings::standard().obstacles;
    let lane = Lane::new(&cfg, LaneDraw { kind_index: 1, gap: 300 * UNIT }, 0);
    let e = lane.entities[0];
    let r = 60 * UNIT;
    assert!(lane.touches(e.x - 59 * UNIT, e.y, r));
    assert!(!lane.touches(e.x - 60 * UNIT, e.y, r));
    assert!(!lane.touches(e.x, e.y + 60 * UNIT, r));
    assert!(lane.touches(e.x + 10, e.y - 10, r));
}

#[test]
fn lane_gaps_stay_within_bounds_over_a_long_run() {
    let cfg = obstacle_lane(200, 500);
    let mut rng = StdRng::seed_from_u64(21);
    let first = draw_spawn(&mut rng, &cfg);
    let mut lane = Lane::new(&cfg, first, 0);
    for frame in 0..5000i64 {
        let shift = (frame % 7) * 10 * UNIT;
        let draw = draw_spawn(&mut rng, &cfg);
        lane.advance(&cfg, shift, draw, 0);
        for pair in lane.entities.windows(2) {
            let gap = pair[1].x - pair[0].x;
            assert!(gap >= 200 * UNIT && gap <= 500 * UNIT);
        }
        assert!(lane.entities.iter().all(|e| matches!(e.kind, EntityKind::Enemy(_))));
    }
}
