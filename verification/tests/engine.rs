//! Unit tests for the engine's building blocks: timers, pheromone fields,
//! fixed-point math, the wire framing, the sanitizer, and the map with its
//! cached raycasts.

use pherowar::ant::AntRef;
use pherowar::api::{sanitize_output, AntOutput};
use pherowar::fixmath::{atan2_mrad, floor_cell, isqrt, normalize_angle, sin_cos};
use pherowar::map::{GameMap, SerializedMap};
use pherowar::pheromone::PheromoneChannel;
use pherowar::protocol::{decode_frame_len, encode_frame, judge_think, ThinkVerdict};
use pherowar::raycast::RayResult;
use pherowar::terrain::{Terrain, Tile};
use pherowar::timer::Timer;
use pherowar::{Pos, ANGLE_COUNT, MAX_PHEROMONE_MILLI, TAU_MRAD};

#[test]
fn timer_counts_up_and_wraps() {
    let mut t = Timer::new(375, 100);
    assert!(!t.is_ready());
    t.update(274);
    assert!(!t.is_ready());
    t.update(1);
    assert!(t.is_ready());
    t.update(25);
    t.wrap();
    assert_eq!(t.value, 400 % 375);
    assert!(!t.is_ready());
    t.force_ready();
    assert!(t.is_ready());
    assert_eq!(t.value, 375);
}

#[test]
fn pheromone_lay_saturates_at_cap() {
    let mut ch = PheromoneChannel::new(4, 4, 1000);
    ch.lay(1, 2, 100_000);
    ch.lay(1, 2, 100_000);
    assert_eq!(ch.sample_at(1, 2), 200_000);
    ch.lay(1, 2, 100_000);
    assert_eq!(ch.sample_at(1, 2), MAX_PHEROMONE_MILLI);
    assert_eq!(ch.sample_at(0, 0), 0);
    // out of bounds reads as zero
    assert_eq!(ch.sample_at(9, 9), 0);
}

#[test]
fn pheromone_decay_scales_and_snaps_to_floor() {
    let mut ch = PheromoneChannel::new(3, 1, 500);
    ch.lay(0, 0, 200_000);
    ch.lay(1, 0, 15);
    ch.decay();
    assert_eq!(ch.sample_at(0, 0), 100_000);
    // 15 * 500 / 1000 = 7, below the 0.01 floor: snapped to zero
    assert_eq!(ch.sample_at(1, 0), 0);
    assert_eq!(ch.sample_at(2, 0), 0);
    // every decayed sample is zero or at least the floor
    for x in 0..3 {
        let v = ch.sample_at(x, 0);
        assert!(v == 0 || v >= 10);
    }
}

#[test]
fn pheromone_decay_rate_is_clamped() {
    let ch = PheromoneChannel::new(2, 2, 5_000);
    assert_eq!(ch.decay_rate, 1000);
}

#[test]
fn angle_normalization_and_trig_ranges() {
    assert_eq!(normalize_angle(0), 0);
    assert_eq!(normalize_angle(TAU_MRAD), 0);
    assert_eq!(normalize_angle(-1), TAU_MRAD - 1);
    assert_eq!(normalize_angle(TAU_MRAD + 5), 5);
    let (s0, c0) = sin_cos(0);
    assert_eq!(s0, 0);
    assert!(c0 > 990 && c0 <= 1000);
    let (s_quarter, c_quarter) = sin_cos(1571);
    assert!(s_quarter > 990 && s_quarter <= 1000);
    assert!(c_quarter.abs() < 10);
    for a in (0..TAU_MRAD).step_by(97) {
        let (s, c) = sin_cos(a);
        assert!((-1000..=1000).contains(&s));
        assert!((-1000..=1000).contains(&c));
    }
}

#[test]
fn atan2_quadrants() {
    assert_eq!(atan2_mrad(0, 0), 0);
    assert_eq!(atan2_mrad(0, 1000), 0);
    let up = atan2_mrad(1000, 0);
    assert!((up - 1571).abs() <= 2);
    let left = atan2_mrad(0, -1000);
    assert!((left - 3141).abs() <= 2);
    let down = atan2_mrad(-1000, 0);
    assert!((down - 4712).abs() <= 5);
    for &(y, x) in &[(3, 4), (-3, 4), (3, -4), (-3, -4), (1000, 1), (1, 1000)] {
        let a = atan2_mrad(y, x);
        assert!((0..TAU_MRAD).contains(&a));
    }
}

#[test]
fn isqrt_and_floor_cell() {
    assert_eq!(isqrt(0), 0);
    assert_eq!(isqrt(99), 9);
    assert_eq!(isqrt(100), 10);
    assert_eq!(isqrt(100_000_000), 10_000);
    assert_eq!(floor_cell(0), 0);
    assert_eq!(floor_cell(999), 0);
    assert_eq!(floor_cell(1000), 1);
    assert_eq!(floor_cell(-1), -1);
    assert_eq!(floor_cell(-1000), -1);
    assert_eq!(floor_cell(-1001), -2);
}

#[test]
fn frame_encoding_round_trips_and_caps() {
    let payload: Vec<u8> = (0..=200u8).collect();
    let frame = encode_frame(&payload).expect("payload fits");
    assert_eq!(frame.len(), payload.len() + 4);
    let n = decode_frame_len(frame[0], frame[1], frame[2], frame[3]).expect("length fits");
    assert_eq!(n as usize, payload.len());
    assert_eq!(&frame[4..], &payload[..]);
    let oversized: Vec<u8> = vec![0u8; 257];
    assert!(encode_frame(&oversized).is_none());
    // an announced length over the cap is refused
    assert!(decode_frame_len(0x01, 0x02, 0, 0).is_none());
    assert_eq!(decode_frame_len(0x00, 0x01, 0, 0), Some(256));
}

#[test]
fn think_verdict_applies_deadline_and_transport_policy() {
    assert_eq!(judge_think(1_500_000, true), ThinkVerdict::Accepted);
    assert_eq!(judge_think(1_500_001, true), ThinkVerdict::TimedOut);
    assert_eq!(judge_think(10_000_000, false), ThinkVerdict::TimedOut);
    assert_eq!(judge_think(100, false), ThinkVerdict::Failed);
}

#[test]
fn sanitizer_clamps_and_is_idempotent() {
    let raw = AntOutput {
        turn_angle: -1,
        pheromone_amounts: [-5, 300_000, 100, 0, 255_000, 1, 999_999_999, -42],
        try_attack: true,
    };
    let once = sanitize_output(&raw);
    assert_eq!(once.turn_angle, TAU_MRAD - 1);
    assert_eq!(
        once.pheromone_amounts,
        [0, 255_000, 100, 0, 255_000, 1, 255_000, 0]
    );
    assert!(once.try_attack);
    let twice = sanitize_output(&once);
    assert_eq!(twice.turn_angle, once.turn_angle);
    assert_eq!(twice.pheromone_amounts, once.pheromone_amounts);
    assert_eq!(twice.try_attack, once.try_attack);
}

#[test]
fn terrain_edits_and_food_depletion() {
    let mut map = GameMap::new(40, 30);
    assert_eq!(map.get_terrain_at(5, 5), Some(Terrain::Empty));
    assert_eq!(map.get_terrain_at(40, 0), None);
    map.place_food_at(5, 5, 3);
    assert_eq!(map.get_terrain_at(5, 5), Some(Terrain::Food(3)));
    map.take_food_at(5, 5);
    map.take_food_at(5, 5);
    assert_eq!(map.get_terrain_at(5, 5), Some(Terrain::Food(1)));
    map.take_food_at(5, 5);
    assert_eq!(map.get_terrain_at(5, 5), Some(Terrain::Empty));
    // taking from a non-food tile changes nothing
    map.take_food_at(5, 5);
    assert_eq!(map.get_terrain_at(5, 5), Some(Terrain::Empty));
}

#[test]
fn placeholder_slots_round_trip() {
    let mut map = GameMap::new(20, 20);
    assert!(map.place_nest_placeholder_at(4, 4));
    assert_eq!(map.get_terrain_at(4, 4), Some(Terrain::PlaceholderColony));
    assert_eq!(map.placeholder_colony_locations.len(), 1);
    // only empty tiles take a placeholder
    map.place_wall_at(6, 6);
    assert!(!map.place_nest_placeholder_at(6, 6));
    let center = Pos { x: 4_500, y: 4_500 };
    assert!(map.remove_placeholder_colony(center));
    assert_eq!(map.get_terrain_at(4, 4), Some(Terrain::Empty));
    assert_eq!(map.placeholder_colony_locations.len(), 0);
}

#[test]
fn spatial_index_registration() {
    let mut map = GameMap::new(10, 10);
    let a = AntRef { key: 7, colony_id: 0 };
    let b = AntRef { key: 9, colony_id: 1 };
    let pos = Pos { x: 3_500, y: 2_500 };
    map.register_ant_in_cell(&a, pos);
    map.register_ant_in_cell(&b, pos);
    // re-registration does not duplicate
    map.register_ant_in_cell(&a, pos);
    assert_eq!(map.get_enemy_ant_at(3, 2, 0), Some(b));
    assert_eq!(map.get_enemy_ant_at(3, 2, 2).is_some(), true);
    assert!(map.unregister_ant_from_cell(&a, pos));
    assert!(!map.unregister_ant_from_cell(&a, pos));
    assert_eq!(map.get_enemy_ant_at(3, 2, 1), None);
    // out-of-bounds operations are ignored
    map.register_ant_in_cell(&a, Pos { x: -500, y: 0 });
    assert!(!map.unregister_ant_from_cell(&a, Pos { x: -500, y: 0 }));
}

#[test]
fn raycast_sees_wall_and_forgets_it_after_removal() {
    let mut map = GameMap::new(60, 60);
    map.place_wall_at(20, 10);
    let origin = Pos { x: 10_500, y: 10_500 };
    let (hit, d) = map.raycast_angle(origin, 0, 20_000);
    assert!(hit);
    // about 9.5 cells: from the cell center at x = 10.5 to the wall
    // boundary at x = 20 (the fixed-point trig is a tenth of a percent shy)
    assert!((9_400..=9_600).contains(&d), "distance was {d}");
    map.remove_terrain_at(20, 10);
    let (hit2, d2) = map.raycast_angle(origin, 0, 20_000);
    assert!(!hit2);
    assert_eq!(d2, 20_000);
}

#[test]
fn raycast_blocked_origin_and_range_truncation() {
    let mut map = GameMap::new(30, 30);
    map.place_wall_at(5, 5);
    let inside_wall = Pos { x: 5_500, y: 5_500 };
    assert_eq!(map.raycast_angle(inside_wall, 0, 5_000), (true, 0));
    let outside = Pos { x: -100, y: 100 };
    assert_eq!(map.raycast_angle(outside, 0, 5_000), (true, 0));
    // a wall beyond the queried range is not reported
    let origin = Pos { x: 1_500, y: 5_500 };
    let (hit, d) = map.raycast_angle(origin, 0, 2_000);
    assert!(!hit);
    assert_eq!(d, 2_000);
}

#[test]
fn wall_invalidation_keeps_far_cache_bits() {
    let mut map = GameMap::new(60, 60);
    // populate some rays from a far origin
    let far_origin = Pos { x: 50_500, y: 50_500 };
    for ray in 0..8 {
        let angle = (ray as i64) * 700 % TAU_MRAD;
        let _ = map.raycast_angle(far_origin, angle, 9_000);
    }
    let w = map.width as usize;
    let base = (50 * w + 50) * ANGLE_COUNT;
    let before: Vec<RayResult> = map.rc_cache.cache[base..base + ANGLE_COUNT].to_vec();
    // the edit at (10, 10) is far beyond the invalidation radius of (50, 50)
    map.place_wall_at(10, 10);
    let after: Vec<RayResult> = map.rc_cache.cache[base..base + ANGLE_COUNT].to_vec();
    assert_eq!(before, after);
    // near cells are invalidated
    let near_base = (10 * w + 11) * ANGLE_COUNT;
    for e in &map.rc_cache.cache[near_base..near_base + ANGLE_COUNT] {
        assert_eq!(*e, RayResult::Unknown);
    }
}

#[test]
fn serialized_map_round_trip() {
    let mut map = GameMap::new(12, 9);
    map.place_wall_at(2, 3);
    map.place_food_at(4, 4, 7);
    map.place_colony_at(6, 6, 2);
    let saved = SerializedMap::from_map(&map);
    assert_eq!(saved.width, 12);
    assert_eq!(saved.height, 9);
    let reloaded = GameMap::from_serialized(&saved).expect("valid grid");
    assert_eq!(reloaded.get_terrain_at(2, 3), Some(Terrain::Wall));
    // saving resets food to the default amount
    assert_eq!(
        reloaded.get_terrain_at(4, 4),
        Some(Terrain::Food(pherowar::DEFAULT_FOOD_AMOUNT))
    );
    // nests come back as reserved slots
    assert_eq!(reloaded.get_terrain_at(6, 6), Some(Terrain::PlaceholderColony));
    assert_eq!(reloaded.placeholder_colony_locations.len(), 1);
    // impossible shapes are refused
    let bad = SerializedMap { width: 0, height: 5, tiles: Vec::new() };
    assert!(GameMap::from_serialized(&bad).is_none());
    let short = SerializedMap { width: 3, height: 3, tiles: vec![Tile { terrain: Terrain::Empty }; 8] };
    assert!(GameMap::from_serialized(&short).is_none());
}

#[test]
fn trig_tracks_reference_values_across_the_circle() {
    // sweep the whole circle: the rational kernel stays within a percent
    // of the real functions (scaled by a thousand)
    for a in (0..TAU_MRAD).step_by(50) {
        let (s, c) = sin_cos(a);
        let expected_sin = ((a as f64) / 1000.0).sin() * 1000.0;
        let expected_cos = ((a as f64) / 1000.0).cos() * 1000.0;
        assert!(
            ((s as f64) - expected_sin).abs() <= 10.0,
            "sine off at {a}: {s} vs {expected_sin}"
        );
        assert!(
            ((c as f64) - expected_cos).abs() <= 10.0,
            "cosine off at {a}: {c} vs {expected_cos}"
        );
    }
    // landmark values
    let (s, c) = sin_cos(0);
    assert_eq!(s, 0);
    assert!((c - 1000).abs() <= 1);
    let (s, c) = sin_cos(3141);
    assert!(s.abs() <= 2 && (c + 1000).abs() <= 2);
}

#[test]
fn trig_handles_wrapped_negative_and_large_angles() {
    // wraparound, negative and many-turn angles agree with their
    // normalized counterparts
    for &raw in &[
        TAU_MRAD,
        TAU_MRAD + 700,
        -700,
        -TAU_MRAD - 1,
        10 * TAU_MRAD + 1234,
        -7 * TAU_MRAD - 4321,
        1,
        -1,
    ] {
        let normalized = normalize_angle(raw);
        assert!((0..TAU_MRAD).contains(&normalized));
        let (s, c) = sin_cos(normalized);
        let expected_sin = ((raw as f64) / 1000.0).sin() * 1000.0;
        let expected_cos = ((raw as f64) / 1000.0).cos() * 1000.0;
        assert!(((s as f64) - expected_sin).abs() <= 10.0, "sine off at raw {raw}");
        assert!(((c as f64) - expected_cos).abs() <= 10.0, "cosine off at raw {raw}");
    }
}
