use arena_sim::angle::{normalize_heading, turn_budget, turn_toward, FULL_TURN, HALF_TURN};
use arena_sim::geometry::{
    drift_coord, limit_to_unit, move_coord, overlaps, Arena, Vec2, OFF_FIELD,
};

#[test]
fn arena_is_half_the_window() {
    let arena = Arena::from_extent(1_500_000_000, 1_000_000_000).unwrap();
    assert_eq!(arena.half_width, 750_000_000);
    assert_eq!(arena.half_height, 500_000_000);
}

#[test]
fn arena_rounds_odd_extents_down() {
    let arena = Arena::from_extent(5, 3).unwrap();
    assert_eq!(arena, Arena { half_width: 2, half_height: 1 });
}

#[test]
fn only_a_negative_extent_has_no_arena() {
    assert_eq!(Arena::from_extent(-1, 100), None);
    assert_eq!(Arena::from_extent(100, -1), None);
    assert_eq!(Arena::from_extent(-10, -10), None);
    assert_eq!(Arena::from_extent(0, 0), Some(Arena { half_width: 0, half_height: 0 }));
    assert_eq!(Arena::from_extent(1, 100), Some(Arena { half_width: 0, half_height: 50 }));
    let largest = Arena::from_extent(i64::MAX, i64::MAX).unwrap();
    assert!(largest.is_valid());
}

#[test]
fn an_arena_never_reaches_the_off_field_place() {
    assert!(Arena { half_width: 0, half_height: 0 }.is_valid());
    assert!(Arena { half_width: OFF_FIELD - 1, half_height: OFF_FIELD - 1 }.is_valid());
    assert!(!Arena { half_width: OFF_FIELD, half_height: 5 }.is_valid());
    assert!(!Arena { half_width: 5, half_height: OFF_FIELD }.is_valid());
    assert!(!Arena { half_width: -1, half_height: 5 }.is_valid());
    assert!(!Arena { half_width: 5, half_height: -1 }.is_valid());
    let widest = Arena { half_width: OFF_FIELD - 1, half_height: OFF_FIELD - 1 };
    assert!(!widest.is_inside(Vec2 { x: OFF_FIELD, y: OFF_FIELD }));
    assert!(!widest.is_inside(Vec2 { x: 0, y: OFF_FIELD }));
}

#[test]
fn a_random_place_lies_in_the_arena() {
    let arena = Arena { half_width: 2, half_height: 1 };
    let mut seen = std::collections::BTreeSet::new();
    for _ in 0..300 {
        let place = arena.random_place();
        assert!(-2 <= place.x && place.x < 2);
        assert!(-1 <= place.y && place.y < 1);
        seen.insert((place.x, place.y));
    }
    assert_eq!(seen.len(), 8);
}

#[test]
fn a_random_place_on_an_axis_without_extent_is_zero() {
    let line = Arena { half_width: 0, half_height: 3 };
    let mut seen = std::collections::BTreeSet::new();
    for _ in 0..200 {
        let place = line.random_place();
        assert_eq!(place.x, 0);
        assert!(-3 <= place.y && place.y < 3);
        seen.insert(place.y);
    }
    assert_eq!(seen.len(), 6);
    let point = Arena { half_width: 0, half_height: 0 };
    assert_eq!(point.random_place(), Vec2 { x: 0, y: 0 });
}

#[test]
fn the_edge_of_the_arena_is_inside() {
    let arena = Arena { half_width: 10, half_height: 5 };
    assert!(arena.is_inside(Vec2 { x: 10, y: 5 }));
    assert!(arena.is_inside(Vec2 { x: -10, y: -5 }));
    assert!(arena.is_inside(Vec2 { x: 0, y: 0 }));
    assert!(!arena.is_inside(Vec2 { x: 11, y: 0 }));
    assert!(!arena.is_inside(Vec2 { x: 0, y: -6 }));
}

#[test]
fn short_sticks_are_kept() {
    // Thousandths in, millionths out.
    assert_eq!(limit_to_unit(Vec2 { x: 1000, y: 0 }), Vec2 { x: 1_000_000, y: 0 });
    assert_eq!(limit_to_unit(Vec2 { x: 0, y: -1000 }), Vec2 { x: 0, y: -1_000_000 });
    assert_eq!(limit_to_unit(Vec2 { x: 600, y: 800 }), Vec2 { x: 600_000, y: 800_000 });
    assert_eq!(limit_to_unit(Vec2 { x: 0, y: 0 }), Vec2 { x: 0, y: 0 });
    assert_eq!(limit_to_unit(Vec2 { x: -300, y: 400 }), Vec2 { x: -300_000, y: 400_000 });
    assert_eq!(limit_to_unit(Vec2 { x: -700, y: 700 }), Vec2 { x: -700_000, y: 700_000 });
}

#[test]
fn long_sticks_are_cut_to_unit_length() {
    // Length 1414213.56 millionths, root above 1414214: 10^12 / 1414214 = 707106.
    assert_eq!(limit_to_unit(Vec2 { x: 1000, y: 1000 }), Vec2 { x: 707_106, y: 707_106 });
    assert_eq!(limit_to_unit(Vec2 { x: -1000, y: 1000 }), Vec2 { x: -707_106, y: 707_106 });
    assert_eq!(limit_to_unit(Vec2 { x: -1000, y: -1000 }), Vec2 { x: -707_106, y: -707_106 });
    // Length 1000000.5 millionths, root above 1000001.
    assert_eq!(limit_to_unit(Vec2 { x: 1000, y: 1 }), Vec2 { x: 999_999, y: 999 });
    // Length 1280624.85 millionths, root above 1280625.
    assert_eq!(limit_to_unit(Vec2 { x: 1000, y: -800 }), Vec2 { x: 780_868, y: -624_694 });
    let cut = limit_to_unit(Vec2 { x: 1000, y: 1000 });
    let exact = std::f64::consts::FRAC_1_SQRT_2;
    assert!((cut.x as f64 / 1_000_000.0 - exact).abs() < 1e-6);
}

#[test]
fn cut_sticks_have_unit_length() {
    let mut x = -1000;
    while x <= 1000 {
        let mut y = -1000;
        while y <= 1000 {
            let out = limit_to_unit(Vec2 { x, y });
            let squared = out.x * out.x + out.y * out.y;
            assert!(squared <= 1_000_000_000_000, "({}, {})", x, y);
            assert!(out.x.signum() == x.signum() || out.x == 0);
            assert!(out.y.signum() == y.signum() || out.y == 0);
            if x * x + y * y > 1_000_000 {
                assert!(squared >= 999_990_000_000, "({}, {})", x, y);
                let length = (squared as f64).sqrt() / 1_000_000.0;
                assert!((length - 1.0).abs() < 5e-6);
            } else {
                assert_eq!(out, Vec2 { x: x * 1000, y: y * 1000 });
            }
            y += 40;
        }
        x += 40;
    }
}

#[test]
fn a_coordinate_moves_by_speed_time_and_stick() {
    assert_eq!(move_coord(0, 500, 16, 1_000_000, 750_000_000), 8_000_000);
    assert_eq!(move_coord(0, 500, 16, -1_000_000, 750_000_000), -8_000_000);
    assert_eq!(move_coord(1_000, 500, 16, 500_000, 750_000_000), 4_001_000);
    assert_eq!(move_coord(0, 500, 16, 707_106, 750_000_000), 5_656_848);
    assert_eq!(move_coord(0, 500, 16, -707_106, 750_000_000), -5_656_848);
    assert_eq!(move_coord(123, 500, 16, 0, 750_000_000), 123);
    assert_eq!(move_coord(123, 0, 16, 1_000_000, 750_000_000), 123);
    assert_eq!(move_coord(123, 500, 0, 1_000_000, 750_000_000), 123);
    // The way gone is rounded toward zero, to either side alike.
    assert_eq!(move_coord(0, 1, 1, 999, 750_000_000), 0);
    assert_eq!(move_coord(0, 1, 1, -999, 750_000_000), 0);
    assert_eq!(move_coord(0, 1, 1, 1_999, 750_000_000), 1);
    assert_eq!(move_coord(0, 1, 1, -1_999, 750_000_000), -1);
}

#[test]
fn a_coordinate_stops_at_the_edge() {
    assert_eq!(move_coord(749_000_000, 500, 16, 1_000_000, 750_000_000), 750_000_000);
    assert_eq!(move_coord(-749_000_000, 500, 16, -1_000_000, 750_000_000), -750_000_000);
    // A player left outside by a shrunken arena is brought back in, stick or not.
    assert_eq!(move_coord(900, 500, 16, 0, 100), 100);
    assert_eq!(move_coord(-900, 500, 16, 0, 100), -100);
    // An arena without extent holds the coordinate at 0.
    assert_eq!(move_coord(900, 500, 16, 1_000_000, 0), 0);
}

#[test]
fn a_coordinate_survives_the_largest_inputs() {
    assert_eq!(move_coord(i64::MAX, u32::MAX, u32::MAX, 1_000_000, i64::MAX), i64::MAX);
    assert_eq!(move_coord(i64::MIN, u32::MAX, u32::MAX, -1_000_000, 1), -1);
    assert_eq!(move_coord(i64::MIN, u32::MAX, u32::MAX, 1_000_000, i64::MAX), i64::MAX);
}

#[test]
fn a_coordinate_drifts_by_velocity_times_time() {
    assert_eq!(drift_coord(0, 600_000, 16), 9_600_000);
    assert_eq!(drift_coord(5, -600_000, 16), -9_599_995);
    assert_eq!(drift_coord(5, 600_000, 0), 5);
    assert_eq!(drift_coord(5, 0, 1000), 5);
}

#[test]
fn a_drift_is_held_at_the_ends_of_the_range() {
    assert_eq!(drift_coord(i64::MAX, 1, 1), i64::MAX);
    assert_eq!(drift_coord(i64::MIN, -1, 1), i64::MIN);
    assert_eq!(drift_coord(0, i64::MAX, u32::MAX), i64::MAX);
    assert_eq!(drift_coord(0, i64::MIN, u32::MAX), i64::MIN);
    assert_eq!(drift_coord(i64::MAX, -1, 1), i64::MAX - 1);
}

#[test]
fn boxes_that_share_area_overlap() {
    let a = Vec2 { x: 0, y: 0 };
    // Half-extents 25_000_000 and 5_000_000.
    assert!(overlaps(a, 50_000, Vec2 { x: 29_999_999, y: 0 }, 10_000));
    assert!(overlaps(a, 50_000, Vec2 { x: -29_999_999, y: 29_999_999 }, 10_000));
    assert!(overlaps(a, 50_000, a, 10_000));
}

#[test]
fn boxes_that_only_touch_do_not_overlap() {
    let a = Vec2 { x: 0, y: 0 };
    assert!(!overlaps(a, 50_000, Vec2 { x: 30_000_000, y: 0 }, 10_000));
    assert!(!overlaps(a, 50_000, Vec2 { x: -30_000_000, y: 0 }, 10_000));
    assert!(!overlaps(a, 50_000, Vec2 { x: 0, y: 30_000_000 }, 10_000));
    assert!(!overlaps(a, 50_000, Vec2 { x: 0, y: -30_000_000 }, 10_000));
    assert!(!overlaps(a, 50_000, Vec2 { x: 40_000_000, y: 0 }, 10_000));
}

#[test]
fn boxes_of_no_size_never_overlap() {
    let a = Vec2 { x: 7, y: 7 };
    assert!(!overlaps(a, 0, a, 0));
    assert!(overlaps(a, 0, a, 1));
}

#[test]
fn overlap_survives_the_largest_inputs() {
    let far = Vec2 { x: i64::MAX, y: i64::MAX };
    let near = Vec2 { x: i64::MIN, y: i64::MIN };
    assert!(!overlaps(far, u32::MAX, near, u32::MAX));
    assert!(overlaps(far, u32::MAX, far, u32::MAX));
}

#[test]
fn headings_wrap_into_one_turn() {
    assert_eq!(normalize_heading(0), 0);
    assert_eq!(normalize_heading(FULL_TURN), 0);
    assert_eq!(normalize_heading(FULL_TURN - 1), FULL_TURN - 1);
    assert_eq!(normalize_heading(FULL_TURN + 5), 5);
    assert_eq!(normalize_heading(-1), FULL_TURN - 1);
    assert_eq!(normalize_heading(-FULL_TURN), 0);
    assert_eq!(normalize_heading(-FULL_TURN - 1), FULL_TURN - 1);
    assert_eq!(normalize_heading(3 * FULL_TURN + HALF_TURN), HALF_TURN);
    let wrapped = normalize_heading(i64::MIN);
    assert!(0 <= wrapped && wrapped < FULL_TURN);
    assert_eq!((wrapped as i128 - i64::MIN as i128) % FULL_TURN as i128, 0);
    let wrapped = normalize_heading(i64::MAX);
    assert_eq!(wrapped, i64::MAX % FULL_TURN);
}

#[test]
fn a_whole_turn_is_two_half_turns() {
    assert_eq!(FULL_TURN, 2 * HALF_TURN);
    let pi = std::f64::consts::PI * 1_000_000.0;
    assert!((HALF_TURN as f64 - pi).abs() < 1.0);
}

#[test]
fn the_turn_budget_is_rate_times_time() {
    assert_eq!(turn_budget(13_000, 16), 208_000);
    assert_eq!(turn_budget(0, 16), 0);
    assert_eq!(turn_budget(13_000, 0), 0);
    assert_eq!(turn_budget(u32::MAX, u32::MAX), u32::MAX as u64 * u32::MAX as u64);
}

#[test]
fn half_a_turn_away_the_heading_moves_by_the_budget() {
    // Heading 0, target half a turn away, 13 rad/s for 16 ms: 0.208 rad.
    let heading = turn_toward(0, HALF_TURN, turn_budget(13_000, 16));
    assert_eq!(heading, 208_000);
    assert!((heading as f64 / 1_000_000.0 - 13.0 * 0.016).abs() < 1e-9);
}

#[test]
fn a_near_target_is_reached_at_once() {
    assert_eq!(turn_toward(0, 100_000, 208_000), 100_000);
    assert_eq!(turn_toward(0, 208_000, 208_000), 208_000);
    assert_eq!(turn_toward(500_000, 400_000, 208_000), 400_000);
    assert_eq!(turn_toward(7, 7, 0), 7);
    assert_eq!(turn_toward(0, FULL_TURN - 1, 1), FULL_TURN - 1);
}

#[test]
fn a_far_target_is_approached_the_short_way() {
    assert_eq!(turn_toward(0, 208_001, 208_000), 208_000);
    assert_eq!(turn_toward(1_000_000, 0, 208_000), 792_000);
    // Across the seam, clockwise.
    assert_eq!(turn_toward(100_000, FULL_TURN - 500_000, 208_000), FULL_TURN - 108_000);
    // Across the seam, counter-clockwise.
    assert_eq!(turn_toward(FULL_TURN - 100_000, 500_000, 208_000), 108_000);
    // One step short of half a turn the other way round.
    assert_eq!(turn_toward(0, HALF_TURN + 1, 208_000), FULL_TURN - 208_000);
    assert_eq!(turn_toward(5, 4_000_000, 0), 5);
}

#[test]
fn a_turn_never_exceeds_its_budget_nor_passes_the_target() {
    let steps = [0u64, 1, 1000, 208_000, 3_141_592, 3_141_593, 10_000_000];
    let mut from = 0;
    while from < FULL_TURN {
        let mut to = 0;
        while to < FULL_TURN {
            for step in steps {
                let out = turn_toward(from, to, step);
                assert!(0 <= out && out < FULL_TURN);
                let gone = shortest(from, out);
                let before = shortest(from, to);
                let after = shortest(out, to);
                assert!(gone <= step as i64);
                assert_eq!(after, if before > step as i64 { before - step as i64 } else { 0 });
            }
            to += 299_197;
        }
        from += 314_159;
    }
}

fn shortest(from: i64, to: i64) -> i64 {
    let around = (to - from).rem_euclid(FULL_TURN);
    if around <= HALF_TURN {
        around
    } else {
        FULL_TURN - around
    }
}
