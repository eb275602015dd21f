use grindlewald::breathing::{
    average_frame_interval, color_at_position, cycle_positions, default_color_step,
    default_cycle_seconds, frames_per_cycle, minimum_cycle_seconds, next_frame_deadline,
    resolve_cycle_seconds, rgb_at_position, validate_color_step, ColorCycle, PerceptualCycle,
    COLOR_COUNT,
    MAX_COLOR_STEP, MAX_CYCLE_SECONDS, MIN_AVERAGE_INTERVAL_NANOS,
};
use grindlewald::protocol::parse_hex_color;
use std::collections::HashSet;

#[test]
fn every_step_completes_one_exact_lap_with_the_expected_number_of_updates() {
    for step in 1..=MAX_COLOR_STEP {
        for origin in [0, 254, 765, 1529] {
            let mut cycle = ColorCycle::new(origin, step).unwrap();
            let count = frames_per_cycle(step);
            let mut previous = origin;
            let mut travelled = 0;
            for index in 1..=count {
                let position = cycle.advance();
                let distance = (position + COLOR_COUNT - previous) % COLOR_COUNT;
                assert_eq!(distance, if index == count { COLOR_COUNT - travelled } else { step });
                travelled += distance;
                previous = position;
            }
            assert_eq!(travelled, COLOR_COUNT);
            assert_eq!(previous, origin);
            assert_eq!(cycle.advance(), (origin + step) % COLOR_COUNT);
        }
        let minimum = minimum_cycle_seconds(step);
        assert!(average_frame_interval(minimum - 1, step).is_err());
        for duration in [minimum, 600, MAX_CYCLE_SECONDS] {
            let interval = average_frame_interval(duration, step).unwrap();
            assert!(interval >= MIN_AVERAGE_INTERVAL_NANOS);
            let total = interval as f64 * f64::from(frames_per_cycle(step)) / 1e9;
            assert!((total - f64::from(duration)).abs() < 0.00001);
        }
    }
    assert_eq!(minimum_cycle_seconds(1), 459);
    assert_eq!(minimum_cycle_seconds(100), 5);
    assert!(average_frame_interval(600, 0).is_err());
    assert!(average_frame_interval(600, 101).is_err());
}

#[test]
fn scheduler_accounts_for_writes_and_never_catches_up_in_a_burst() {
    let start: u64 = 5_000_000_000;
    let interval: u64 = 1_000_000_000;
    assert_eq!(next_frame_deadline(start, start + 50_000_000, interval), start + interval);
    assert_eq!(
        next_frame_deadline(start, start + 3_000_000_000, interval),
        start + 3_000_000_000
    );
    assert_eq!(
        next_frame_deadline(start, start + 50_000_000, MIN_AVERAGE_INTERVAL_NANOS),
        start + MIN_AVERAGE_INTERVAL_NANOS
    );
}

#[test]
fn legacy_and_new_commands_preserve_cycle_duration_bounds() {
    assert_eq!(resolve_cycle_seconds(None, None, 1).unwrap(), 600);
    // A 0.1 s legacy pace converts to a lap shorter than the minimum, which
    // the conversion raises to the minimum for the step.
    assert_eq!(resolve_cycle_seconds(None, Some(Ok(459)), 1).unwrap(), 459);
    assert_eq!(resolve_cycle_seconds(None, Some(Ok(5)), 100).unwrap(), 5);
    assert!(resolve_cycle_seconds(Some(458), None, 1).is_err());
    assert!(resolve_cycle_seconds(Some(600), Some(Ok(600)), 1).is_err());
    assert!(resolve_cycle_seconds(None, Some(Err("invalid legacy breathing pace".into())), 1)
        .is_err());
    assert!(resolve_cycle_seconds(Some(3601), None, 1).is_err());
    assert!(resolve_cycle_seconds(Some(600), None, 1).is_ok());
}

#[test]
fn cycle_errors_name_the_allowed_range() {
    assert_eq!(
        average_frame_interval(458, 1).unwrap_err(),
        "full cycle must be between 459 and 3600 seconds for color step 1"
    );
    assert_eq!(
        average_frame_interval(600, 0).unwrap_err(),
        "breathing color step must be between 1 and 100"
    );
    assert_eq!(
        resolve_cycle_seconds(Some(1), Some(Ok(600)), 1).unwrap_err(),
        "choose cycle_seconds or legacy pace_seconds, not both"
    );
    assert_eq!(average_frame_interval(600, 1).unwrap(), 392_156_862);
    assert_eq!(average_frame_interval(5, 100).unwrap(), 312_500_000);
}

#[test]
fn minimum_step_changes_exactly_one_channel_by_one_including_corners_and_wrap() {
    let mut colors = HashSet::new();
    for position in 0..COLOR_COUNT {
        let current = color_at_position(position);
        assert!(colors.insert(current.clone()));
        let current = parse_hex_color(&current).unwrap();
        let next = parse_hex_color(&color_at_position(position + 1)).unwrap();
        let change: u16 =
            current.iter().zip(next).map(|(a, b)| u16::from(a.abs_diff(b))).sum();
        assert_eq!(change, 1, "position {position}");
    }
    assert_eq!(colors.len(), usize::from(COLOR_COUNT));
    assert_eq!(color_at_position(COLOR_COUNT), color_at_position(0));
}

#[test]
fn preserves_the_existing_color_order() {
    for (position, expected) in [
        (0, "#ff0000"),
        (255, "#ffff00"),
        (510, "#00ff00"),
        (765, "#00ffff"),
        (1020, "#0000ff"),
        (1275, "#ff00ff"),
    ] {
        assert_eq!(color_at_position(position), expected);
    }
}

#[test]
fn every_supported_step_produces_a_different_color_at_every_position() {
    for position in 0..COLOR_COUNT {
        for step in 1..=MAX_COLOR_STEP {
            assert_ne!(color_at_position(position), color_at_position(position + step));
        }
    }
}

#[test]
fn supported_steps_are_one_through_one_hundred() {
    for step in [1, MAX_COLOR_STEP] {
        assert!(validate_color_step(step).is_ok());
    }
    for step in [0, MAX_COLOR_STEP + 1, u16::MAX] {
        assert!(validate_color_step(step).is_err());
    }
    assert!(ColorCycle::new(0, 0).is_err());
    assert_eq!(default_color_step(), 1);
    assert_eq!(default_cycle_seconds(), 600);
}

#[test]
fn lap_positions_follow_the_cycle_and_return_to_the_origin() {
    for step in [1, 7, 100] {
        let positions = cycle_positions(1529, step).unwrap();
        assert_eq!(positions.len(), usize::from(frames_per_cycle(step)));
        assert_eq!(positions[0], 1529);
        let mut cycle = ColorCycle::new(1529, step).unwrap();
        for position in &positions[1..] {
            assert_eq!(*position, cycle.advance());
        }
        assert_eq!(cycle.advance(), 1529);
    }
    assert_eq!(frames_per_cycle(7), 219);
    assert!(cycle_positions(0, 101).is_err());
}

#[test]
fn seeking_restarts_the_lap_at_the_new_position() {
    let mut cycle = ColorCycle::new(10, 5).unwrap();
    cycle.advance();
    cycle.seek(700);
    assert_eq!(cycle.current(), 700);
    assert_eq!(cycle.advance(), 705);
}

#[test]
fn wheel_corners_have_exact_rgb_values() {
    assert_eq!(rgb_at_position(0), [255, 0, 0]);
    assert_eq!(rgb_at_position(128), [255, 128, 0]);
    assert_eq!(rgb_at_position(1529), [255, 0, 1]);
    assert_eq!(rgb_at_position(1530 + 255), [255, 255, 0]);
}

#[test]
fn perceptual_laps_pair_positions_with_given_levels_and_intervals() {
    let frames = usize::from(frames_per_cycle(100));
    let brightness: Vec<u8> = (0..frames).map(|k| k as u8).collect();
    let intervals: Vec<u64> = (0..frames).map(|k| 1_000 + k as u64).collect();
    let plan = PerceptualCycle::new(1529, 100, 5, &brightness, &intervals).unwrap();
    assert_eq!(plan.frames.len(), frames);
    assert_eq!(plan.frames[0].position, 1529);
    assert_eq!(plan.frames[1].position, 99);
    assert_eq!(plan.frames[3].brightness, 3);
    assert_eq!(plan.frames[3].interval_nanos, 1_003);
    assert_eq!(
        PerceptualCycle::new(0, 100, 4, &brightness, &intervals).unwrap_err(),
        "full cycle must be between 5 and 3600 seconds for color step 100"
    );
}
