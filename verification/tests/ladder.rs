use clippr::ratio::Ratio;
use clippr::strategy::{
    reduce_params, resolve_color_index, EncodeSettings, FitState, FitVerdict, InitialParams,
    Tuning, COLOR_STEPS, MAX_ATTEMPTS, MIN_FPS, MIN_WIDTH,
};

fn ratio(numerator: u128, denominator: u128) -> Ratio {
    Ratio { numerator, denominator }
}

#[test]
fn reduce_prefers_width_first() {
    let settings = EncodeSettings { width: 480, fps: 15, color_index: 0 };
    let result = reduce_params(&settings, ratio(1, 2)).unwrap();
    assert!(result.width < 480);
    assert_eq!(result.fps, 15);
    assert_eq!(result.color_index, 0);
}

#[test]
fn reduce_falls_through_to_fps_when_width_floored() {
    let settings = EncodeSettings { width: MIN_WIDTH, fps: 15, color_index: 0 };
    let result = reduce_params(&settings, ratio(1, 2)).unwrap();
    assert_eq!(result.width, MIN_WIDTH);
    assert!(result.fps < 15);
    assert_eq!(result.color_index, 0);
}

#[test]
fn reduce_falls_through_to_colors_when_width_and_fps_floored() {
    let settings = EncodeSettings { width: MIN_WIDTH, fps: MIN_FPS, color_index: 0 };
    let result = reduce_params(&settings, ratio(1, 2)).unwrap();
    assert_eq!(result.width, MIN_WIDTH);
    assert_eq!(result.fps, MIN_FPS);
    assert_eq!(result.color_index, 1);
}

#[test]
fn reduce_returns_none_when_all_floored() {
    let settings =
        EncodeSettings { width: MIN_WIDTH, fps: MIN_FPS, color_index: COLOR_STEPS.len() - 1 };
    assert!(reduce_params(&settings, ratio(1, 2)).is_none());
}

#[test]
fn reduce_clamps_width_to_minimum() {
    let settings = EncodeSettings { width: 260, fps: 15, color_index: 0 };
    let result = reduce_params(&settings, ratio(1, 100)).unwrap();
    assert_eq!(result.width, MIN_WIDTH);
}

#[test]
fn reduce_clamps_fps_to_minimum() {
    let settings = EncodeSettings { width: MIN_WIDTH, fps: 15, color_index: 0 };
    let result = reduce_params(&settings, ratio(1, 100)).unwrap();
    assert_eq!(result.fps, MIN_FPS);
}

#[test]
fn reduce_width_uses_sqrt_of_ratio() {
    let settings = EncodeSettings { width: 480, fps: 15, color_index: 0 };
    let ratio_value = 0.5_f64;
    let result = reduce_params(&settings, ratio(1, 2)).unwrap();
    let expected = ((480.0_f64) * ratio_value.sqrt()).max(MIN_WIDTH as f64) as u32;
    assert_eq!(result.width, expected);
}

#[test]
fn reduce_fps_uses_linear_ratio() {
    let settings = EncodeSettings { width: MIN_WIDTH, fps: 15, color_index: 0 };
    let ratio_value = 0.7_f64;
    let result = reduce_params(&settings, ratio(7, 10)).unwrap();
    let expected = ((15.0_f64) * ratio_value).max(MIN_FPS as f64) as u32;
    assert_eq!(result.fps, expected);
}

#[test]
fn reduce_steps_colors_one_at_a_time() {
    let settings = EncodeSettings { width: MIN_WIDTH, fps: MIN_FPS, color_index: 1 };
    let result = reduce_params(&settings, ratio(1, 2)).unwrap();
    assert_eq!(result.color_index, 2);
}

#[test]
fn resolve_color_index_exact_match() {
    assert_eq!(resolve_color_index(256), 0);
    assert_eq!(resolve_color_index(128), 1);
    assert_eq!(resolve_color_index(64), 2);
    assert_eq!(resolve_color_index(32), 3);
}

#[test]
fn resolve_color_index_rounds_down_to_nearest_step() {
    assert_eq!(resolve_color_index(200), 1);
    assert_eq!(resolve_color_index(100), 2);
    assert_eq!(resolve_color_index(50), 3);
    assert_eq!(resolve_color_index(33), 3);
}

#[test]
fn resolve_color_index_above_max_gives_first() {
    assert_eq!(resolve_color_index(512), 0);
}

#[test]
fn reduce_only_changes_one_param_per_call() {
    let settings = EncodeSettings { width: 480, fps: 15, color_index: 0 };
    let result = reduce_params(&settings, ratio(3, 10)).unwrap();
    let mut changes = 0;
    if result.width != settings.width {
        changes += 1;
    }
    if result.fps != settings.fps {
        changes += 1;
    }
    if result.color_index != settings.color_index {
        changes += 1;
    }
    assert_eq!(changes, 1);
}

#[test]
fn resolve_color_index_below_min_gives_first() {
    assert_eq!(resolve_color_index(31), 0);
    assert_eq!(resolve_color_index(0), 0);
}

#[test]
fn reduce_width_exact_values() {
    let settings = EncodeSettings { width: 480, fps: 15, color_index: 0 };
    // 480 * sqrt(1/2) = 339.41...
    assert_eq!(reduce_params(&settings, ratio(1, 2)).unwrap().width, 339);
    // 480 * sqrt(9/16) = 360 exactly
    assert_eq!(reduce_params(&settings, ratio(9, 16)).unwrap().width, 360);
    // 480 * sqrt(3/10) = 262.9...
    assert_eq!(reduce_params(&settings, ratio(3, 10)).unwrap().width, 262);
    // just under one: 480 * sqrt(0.999...) = 479.9...
    assert_eq!(
        reduce_params(&settings, ratio(u128::MAX - 1, u128::MAX)).unwrap().width,
        479
    );
}

#[test]
fn reduce_fps_exact_values() {
    let settings = EncodeSettings { width: MIN_WIDTH, fps: 30, color_index: 2 };
    assert_eq!(
        reduce_params(&settings, ratio(7, 10)),
        Some(EncodeSettings { width: MIN_WIDTH, fps: 21, color_index: 2 })
    );
    assert_eq!(
        reduce_params(&settings, ratio(29, 100)),
        Some(EncodeSettings { width: MIN_WIDTH, fps: 8, color_index: 2 })
    );
    assert_eq!(
        reduce_params(&settings, ratio(1, 3)),
        Some(EncodeSettings { width: MIN_WIDTH, fps: 10, color_index: 2 })
    );
}

#[test]
fn ratio_of_one_or_more_moves_the_palette_only() {
    let settings = EncodeSettings { width: 480, fps: 15, color_index: 0 };
    for r in [ratio(1, 1), ratio(3, 2), ratio(u128::MAX, 1)] {
        assert_eq!(
            reduce_params(&settings, r),
            Some(EncodeSettings { width: 480, fps: 15, color_index: 1 })
        );
    }
    let last = EncodeSettings { width: 480, fps: 15, color_index: 3 };
    assert_eq!(reduce_params(&last, ratio(1, 1)), None);
}

#[test]
fn ratio_of_zero_drops_to_the_floor() {
    let settings = EncodeSettings { width: u32::MAX, fps: u32::MAX, color_index: 0 };
    let next = reduce_params(&settings, ratio(0, 7)).unwrap();
    assert_eq!(next, EncodeSettings { width: MIN_WIDTH, fps: u32::MAX, color_index: 0 });
    let next = reduce_params(&next, ratio(0, 7)).unwrap();
    assert_eq!(next, EncodeSettings { width: MIN_WIDTH, fps: MIN_FPS, color_index: 0 });
}

#[test]
fn settings_below_the_floor_are_never_raised() {
    let settings = EncodeSettings { width: 100, fps: 4, color_index: 3 };
    assert_eq!(reduce_params(&settings, ratio(1, 2)), None);
    let settings = EncodeSettings { width: 100, fps: 4, color_index: 7 };
    assert_eq!(reduce_params(&settings, ratio(1, 2)), None);
    let settings = EncodeSettings { width: 100, fps: 4, color_index: usize::MAX };
    assert_eq!(reduce_params(&settings, ratio(1, 2)), None);
}

#[test]
fn widest_width_and_largest_ratio_parts_do_not_overflow() {
    let settings = EncodeSettings { width: u32::MAX, fps: 15, color_index: 0 };
    let next = reduce_params(&settings, ratio(u128::MAX / 4, u128::MAX)).unwrap();
    // u32::MAX * sqrt(1/4) rounded down
    assert_eq!(next.width, 2147483647);
}

#[test]
fn ratio_new_refuses_zero_denominator() {
    assert_eq!(Ratio::new(1, 0), None);
    assert_eq!(Ratio::new(1, 2), Some(ratio(1, 2)));
    assert!(ratio(1, 2).is_below_one());
    assert!(!ratio(2, 2).is_below_one());
    assert_eq!(ratio(1, 2).shrink(9), Some(4));
    assert_eq!(ratio(2, 2).shrink(9), None);
    assert_eq!(ratio(1, 2).shrink_root(100), Some(70));
    assert_eq!(ratio(5, 2).shrink_root(100), None);
}

#[test]
fn tightened_bounds_move_the_floors() {
    let tuning = Tuning {
        min_width: 100,
        min_fps: 2,
        color_steps: vec![16, 8],
        ..Tuning::default()
    };
    assert!(tuning.is_valid());
    let settings = EncodeSettings { width: 120, fps: 15, color_index: 0 };
    let next = tuning.reduce(&settings, ratio(1, 100)).unwrap();
    assert_eq!(next, EncodeSettings { width: 100, fps: 15, color_index: 0 });
    let next = tuning.reduce(&next, ratio(1, 100)).unwrap();
    assert_eq!(next, EncodeSettings { width: 100, fps: 2, color_index: 0 });
    let next = tuning.reduce(&next, ratio(1, 100)).unwrap();
    assert_eq!(next, EncodeSettings { width: 100, fps: 2, color_index: 1 });
    assert_eq!(tuning.reduce(&next, ratio(1, 100)), None);
    assert_eq!(tuning.color_index(20), 0);
    assert_eq!(tuning.color_index(10), 1);
    assert_eq!(tuning.color_index(3), 0);
}

#[test]
fn bounds_that_cannot_be_worked_with_are_told() {
    assert!(Tuning::default().is_valid());
    assert!(!Tuning { color_steps: vec![], ..Tuning::default() }.is_valid());
    assert!(!Tuning { max_attempts: 0, ..Tuning::default() }.is_valid());
    assert!(!Tuning { min_split_ms: 0, ..Tuning::default() }.is_valid());
    assert!(!Tuning { margin_denominator: 0, ..Tuning::default() }.is_valid());
}

#[test]
fn standard_bounds_are_the_named_defaults() {
    let tuning = Tuning::default();
    assert_eq!(tuning.min_width, 240);
    assert_eq!(tuning.min_fps, 8);
    assert_eq!(tuning.color_steps, vec![256, 128, 64, 32]);
    assert_eq!(tuning.max_attempts, 5);
    assert_eq!(tuning.min_split_ms, 500);
    assert_eq!((tuning.margin_numerator, tuning.margin_denominator), (9, 10));
    assert_eq!(MAX_ATTEMPTS, 5);
}

#[test]
fn fitter_takes_an_encode_within_the_budget() {
    let tuning = Tuning::default();
    let state = tuning.fit_start(&InitialParams { width: 480, fps: 15, colors: 200 });
    assert_eq!(
        state,
        FitState { settings: EncodeSettings { width: 480, fps: 15, color_index: 1 }, attempts: 0 }
    );
    assert_eq!(tuning.fit_step(1000, &state, 1000), FitVerdict::Fits { size: 1000 });
    assert_eq!(tuning.fit_step(1000, &state, 0), FitVerdict::Fits { size: 0 });
}

#[test]
fn fitter_applies_the_safety_margin() {
    let tuning = Tuning::default();
    let state = tuning.fit_start(&InitialParams { width: 1000, fps: 15, colors: 256 });
    // ratio = 1000 / 2000 * 0.9 = 0.45; 1000 * sqrt(0.45) = 670.8...
    match tuning.fit_step(1000, &state, 2000) {
        FitVerdict::Retry { next } => {
            assert_eq!(next.settings, EncodeSettings { width: 670, fps: 15, color_index: 0 });
            assert_eq!(next.attempts, 1);
        }
        other => panic!("{:?}", other),
    }
    // just over the budget the margin alone makes the next encode smaller:
    // 1000 * sqrt(1000 / 1001 * 0.9) = 948.2...
    match tuning.fit_step(1000, &state, 1001) {
        FitVerdict::Retry { next } => assert_eq!(next.settings.width, 948),
        other => panic!("{:?}", other),
    }
}

#[test]
fn fitter_gives_up_after_five_attempts() {
    let tuning = Tuning::default();
    let mut state = tuning.fit_start(&InitialParams { width: 480, fps: 15, colors: 256 });
    let mut seen = vec![state.settings];
    let attempts = loop {
        match tuning.fit_step(1000, &state, u64::MAX) {
            FitVerdict::Retry { next } => {
                state = next;
                seen.push(state.settings);
            }
            FitVerdict::Unreachable { attempts } => break attempts,
            FitVerdict::Fits { .. } => panic!("nothing fits"),
        }
    };
    assert_eq!(attempts, 5);
    assert_eq!(
        seen,
        vec![
            EncodeSettings { width: 480, fps: 15, color_index: 0 },
            EncodeSettings { width: 240, fps: 15, color_index: 0 },
            EncodeSettings { width: 240, fps: 8, color_index: 0 },
            EncodeSettings { width: 240, fps: 8, color_index: 1 },
            EncodeSettings { width: 240, fps: 8, color_index: 2 },
        ]
    );
}

#[test]
fn fitter_gives_up_early_at_the_end_of_the_ladder() {
    let tuning = Tuning::default();
    let state = tuning.fit_start(&InitialParams { width: 240, fps: 8, colors: 32 });
    assert_eq!(tuning.fit_step(1000, &state, 2000), FitVerdict::Unreachable { attempts: 1 });
    let state = FitState { settings: EncodeSettings { width: 240, fps: 8, color_index: 2 }, attempts: 2 };
    match tuning.fit_step(1000, &state, 2000) {
        FitVerdict::Retry { next } => assert_eq!(next.attempts, 3),
        other => panic!("{:?}", other),
    }
    let state = FitState { settings: EncodeSettings { width: 240, fps: 8, color_index: 3 }, attempts: 3 };
    assert_eq!(tuning.fit_step(1000, &state, 2000), FitVerdict::Unreachable { attempts: 4 });
}

#[test]
fn fitter_with_one_attempt_never_retries() {
    let tuning = Tuning { max_attempts: 1, ..Tuning::default() };
    let state = tuning.fit_start(&InitialParams { width: 480, fps: 15, colors: 256 });
    assert_eq!(tuning.fit_step(1000, &state, 1001), FitVerdict::Unreachable { attempts: 1 });
    assert_eq!(tuning.fit_step(1000, &state, 999), FitVerdict::Fits { size: 999 });
}

#[test]
fn fitter_handles_the_largest_sizes() {
    let tuning = Tuning { margin_numerator: u32::MAX, margin_denominator: 1, ..Tuning::default() };
    let state = tuning.fit_start(&InitialParams { width: 480, fps: 15, colors: 256 });
    // the margin makes the ratio larger than one: only the palette moves
    match tuning.fit_step(u64::MAX - 1, &state, u64::MAX) {
        FitVerdict::Retry { next } => {
            assert_eq!(next.settings, EncodeSettings { width: 480, fps: 15, color_index: 1 })
        }
        other => panic!("{:?}", other),
    }
}

#[test]
fn encode_params_take_the_palette_size_of_the_rung() {
    let tuning = Tuning::default();
    let settings = EncodeSettings { width: 300, fps: 12, color_index: 2 };
    let params = tuning.encode_params(&settings, 1500, 375);
    assert_eq!(
        (params.width, params.fps, params.colors, params.start_ms, params.duration_ms),
        (300, 12, 64, 1500, 375)
    );
}
