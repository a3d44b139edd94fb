use backtest::regime::VolatilityRegime::{High, Low, Medium};
use backtest::regime::{
    regime_coverage_incomplete, regime_coverage_narrative, regime_segment_count, regime_segments,
    window_regime_label, VolatilityRegime,
};
use backtest::walk_forward::{
    resolve_auto_wf_windows, resolve_wf_purge_gap_bars, resolve_wf_step, resolve_wf_window_offsets,
    stage1_training_only_end,
};

/// Share of the data that is trained on.
const WF_TRAIN_FRAC: f64 = 0.7;

#[test]
fn stage1_training_only_end_never_exceeds_wf_train_frac_of_total() {
    for total in [0usize, 1, 2, 10, 1000, 1_000_000, 12_345] {
        let boundary = stage1_training_only_end(total);
        assert!(boundary <= total, "boundary {} must not exceed total {}", boundary, total);
        if total > 0 {
            assert!(boundary >= 1, "boundary must be at least 1 for non-empty data (total={})", total);
        } else {
            assert_eq!(boundary, 0, "empty data must yield an empty training slice");
        }
    }
}

#[test]
fn stage1_training_only_end_matches_wf_train_frac_ratio() {
    // For a large total, the boundary should land close to WF_TRAIN_FRAC
    // of the range — i.e. Stage 1 sees roughly the same "training" portion
    // run_walk_forward's first window treats as train, not the tail that
    // becomes the most recent OOS test window.
    let total = 100_000;
    let boundary = stage1_training_only_end(total);
    let ratio = boundary as f64 / total as f64;
    assert!((ratio - WF_TRAIN_FRAC).abs() < 0.01, "ratio {} should be close to WF_TRAIN_FRAC {}", ratio, WF_TRAIN_FRAC);
}

#[test]
fn stage1_training_only_end_excludes_the_tail_walk_forward_treats_as_oos() {
    // The core regression this fix targets: Stage 1 must never see the
    // final slice of data that run_walk_forward's last window uses as its
    // test (OOS) period. Concretely, the boundary must be strictly less
    // than the total length whenever there's enough data for a real
    // train/test split to matter.
    let total = 500_000;
    let boundary = stage1_training_only_end(total);
    assert!(boundary < total, "Stage 1 must not see the full range — some tail must be excluded");
    // The excluded tail should be roughly (1 - WF_TRAIN_FRAC) of the range.
    let excluded_frac = (total - boundary) as f64 / total as f64;
    assert!((excluded_frac - (1.0 - WF_TRAIN_FRAC)).abs() < 0.01);
}
#[test]
fn resolve_auto_wf_windows_short_calendar_span_stays_low_even_with_huge_bar_count() {
    // 3 months of 1-second bars: enormous data_len, but only one quarter
    // of real calendar history -- the core regression this heuristic
    // fixes. Bar-count-only sizing would have picked 8 here.
    let calendar_days = 90;
    let data_len = 5_000_000;
    assert_eq!(resolve_auto_wf_windows(calendar_days, data_len, None), 3);
}

#[test]
fn resolve_auto_wf_windows_long_calendar_span_is_capped_by_sparse_bar_count() {
    // 10 years of daily bars (~2500 bars): calendar time alone would want
    // 12 windows, but there isn't enough data per window at that count --
    // the bar-count floor must win.
    let calendar_days = 3650;
    let data_len = 2500;
    let windows = resolve_auto_wf_windows(calendar_days, data_len, None);
    assert!(windows <= 8usize.min(data_len / 500), "must respect the bar-count ceiling");
    assert!(windows >= 3, "must never drop below the stated minimum of 3");
}

#[test]
fn resolve_auto_wf_windows_matching_calendar_span_and_bar_count_lands_at_the_intended_target() {
    // 2 years, plenty of bars: both constraints agree around 8.
    let calendar_days = 730;
    let data_len = 500_000;
    assert_eq!(resolve_auto_wf_windows(calendar_days, data_len, None), 8);
}

#[test]
fn resolve_auto_wf_windows_never_returns_below_three() {
    for calendar_days in [0usize, 1, 30, 89] {
        for data_len in [0usize, 1, 100, 999, 1000, 1500] {
            let windows = resolve_auto_wf_windows(calendar_days, data_len, None);
            assert!(windows >= 3, "calendar_days={} data_len={} produced {} windows, expected >= 3", calendar_days, data_len, windows);
        }
    }
}

#[test]
fn resolve_auto_wf_windows_never_exceeds_twelve() {
    assert!(resolve_auto_wf_windows(100_000, 10_000_000, None) <= 12);
}
#[test]
fn regime_segment_count_is_zero_for_empty_or_all_none() {
    assert_eq!(regime_segment_count(&[]), 0);
    assert_eq!(regime_segment_count(&[None, None, None]), 0);
}

#[test]
fn regime_segment_count_counts_a_single_segment_once() {
    let regimes = vec![Some(VolatilityRegime::Low), Some(VolatilityRegime::Low), Some(VolatilityRegime::Low)];
    assert_eq!(regime_segment_count(&regimes), 1);
}

#[test]
fn regime_segment_count_counts_each_transition() {
    let regimes = vec![
        Some(VolatilityRegime::Low), Some(VolatilityRegime::Low),
        Some(VolatilityRegime::Medium),
        Some(VolatilityRegime::High), Some(VolatilityRegime::High),
        Some(VolatilityRegime::Low),
    ];
    assert_eq!(regime_segment_count(&regimes), 4);
}

#[test]
fn regime_segment_count_skips_none_gaps_without_fragmenting_a_segment() {
    // A None gap (e.g. missing bars) mid-run of the same label must not
    // be counted as a second segment.
    let regimes = vec![Some(VolatilityRegime::Low), None, None, Some(VolatilityRegime::Low)];
    assert_eq!(regime_segment_count(&regimes), 1);
}
#[test]
fn resolve_wf_purge_gap_bars_is_nonzero_for_daily_bars() {
    // 400 daily bars spanning ~400 days -> avg_bar_ms ~= 1 day, so a
    // 5-day gap should land at (roughly) 5 bars.
    let n = 400;
    let span_ms = 400 * 86_400_000i64;
    let test_size = 60; // plenty of headroom vs. the 5-bar gap
    let gap = resolve_wf_purge_gap_bars(n, span_ms, test_size);
    assert_eq!(gap, 5, "daily bars should convert WF_PURGE_GAP_DAYS to ~5 bars, got {gap}");
}

#[test]
fn resolve_wf_purge_gap_bars_scales_down_for_finer_granularity() {
    // Hourly bars: 5 days = 120 hours = 120 bars at this granularity --
    // the SAME calendar embargo should mean more bars, not the same
    // literal bar count, when the data is more fine-grained.
    let n = 24 * 400; // 400 days of hourly bars
    let span_ms = 400 * 86_400_000i64;
    let test_size = 10_000; // large enough not to trigger the cap
    let gap = resolve_wf_purge_gap_bars(n, span_ms, test_size);
    assert_eq!(gap, 120, "hourly bars should convert 5 calendar days to 120 bars, got {gap}");
}

#[test]
fn resolve_wf_purge_gap_bars_never_exceeds_half_the_test_window() {
    // A short/coarse-granularity window (data_len small enough that the
    // computed gap would exceed the test slice) must be capped, not
    // allowed to swallow the entire (or more than the entire) test
    // window -- a smaller-than-intended embargo is a much better failure
    // mode than a walk-forward window with zero or negative test bars.
    let n = 20;
    let span_ms = 20 * 86_400_000i64; // daily bars, gap would want to be ~5
    let test_size = 4; // smaller than the natural 5-bar gap
    let gap = resolve_wf_purge_gap_bars(n, span_ms, test_size);
    assert!(gap <= test_size / 2, "gap {gap} must not exceed half of test_size {test_size}");
}

#[test]
fn resolve_wf_purge_gap_bars_handles_degenerate_span_without_panicking() {
    // n <= 1 or span_ms == 0 must fall back gracefully (1ms-per-bar
    // assumption, so the nominal gap comes out huge and immediately
    // hits the half-of-test_size cap) -- never divide by zero or panic,
    // and always stay within the same bound every other case respects.
    for (n, span_ms, test_size) in [(0usize, 0i64, 100usize), (1, 0, 100), (100, 0, 100)] {
        let gap = resolve_wf_purge_gap_bars(n, span_ms, test_size);
        assert!(gap <= test_size / 2, "n={n} span_ms={span_ms} test_size={test_size} produced ungapped gap={gap}");
    }
}
#[test]
fn resolve_wf_step_last_window_reaches_the_end_of_the_data() {
    // Bounded by `num_windows` bars of integer-division truncation loss
    // (window_size = n / num_windows drops the remainder) -- negligible
    // in practice, not a real coverage gap the way the old formula's
    // 33-46%-of-the-range shortfall was.
    for (n, num_windows) in [(10_000usize, 3usize), (10_000, 8), (10_000, 12), (1_000_000, 8), (997, 5)] {
        let window_size = n / num_windows;
        let step = resolve_wf_step(n, window_size, num_windows);
        let last_offset = (num_windows - 1) * step;
        let last_end = last_offset + window_size;
        assert!(
            last_end <= n && last_end >= n.saturating_sub(num_windows),
            "n={n} num_windows={num_windows} window_size={window_size} step={step}: \
             last window ends at {last_end}, expected within {num_windows} bars of {n} (full-range coverage)"
        );
    }
}

#[test]
fn resolve_wf_step_produces_disjoint_back_to_back_windows() {
    // With window_size = n / num_windows, spanning the full range means
    // step == window_size (no overlap) -- a deliberate improvement over
    // the old 50%-overlap behavior (see the function's own doc comment).
    let n = 10_000;
    let num_windows = 8;
    let window_size = n / num_windows;
    let step = resolve_wf_step(n, window_size, num_windows);
    assert_eq!(step, window_size);
}

#[test]
fn resolve_wf_step_single_window_returns_window_size() {
    assert_eq!(resolve_wf_step(1000, 500, 1), 500);
    assert_eq!(resolve_wf_step(1000, 500, 0), 500);
}

#[test]
fn resolve_wf_step_never_returns_zero() {
    // A zero step would infinite-loop every call site's `offset += step`
    // sweep -- this is the hard safety floor, not just a nicety.
    for (n, window_size, num_windows) in [(100usize, 100usize, 2usize), (10, 10, 5), (0, 0, 3)] {
        assert!(resolve_wf_step(n, window_size, num_windows) >= 1);
    }
}

// ---------------------------------------------------------------------
// regime_segments / resolve_wf_window_offsets
// ---------------------------------------------------------------------

fn make_regimes(spec: &[(usize, VolatilityRegime)]) -> Vec<Option<VolatilityRegime>> {
    spec.iter().flat_map(|(count, label)| std::iter::repeat(Some(*label)).take(*count)).collect()
}

#[test]
fn regime_segments_splits_on_label_change_and_skips_none_gaps() {
    let mut regimes = make_regimes(&[(5, Low), (3, High), (4, Medium)]);
    // Insert a None gap inside the Low run -- must not split it.
    regimes[2] = None;
    let segments = regime_segments(&regimes);
    assert_eq!(segments.len(), 3);
    assert_eq!(segments[0].2, Low);
    assert_eq!(segments[0].0, 0);
    assert_eq!(segments[0].1, 4); // still spans the whole Low run despite the gap at index 2
    assert_eq!(segments[1].2, High);
    assert_eq!(segments[2].2, Medium);
}

#[test]
fn regime_segment_count_matches_regime_segments_len() {
    let regimes = make_regimes(&[(5, Low), (3, High), (4, Medium), (2, Low)]);
    assert_eq!(regime_segment_count(&regimes), regime_segments(&regimes).len());
    assert_eq!(regime_segment_count(&regimes), 4);
}

#[test]
fn resolve_wf_window_offsets_none_regimes_matches_prior_uniform_behavior() {
    let n = 10_000;
    let num_windows = 8;
    let window_size = n / num_windows;
    let step = resolve_wf_step(n, window_size, num_windows);
    let expected: Vec<usize> = (0..num_windows).map(|i| (i * step).min(n - window_size)).collect();
    assert_eq!(resolve_wf_window_offsets(n, window_size, num_windows, window_size / 3, None), expected);
}

#[test]
fn resolve_wf_window_offsets_places_a_window_in_every_present_regime() {
    // 900 bars: a long Low run, then a short High spike, then Medium --
    // uniform spacing alone (3 evenly-spaced windows) would very plausibly
    // miss the short High segment entirely.
    let regimes = make_regimes(&[(600, Low), (60, High), (240, Medium)]);
    let n = regimes.len();
    let window_size = 150;
    let test_size = 45;
    let num_windows = 3;
    let offsets = resolve_wf_window_offsets(n, window_size, num_windows, test_size, Some(&regimes));

    let segments = regime_segments(&regimes);
    let mut covered: Vec<VolatilityRegime> = Vec::new();
    for &offset in &offsets {
        let test_start = offset + window_size - test_size;
        let test_end = offset + window_size;
        let mid = (test_start + test_end) / 2;
        if let Some(label) = regimes.get(mid.min(n - 1)).copied().flatten() {
            if !covered.contains(&label) {
                covered.push(label);
            }
        }
    }
    for (_, _, label) in &segments {
        assert!(
            covered.contains(label),
            "regime {:?} present in the data but no window's test slice landed in it (offsets={:?})",
            label, offsets
        );
    }
    assert!(covered.contains(&Low) && covered.contains(&High) && covered.contains(&Medium));
}

#[test]
fn resolve_wf_window_offsets_windows_stay_disjoint_with_regimes() {
    let regimes = make_regimes(&[(300, Low), (50, High), (300, Medium), (50, Low), (300, High)]);
    let n = regimes.len();
    let window_size = 120;
    let offsets = resolve_wf_window_offsets(n, window_size, 6, 36, Some(&regimes));
    for i in 0..offsets.len() {
        for j in (i + 1)..offsets.len() {
            let (a, b) = (offsets[i], offsets[j]);
            assert!(
                a + window_size <= b || b + window_size <= a,
                "windows at {} and {} overlap (window_size={})", a, b, window_size
            );
        }
    }
}

#[test]
fn resolve_wf_window_offsets_skips_a_regime_too_short_to_fit_a_test_slice() {
    // A single-bar High blip can never host a 40-bar test slice -- must
    // not panic or produce a malformed offset, just quietly omit it.
    let mut regimes = make_regimes(&[(500, Low)]);
    regimes[250] = Some(High);
    let n = regimes.len();
    let offsets = resolve_wf_window_offsets(n, 120, 4, 40, Some(&regimes));
    assert!(!offsets.is_empty());
    for &offset in &offsets {
        assert!(offset + 120 <= n);
    }
    assert_eq!(offsets, vec![24, 252, 378]);
}

#[test]
fn resolve_wf_window_offsets_empty_regimes_falls_back_to_uniform() {
    let n = 1000;
    let window_size = 200;
    let num_windows = 4;
    let empty_regimes: Vec<Option<VolatilityRegime>> = vec![None; n];
    let with_none_regimes = resolve_wf_window_offsets(n, window_size, num_windows, 60, Some(&empty_regimes));
    let with_no_regimes = resolve_wf_window_offsets(n, window_size, num_windows, 60, None);
    assert_eq!(with_none_regimes, with_no_regimes);
}

#[test]
fn resolve_wf_window_offsets_zero_window_size_or_num_windows_returns_empty() {
    assert!(resolve_wf_window_offsets(1000, 0, 4, 10, None).is_empty());
    assert!(resolve_wf_window_offsets(1000, 100, 0, 10, None).is_empty());
    assert!(resolve_wf_window_offsets(100, 500, 4, 10, None).is_empty());
}
#[test]
fn window_regime_label_reads_the_midpoint_bar() {
    let regimes = vec![Some(VolatilityRegime::Low), Some(VolatilityRegime::Medium), Some(VolatilityRegime::High)];
    assert_eq!(window_regime_label(&regimes, 0, 2), Some(VolatilityRegime::Medium));
}

#[test]
fn window_regime_label_out_of_range_returns_none() {
    let regimes = vec![Some(VolatilityRegime::Low)];
    assert_eq!(window_regime_label(&regimes, 100, 200), None);
}

#[test]
fn regime_coverage_narrative_is_empty_when_no_regime_classified() {
    assert_eq!(regime_coverage_narrative(&[], &[]), "");
    assert_eq!(regime_coverage_narrative(&[], &[None, None]), "");
}

#[test]
fn regime_coverage_narrative_reports_full_coverage() {
    let tested_regimes = vec![Some(VolatilityRegime::Low), Some(VolatilityRegime::Medium), Some(VolatilityRegime::High)];
    let all_regimes = vec![Some(VolatilityRegime::Low), Some(VolatilityRegime::Medium), Some(VolatilityRegime::High)];
    let narrative = regime_coverage_narrative(&tested_regimes, &all_regimes);
    assert!(narrative.contains("all 3 detected regime(s) represented"), "{narrative}");
    assert!(narrative.contains("Low (1)"));
    assert!(narrative.contains("Medium (1)"));
    assert!(narrative.contains("High (1)"));
}

#[test]
fn regime_coverage_narrative_flags_partial_coverage() {
    // All 6 test windows landed in Low, but the full dataset also had
    // genuine Medium/High segments -- this is exactly the silent-gap
    // failure mode this narrative exists to surface.
    let tested_regimes: Vec<Option<VolatilityRegime>> = vec![Some(VolatilityRegime::Low); 6];
    let all_regimes = vec![Some(VolatilityRegime::Low), Some(VolatilityRegime::Medium), Some(VolatilityRegime::High)];
    let narrative = regime_coverage_narrative(&tested_regimes, &all_regimes);
    assert!(narrative.contains("Low (6) only"), "{narrative}");
    assert!(narrative.contains("Medium"));
    assert!(narrative.contains("High"));
    assert!(narrative.contains("never tested out-of-sample"));
}

#[test]
fn regime_coverage_incomplete_is_false_when_no_regime_classified() {
    assert!(!regime_coverage_incomplete(&[], &[]));
    assert!(!regime_coverage_incomplete(&[], &[None, None]));
}

#[test]
fn regime_coverage_incomplete_is_false_for_full_coverage() {
    let tested_regimes = vec![Some(VolatilityRegime::Low), Some(VolatilityRegime::Medium), Some(VolatilityRegime::High)];
    let all_regimes = vec![Some(VolatilityRegime::Low), Some(VolatilityRegime::Medium), Some(VolatilityRegime::High)];
    assert!(!regime_coverage_incomplete(&tested_regimes, &all_regimes));
}

#[test]
fn regime_coverage_incomplete_is_true_for_partial_coverage() {
    let tested_regimes: Vec<Option<VolatilityRegime>> = vec![Some(VolatilityRegime::Low); 6];
    let all_regimes = vec![Some(VolatilityRegime::Low), Some(VolatilityRegime::Medium), Some(VolatilityRegime::High)];
    assert!(regime_coverage_incomplete(&tested_regimes, &all_regimes));
}

#[test]
fn embargo_never_shrinks_on_finer_data() {
    let span = 400 * 86_400_000i64;
    let mut last = 0;
    for n in 2..4_000usize {
        let bars = resolve_wf_purge_gap_bars(n, span, n / 4 + 20);
        assert!(bars >= last);
        last = bars;
    }
}

#[test]
fn narrative_says_whether_coverage_is_complete() {
    let all = vec![Some(Low), Some(High), None];
    let complete = regime_coverage_narrative(&[Some(High), Some(Low)], &all);
    assert!(complete.contains("all 2 detected regime(s) represented"));
    assert!(!complete.contains("never tested out-of-sample"));
    let partial = regime_coverage_narrative(&[Some(High), Some(Medium)], &all);
    assert!(partial.contains("never tested out-of-sample"));
    assert!(!partial.contains("all 2 detected regime(s) represented"));
}
