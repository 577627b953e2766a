//! Temporal filters, stability detection, hysteresis and debounce.

use ph_curves::{
    Debounce, DebounceOutput, ExponentialSmoother, FilterOutput, Hysteresis, MedianFilter,
    MovingAverage, Stability, StabilityDetector, TemporalFilter, TemporalSample,
};



#[test]
fn moving_average_warms_up_and_rolls() {
    let mut filter = MovingAverage::<i32, 3>::new();
    assert_eq!(
        filter.update(3),
        FilterOutput::WarmingUp {
            samples: 1,
            required: 3
        }
    );
    assert_eq!(filter.update(6).ready(), None);
    assert_eq!(filter.update(9), FilterOutput::Ready(6));
    assert_eq!(filter.update(12), FilterOutput::Ready(9));
}

#[test]
fn moving_average_rounds_signed_ties_away() {
    let mut positive = MovingAverage::<i32, 2>::new();
    positive.update(0);
    assert_eq!(positive.update(1), FilterOutput::Ready(1));

    let mut negative = MovingAverage::<i32, 2>::new();
    negative.update(0);
    assert_eq!(negative.update(-1), FilterOutput::Ready(-1));
}

#[test]
fn moving_average_handles_integer_extremes() {
    let mut signed = MovingAverage::<i32, 2>::new();
    signed.update(i32::MIN);
    assert_eq!(signed.update(i32::MAX), FilterOutput::Ready(-1));

    let mut unsigned = MovingAverage::<u16, 2>::new();
    unsigned.update(0);
    assert_eq!(unsigned.update(u16::MAX), FilterOutput::Ready(32_768));
}

#[test]
fn median_rejects_isolated_spike() {
    let mut filter = MedianFilter::<u16, 5>::new();
    for value in [1000, 1001, 4095, 999] {
        assert!(filter.update(value).ready().is_none());
    }
    assert_eq!(filter.update(1002), FilterOutput::Ready(1001));
}

#[test]
fn exponential_smoother_has_explicit_step_response() {
    let mut filter = ExponentialSmoother::<i32>::new(32_768);
    assert_eq!(filter.update(0), FilterOutput::Ready(0));
    assert_eq!(filter.update(1000), FilterOutput::Ready(500));
    assert_eq!(filter.update(1000), FilterOutput::Ready(750));
    assert_eq!(filter.value(), Some(750));
}

#[test]
fn exponential_smoother_quantization_floor_ignores_small_steps() {
    let mut filter = ExponentialSmoother::<i32>::new(100);
    filter.update(0);
    // |delta| * alpha = 327 * 100 = 32700 < 32768, so adjustment rounds to 0.
    assert_eq!(filter.update(327), FilterOutput::Ready(0));
    // |delta| * alpha = 328 * 100 = 32800 >= 32768, so adjustment becomes 1.
    assert_eq!(filter.update(328), FilterOutput::Ready(1));
}

#[test]
fn reset_restores_warmup_or_uninitialized_state() {
    let mut average = MovingAverage::<u16, 2>::new();
    average.update(10);
    average.update(20);
    average.reset();
    assert!(average.is_empty());
    assert!(average.update(30).ready().is_none());

    let mut exponential = ExponentialSmoother::<i32>::new(1000);
    exponential.update(42);
    exponential.reset();
    assert_eq!(exponential.value(), None);
    assert_eq!(exponential.update(-7), FilterOutput::Ready(-7));
}

#[test]
fn detector_distinguishes_warm_stable_and_unstable() {
    let mut detector = StabilityDetector::<i32, 3>::new(4);
    assert!(matches!(detector.update(100), Stability::WarmingUp { .. }));
    assert!(matches!(detector.update(102), Stability::WarmingUp { .. }));
    assert_eq!(
        detector.update(104),
        Stability::Stable {
            minimum: 100,
            maximum: 104,
            span: 4
        }
    );
    assert_eq!(
        detector.update(110),
        Stability::Unstable {
            minimum: 102,
            maximum: 110,
            span: 8
        }
    );
}

#[test]
fn detector_span_handles_full_i32_range() {
    let mut detector = StabilityDetector::<i32, 2>::new(u64::MAX);
    detector.update(i32::MIN);
    assert_eq!(
        detector.update(i32::MAX),
        Stability::Stable {
            minimum: i32::MIN,
            maximum: i32::MAX,
            span: u64::from(u32::MAX)
        }
    );
}

#[test]
fn hysteresis_latches_with_hold_band() {
    let mut hyst = Hysteresis::<i32>::new(10, 20);
    assert!(!hyst.update(15));
    assert!(hyst.update(20));
    assert!(hyst.update(15));
    assert!(!hyst.update(10));
    assert!(!hyst.update(15));
}

#[test]
fn hysteresis_equal_thresholds_are_simple_threshold() {
    let mut hyst = Hysteresis::<u16>::new(100, 100);
    assert!(!hyst.update(99));
    // `value >= high` wins when low == high, so the threshold itself latches on.
    assert!(hyst.update(100));
    assert!(hyst.update(100));
    assert!(!hyst.update(99));
}

#[test]
fn hysteresis_with_initial_and_reset() {
    let mut hyst = Hysteresis::<i32>::new(-5, 5).with_initial(true);
    assert!(hyst.state());
    assert!(hyst.update(0));
    assert!(!hyst.update(-5));
    hyst.reset();
    assert!(hyst.state());
}

#[test]
fn debounce_warms_up_then_edges_on_change() {
    let mut deb = Debounce::<3>::new();
    assert_eq!(
        deb.update(true),
        DebounceOutput::WarmingUp {
            streak: 1,
            required: 3
        }
    );
    assert_eq!(
        deb.update(true),
        DebounceOutput::WarmingUp {
            streak: 2,
            required: 3
        }
    );
    assert_eq!(deb.update(true), DebounceOutput::Edge { level: true });
    assert_eq!(deb.state(), Some(true));
    assert_eq!(deb.update(true), DebounceOutput::Steady(true));
    assert_eq!(deb.update(false), DebounceOutput::Steady(true));
    assert_eq!(deb.update(false), DebounceOutput::Steady(true));
    assert_eq!(deb.update(false), DebounceOutput::Edge { level: false });
    assert_eq!(deb.update(false), DebounceOutput::Steady(false));
}

#[test]
fn debounce_candidate_flip_resets_streak() {
    let mut deb = Debounce::<3>::new();
    assert!(matches!(
        deb.update(true),
        DebounceOutput::WarmingUp { streak: 1, .. }
    ));
    assert!(matches!(
        deb.update(false),
        DebounceOutput::WarmingUp { streak: 1, .. }
    ));
    assert!(matches!(
        deb.update(false),
        DebounceOutput::WarmingUp { streak: 2, .. }
    ));
    assert_eq!(deb.update(false), DebounceOutput::Edge { level: false });
}

#[test]
fn debounce_n_one_is_passthrough_with_edges() {
    let mut deb = Debounce::<1>::new();
    assert_eq!(deb.update(false), DebounceOutput::Edge { level: false });
    assert_eq!(deb.update(false), DebounceOutput::Steady(false));
    assert_eq!(deb.update(true), DebounceOutput::Edge { level: true });
    assert_eq!(deb.update(true), DebounceOutput::Steady(true));
}

#[test]
fn debounce_reset_returns_to_warmup() {
    let mut deb = Debounce::<2>::new();
    deb.update(true);
    deb.update(true);
    assert_eq!(deb.state(), Some(true));
    deb.reset();
    assert_eq!(deb.state(), None);
    assert!(matches!(
        deb.update(false),
        DebounceOutput::WarmingUp { .. }
    ));
}

#[test]
fn hysteresis_into_debounce_composition() {
    let mut hyst = Hysteresis::<i32>::new(10, 20);
    let mut deb = Debounce::<2>::new();
    let mut edges = 0u8;
    for sample in [0, 25, 25, 15, 5, 5, 5] {
        let level = hyst.update(sample);
        if matches!(deb.update(level), DebounceOutput::Edge { .. }) {
            edges += 1;
        }
    }
    assert_eq!(edges, 2);
    assert_eq!(deb.state(), Some(false));
}

#[test]
fn u32_moving_average_warms_up_rolls_and_resets() {
    let mut filter = MovingAverage::<u32, 3>::new();
    assert!(filter.is_empty());
    assert_eq!(
        filter.update(3),
        FilterOutput::WarmingUp {
            samples: 1,
            required: 3
        }
    );
    assert_eq!(filter.len(), 1);
    assert_eq!(filter.update(6).ready(), None);
    assert_eq!(filter.update(9), FilterOutput::Ready(6));
    assert_eq!(filter.len(), 3);
    assert_eq!(filter.update(12), FilterOutput::Ready(9));
    filter.reset();
    assert!(filter.is_empty());
    assert_eq!(filter.len(), 0);
    assert!(filter.update(30).ready().is_none());
}

#[test]
fn u32_moving_average_handles_zero_max_and_ties() {
    let mut filter = MovingAverage::<u32, 2>::new();
    filter.update(0);
    assert_eq!(filter.update(u32::MAX), FilterOutput::Ready(2_147_483_648));

    let mut both_max = MovingAverage::<u32, 2>::new();
    both_max.update(u32::MAX);
    assert_eq!(both_max.update(u32::MAX), FilterOutput::Ready(u32::MAX));

    let mut zeros = MovingAverage::<u32, 2>::new();
    zeros.update(0);
    assert_eq!(zeros.update(0), FilterOutput::Ready(0));
}

#[test]
fn u32_moving_average_window_bound_is_accumulator_limited() {
    let max: usize = <u32 as TemporalSample>::max_window();
    assert_eq!(max, 2_147_483_648);
    assert_eq!(max as i64, i64::MAX / i64::from(u32::MAX));
    assert!((max as i64).checked_mul(i64::from(u32::MAX)).is_some());
    assert!(
        ((max as i64) + 1)
            .checked_mul(i64::from(u32::MAX))
            .is_none()
    );
}

#[test]
fn u32_median_covers_full_unsigned_width() {
    let mut filter = MedianFilter::<u32, 3>::new();
    assert!(filter.update(0).ready().is_none());
    assert!(filter.update(u32::MAX).ready().is_none());
    assert_eq!(filter.update(1), FilterOutput::Ready(1));
    assert_eq!(filter.update(u32::MAX), FilterOutput::Ready(u32::MAX));
}

#[test]
fn u32_exponential_smoother_extreme_transitions() {
    let mut up = ExponentialSmoother::<u32>::new(u16::MAX);
    assert_eq!(up.update(0), FilterOutput::Ready(0));
    assert_eq!(up.update(u32::MAX), FilterOutput::Ready(u32::MAX));

    let mut down = ExponentialSmoother::<u32>::new(u16::MAX);
    assert_eq!(down.update(u32::MAX), FilterOutput::Ready(u32::MAX));
    assert_eq!(down.update(0), FilterOutput::Ready(0));
}

#[test]
fn u32_detector_span_covers_full_unsigned_range() {
    let mut detector = StabilityDetector::<u32, 2>::new(u64::MAX);
    detector.update(0);
    assert_eq!(
        detector.update(u32::MAX),
        Stability::Stable {
            minimum: 0,
            maximum: u32::MAX,
            span: u64::from(u32::MAX)
        }
    );
}

#[test]
fn u32_hysteresis_latches_at_unsigned_boundaries() {
    let mut hyst = Hysteresis::<u32>::new(0, u32::MAX);
    assert!(!hyst.update(1));
    assert!(hyst.update(u32::MAX));
    assert!(hyst.update(1));
    assert!(!hyst.update(0));
    assert!(!hyst.update(1));
}

#[test]
fn u32_hysteresis_equal_thresholds_at_boundaries() {
    let mut at_zero = Hysteresis::<u32>::new(0, 0);
    assert!(at_zero.update(0));

    let mut at_max = Hysteresis::<u32>::new(u32::MAX, u32::MAX);
    assert!(!at_max.update(u32::MAX - 1));
    assert!(at_max.update(u32::MAX));
    assert!(at_max.update(u32::MAX));
    assert!(!at_max.update(u32::MAX - 1));
}


#[test]
fn debounce_edge_comes_only_after_n_agreeing_samples() {
    let mut deb = Debounce::<3>::new();
    let samples = [true, false, true, true, false, false, false, true];
    let mut history: Vec<bool> = Vec::new();
    for sample in samples {
        history.push(sample);
        if let DebounceOutput::Edge { level } = deb.update(sample) {
            assert!(history.len() >= 3);
            assert!(history[history.len() - 3..].iter().all(|&s| s == level));
        }
    }
    assert_eq!(deb.state(), Some(false));
}
