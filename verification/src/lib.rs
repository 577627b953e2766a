//! Curve lookup tables, integer transfer arithmetic, temporal filters and
//! tickless scheduling, with their behaviour stated as Verus contracts.

mod round;

pub use round::{
    abs_int, div_nearest_ties_away, lemma_round_div_is_nearest, lemma_round_div_magnitude,
    lemma_round_div_within, round_div_ties_away,
};

mod affine;

pub use affine::{
    affine_forward, affine_inverse, checked_i32, fits_i32, lemma_matched_gain_and_scale_is_identity,
    lemma_round_trip_bound, AffineOverflow, AffineTransform, AffineTransformError,
};

mod fixed_point;

mod math;

pub use math::{
    lemma_fixed_lerp_endpoints, lemma_snap_to_step, lerp_u16, lerp_u8, map_u8_to_u16,
    next_target_value, quantize, quantize_spec, snap_to_step, Rounding, UnitValue,
};

mod curve;

pub use curve::{
    Curve, CurveLut, CurveLut256, CurveLut65536, MonotonicCurve, MonotonicCurveLut,
    MonotonicCurveLut256, MonotonicCurveLut65536,
};

mod sealed;
mod seq_sum;
mod stabilize;

pub use seq_sum::seq_sum;
pub use stabilize::{
    debounce_next, debounce_output, debounce_repeat, hysteresis_next, lemma_window_keeps_newest, newest,
    slide, slide_all, debounce_run, debounce_start, lemma_debounce_edge_means_agreement,
    lemma_debounce_latches_after_n_agreeing, Debounce, DebounceOutput, DebounceState,
    ExponentialSmoother, FilterOutput, Hysteresis, MedianFilter, MovingAverage, Stability,
    StabilityDetector, TemporalFilter, TemporalSample,
};

mod tickless;

pub use tickless::{
    clamp_offset, segment_progress, segment_progress_spec, RepeatMode, SegmentProgress, Tickless,
    TicklessDeadline, TicklessIter, TicklessSchedule, HALF_RANGE_MS,
};

pub mod gen;
