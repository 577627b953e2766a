//! Tickless scheduling helpers for monotonic curves.
//!
//! Instead of polling a curve at a fixed tick rate, the tickless scheduler
//! computes the wall-clock deadline at which the *quantized* output value
//! will next change.
//!
//! Timestamps are free-running `u32` milliseconds and all schedule math uses
//! wrapping arithmetic. Deadline clamping works on offsets from `t0_ms`,
//! never on absolute timestamps; the half-range convention
//! (`now - t0 > i32::MAX` means "before the start") applies only to
//! segments no longer than `i32::MAX` milliseconds.

use vstd::prelude::*;

use crate::curve::{Curve, MonotonicCurve};
use crate::math::{lemma_quantize_ordered, quantize, quantize_spec, Rounding, UnitValue};

verus! {

/// Half the `u32` range. Deltas larger than this are treated as negative under
/// the signed wrapping convention used by free-running embedded clocks.
pub const HALF_RANGE_MS: u32 = 0x7fff_ffff;

/// Progress of `now_ms` relative to a segment `[t0, t0 + duration)`.
#[derive(Copy, Clone, Debug, PartialEq, Eq, Structural)]
pub enum SegmentProgress {
    /// `now` precedes the segment.
    BeforeStart,
    /// `now` lies inside the segment, at this elapsed offset.
    InSegment(u32),
    /// The segment is over (or has zero length).
    PastEnd,
}

/// Classification of `now` against a segment.
pub open spec fn segment_progress_spec(t0_ms: u32, duration_ms: u32, now_ms: u32) -> SegmentProgress {
    let elapsed = now_ms.wrapping_sub(t0_ms);
    if duration_ms == 0 {
        SegmentProgress::PastEnd
    } else if duration_ms <= HALF_RANGE_MS && elapsed > HALF_RANGE_MS {
        SegmentProgress::BeforeStart
    } else if elapsed >= duration_ms {
        SegmentProgress::PastEnd
    } else {
        SegmentProgress::InSegment(elapsed)
    }
}

/// Classify `now` against a segment start/duration with wrap-safe elapsed
/// math.
pub fn segment_progress(t0_ms: u32, duration_ms: u32, now_ms: u32) -> (p: SegmentProgress)
    ensures
        p == segment_progress_spec(t0_ms, duration_ms, now_ms),
{
    if duration_ms == 0 {
        return SegmentProgress::PastEnd;
    }
    let elapsed = now_ms.wrapping_sub(t0_ms);
    if duration_ms <= HALF_RANGE_MS && elapsed > HALF_RANGE_MS {
        SegmentProgress::BeforeStart
    } else if elapsed >= duration_ms {
        SegmentProgress::PastEnd
    } else {
        SegmentProgress::InSegment(elapsed)
    }
}

/// Repeat behaviour for a tickless schedule.
#[derive(Copy, Clone, Debug, PartialEq, Eq, Structural)]
pub enum RepeatMode {
    /// Play once and stop.
    Once,
    /// Loop back to the start value after each cycle.
    Repeat,
    /// Reverse direction after each cycle (start→end, end→start, …).
    PingPong,
}

/// A single output produced by the tickless scheduler.
#[derive(Copy, Clone, Debug, PartialEq, Eq, Structural)]
pub struct TicklessDeadline {
    /// Wall-clock time (in milliseconds) at which the output will next
    /// change. Compare with wrapping remaining-time, not signed order.
    pub deadline_ms: u32,
    /// The quantized output value that should be applied *now*.
    pub current_val: u16,
}

/// Clamp a candidate deadline offset: at least `min_off`, at most
/// `duration`, never before `now_off` (applied in that order).
pub open spec fn clamp_offset(c: int, min_off: int, now_off: int, duration: int) -> int {
    let a = if c < min_off { min_off } else { c };
    let b = if a > duration { duration } else { a };
    if b < now_off { now_off } else { b }
}

/// A tickless schedule bound to a monotonic curve and segment parameters.
///
/// `C` is the curve type and `T` is the curve's normalised value type.
#[derive(Copy, Debug)]
pub struct TicklessSchedule<C, T: UnitValue> {
    curve: C,
    t0_ms: u32,
    duration_ms: u32,
    start_val: u16,
    end_val: u16,
    step: u16,
    rounding: Rounding,
    min_dt_ms: u32,
    repeat: RepeatMode,
    _marker: core::marker::PhantomData<T>,
}

impl<C: Copy, T: UnitValue> Clone for TicklessSchedule<C, T> {
    fn clone(&self) -> (c: Self)
        ensures
            c == *self,
    {
        *self
    }
}

impl<C, T> TicklessSchedule<C, T> where C: MonotonicCurve<T, T>, T: UnitValue {
    /// The curve.
    pub closed spec fn spec_curve(&self) -> C {
        self.curve
    }

    /// Segment start.
    pub closed spec fn spec_t0(&self) -> u32 {
        self.t0_ms
    }

    /// Segment duration.
    pub closed spec fn spec_duration(&self) -> u32 {
        self.duration_ms
    }

    /// Raw value at the start of the segment.
    pub closed spec fn spec_start(&self) -> u16 {
        self.start_val
    }

    /// Raw value at the end of the segment.
    pub closed spec fn spec_end(&self) -> u16 {
        self.end_val
    }

    /// Quantization step (at least 1).
    pub closed spec fn spec_step(&self) -> u16 {
        self.step
    }

    /// Quantization rounding.
    pub closed spec fn spec_rounding(&self) -> Rounding {
        self.rounding
    }

    /// Minimum time between successive deadlines.
    pub closed spec fn spec_min_dt(&self) -> u32 {
        self.min_dt_ms
    }

    /// Repeat mode.
    pub closed spec fn spec_repeat(&self) -> RepeatMode {
        self.repeat
    }

    /// Well-formedness: the quantization step is nonzero.
    pub open spec fn wf(&self) -> bool {
        self.spec_step() >= 1
    }

    /// Quantized output at curve position `t`.
    pub open spec fn value_at(&self, t: T) -> u16 {
        quantize_spec(
            self.spec_curve().spec_eval(t).spec_lerp_u16(self.spec_start(), self.spec_end()) as int,
            self.spec_step() as int,
            self.spec_rounding(),
        ) as u16
    }

    /// Curve position at offset `elapsed` from `t0`.
    pub open spec fn position_at(&self, elapsed: u32) -> T {
        if elapsed == 0 {
            T::spec_zero()
        } else {
            T::spec_from_time_frac(elapsed, self.spec_duration())
        }
    }

    /// Quantized output at offset `elapsed` from `t0`.
    pub open spec fn quantized_at(&self, elapsed: u32) -> u16 {
        self.value_at(self.position_at(elapsed))
    }

    /// Curve position used for `now`, by its progress through the segment.
    pub open spec fn position_for(&self, p: SegmentProgress) -> T {
        match p {
            SegmentProgress::BeforeStart => T::spec_zero(),
            SegmentProgress::PastEnd => T::spec_unit(),
            SegmentProgress::InSegment(elapsed) => self.position_at(elapsed),
        }
    }

    /// The quantized end value.
    pub open spec fn end_quantized(&self) -> u16 {
        quantize_spec(self.spec_end() as int, self.spec_step() as int, self.spec_rounding()) as u16
    }

    /// Offset of `now` from `t0` used for clamping (0 before the start).
    pub open spec fn now_offset(&self, p: SegmentProgress) -> int {
        match p {
            SegmentProgress::InSegment(elapsed) => elapsed as int,
            SegmentProgress::BeforeStart => 0,
            SegmentProgress::PastEnd => self.spec_duration() as int,
        }
    }

    /// Earliest offset allowed by `min_dt`: `now + min_dt` (saturating),
    /// or what remains of `min_dt` past `t0` when `now` precedes the segment.
    pub open spec fn min_offset(&self, p: SegmentProgress, now_ms: u32) -> int {
        match p {
            SegmentProgress::InSegment(elapsed) => elapsed.saturating_add(self.spec_min_dt()) as int,
            SegmentProgress::BeforeStart => self.spec_min_dt().saturating_sub(
                self.spec_t0().wrapping_sub(now_ms),
            ) as int,
            SegmentProgress::PastEnd => self.spec_duration() as int,
        }
    }

    /// `c` is where the binary search settles: the quantized value still
    /// equals `current` at `c - 1 >= now_off` and differs at `c`, or the
    /// value never differs and `c` is the end of the segment.
    pub open spec fn is_change_offset(&self, now_off: int, current: u16, c: int) -> bool {
        let d = self.spec_duration() as int;
        ||| (c == d && self.quantized_at(d as u32) == current)
        ||| (now_off < c <= d && self.quantized_at((c - 1) as u32) == current
            && self.quantized_at(c as u32) != current)
    }

    /// Where the bisection for a change of `current` settles, between an
    /// offset `lo` whose quantized value is still `current` and an offset
    /// `hi` whose value is not: the midpoint moves `hi` down when its value
    /// differs and `lo` up when it does not, until the two are adjacent.
    pub open spec fn bisect(&self, lo: int, hi: int, current: u16) -> int
        decreases hi - lo,
    {
        if lo + 1 >= hi {
            hi
        } else {
            let mid = lo + (hi - lo) / 2;
            if self.quantized_at(mid as u32) != current {
                self.bisect(lo, mid, current)
            } else {
                self.bisect(mid, hi, current)
            }
        }
    }

    /// The offset after `now_off` at which the output leaves `current`: the
    /// end of the segment when the value there is still `current`, otherwise
    /// where bisection between `now_off` and the end settles.
    pub open spec fn change_offset(&self, now_off: int, current: u16) -> int {
        let d = self.spec_duration() as int;
        if self.quantized_at(d as u32) == current {
            d
        } else {
            self.bisect(now_off, d, current)
        }
    }

    /// What [`TicklessSchedule::next_deadline`] returns at `now_ms`.
    pub open spec fn is_next_deadline(&self, now_ms: u32, dl: TicklessDeadline) -> bool {
        let p = segment_progress_spec(self.spec_t0(), self.spec_duration(), now_ms);
        let current = self.value_at(self.position_for(p));
        &&& dl.current_val == current
        &&& if p is PastEnd {
            dl.deadline_ms == now_ms
        } else if current == self.end_quantized() {
            dl.deadline_ms == self.spec_t0().wrapping_add(self.spec_duration())
        } else {
            dl.deadline_ms == self.spec_t0().wrapping_add(
                clamp_offset(
                    self.change_offset(self.now_offset(p), current),
                    self.min_offset(p, now_ms),
                    self.now_offset(p),
                    self.spec_duration() as int,
                ) as u32,
            )
        }
    }

    proof fn lemma_bisect_is_change(&self, now_off: int, lo: int, hi: int, current: u16)
        requires
            now_off <= lo < hi <= self.spec_duration(),
            self.quantized_at(lo as u32) == current,
            self.quantized_at(hi as u32) != current,
        ensures
            self.is_change_offset(now_off, current, self.bisect(lo, hi, current)),
        decreases hi - lo,
    {
        if lo + 1 < hi {
            let mid = lo + (hi - lo) / 2;
            if self.quantized_at(mid as u32) != current {
                self.lemma_bisect_is_change(now_off, lo, mid, current);
            } else {
                self.lemma_bisect_is_change(now_off, mid, hi, current);
            }
        }
    }

    /// The change offset is one where the output leaves `current`, or the
    /// segment end.
    pub proof fn lemma_change_offset_is_change(&self, now_off: int, current: u16)
        requires
            0 <= now_off < self.spec_duration(),
            self.quantized_at(now_off as u32) == current,
        ensures
            self.is_change_offset(now_off, current, self.change_offset(now_off, current)),
    {
        let d = self.spec_duration() as int;
        if self.quantized_at(d as u32) != current {
            self.lemma_bisect_is_change(now_off, now_off, d, current);
        }
    }

    /// The quantized output moves one way over the segment's offsets, as it
    /// does for a monotonic curve.
    pub open spec fn output_monotone(&self) -> bool {
        let d = self.spec_duration() as int;
        ||| forall|a: int, b: int|
            0 <= a <= b <= d ==> #[trigger] self.quantized_at(a as u32) <= #[trigger] self.quantized_at(
                b as u32,
            )
        ||| forall|a: int, b: int|
            0 <= a <= b <= d ==> #[trigger] self.quantized_at(a as u32) >= #[trigger] self.quantized_at(
                b as u32,
            )
    }

    proof fn lemma_bisect_first(&self, now_off: int, lo: int, hi: int, current: u16)
        requires
            self.output_monotone(),
            0 <= now_off <= lo < hi <= self.spec_duration(),
            self.quantized_at(now_off as u32) == current,
            self.quantized_at(lo as u32) == current,
        ensures
            lo < self.bisect(lo, hi, current) <= hi,
            forall|k: int|
                now_off <= k < self.bisect(lo, hi, current) ==> #[trigger] self.quantized_at(k as u32)
                    == current,
        decreases hi - lo,
    {
        if lo + 1 < hi {
            let mid = lo + (hi - lo) / 2;
            if self.quantized_at(mid as u32) != current {
                self.lemma_bisect_first(now_off, lo, mid, current);
            } else {
                self.lemma_bisect_first(now_off, mid, hi, current);
            }
        } else {
            assert forall|k: int| now_off <= k < hi implies #[trigger] self.quantized_at(k as u32)
                == current by {
                assert(self.quantized_at(now_off as u32) <= self.quantized_at(k as u32)
                    <= self.quantized_at(lo as u32) || self.quantized_at(now_off as u32)
                    >= self.quantized_at(k as u32) >= self.quantized_at(lo as u32));
            }
        }
    }

    /// When the output moves one way over the segment, the change offset is
    /// the first offset after `now_off` at which the output leaves
    /// `current`; it is the segment end when the output never leaves it.
    pub proof fn lemma_change_offset_is_first(&self, now_off: int, current: u16)
        requires
            self.output_monotone(),
            0 <= now_off < self.spec_duration(),
            self.quantized_at(now_off as u32) == current,
        ensures
            now_off < self.change_offset(now_off, current) <= self.spec_duration(),
            forall|k: int|
                now_off <= k < self.change_offset(now_off, current) ==> #[trigger] self.quantized_at(
                    k as u32,
                ) == current,
            self.change_offset(now_off, current) < self.spec_duration() ==> self.quantized_at(
                self.change_offset(now_off, current) as u32,
            ) != current,
    {
        let d = self.spec_duration() as int;
        self.lemma_change_offset_is_change(now_off, current);
        if self.quantized_at(d as u32) == current {
            assert forall|k: int| now_off <= k < d implies #[trigger] self.quantized_at(k as u32)
                == current by {
                assert(self.quantized_at(now_off as u32) <= self.quantized_at(k as u32)
                    <= self.quantized_at(d as u32) || self.quantized_at(now_off as u32)
                    >= self.quantized_at(k as u32) >= self.quantized_at(d as u32));
            }
        } else {
            self.lemma_bisect_first(now_off, now_off, d, current);
        }
    }

    /// The curve never decreases: a later position evaluates no lower.
    pub open spec fn curve_rises(&self) -> bool {
        forall|u1: T, u2: T|
            u1.spec_index() <= u2.spec_index() ==> #[trigger] self.spec_curve().spec_eval(u1).spec_index()
                <= #[trigger] self.spec_curve().spec_eval(u2).spec_index()
    }

    proof fn lemma_quantized_at_ordered(&self, a: int, b: int)
        requires
            self.wf(),
            self.curve_rises(),
            0 <= a <= b <= self.spec_duration(),
        ensures
            self.spec_start() <= self.spec_end() ==> self.quantized_at(a as u32) <= self.quantized_at(
                b as u32,
            ),
            self.spec_start() > self.spec_end() ==> self.quantized_at(a as u32) >= self.quantized_at(
                b as u32,
            ),
    {
        let pa = self.position_at(a as u32);
        let pb = self.position_at(b as u32);
        pb.lemma_index_bounds();
        if a > 0 {
            T::lemma_time_frac_monotone(a as u32, b as u32, self.spec_duration());
        } else if b > 0 {
            pb.lemma_index_bounds();
        }
        assert(pa.spec_index() <= pb.spec_index());
        let c = self.spec_curve();
        let ca = c.spec_eval(pa);
        let cb = c.spec_eval(pb);
        assert(ca.spec_index() <= cb.spec_index());
        T::lemma_lerp_monotone(ca, cb, self.spec_start(), self.spec_end());
        let la = ca.spec_lerp_u16(self.spec_start(), self.spec_end()) as int;
        let lb = cb.spec_lerp_u16(self.spec_start(), self.spec_end()) as int;
        let step = self.spec_step() as int;
        let r = self.spec_rounding();
        crate::math::lemma_snap_to_step(la, step, r);
        crate::math::lemma_snap_to_step(lb, step, r);
        if la <= lb {
            lemma_quantize_ordered(la, lb, step, r);
        } else {
            lemma_quantize_ordered(lb, la, step, r);
        }
    }

    /// A curve that never decreases moves the quantized output one way over
    /// the segment, so every deadline falls at the first change of the
    /// output (see [`Self::lemma_change_offset_is_first`]).
    pub proof fn lemma_rising_curve_output_monotone(&self)
        requires
            self.wf(),
            self.curve_rises(),
        ensures
            self.output_monotone(),
    {
        let d = self.spec_duration() as int;
        if self.spec_start() <= self.spec_end() {
            assert forall|a: int, b: int|
                0 <= a <= b <= d implies #[trigger] self.quantized_at(a as u32) <= #[trigger] self.quantized_at(
                b as u32,
            ) by {
                self.lemma_quantized_at_ordered(a, b);
            }
        } else {
            assert forall|a: int, b: int|
                0 <= a <= b <= d implies #[trigger] self.quantized_at(a as u32) >= #[trigger] self.quantized_at(
                b as u32,
            ) by {
                self.lemma_quantized_at_ordered(a, b);
            }
        }
    }

    /// `other` times the same way: it differs at most in its repeat mode.
    pub open spec fn same_timing(&self, other: Self) -> bool {
        &&& self.spec_curve() == other.spec_curve()
        &&& self.spec_t0() == other.spec_t0()
        &&& self.spec_duration() == other.spec_duration()
        &&& self.spec_start() == other.spec_start()
        &&& self.spec_end() == other.spec_end()
        &&& self.spec_step() == other.spec_step()
        &&& self.spec_rounding() == other.spec_rounding()
        &&& self.spec_min_dt() == other.spec_min_dt()
    }

    proof fn lemma_bisect_same(&self, other: Self, lo: int, hi: int, current: u16)
        requires
            self.same_timing(other),
        ensures
            self.bisect(lo, hi, current) == other.bisect(lo, hi, current),
        decreases hi - lo,
    {
        if lo + 1 < hi {
            let mid = lo + (hi - lo) / 2;
            assert(self.quantized_at(mid as u32) == other.quantized_at(mid as u32));
            self.lemma_bisect_same(other, lo, mid, current);
            self.lemma_bisect_same(other, mid, hi, current);
        }
    }

    /// The deadline at an instant is a function of how a schedule times:
    /// schedules that agree on everything but the repeat mode (equal ones,
    /// one built with step 0 and one with step 1, one given another repeat
    /// mode) give the same deadline at every instant.
    pub proof fn lemma_same_timing_same_deadline(
        &self,
        other: Self,
        now_ms: u32,
        a: TicklessDeadline,
        b: TicklessDeadline,
    )
        requires
            self.same_timing(other),
            self.is_next_deadline(now_ms, a),
            other.is_next_deadline(now_ms, b),
        ensures
            a == b,
    {
        let p = segment_progress_spec(self.spec_t0(), self.spec_duration(), now_ms);
        let current = self.value_at(self.position_for(p));
        assert(current == other.value_at(other.position_for(p)));
        let d = self.spec_duration() as int;
        assert(self.quantized_at(d as u32) == other.quantized_at(d as u32));
        self.lemma_bisect_same(other, self.now_offset(p), d, current);
    }

    /// Moving a schedule's start by `k` milliseconds, across the rollover of
    /// the `u32` clock or not, moves its deadlines by `k` and keeps their
    /// values: the deadline at `now + k` of the moved schedule is the
    /// deadline at `now` of this one, shifted.
    pub proof fn lemma_shift_moves_deadlines(
        &self,
        moved: Self,
        k: u32,
        now_ms: u32,
        a: TicklessDeadline,
        b: TicklessDeadline,
    )
        requires
            moved.spec_t0() == self.spec_t0().wrapping_add(k),
            moved.spec_curve() == self.spec_curve(),
            moved.spec_duration() == self.spec_duration(),
            moved.spec_start() == self.spec_start(),
            moved.spec_end() == self.spec_end(),
            moved.spec_step() == self.spec_step(),
            moved.spec_rounding() == self.spec_rounding(),
            moved.spec_min_dt() == self.spec_min_dt(),
            self.is_next_deadline(now_ms, a),
            moved.is_next_deadline(now_ms.wrapping_add(k), b),
        ensures
            b == (TicklessDeadline { deadline_ms: a.deadline_ms.wrapping_add(k), current_val: a.current_val }),
    {
        let t0 = self.spec_t0();
        let now2 = now_ms.wrapping_add(k);
        let t02 = t0.wrapping_add(k);
        assert(now2.wrapping_sub(t02) == now_ms.wrapping_sub(t0)) by (bit_vector)
            requires
                now2 == now_ms.wrapping_add(k),
                t02 == t0.wrapping_add(k),
        ;
        assert(t02.wrapping_sub(now2) == t0.wrapping_sub(now_ms)) by (bit_vector)
            requires
                now2 == now_ms.wrapping_add(k),
                t02 == t0.wrapping_add(k),
        ;
        let p = segment_progress_spec(t0, self.spec_duration(), now_ms);
        assert(segment_progress_spec(t02, self.spec_duration(), now2) == p);
        let current = self.value_at(self.position_for(p));
        assert(current == moved.value_at(moved.position_for(p)));
        let d = self.spec_duration() as int;
        assert(self.quantized_at(d as u32) == moved.quantized_at(d as u32));
        assert(self.min_offset(p, now_ms) == moved.min_offset(p, now2));
        assert(self.bisect(self.now_offset(p), d, current) == moved.bisect(self.now_offset(p), d, current)) by {
            self.lemma_bisect_shift(moved, self.now_offset(p), d, current);
        }
        let dur = self.spec_duration();
        assert(t02.wrapping_add(dur) == t0.wrapping_add(dur).wrapping_add(k)) by (bit_vector)
            requires
                t02 == t0.wrapping_add(k),
        ;
        assert(forall|off: u32| #[trigger] t02.wrapping_add(off) == t0.wrapping_add(off).wrapping_add(k))
            by {
            assert forall|off: u32| #[trigger] t02.wrapping_add(off) == t0.wrapping_add(off).wrapping_add(
                k,
            ) by {
                assert(t02.wrapping_add(off) == t0.wrapping_add(off).wrapping_add(k)) by (bit_vector)
                    requires
                        t02 == t0.wrapping_add(k),
                ;
            }
        }
    }

    proof fn lemma_bisect_shift(&self, moved: Self, lo: int, hi: int, current: u16)
        requires
            moved.spec_curve() == self.spec_curve(),
            moved.spec_duration() == self.spec_duration(),
            moved.spec_start() == self.spec_start(),
            moved.spec_end() == self.spec_end(),
            moved.spec_step() == self.spec_step(),
            moved.spec_rounding() == self.spec_rounding(),
        ensures
            self.bisect(lo, hi, current) == moved.bisect(lo, hi, current),
        decreases hi - lo,
    {
        if lo + 1 < hi {
            let mid = lo + (hi - lo) / 2;
            assert(self.quantized_at(mid as u32) == moved.quantized_at(mid as u32));
            self.lemma_bisect_shift(moved, lo, mid, current);
            self.lemma_bisect_shift(moved, mid, hi, current);
        }
    }

    /// Create a new tickless schedule. `step` is clamped to a minimum of 1;
    /// the schedule plays once until [`Self::with_repeat`] says otherwise.
    pub fn new(
        curve: C,
        t0_ms: u32,
        duration_ms: u32,
        start_val: u16,
        end_val: u16,
        step: u16,
        rounding: Rounding,
        min_dt_ms: u32,
    ) -> (s: Self)
        ensures
            s.wf(),
            s.spec_curve() == curve,
            s.spec_t0() == t0_ms,
            s.spec_duration() == duration_ms,
            s.spec_start() == start_val,
            s.spec_end() == end_val,
            s.spec_step() == if step == 0 { 1 } else { step },
            s.spec_rounding() == rounding,
            s.spec_min_dt() == min_dt_ms,
            s.spec_repeat() == RepeatMode::Once,
    {
        TicklessSchedule {
            curve,
            t0_ms,
            duration_ms,
            start_val,
            end_val,
            step: if step == 0 { 1 } else { step },
            rounding,
            min_dt_ms,
            repeat: RepeatMode::Once,
            _marker: core::marker::PhantomData,
        }
    }

    /// Set the repeat mode, consuming and returning `self` for chaining.
    pub fn with_repeat(self, mode: RepeatMode) -> (s: Self)
        ensures
            s.spec_repeat() == mode,
            s.spec_curve() == self.spec_curve(),
            s.spec_t0() == self.spec_t0(),
            s.spec_duration() == self.spec_duration(),
            s.spec_start() == self.spec_start(),
            s.spec_end() == self.spec_end(),
            s.spec_step() == self.spec_step(),
            s.spec_rounding() == self.spec_rounding(),
            s.spec_min_dt() == self.spec_min_dt(),
    {
        TicklessSchedule { repeat: mode, ..self }
    }

    /// The end time of the current segment, `t0 + duration` wrapping.
    pub fn end_ms(&self) -> (e: u32)
        ensures
            e == self.spec_t0().wrapping_add(self.spec_duration()),
    {
        self.t0_ms.wrapping_add(self.duration_ms)
    }

    /// Quantized output at offset `elapsed_ms` from `t0`.
    fn quantized_at_offset(&self, elapsed_ms: u32) -> (q: u16)
        requires
            self.wf(),
        ensures
            q == self.quantized_at(elapsed_ms),
    {
        let t = if elapsed_ms == 0 {
            T::zero()
        } else {
            T::from_time_frac(elapsed_ms, self.duration_ms)
        };
        let raw = self.curve.eval(t).lerp_u16(self.start_val, self.end_val);
        quantize(raw, self.step, self.rounding)
    }

    /// Binary search for the offset after `now_off` at which the quantized
    /// output leaves `current_val`, or `duration_ms` if it never does.
    fn first_quantized_change_offset(&self, now_off: u32, current_val: u16) -> (c: u32)
        requires
            self.wf(),
            now_off < self.spec_duration(),
            self.quantized_at(now_off) == current_val,
        ensures
            c == self.change_offset(now_off as int, current_val),
    {
        let mut lo = now_off;
        let mut hi = self.duration_ms;
        if self.quantized_at_offset(hi) == current_val {
            return hi;
        }
        while lo + 1 < hi
            invariant
                self.wf(),
                now_off <= lo < hi <= self.spec_duration(),
                self.quantized_at(lo) == current_val,
                self.quantized_at(hi) != current_val,
                self.bisect(lo as int, hi as int, current_val) == self.change_offset(
                    now_off as int,
                    current_val,
                ),
            decreases hi - lo,
        {
            let mid = lo + (hi - lo) / 2;
            if self.quantized_at_offset(mid) != current_val {
                hi = mid;
            } else {
                lo = mid;
            }
        }
        hi
    }

    /// Compute the next deadline after `now_ms`: the quantized value to apply
    /// now, and when it next changes. At or past the end of the segment the
    /// deadline is `now_ms` (already due) with the final quantized value.
    pub fn next_deadline(&self, now_ms: u32) -> (dl: TicklessDeadline)
        requires
            self.wf(),
        ensures
            self.is_next_deadline(now_ms, dl),
    {
        let end_ms = self.end_ms();
        let progress = segment_progress(self.t0_ms, self.duration_ms, now_ms);
        let current_t = match progress {
            SegmentProgress::BeforeStart => T::zero(),
            SegmentProgress::PastEnd => T::one(),
            SegmentProgress::InSegment(elapsed) => {
                if elapsed == 0 {
                    T::zero()
                } else {
                    T::from_time_frac(elapsed, self.duration_ms)
                }
            },
        };
        let w = self.curve.eval(current_t);
        let raw_val = w.lerp_u16(self.start_val, self.end_val);
        let current_val = quantize(raw_val, self.step, self.rounding);
        let end_val_q = quantize(self.end_val, self.step, self.rounding);
        let past_end = match progress {
            SegmentProgress::PastEnd => true,
            _ => false,
        };
        if past_end || current_val == end_val_q {
            let deadline_ms = if past_end {
                now_ms
            } else {
                end_ms
            };
            return TicklessDeadline { deadline_ms, current_val };
        }
        let (now_off, min_off) = match progress {
            SegmentProgress::InSegment(elapsed) => (elapsed, elapsed.saturating_add(self.min_dt_ms)),
            SegmentProgress::BeforeStart => (
                0,
                self.min_dt_ms.saturating_sub(self.t0_ms.wrapping_sub(now_ms)),
            ),
            SegmentProgress::PastEnd => (self.duration_ms, self.duration_ms),
        };
        let c = self.first_quantized_change_offset(now_off, current_val);
        let mut dl_off = c;
        if dl_off < min_off {
            dl_off = min_off;
        }
        if dl_off > self.duration_ms {
            dl_off = self.duration_ms;
        }
        if dl_off < now_off {
            dl_off = now_off;
        }
        let dl = TicklessDeadline { deadline_ms: self.t0_ms.wrapping_add(dl_off), current_val };
        proof {
            let p = progress;
            assert(dl_off == clamp_offset(
                c as int,
                self.min_offset(p, now_ms),
                self.now_offset(p),
                self.spec_duration() as int,
            ));
        }
        dl
    }

    /// Where a deadline falls: inside the segment strictly after `now` and
    /// no later than the segment end, as an offset from `t0`; before the
    /// segment no later than its end; past the end it is `now` itself. This
    /// holds whatever the segment's length and wherever the wrapping clock
    /// stands.
    pub proof fn lemma_deadline_stays_in_segment(&self, now_ms: u32, dl: TicklessDeadline)
        requires
            self.wf(),
            self.is_next_deadline(now_ms, dl),
        ensures
            ({
                let p = segment_progress_spec(self.spec_t0(), self.spec_duration(), now_ms);
                let off = dl.deadline_ms.wrapping_sub(self.spec_t0());
                &&& p matches SegmentProgress::InSegment(elapsed) ==> elapsed < off
                    <= self.spec_duration()
                &&& p is BeforeStart ==> off <= self.spec_duration()
                &&& p is PastEnd ==> dl.deadline_ms == now_ms
            }),
    {
        let p = segment_progress_spec(self.spec_t0(), self.spec_duration(), now_ms);
        if !(p is PastEnd) {
            let d = self.spec_duration() as int;
            let t0 = self.spec_t0();
            let now_off = self.now_offset(p);
            assert(0 <= now_off < d);
            let current = self.value_at(self.position_for(p));
            let off: int = if current == self.end_quantized() {
                d
            } else {
                let c = self.change_offset(now_off, current);
                self.lemma_change_offset_is_change(now_off, current);
                assert(c > now_off);
                assert(self.min_offset(p, now_ms) >= now_off);
                clamp_offset(c, self.min_offset(p, now_ms), now_off, d)
            };
            assert(now_off < off <= d);
            assert(dl.deadline_ms == t0.wrapping_add(off as u32));
            assert(dl.deadline_ms.wrapping_sub(t0) == off);
        }
    }

    /// Return an iterator over successive deadlines starting from `now_ms`.
    pub fn iter(&self, now_ms: u32) -> (it: TicklessIter<'_, C, T>)
        requires
            self.wf(),
        ensures
            it.wf(),
            it.spec_schedule() == *self,
            it.cycle_t0() == self.spec_t0(),
            it.cycle_start() == self.spec_start(),
            it.cycle_end() == self.spec_end(),
            it.spec_now() == now_ms,
            !it.is_done(),
    {
        TicklessIter {
            schedule: self,
            t0_ms: self.t0_ms,
            start_val: self.start_val,
            end_val: self.end_val,
            now_ms,
            done: false,
        }
    }
}

/// Iterator over successive [`TicklessDeadline`] values produced by a
/// [`TicklessSchedule`]. Call [`TicklessIter::next`] repeatedly.
#[derive(Debug)]
pub struct TicklessIter<'a, C, T: UnitValue> {
    schedule: &'a TicklessSchedule<C, T>,
    t0_ms: u32,
    start_val: u16,
    end_val: u16,
    now_ms: u32,
    done: bool,
}

impl<'a, C, T> TicklessIter<'a, C, T> where C: MonotonicCurve<T, T>, T: UnitValue {
    /// The schedule the iterator walks.
    pub closed spec fn spec_schedule(&self) -> TicklessSchedule<C, T> {
        *self.schedule
    }

    /// Start of the current cycle.
    pub closed spec fn cycle_t0(&self) -> u32 {
        self.t0_ms
    }

    /// Raw start value of the current cycle.
    pub closed spec fn cycle_start(&self) -> u16 {
        self.start_val
    }

    /// Raw end value of the current cycle.
    pub closed spec fn cycle_end(&self) -> u16 {
        self.end_val
    }

    /// The time at which the next deadline is computed.
    pub closed spec fn spec_now(&self) -> u32 {
        self.now_ms
    }

    /// Whether the iterator has finished.
    pub closed spec fn is_done(&self) -> bool {
        self.done
    }

    /// Well-formedness: the underlying schedule is well formed.
    pub open spec fn wf(&self) -> bool {
        self.spec_schedule().wf()
    }

    /// The single-cycle schedule for the current cycle.
    pub open spec fn cycle(&self) -> TicklessSchedule<C, T> {
        let s = self.spec_schedule();
        TicklessSchedule::<C, T>::cycle_of(s, self.cycle_t0(), self.cycle_start(), self.cycle_end())
    }

    /// An iterator whose cycle starts and runs where its schedule does, as a
    /// fresh one from [`TicklessSchedule::iter`] does, times its cycle exactly
    /// as its schedule: its first item is the schedule's next deadline.
    pub proof fn lemma_fresh_cycle_times_as_schedule(&self)
        requires
            self.cycle_t0() == self.spec_schedule().spec_t0(),
            self.cycle_start() == self.spec_schedule().spec_start(),
            self.cycle_end() == self.spec_schedule().spec_end(),
        ensures
            self.cycle().same_timing(self.spec_schedule()),
    {
    }

    /// How much of the current cycle is left to walk: one more than its
    /// length before it starts, what remains of it inside, and past its
    /// end one until the iterator stands exactly at the end, then none.
    pub open spec fn cycle_remaining(&self) -> nat {
        let c = self.cycle();
        let end_ms = c.spec_t0().wrapping_add(c.spec_duration());
        match segment_progress_spec(c.spec_t0(), c.spec_duration(), self.spec_now()) {
            SegmentProgress::BeforeStart => (c.spec_duration() + 1) as nat,
            SegmentProgress::InSegment(elapsed) => (c.spec_duration() - elapsed) as nat,
            SegmentProgress::PastEnd => if self.spec_now() == end_ms {
                0
            } else {
                1
            },
        }
    }

}

impl<'a, C, T> TicklessIter<'a, C, T> where C: MonotonicCurve<T, T> + Copy, T: UnitValue {
    /// Build a single-cycle schedule from the iterator's current state.
    fn cycle_schedule(&self) -> (s: TicklessSchedule<C, T>)
        requires
            self.wf(),
        ensures
            s == self.cycle(),
            s.wf(),
    {
        TicklessSchedule {
            curve: self.schedule.curve,
            t0_ms: self.t0_ms,
            duration_ms: self.schedule.duration_ms,
            start_val: self.start_val,
            end_val: self.end_val,
            step: self.schedule.step,
            rounding: self.schedule.rounding,
            min_dt_ms: self.schedule.min_dt_ms,
            repeat: RepeatMode::Once,
            _marker: core::marker::PhantomData,
        }
    }

    /// Advance to the next cycle, returning `true` if the iterator continues.
    fn advance_cycle(&mut self) -> (cont: bool)
        requires
            old(self).wf(),
        ensures
            final(self).wf(),
            final(self).spec_schedule() == old(self).spec_schedule(),
            final(self).spec_now() == old(self).spec_now(),
            final(self).is_done() == old(self).is_done(),
            cont == (old(self).spec_schedule().spec_duration() != 0
                && old(self).spec_schedule().spec_repeat() != RepeatMode::Once),
            cont ==> final(self).cycle_t0() == old(self).cycle_t0().wrapping_add(
                old(self).spec_schedule().spec_duration(),
            ),
            !cont ==> final(self).cycle_t0() == old(self).cycle_t0(),
            (cont && old(self).spec_schedule().spec_repeat() == RepeatMode::PingPong) ==> (final(self).cycle_start() == old(self).cycle_end()
                && final(self).cycle_end() == old(self).cycle_start()),
            !(cont && old(self).spec_schedule().spec_repeat() == RepeatMode::PingPong) ==> (final(self).cycle_start() == old(self).cycle_start()
                && final(self).cycle_end() == old(self).cycle_end()),
    {
        if self.schedule.duration_ms == 0 {
            return false;
        }
        match self.schedule.repeat {
            RepeatMode::Once => false,
            RepeatMode::Repeat => {
                self.t0_ms = self.t0_ms.wrapping_add(self.schedule.duration_ms);
                true
            },
            RepeatMode::PingPong => {
                self.t0_ms = self.t0_ms.wrapping_add(self.schedule.duration_ms);
                let start = self.start_val;
                self.start_val = self.end_val;
                self.end_val = start;
                true
            },
        }
    }

    /// `after` is what [`Self::next`] leaves of `before`, having yielded
    /// `item`.
    pub open spec fn next_step(before: Self, after: Self, item: Option<TicklessDeadline>) -> bool {
        &&& (after.spec_schedule() == before.spec_schedule())
        &&& (before.is_done() ==> item is None && after == before)
        &&& (!before.is_done() ==> (item matches Some(dl) && before.cycle().is_next_deadline(
                before.spec_now(),
                dl,
            ) && ({
                let cycle = before.cycle();
                let end_ms = cycle.spec_t0().wrapping_add(cycle.spec_duration());
                let continues = cycle.spec_duration() != 0 && before.spec_schedule().spec_repeat()
                    != RepeatMode::Once;
                if dl.current_val == cycle.end_quantized() || dl.deadline_ms == end_ms {
                    &&& after.is_done() == !continues
                    &&& continues ==> after.spec_now() == end_ms
                    &&& continues ==> after.cycle_t0() == end_ms
                    &&& (continues && before.spec_schedule().spec_repeat() == RepeatMode::PingPong)
                        ==> (after.cycle_start() == before.cycle_end()
                        && after.cycle_end() == before.cycle_start())
                    &&& !(continues && before.spec_schedule().spec_repeat() == RepeatMode::PingPong)
                        ==> (after.cycle_start() == before.cycle_start()
                        && after.cycle_end() == before.cycle_end())
                } else {
                    &&& !after.is_done()
                    &&& after.cycle_t0() == before.cycle_t0()
                    &&& after.cycle() == before.cycle()
                    &&& after.spec_now() == if dl.deadline_ms == before.spec_now() {
                        end_ms
                    } else {
                        dl.deadline_ms
                    }
                    &&& after.cycle_remaining() < before.cycle_remaining()
                }
            })))
    }

    /// Yield the next deadline, or `None` once a `Once` schedule (or a
    /// zero-length segment) has emitted its terminal value.
    ///
    /// The deadline is the current cycle's [`TicklessSchedule::next_deadline`]
    /// at the iterator's time. A deadline at the quantized end value, or one
    /// that reaches the cycle's end time, closes the cycle (advancing to the
    /// next one, or finishing); a due-now deadline before the end jumps to
    /// the cycle end; otherwise the iterator moves to the deadline. The
    /// values a cycle emits are thus the grid points that the ramp reaches
    /// inside the segment, whatever its length. Each call either closes the
    /// current cycle or strictly shrinks [`Self::cycle_remaining`], so the
    /// iteration of a `Once` schedule ends.
    pub fn next(&mut self) -> (item: Option<TicklessDeadline>)
        requires
            old(self).wf(),
        ensures
            final(self).wf(),
            Self::next_step(*old(self), *final(self), item),
    {
        if self.done {
            return None;
        }
        let cycle = self.cycle_schedule();
        let dl = cycle.next_deadline(self.now_ms);
        let end_ms = cycle.end_ms();
        proof {
            cycle.lemma_deadline_stays_in_segment(self.now_ms, dl);
        }
        let end_val_q = quantize(self.end_val, self.schedule.step, self.schedule.rounding);
        if dl.current_val == end_val_q || dl.deadline_ms == end_ms {
            if !self.advance_cycle() {
                self.done = true;
            } else {
                self.now_ms = end_ms;
            }
        } else if dl.deadline_ms == self.now_ms {
            self.now_ms = end_ms;
        } else {
            self.now_ms = dl.deadline_ms;
        }
        Some(dl)
    }

    /// A walk of a `Once` schedule, or of a zero-length one, ends: along any
    /// run of [`Self::next`] calls from `states[0]`, the iterator yields at
    /// most `cycle_remaining() + 1` items before it is done.
    pub proof fn lemma_once_walk_ends(states: Seq<Self>, items: Seq<Option<TicklessDeadline>>)
        requires
            states.len() == items.len() + 1,
            forall|i: int|
                0 <= i < items.len() ==> Self::next_step(states[i], states[i + 1], #[trigger] items[i]),
            forall|i: int| 0 <= i < items.len() ==> !(#[trigger] states[i]).is_done(),
            states[0].spec_schedule().spec_repeat() == RepeatMode::Once
                || states[0].spec_schedule().spec_duration() == 0,
        ensures
            items.len() <= states[0].cycle_remaining() + 1,
        decreases items.len(),
    {
        if items.len() > 1 {
            let rest = states.drop_first();
            let rest_items = items.drop_first();
            assert(Self::next_step(states[0], states[1], items[0]));
            assert(!states[1].is_done());
            assert forall|i: int| 0 <= i < rest_items.len() implies Self::next_step(
                rest[i],
                rest[i + 1],
                #[trigger] rest_items[i],
            ) by {
                assert(Self::next_step(states[i + 1], states[i + 2], items[i + 1]));
            }
            assert forall|i: int| 0 <= i < rest_items.len() implies !(#[trigger] rest[i]).is_done() by {
                assert(!states[i + 1].is_done());
            }
            Self::lemma_once_walk_ends(rest, rest_items);
        }
    }

    /// A `Repeat` or `PingPong` walk of a segment with positive length never
    /// ends: no call of [`Self::next`] leaves it done.
    pub proof fn lemma_repeating_walk_continues(before: Self, after: Self, item: Option<TicklessDeadline>)
        requires
            Self::next_step(before, after, item),
            !before.is_done(),
            before.spec_schedule().spec_repeat() != RepeatMode::Once,
            before.spec_schedule().spec_duration() != 0,
        ensures
            !after.is_done(),
            after.spec_schedule() == before.spec_schedule(),
    {
        assert(before.cycle().spec_duration() == before.spec_schedule().spec_duration());
    }
}

impl<C, T> TicklessSchedule<C, T> where C: MonotonicCurve<T, T>, T: UnitValue {
    /// `s` restarted as a single cycle at `t0` between `start` and `end`.
    pub closed spec fn cycle_of(s: Self, t0: u32, start: u16, end: u16) -> Self {
        TicklessSchedule {
            curve: s.curve,
            t0_ms: t0,
            duration_ms: s.duration_ms,
            start_val: start,
            end_val: end,
            step: s.step,
            rounding: s.rounding,
            min_dt_ms: s.min_dt_ms,
            repeat: RepeatMode::Once,
            _marker: core::marker::PhantomData,
        }
    }
}

/// Extension trait that adds tickless scheduling to any
/// [`MonotonicCurve<T, T>`] where `T: UnitValue`.
pub trait Tickless<T: UnitValue>: MonotonicCurve<T, T> + Sized + Copy {
    /// Build a [`TicklessSchedule`] for this curve; see
    /// [`TicklessSchedule::new`].
    fn tickless_schedule(
        self,
        t0_ms: u32,
        duration_ms: u32,
        start_val: u16,
        end_val: u16,
        step: u16,
        rounding: Rounding,
        min_dt_ms: u32,
    ) -> (s: TicklessSchedule<Self, T>)
        ensures
            s.wf(),
            s.spec_curve() == self,
            s.spec_t0() == t0_ms,
            s.spec_duration() == duration_ms,
            s.spec_start() == start_val,
            s.spec_end() == end_val,
            s.spec_step() == if step == 0 { 1 } else { step },
            s.spec_rounding() == rounding,
            s.spec_min_dt() == min_dt_ms,
            s.spec_repeat() == RepeatMode::Once,
    {
        TicklessSchedule::new(self, t0_ms, duration_ms, start_val, end_val, step, rounding, min_dt_ms)
    }
}

impl<C, T> Tickless<T> for C where C: MonotonicCurve<T, T> + Copy, T: UnitValue {

}

} // verus!
