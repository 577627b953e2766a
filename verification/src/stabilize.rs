//! Fixed-memory temporal stabilization for caller-supplied samples.
//!
//! These primitives are deterministic data processors. They do not acquire
//! samples, read clocks, choose a sampling cadence, or interact with hardware.
//! Each windowed filter is specified over its *window*: the retained samples
//! in arrival order, oldest first.

use vstd::prelude::*;
use vstd::relations::{sorted_by, total_ordering};

use crate::round::{
    abs_int, div_nearest_ties_away, lemma_round_div_is_nearest, lemma_round_div_magnitude,
    lemma_round_div_negate, round_div_ties_away,
};
use crate::sealed::Sealed;
use crate::seq_sum::{lemma_sum_append, lemma_sum_bounds, lemma_sum_update, lemma_sum_zeros, seq_sum};

verus! {

/// Integer sample type supported by temporal stabilization primitives.
///
/// This trait is sealed and implemented for `u16`, `i32`, and `u32`.
/// `spec_max_window` is the largest moving-average window for which `N`
/// copies of the widest sample still fit the `i64` running sum.
pub trait TemporalSample: Sealed + Copy + Sized {
    /// The sample as a mathematical integer.
    spec fn spec_value(self) -> int;

    /// Smallest representable sample.
    spec fn spec_min() -> int;

    /// Largest representable sample.
    spec fn spec_max() -> int;

    /// Largest safe moving-average window.
    spec fn spec_max_window() -> nat;

    /// Samples lie in `[spec_min(), spec_max()]`, a range that contains zero,
    /// and `spec_max_window()` copies of either extreme fit `i64`.
    proof fn lemma_sample_range(self)
        ensures
            Self::spec_min() <= self.spec_value() <= Self::spec_max(),
            -0x8000_0000 <= Self::spec_min() <= 0,
            0 < Self::spec_max() <= 0xffff_ffff,
            Self::spec_max_window() * Self::spec_max() <= i64::MAX,
            Self::spec_max_window() * Self::spec_min() >= -i64::MAX,
            Self::spec_max_window() <= usize::MAX,
    ;

    /// Zero value used to initialize fixed storage.
    fn zero() -> (z: Self)
        ensures
            z.spec_value() == 0,
    ;

    /// Largest safe moving-average window for this sample type.
    fn max_window() -> (n: usize)
        ensures
            n == Self::spec_max_window(),
    ;

    /// Convert to the shared signed accumulator representation.
    fn to_i64(self) -> (v: i64)
        ensures
            v == self.spec_value(),
    ;

    /// Convert an in-range result from the accumulator representation.
    fn from_i64(value: i64) -> (s: Self)
        requires
            Self::spec_min() <= value <= Self::spec_max(),
        ensures
            s.spec_value() == value,
    ;
}

impl TemporalSample for u16 {
    open spec fn spec_value(self) -> int {
        self as int
    }

    open spec fn spec_min() -> int {
        0
    }

    open spec fn spec_max() -> int {
        u16::MAX as int
    }

    open spec fn spec_max_window() -> nat {
        if usize::BITS > 32 {
            (i64::MAX / 0xffff) as nat
        } else {
            usize::MAX as nat
        }
    }

    proof fn lemma_sample_range(self) {
        assert(usize::BITS > 32 ==> (i64::MAX / 0xffff) * 0xffff <= i64::MAX);
        assert(usize::BITS > 32 ==> i64::MAX / 0xffff <= usize::MAX);
        assert(usize::BITS <= 32 ==> usize::MAX == 0xffff_ffff);
    }

    fn zero() -> (z: u16) {
        0
    }

    fn max_window() -> (n: usize) {
        if usize::BITS > 32 {
            (i64::MAX / 0xffff) as usize
        } else {
            usize::MAX
        }
    }

    fn to_i64(self) -> (v: i64) {
        self as i64
    }

    fn from_i64(value: i64) -> (s: u16) {
        value as u16
    }
}

impl TemporalSample for i32 {
    open spec fn spec_value(self) -> int {
        self as int
    }

    open spec fn spec_min() -> int {
        i32::MIN as int
    }

    open spec fn spec_max() -> int {
        i32::MAX as int
    }

    open spec fn spec_max_window() -> nat {
        if usize::BITS > 32 {
            (i64::MAX / 0x8000_0000) as nat
        } else {
            usize::MAX as nat
        }
    }

    proof fn lemma_sample_range(self) {
        assert(usize::BITS <= 32 ==> usize::MAX == 0xffff_ffff);
    }

    fn zero() -> (z: i32) {
        0
    }

    fn max_window() -> (n: usize) {
        if usize::BITS > 32 {
            (i64::MAX / 0x8000_0000) as usize
        } else {
            usize::MAX
        }
    }

    fn to_i64(self) -> (v: i64) {
        self as i64
    }

    fn from_i64(value: i64) -> (s: i32) {
        value as i32
    }
}

impl TemporalSample for u32 {
    open spec fn spec_value(self) -> int {
        self as int
    }

    open spec fn spec_min() -> int {
        0
    }

    open spec fn spec_max() -> int {
        u32::MAX as int
    }

    open spec fn spec_max_window() -> nat {
        if usize::BITS < 32 {
            usize::MAX as nat
        } else {
            (i64::MAX / 0xffff_ffff) as nat
        }
    }

    proof fn lemma_sample_range(self) {
        assert(usize::BITS >= 32 ==> i64::MAX / 0xffff_ffff <= usize::MAX);
    }

    fn zero() -> (z: u32) {
        0
    }

    fn max_window() -> (n: usize) {
        if usize::BITS < 32 {
            usize::MAX
        } else {
            (i64::MAX / 0xffff_ffff) as usize
        }
    }

    fn to_i64(self) -> (v: i64) {
        self as i64
    }

    fn from_i64(value: i64) -> (s: u32) {
        value as u32
    }
}

/// The integer values of a sequence of samples.
pub open spec fn sample_values<T: TemporalSample>(s: Seq<T>) -> Seq<int> {
    s.map_values(|t: T| t.spec_value())
}

/// `window` followed by `value`, keeping only the newest `capacity` entries.
pub open spec fn slide<A>(window: Seq<A>, value: A, capacity: nat) -> Seq<A> {
    if window.len() < capacity {
        window.push(value)
    } else {
        window.drop_first().push(value)
    }
}

/// The newest `capacity` entries of a history, oldest first.
pub open spec fn newest<A>(hist: Seq<A>, capacity: nat) -> Seq<A> {
    if hist.len() <= capacity {
        hist
    } else {
        hist.subrange(hist.len() - capacity, hist.len() as int)
    }
}

/// The window after sliding every entry of `hist`, in order, into `window`.
pub open spec fn slide_all<A>(window: Seq<A>, hist: Seq<A>, capacity: nat) -> Seq<A>
    decreases hist.len(),
{
    if hist.len() == 0 {
        window
    } else {
        slide(slide_all(window, hist.drop_last(), capacity), hist.last(), capacity)
    }
}

/// A windowed filter (moving average, median, stability detector) that
/// starts empty, from `new` or `reset`, and is then fed the samples of
/// `hist` holds exactly the newest `capacity` of them: `hist` itself while
/// fewer have arrived, so it warms up with `hist.len()` samples, and then
/// its last `capacity`, over which it reports.
pub proof fn lemma_window_keeps_newest<A>(hist: Seq<A>, capacity: nat)
    requires
        capacity > 0,
    ensures
        slide_all(Seq::empty(), hist, capacity) == newest(hist, capacity),
        newest(hist, capacity).len() == if hist.len() < capacity {
            hist.len()
        } else {
            capacity
        },
    decreases hist.len(),
{
    if hist.len() > 0 {
        let prev = hist.drop_last();
        lemma_window_keeps_newest(prev, capacity);
        let w = newest(prev, capacity);
        if prev.len() < capacity {
            assert(w.push(hist.last()) =~= newest(hist, capacity));
        } else {
            assert(w.drop_first().push(hist.last()) =~= newest(hist, capacity));
        }
    } else {
        assert(newest(hist, capacity) =~= Seq::<A>::empty());
    }
}

// ---------------------------------------------------------------------------
// Fixed ring of samples shared by the windowed filters
// ---------------------------------------------------------------------------

/// Ring buffer of `capacity` samples; unfilled slots hold zero.
pub(crate) struct SampleRing<T: TemporalSample> {
    samples: Vec<T>,
    next: usize,
    len: usize,
}

impl<T: TemporalSample> SampleRing<T> {
    /// Well-formed ring of the given capacity.
    pub(crate) closed spec fn wf(self, capacity: nat) -> bool {
        &&& capacity > 0
        &&& self.samples.len() == capacity
        &&& self.next < capacity
        &&& self.len <= capacity
        &&& self.len < capacity ==> self.next == self.len
        &&& forall|i: int|
            self.len <= i < capacity ==> (#[trigger] self.samples@[i]).spec_value() == 0
    }

    /// Values of every slot, in storage order.
    pub(crate) closed spec fn slots(self) -> Seq<int> {
        sample_values(self.samples@)
    }

    /// Retained samples in arrival order, oldest first.
    pub(crate) closed spec fn window(self) -> Seq<T> {
        if self.len < self.samples.len() {
            self.samples@.take(self.len as int)
        } else {
            self.samples@.skip(self.next as int) + self.samples@.take(self.next as int)
        }
    }

    /// Slot that the next sample overwrites.
    pub(crate) closed spec fn next_slot(self) -> int {
        self.next as int
    }

    /// Number of retained samples.
    pub(crate) closed spec fn count(self) -> nat {
        self.len as nat
    }

    pub(crate) proof fn lemma_count(self, capacity: nat)
        requires
            self.wf(capacity),
        ensures
            self.window().len() == self.count(),
            self.count() <= capacity,
    {
    }

    /// Every slot value is in the sample range.
    pub(crate) proof fn lemma_slots_in_range(self, capacity: nat)
        requires
            self.wf(capacity),
        ensures
            self.slots().len() == capacity,
            forall|i: int|
                0 <= i < capacity ==> T::spec_min() <= #[trigger] self.slots()[i] <= T::spec_max(),
    {
        assert forall|i: int| 0 <= i < capacity implies T::spec_min() <= #[trigger] self.slots()[i]
            <= T::spec_max() by {
            self.samples@[i].lemma_sample_range();
        }
    }

    /// The window holds the same values as the slots, apart from the zeros
    /// of unfilled slots: the sums agree, and a full window is a rotation of
    /// the slots with the same multiset of values.
    pub(crate) proof fn lemma_window_values(self, capacity: nat)
        requires
            self.wf(capacity),
        ensures
            seq_sum(sample_values(self.window())) == seq_sum(self.slots()),
            self.count() == capacity ==> sample_values(self.window()).to_multiset()
                == self.slots().to_multiset(),
    {
        let vals = self.slots();
        if self.len < capacity {
            let head = vals.take(self.len as int);
            let tail = vals.skip(self.len as int);
            assert(vals =~= head + tail);
            assert(sample_values(self.window()) =~= head);
            lemma_sum_append(head, tail);
            assert forall|i: int| 0 <= i < tail.len() implies tail[i] == 0 by {
                assert(tail[i] == self.samples@[self.len + i].spec_value());
            }
            lemma_sum_zeros(tail);
        } else {
            let a = vals.skip(self.next as int);
            let b = vals.take(self.next as int);
            assert(sample_values(self.window()) =~= a + b);
            assert(vals =~= b + a);
            lemma_sum_append(a, b);
            lemma_sum_append(b, a);
            vstd::seq_lib::lemma_multiset_commutative(a, b);
            vstd::seq_lib::lemma_multiset_commutative(b, a);
            broadcast use vstd::multiset::group_multiset_axioms;
            assert(a.to_multiset().add(b.to_multiset()) =~= b.to_multiset().add(a.to_multiset()));
        }
    }

    /// An empty ring of `capacity` zero slots.
    pub(crate) fn new(capacity: usize) -> (ring: Self)
        requires
            capacity > 0,
        ensures
            ring.wf(capacity as nat),
            ring.count() == 0,
            ring.window() == Seq::<T>::empty(),
    {
        let mut samples: Vec<T> = Vec::new();
        while samples.len() < capacity
            invariant
                samples.len() <= capacity,
                forall|i: int| 0 <= i < samples.len() ==> (#[trigger] samples@[i]).spec_value() == 0,
            decreases capacity - samples.len(),
        {
            samples.push(T::zero());
        }
        let ring = SampleRing { samples, next: 0, len: 0 };
        assert(ring.window() =~= Seq::<T>::empty());
        ring
    }

    /// Store one sample, evicting the oldest once full. Returns the previous
    /// content of the overwritten slot (zero while warming up).
    pub(crate) fn push(&mut self, capacity: Ghost<nat>, value: T) -> (evicted: T)
        requires
            old(self).wf(capacity@),
        ensures
            final(self).wf(capacity@),
            final(self).window() == slide(old(self).window(), value, capacity@),
            final(self).count() == if old(self).count() < capacity@ {
                old(self).count() + 1
            } else {
                capacity@
            },
            0 <= old(self).next_slot() < capacity@,
            final(self).slots() == old(self).slots().update(
                old(self).next_slot(),
                value.spec_value(),
            ),
            evicted.spec_value() == old(self).slots()[old(self).next_slot()],
            old(self).count() < capacity@ ==> evicted.spec_value() == 0,
    {
        let ghost old_window = self.window();
        let ghost old_samples = self.samples@;
        let ghost cap = capacity@;
        let slot = self.next;
        let evicted = self.samples[slot];
        self.samples.set(slot, value);
        self.next = if slot + 1 == self.samples.len() {
            0
        } else {
            slot + 1
        };
        if self.len < self.samples.len() {
            self.len = self.len + 1;
        }
        proof {
            let new_samples = old_samples.update(slot as int, value);
            assert(self.samples@ == new_samples);
            assert(self.slots() =~= sample_values(old_samples).update(
                slot as int,
                value.spec_value(),
            ));
            if old_window.len() < cap {
                // Warming up: `slot` was the first unfilled slot.
                if self.len < cap {
                    assert(self.window() =~= old_window.push(value));
                } else {
                    assert(self.next == 0);
                    assert(self.window() =~= new_samples);
                    assert(new_samples =~= old_window.push(value));
                }
            } else {
                if slot + 1 < cap {
                    assert(self.window() =~= old_window.drop_first().push(value));
                } else {
                    assert(self.window() =~= new_samples);
                    assert(old_window.drop_first() =~= old_samples.take(slot as int));
                    assert(new_samples =~= old_samples.take(slot as int).push(value));
                }
            }
        }
        evicted
    }

    /// Discard every retained sample; all slots return to zero.
    pub(crate) fn clear(&mut self, capacity: Ghost<nat>)
        requires
            old(self).wf(capacity@),
        ensures
            final(self).wf(capacity@),
            final(self).count() == 0,
            final(self).window() == Seq::<T>::empty(),
            forall|i: int| 0 <= i < capacity@ ==> #[trigger] final(self).slots()[i] == 0,
    {
        let n = self.samples.len();
        let mut i: usize = 0;
        while i < n
            invariant
                self.samples.len() == n,
                i <= n,
                forall|j: int| 0 <= j < i ==> (#[trigger] self.samples@[j]).spec_value() == 0,
            decreases n - i,
        {
            self.samples.set(i, T::zero());
            i = i + 1;
        }
        self.next = 0;
        self.len = 0;
        assert(self.window() =~= Seq::<T>::empty());
    }

    /// Copy of the slot values, in storage order.
    pub(crate) fn copy_slots(&self, capacity: Ghost<nat>) -> (out: Vec<i64>)
        requires
            self.wf(capacity@),
        ensures
            out@.len() == capacity@,
            forall|i: int| 0 <= i < capacity@ ==> out@[i] as int == #[trigger] self.slots()[i],
    {
        let n = self.samples.len();
        let mut out: Vec<i64> = Vec::new();
        let mut i: usize = 0;
        while i < n
            invariant
                n == self.samples.len(),
                i <= n,
                out@.len() == i,
                forall|j: int| 0 <= j < i ==> out@[j] as int == (#[trigger] self.samples@[j]).spec_value(),
            decreases n - i,
        {
            out.push(self.samples[i].to_i64());
            i = i + 1;
        }
        out
    }
}

// ---------------------------------------------------------------------------
// Filter outputs
// ---------------------------------------------------------------------------

/// Output from a temporal filter.
#[derive(Copy, Clone, Debug, PartialEq, Eq)]
pub enum FilterOutput<T> {
    /// The fixed window has not yet received enough samples.
    WarmingUp {
        /// Number of samples currently retained.
        samples: usize,
        /// Number of samples required for a ready output.
        required: usize,
    },
    /// The filter has enough state to produce a value.
    Ready(T),
}

impl<T> FilterOutput<T> {
    /// Return the ready value, or `None` while warming up.
    pub fn ready(self) -> (value: Option<T>)
        ensures
            value == (match self {
                FilterOutput::WarmingUp { .. } => None,
                FilterOutput::Ready(v) => Some(v),
            }),
    {
        match self {
            FilterOutput::WarmingUp { .. } => None,
            FilterOutput::Ready(value) => Some(value),
        }
    }
}

/// Common interface for caller-driven temporal filters.
///
/// `filter_inv` is the filter's internal well-formedness: constructors
/// establish it and both operations keep it.
pub trait TemporalFilter<T> {
    /// The filter's well-formedness invariant.
    spec fn filter_inv(&self) -> bool;

    /// Push one sample and return the current filter state.
    fn update(&mut self, value: T) -> (out: FilterOutput<T>)
        requires
            old(self).filter_inv(),
        ensures
            final(self).filter_inv(),
    ;

    /// Discard all retained history.
    fn reset(&mut self)
        requires
            old(self).filter_inv(),
        ensures
            final(self).filter_inv(),
    ;
}

// ---------------------------------------------------------------------------
// Moving average
// ---------------------------------------------------------------------------

/// Mean of a window rounded to nearest, ties away from zero.
pub open spec fn rounded_mean(values: Seq<int>) -> int {
    round_div_ties_away(seq_sum(values), values.len() as int)
}

/// The rounded mean of values within `[lo, hi]` stays within `[lo, hi]`.
proof fn lemma_rounded_mean_in_range(sum: int, n: int, lo: int, hi: int)
    requires
        n > 0,
        lo <= 0 <= hi,
        n * lo <= sum <= n * hi,
    ensures
        lo <= round_div_ties_away(sum, n) <= hi,
{
    let h = n / 2;
    if sum >= 0 {
        let q = (sum + h) / n;
        assert(0 <= q <= hi) by (nonlinear_arith)
            requires
                n > 0,
                0 <= h < n,
                0 <= sum <= n * hi,
                q == (sum + h) / n,
        {
            assert(sum + h < n * (hi + 1));
        }
    } else {
        assert(n * (-lo) == -(n * lo)) by (nonlinear_arith);
        let q = (-sum + h) / n;
        assert(0 <= q <= -lo) by (nonlinear_arith)
            requires
                n > 0,
                0 <= h < n,
                0 < -sum <= n * (-lo),
                q == (-sum + h) / n,
        {
            assert(-sum + h < n * (-lo + 1));
        }
    }
}

/// Exact fixed-window moving average.
///
/// Updates are `O(1)` using an `i64` running sum. Output begins only after
/// all `N` samples have been supplied, and is then the mean of the last `N`
/// samples rounded to nearest, ties away from zero.
pub struct MovingAverage<T: TemporalSample, const N: usize> {
    ring: SampleRing<T>,
    sum: i64,
}

impl<T: TemporalSample, const N: usize> MovingAverage<T, N> {
    /// Well-formedness: a ring of `N` slots whose values sum to `sum`.
    pub closed spec fn wf(&self) -> bool {
        &&& 0 < N <= T::spec_max_window()
        &&& self.ring.wf(N as nat)
        &&& self.sum == seq_sum(self.ring.slots())
    }

    /// The retained samples in arrival order, oldest first.
    pub closed spec fn window(&self) -> Seq<T> {
        self.ring.window()
    }

    /// Construct an empty moving average. The window must be nonzero and at
    /// most the accumulator-safety ceiling of `T`.
    pub fn new() -> (filter: Self)
        requires
            0 < N <= T::spec_max_window(),
        ensures
            filter.wf(),
            filter.window() == Seq::<T>::empty(),
    {
        let ring = SampleRing::new(N);
        proof {
            assert forall|i: int| 0 <= i < N implies #[trigger] ring.slots()[i] == 0 by {}
            lemma_sum_zeros(ring.slots());
        }
        MovingAverage { ring, sum: 0 }
    }

    /// Number of retained samples.
    pub fn len(&self) -> (n: usize)
        requires
            self.wf(),
        ensures
            n == self.window().len(),
    {
        proof {
            self.ring.lemma_count(N as nat);
        }
        self.ring.len
    }

    /// Whether no samples are retained.
    pub fn is_empty(&self) -> (b: bool)
        requires
            self.wf(),
        ensures
            b == (self.window().len() == 0),
    {
        proof {
            self.ring.lemma_count(N as nat);
        }
        self.ring.len == 0
    }
}

impl<T: TemporalSample, const N: usize> TemporalFilter<T> for MovingAverage<T, N> {
    open spec fn filter_inv(&self) -> bool {
        self.wf()
    }

    /// Push one sample. While fewer than `N` samples are retained the output
    /// is `WarmingUp`; afterwards it is the rounded mean of the window.
    fn update(&mut self, value: T) -> (out: FilterOutput<T>)
        ensures
            final(self).window() == slide(old(self).window(), value, N as nat),
            final(self).window().len() < N ==> out == (FilterOutput::<T>::WarmingUp {
                samples: final(self).window().len() as usize,
                required: N,
            }),
            final(self).window().len() == N ==> (out matches FilterOutput::Ready(mean)
                && mean.spec_value() == rounded_mean(sample_values(final(self).window()))),
    {
        let ghost old_slots = self.ring.slots();
        let ghost slot = self.ring.next as int;
        proof {
            self.ring.lemma_slots_in_range(N as nat);
            value.lemma_sample_range();
        }
        let evicted = self.ring.push(Ghost(N as nat), value);
        proof {
            lemma_sum_update(old_slots, slot, 0);
            lemma_sum_bounds(old_slots.update(slot, 0), T::spec_min(), T::spec_max());
            lemma_sum_update(old_slots, slot, value.spec_value());
            self.ring.lemma_slots_in_range(N as nat);
            lemma_sum_bounds(self.ring.slots(), T::spec_min(), T::spec_max());
            assert(N * T::spec_max() <= i64::MAX) by (nonlinear_arith)
                requires
                    N <= T::spec_max_window(),
                    T::spec_max_window() * T::spec_max() <= i64::MAX,
                    T::spec_max() > 0,
            ;
            assert(N * T::spec_min() >= -i64::MAX) by (nonlinear_arith)
                requires
                    N <= T::spec_max_window(),
                    T::spec_max_window() * T::spec_min() >= -i64::MAX,
                    T::spec_min() <= 0,
            ;
        }
        let reduced = self.sum - evicted.to_i64();
        self.sum = reduced + value.to_i64();
        proof {
            self.ring.lemma_count(N as nat);
            self.ring.lemma_window_values(N as nat);
        }
        if self.ring.len < N {
            FilterOutput::WarmingUp { samples: self.ring.len, required: N }
        } else {
            proof {
                assert(sample_values(self.ring.window()).len() == N);
                assert(N <= i64::MAX) by (nonlinear_arith)
                    requires
                        N <= T::spec_max_window(),
                        T::spec_max_window() * T::spec_max() <= i64::MAX,
                        T::spec_max() >= 1,
                ;
                lemma_round_div_magnitude(self.sum as int, N as int);
                lemma_rounded_mean_in_range(self.sum as int, N as int, T::spec_min(), T::spec_max());
            }
            let mean = div_nearest_ties_away(self.sum, N as i64);
            FilterOutput::Ready(T::from_i64(mean))
        }
    }

    /// Discard the window: the filter warms up again from empty.
    fn reset(&mut self)
        ensures
            final(self).window() == Seq::<T>::empty(),
    {
        self.ring.clear(Ghost(N as nat));
        self.sum = 0;
        proof {
            assert(self.ring.slots().len() == N) by {
                self.ring.lemma_slots_in_range(N as nat);
            }
            lemma_sum_zeros(self.ring.slots());
        }
    }
}

// ---------------------------------------------------------------------------
// Median filter
// ---------------------------------------------------------------------------

/// Integer view of a sequence of `i64`.
pub open spec fn i64_values(s: Seq<i64>) -> Seq<int> {
    s.map_values(|x: i64| x as int)
}

/// `<=` on integers, the order of [`Seq::sort`].
pub open spec fn int_leq() -> spec_fn(int, int) -> bool {
    |x: int, y: int| x <= y
}

/// Exchanging two elements keeps the multiset of a sequence.
proof fn lemma_swap_multiset(s: Seq<int>, i: int, j: int)
    requires
        0 <= i < s.len(),
        0 <= j < s.len(),
    ensures
        s.update(i, s[j]).update(j, s[i]).to_multiset() == s.to_multiset(),
{
    broadcast use vstd::seq_lib::group_to_multiset_ensures, vstd::multiset::group_multiset_axioms;

    let t = s.update(i, s[j]);
    assert(t.to_multiset() == s.to_multiset().insert(s[j]).remove(s[i]));
    assert(t[j] == if i == j { s[j] } else { s[j] });
    assert(t.update(j, s[i]).to_multiset() == t.to_multiset().insert(s[i]).remove(t[j]));
    assert(s.to_multiset().count(s[i]) > 0);
    assert(s.to_multiset().count(s[j]) > 0);
    assert(s.to_multiset().insert(s[j]).remove(s[i]).insert(s[i]).remove(s[j]) =~= s.to_multiset());
}

/// Sort `values` ascending (insertion sort by adjacent exchanges).
fn sort_ascending(values: &mut Vec<i64>)
    ensures
        final(values)@.len() == old(values)@.len(),
        i64_values(final(values)@).to_multiset() == i64_values(old(values)@).to_multiset(),
        sorted_by(i64_values(final(values)@), int_leq()),
{
    let n = values.len();
    if n == 0 {
        assert(sorted_by(i64_values(values@), int_leq()));
        return;
    }
    let ghost initial = i64_values(values@);
    let mut index: usize = 1;
    while index < n
        invariant
            values@.len() == n,
            1 <= index <= n,
            i64_values(values@).to_multiset() == initial.to_multiset(),
            forall|a: int, b: int| 0 <= a < b < index ==> values@[a] <= values@[b],
        decreases n - index,
    {
        let mut insert = index;
        while insert > 0 && values[insert - 1] > values[insert]
            invariant
                values@.len() == n,
                1 <= index < n,
                insert <= index,
                i64_values(values@).to_multiset() == initial.to_multiset(),
                forall|a: int, b: int| 0 <= a < b < insert ==> values@[a] <= values@[b],
                forall|a: int, b: int| insert < a < b <= index ==> values@[a] <= values@[b],
                forall|a: int, b: int| 0 <= a < insert && insert < b <= index ==> values@[a] <= values@[b],
                forall|b: int| insert < b <= index ==> values@[insert as int] < values@[b],
            decreases insert,
        {
            let lower = values[insert - 1];
            let upper = values[insert];
            let ghost before = values@;
            values.set(insert - 1, upper);
            values.set(insert, lower);
            proof {
                assert(i64_values(values@) =~= i64_values(before).update(
                    insert - 1,
                    i64_values(before)[insert as int],
                ).update(insert as int, i64_values(before)[insert - 1]));
                lemma_swap_multiset(i64_values(before), insert - 1, insert as int);
            }
            insert = insert - 1;
        }
        index = index + 1;
    }
    assert(sorted_by(i64_values(values@), int_leq()));
}

/// The middle element of the sorted window.
pub open spec fn window_median(values: Seq<int>) -> int {
    values.sort()[values.len() as int / 2]
}

/// Fixed-window median filter for small odd window sizes.
///
/// The retained window is copied and sorted on each update; once `N`
/// samples are retained the output is the middle element of the sorted
/// window.
pub struct MedianFilter<T: TemporalSample, const N: usize> {
    ring: SampleRing<T>,
}

impl<T: TemporalSample, const N: usize> MedianFilter<T, N> {
    /// Well-formedness: an odd-sized ring of `N` slots.
    pub closed spec fn wf(&self) -> bool {
        &&& N > 0
        &&& N % 2 == 1
        &&& self.ring.wf(N as nat)
    }

    /// The retained samples in arrival order, oldest first.
    pub closed spec fn window(&self) -> Seq<T> {
        self.ring.window()
    }

    /// Construct an empty median filter; `N` must be odd.
    pub fn new() -> (filter: Self)
        requires
            N > 0,
            N % 2 == 1,
        ensures
            filter.wf(),
            filter.window() == Seq::<T>::empty(),
    {
        MedianFilter { ring: SampleRing::new(N) }
    }

    /// Number of retained samples.
    pub fn len(&self) -> (n: usize)
        requires
            self.wf(),
        ensures
            n == self.window().len(),
    {
        proof {
            self.ring.lemma_count(N as nat);
        }
        self.ring.len
    }

    /// Whether no samples are retained.
    pub fn is_empty(&self) -> (b: bool)
        requires
            self.wf(),
        ensures
            b == (self.window().len() == 0),
    {
        proof {
            self.ring.lemma_count(N as nat);
        }
        self.ring.len == 0
    }
}

impl<T: TemporalSample, const N: usize> TemporalFilter<T> for MedianFilter<T, N> {
    open spec fn filter_inv(&self) -> bool {
        self.wf()
    }

    /// Push one sample; once the window is full the output is its median.
    fn update(&mut self, value: T) -> (out: FilterOutput<T>)
        ensures
            final(self).window() == slide(old(self).window(), value, N as nat),
            final(self).window().len() < N ==> out == (FilterOutput::<T>::WarmingUp {
                samples: final(self).window().len() as usize,
                required: N,
            }),
            final(self).window().len() == N ==> (out matches FilterOutput::Ready(m)
                && m.spec_value() == window_median(sample_values(final(self).window()))),
    {
        self.ring.push(Ghost(N as nat), value);
        proof {
            self.ring.lemma_count(N as nat);
        }
        if self.ring.len < N {
            return FilterOutput::WarmingUp { samples: self.ring.len, required: N };
        }
        let mut sorted = self.ring.copy_slots(Ghost(N as nat));
        proof {
            assert(i64_values(sorted@) =~= self.ring.slots());
        }
        sort_ascending(&mut sorted);
        let m = sorted[N / 2];
        proof {
            broadcast use vstd::seq_lib::group_to_multiset_ensures;

            let w = sample_values(self.ring.window());
            self.ring.lemma_window_values(N as nat);
            w.lemma_sort_ensures();
            assert(total_ordering(int_leq()));
            vstd::seq_lib::lemma_sorted_unique(i64_values(sorted@), w.sort(), int_leq());
            assert(w.len() == N);
            // The median is one of the slot values, so it is a valid sample.
            let sv = i64_values(sorted@);
            assert(sv[N as int / 2] == m as int);
            assert(sv.contains(m as int));
            assert(sv.to_multiset() == self.ring.slots().to_multiset());
            assert(sv.to_multiset().count(m as int) > 0);
            assert(self.ring.slots().to_multiset().count(m as int) > 0);
            assert(self.ring.slots().contains(m as int));
            let k = choose|k: int| 0 <= k < self.ring.slots().len() && self.ring.slots()[k] == m;
            self.ring.lemma_slots_in_range(N as nat);
            assert(T::spec_min() <= self.ring.slots()[k] <= T::spec_max());
        }
        FilterOutput::Ready(T::from_i64(m))
    }

    /// Discard the window: the filter warms up again from empty.
    fn reset(&mut self)
        ensures
            final(self).window() == Seq::<T>::empty(),
    {
        self.ring.clear(Ghost(N as nat));
    }
}

// ---------------------------------------------------------------------------
// Exponential smoother
// ---------------------------------------------------------------------------

/// One smoothing step: `current + round((sample - current) * alpha / 65535)`.
pub open spec fn smoothed(current: int, sample: int, alpha: int) -> int {
    current + round_div_ties_away((sample - current) * alpha, 0xffff)
}

/// Smoothing treats both directions alike: the step from `current` toward
/// `sample` is the mirror image of the step from `-current` toward
/// `-sample`, so a falling sample is smoothed exactly as a rising one.
pub proof fn lemma_smoothing_symmetric(current: int, sample: int, alpha: int)
    ensures
        smoothed(current, sample, alpha) - current == -(smoothed(-current, -sample, alpha)
            - (-current)),
{
    let n = (sample - current) * alpha;
    assert((-sample - (-current)) * alpha == -n) by (nonlinear_arith)
        requires
            n == (sample - current) * alpha,
    ;
    lemma_round_div_negate(n, 0xffff);
}

/// A smoothing step moves `current` by the integer nearest to
/// `(sample - current) * alpha / 65535`: scaled by 65535, the step is off
/// from the exact share by less than half of 65535 (the divisor is odd, so
/// there is no tie and the step is the unique such integer).
pub proof fn lemma_smoothing_nearest(current: int, sample: int, alpha: int)
    ensures
        2 * abs_int((smoothed(current, sample, alpha) - current) * 0xffff - (sample - current)
            * alpha) < 0xffff,
{
    let n = (sample - current) * alpha;
    let r = round_div_ties_away(n, 0xffff);
    lemma_round_div_is_nearest(n, 0xffff);
    assert(abs_int(r * 0xffff - n) == abs_int(n - r * 0xffff));
    let e = n - r * 0xffff;
    assert(2 * abs_int(e) != 0xffff) by (nonlinear_arith)
        requires
            abs_int(e) >= 0,
    ;
}

/// A smoothing step lands between the current value and the new sample.
proof fn lemma_smoothed_between(current: int, sample: int, alpha: int)
    requires
        0 <= alpha <= 0xffff,
    ensures
        current <= sample ==> current <= smoothed(current, sample, alpha) <= sample,
        sample <= current ==> sample <= smoothed(current, sample, alpha) <= current,
{
    let delta = sample - current;
    let n = delta * alpha;
    let h: int = 0x7fff;
    if delta >= 0 {
        assert(0 <= n <= delta * 0xffff) by (nonlinear_arith)
            requires
                delta >= 0,
                0 <= alpha <= 0xffff,
                n == delta * alpha,
        ;
        let q = (n + h) / 0xffff;
        assert(0 <= q <= delta) by (nonlinear_arith)
            requires
                0 <= n <= delta * 0xffff,
                h == 0x7fff,
                q == (n + h) / 0xffff,
        {
            assert(n + h < (delta + 1) * 0xffff);
        }
    } else {
        assert(0 <= -n <= -delta * 0xffff) by (nonlinear_arith)
            requires
                delta < 0,
                0 <= alpha <= 0xffff,
                n == delta * alpha,
        ;
        let q = (-n + h) / 0xffff;
        assert(0 <= q <= -delta) by (nonlinear_arith)
            requires
                0 <= -n <= -delta * 0xffff,
                h == 0x7fff,
                q == (-n + h) / 0xffff,
        {
            assert(-n + h < (-delta + 1) * 0xffff);
        }
    }
}

/// Constant-memory exponential smoother.
///
/// `alpha` is an unsigned Q0.16-like blend weight: `0` retains the
/// initialized value and `65535` follows each new sample exactly. The first
/// sample initializes the smoother and is immediately ready; each later
/// sample moves the value by `round((sample - value) * alpha / 65535)`.
#[derive(Copy, Clone, Debug)]
pub struct ExponentialSmoother<T: TemporalSample> {
    alpha: u16,
    value: T,
    initialized: bool,
}

impl<T: TemporalSample> ExponentialSmoother<T> {
    /// The configured blend weight.
    pub closed spec fn spec_alpha(&self) -> int {
        self.alpha as int
    }

    /// The current smoothed value, or `None` before the first sample.
    pub closed spec fn current(&self) -> Option<int> {
        if self.initialized {
            Some(self.value.spec_value())
        } else {
            None
        }
    }

    /// Construct an uninitialized smoother with the supplied blend weight.
    pub fn new(alpha: u16) -> (s: Self)
        ensures
            s.spec_alpha() == alpha,
            s.current() == None::<int>,
    {
        ExponentialSmoother { alpha, value: T::zero(), initialized: false }
    }

    /// Return the configured Q0.16-like blend weight.
    pub fn alpha(&self) -> (a: u16)
        ensures
            a == self.spec_alpha(),
    {
        self.alpha
    }

    /// Return the current value, or `None` before the first sample.
    pub fn value(&self) -> (v: Option<T>)
        ensures
            v is None <==> self.current() is None,
            v matches Some(t) ==> self.current() == Some(t.spec_value()),
    {
        if self.initialized {
            Some(self.value)
        } else {
            None
        }
    }
}

impl<T: TemporalSample> TemporalFilter<T> for ExponentialSmoother<T> {
    open spec fn filter_inv(&self) -> bool {
        true
    }

    /// The first sample is taken as-is; each later sample moves the value by
    /// the rounded `alpha / 65535` share of the difference. Always ready.
    fn update(&mut self, value: T) -> (out: FilterOutput<T>)
        ensures
            final(self).spec_alpha() == old(self).spec_alpha(),
            final(self).current() == Some(
                match old(self).current() {
                    None => value.spec_value(),
                    Some(c) => smoothed(c, value.spec_value(), old(self).spec_alpha()),
                },
            ),
            out matches FilterOutput::Ready(v) && final(self).current() == Some(v.spec_value()),
            old(self).current() matches Some(c) ==> (final(self).current() matches Some(v)
                && 2 * abs_int((v - c) * 0xffff - (value.spec_value() - c) * old(self).spec_alpha())
                < 0xffff),
    {
        if !self.initialized {
            self.value = value;
            self.initialized = true;
            return FilterOutput::Ready(value);
        }
        let current = self.value.to_i64();
        let sample = value.to_i64();
        proof {
            self.value.lemma_sample_range();
            value.lemma_sample_range();
            lemma_smoothed_between(current as int, sample as int, self.alpha as int);
            let d = sample - current;
            assert(-0x2_0000_0000_0000 <= d * (self.alpha as int) <= 0x2_0000_0000_0000) by (
            nonlinear_arith)
                requires
                    -0x2_0000_0000 <= d <= 0x2_0000_0000,
                    0 <= self.alpha <= 0xffff,
            ;
            lemma_round_div_magnitude(d * (self.alpha as int), 0xffff);
            lemma_smoothing_nearest(current as int, sample as int, self.alpha as int);
        }
        let delta = sample - current;
        let adjustment = div_nearest_ties_away(delta * self.alpha as i64, 0xffff);
        self.value = T::from_i64(current + adjustment);
        FilterOutput::Ready(self.value)
    }

    /// Forget the value; the next sample initializes the smoother again.
    fn reset(&mut self)
        ensures
            final(self).spec_alpha() == old(self).spec_alpha(),
            final(self).current() == None::<int>,
    {
        self.value = T::zero();
        self.initialized = false;
    }
}

// ---------------------------------------------------------------------------
// Stability detector
// ---------------------------------------------------------------------------

/// `m` is the least element of `s`.
pub open spec fn is_min_of(m: int, s: Seq<int>) -> bool {
    s.contains(m) && forall|i: int| 0 <= i < s.len() ==> m <= #[trigger] s[i]
}

/// `m` is the greatest element of `s`.
pub open spec fn is_max_of(m: int, s: Seq<int>) -> bool {
    s.contains(m) && forall|i: int| 0 <= i < s.len() ==> #[trigger] s[i] <= m
}

/// Classification returned by a [`StabilityDetector`].
#[derive(Copy, Clone, Debug, PartialEq, Eq)]
pub enum Stability<T> {
    /// The detector has not yet received a full window.
    WarmingUp {
        /// Number of samples currently retained.
        samples: usize,
        /// Number of samples required for classification.
        required: usize,
    },
    /// The full window exceeds the configured range threshold.
    Unstable {
        /// Minimum retained sample.
        minimum: T,
        /// Maximum retained sample.
        maximum: T,
        /// Difference between maximum and minimum in sample quanta.
        span: u64,
    },
    /// The full window is within the configured range threshold.
    Stable {
        /// Minimum retained sample.
        minimum: T,
        /// Maximum retained sample.
        maximum: T,
        /// Difference between maximum and minimum in sample quanta.
        span: u64,
    },
}

/// Both sequences hold the same values, so the same extremes.
proof fn lemma_same_elements_same_extremes(a: Seq<int>, b: Seq<int>, m: int)
    requires
        a.to_multiset() == b.to_multiset(),
    ensures
        is_min_of(m, a) <==> is_min_of(m, b),
        is_max_of(m, a) <==> is_max_of(m, b),
{
    broadcast use vstd::seq_lib::group_to_multiset_ensures;

    assert forall|x: int| a.contains(x) <==> b.contains(x) by {
        assert(a.contains(x) <==> a.to_multiset().count(x) > 0);
        assert(b.contains(x) <==> b.to_multiset().count(x) > 0);
    }
    if is_min_of(m, a) {
        assert forall|i: int| 0 <= i < b.len() implies m <= #[trigger] b[i] by {
            assert(b.contains(b[i]));
        }
    }
    if is_min_of(m, b) {
        assert forall|i: int| 0 <= i < a.len() implies m <= #[trigger] a[i] by {
            assert(a.contains(a[i]));
        }
    }
    if is_max_of(m, a) {
        assert forall|i: int| 0 <= i < b.len() implies #[trigger] b[i] <= m by {
            assert(b.contains(b[i]));
        }
    }
    if is_max_of(m, b) {
        assert forall|i: int| 0 <= i < a.len() implies #[trigger] a[i] <= m by {
            assert(a.contains(a[i]));
        }
    }
}

/// Fixed-window range-based stability detector.
///
/// Classification begins only after all `N` samples are present; the window
/// is stable exactly when `maximum - minimum <= threshold`.
pub struct StabilityDetector<T: TemporalSample, const N: usize> {
    ring: SampleRing<T>,
    threshold: u64,
}

impl<T: TemporalSample, const N: usize> StabilityDetector<T, N> {
    /// Well-formedness: a ring of `N` slots.
    pub closed spec fn wf(&self) -> bool {
        &&& N > 0
        &&& self.ring.wf(N as nat)
    }

    /// The retained samples in arrival order, oldest first.
    pub closed spec fn window(&self) -> Seq<T> {
        self.ring.window()
    }

    /// The maximum range classified as stable.
    pub closed spec fn spec_threshold(&self) -> int {
        self.threshold as int
    }

    /// Construct an empty detector with a maximum stable range in sample
    /// quanta.
    pub fn new(threshold: u64) -> (d: Self)
        requires
            N > 0,
        ensures
            d.wf(),
            d.window() == Seq::<T>::empty(),
            d.spec_threshold() == threshold,
    {
        StabilityDetector { ring: SampleRing::new(N), threshold }
    }

    /// Return the maximum range classified as stable.
    pub fn threshold(&self) -> (t: u64)
        ensures
            t == self.spec_threshold(),
    {
        self.threshold
    }

    /// Number of retained samples.
    pub fn len(&self) -> (n: usize)
        requires
            self.wf(),
        ensures
            n == self.window().len(),
    {
        proof {
            self.ring.lemma_count(N as nat);
        }
        self.ring.len
    }

    /// Whether no samples are retained.
    pub fn is_empty(&self) -> (b: bool)
        requires
            self.wf(),
        ensures
            b == (self.window().len() == 0),
    {
        proof {
            self.ring.lemma_count(N as nat);
        }
        self.ring.len == 0
    }

    /// Push one sample and classify the retained window.
    pub fn update(&mut self, value: T) -> (out: Stability<T>)
        requires
            old(self).wf(),
        ensures
            final(self).wf(),
            final(self).spec_threshold() == old(self).spec_threshold(),
            final(self).window() == slide(old(self).window(), value, N as nat),
            final(self).window().len() < N ==> out == (Stability::<T>::WarmingUp {
                samples: final(self).window().len() as usize,
                required: N,
            }),
            final(self).window().len() == N ==> match out {
                Stability::WarmingUp { .. } => false,
                Stability::Stable { minimum, maximum, span } | Stability::Unstable {
                    minimum,
                    maximum,
                    span,
                } => {
                    let w = sample_values(final(self).window());
                    &&& is_min_of(minimum.spec_value(), w)
                    &&& is_max_of(maximum.spec_value(), w)
                    &&& span == maximum.spec_value() - minimum.spec_value()
                    &&& (out is Stable <==> span <= old(self).spec_threshold())
                },
            },
    {
        self.ring.push(Ghost(N as nat), value);
        proof {
            self.ring.lemma_count(N as nat);
        }
        if self.ring.len < N {
            return Stability::WarmingUp { samples: self.ring.len, required: N };
        }
        let values = self.ring.copy_slots(Ghost(N as nat));
        let mut minimum: i64 = values[0];
        let mut maximum: i64 = values[0];
        let mut index: usize = 1;
        while index < N
            invariant
                values@.len() == N,
                1 <= index <= N,
                exists|k: int| 0 <= k < index && values@[k] == minimum,
                exists|k: int| 0 <= k < index && values@[k] == maximum,
                forall|k: int| 0 <= k < index ==> minimum <= #[trigger] values@[k] <= maximum,
            decreases N - index,
        {
            if values[index] < minimum {
                minimum = values[index];
            }
            if values[index] > maximum {
                maximum = values[index];
            }
            index = index + 1;
        }
        proof {
            let slots = self.ring.slots();
            assert(i64_values(values@) =~= slots);
            let kmin = choose|k: int| 0 <= k < N && values@[k] == minimum;
            let kmax = choose|k: int| 0 <= k < N && values@[k] == maximum;
            assert(slots[kmin] == minimum);
            assert(slots[kmax] == maximum);
            assert(is_min_of(minimum as int, slots));
            assert(is_max_of(maximum as int, slots));
            self.ring.lemma_slots_in_range(N as nat);
            value.lemma_sample_range();
            assert(T::spec_min() <= slots[kmin] <= T::spec_max());
            assert(T::spec_min() <= slots[kmax] <= T::spec_max());
            self.ring.lemma_window_values(N as nat);
            lemma_same_elements_same_extremes(
                sample_values(self.ring.window()),
                slots,
                minimum as int,
            );
            lemma_same_elements_same_extremes(
                sample_values(self.ring.window()),
                slots,
                maximum as int,
            );
        }
        let low = T::from_i64(minimum);
        let high = T::from_i64(maximum);
        let span = (maximum - minimum) as u64;
        if span <= self.threshold {
            Stability::Stable { minimum: low, maximum: high, span }
        } else {
            Stability::Unstable { minimum: low, maximum: high, span }
        }
    }

    /// Discard all retained history.
    pub fn reset(&mut self)
        requires
            old(self).wf(),
        ensures
            final(self).wf(),
            final(self).spec_threshold() == old(self).spec_threshold(),
            final(self).window() == Seq::<T>::empty(),
    {
        self.ring.clear(Ghost(N as nat));
    }
}

// ---------------------------------------------------------------------------
// Hysteresis
// ---------------------------------------------------------------------------

/// Next latch of a Schmitt trigger: on at or above `high`, off at or below
/// `low`, otherwise unchanged.
pub open spec fn hysteresis_next(latched: bool, value: int, low: int, high: int) -> bool {
    if value >= high {
        true
    } else if value <= low {
        false
    } else {
        latched
    }
}

/// Schmitt-trigger latch over integer samples.
///
/// Values at or above `high` latch on; values at or below `low` latch off.
/// Samples strictly between the thresholds hold the previous latch. When
/// `low == high`, the band collapses to a simple threshold with no hold
/// region.
#[derive(Copy, Clone, Debug, PartialEq, Eq)]
pub struct Hysteresis<T: TemporalSample> {
    low: T,
    high: T,
    latched: bool,
    initial: bool,
}

impl Hysteresis<i32> {
    /// Construct a hysteresis latch that starts off; `low <= high`.
    pub fn new(low: i32, high: i32) -> (h: Self)
        requires
            low <= high,
        ensures
            h.spec_low() == low,
            h.spec_high() == high,
            h.latch() == false,
            h.initial_latch() == false,
    {
        Hysteresis { low, high, latched: false, initial: false }
    }
}

impl Hysteresis<u16> {
    /// Construct a hysteresis latch that starts off; `low <= high`.
    pub fn new(low: u16, high: u16) -> (h: Self)
        requires
            low <= high,
        ensures
            h.spec_low() == low,
            h.spec_high() == high,
            h.latch() == false,
            h.initial_latch() == false,
    {
        Hysteresis { low, high, latched: false, initial: false }
    }
}

impl Hysteresis<u32> {
    /// Construct a hysteresis latch that starts off; `low <= high`.
    pub fn new(low: u32, high: u32) -> (h: Self)
        requires
            low <= high,
        ensures
            h.spec_low() == low,
            h.spec_high() == high,
            h.latch() == false,
            h.initial_latch() == false,
    {
        Hysteresis { low, high, latched: false, initial: false }
    }
}

impl<T: TemporalSample> Hysteresis<T> {
    /// The low threshold.
    pub closed spec fn spec_low(&self) -> int {
        self.low.spec_value()
    }

    /// The high threshold.
    pub closed spec fn spec_high(&self) -> int {
        self.high.spec_value()
    }

    /// The current latch.
    pub closed spec fn latch(&self) -> bool {
        self.latched
    }

    /// The latch restored by [`Hysteresis::reset`].
    pub closed spec fn initial_latch(&self) -> bool {
        self.initial
    }

    /// Set the initial latch used before the first crossing and after
    /// [`reset`](Self::reset).
    pub fn with_initial(self, on: bool) -> (h: Self)
        ensures
            h.spec_low() == self.spec_low(),
            h.spec_high() == self.spec_high(),
            h.latch() == on,
            h.initial_latch() == on,
    {
        Hysteresis { low: self.low, high: self.high, latched: on, initial: on }
    }

    /// Return the configured low threshold.
    pub fn low(&self) -> (t: T)
        ensures
            t.spec_value() == self.spec_low(),
    {
        self.low
    }

    /// Return the configured high threshold.
    pub fn high(&self) -> (t: T)
        ensures
            t.spec_value() == self.spec_high(),
    {
        self.high
    }

    /// The latch after one sample.
    pub closed spec fn updated(self, value: T) -> Self {
        Hysteresis {
            latched: hysteresis_next(self.latched, value.spec_value(), self.low.spec_value(), self.high.spec_value()),
            ..self
        }
    }

    /// The latch after the samples of `values`, in order.
    pub open spec fn updated_all(self, values: Seq<T>) -> Self
        decreases values.len(),
    {
        if values.len() == 0 {
            self
        } else {
            self.updated_all(values.drop_last()).updated(values.last())
        }
    }

    /// The latch restored to its initial level.
    pub closed spec fn restored(self) -> Self {
        Hysteresis { latched: self.initial, ..self }
    }

    /// Resetting after any sequence of updates gives the latch the reset of
    /// the original would: the initial level, with the thresholds kept.
    pub proof fn lemma_reset_after_updates(self, values: Seq<T>)
        ensures
            self.updated_all(values).restored() == self.restored(),
            self.restored().latch() == self.initial_latch(),
            self.restored().spec_low() == self.spec_low(),
            self.restored().spec_high() == self.spec_high(),
        decreases values.len(),
    {
        if values.len() > 0 {
            self.lemma_reset_after_updates(values.drop_last());
        }
    }

    /// One sample turns the latch on exactly when it reaches `high`, off
    /// exactly when it stays below `high` and reaches `low`, and strictly
    /// inside the band leaves it as it was.
    pub proof fn lemma_update_thresholds(self, value: T)
        ensures
            value.spec_value() >= self.spec_high() ==> self.updated(value).latch(),
            value.spec_value() < self.spec_high() && value.spec_value() <= self.spec_low()
                ==> !self.updated(value).latch(),
            self.spec_low() < value.spec_value() < self.spec_high() ==> self.updated(value).latch()
                == self.latch(),
            self.updated(value).spec_low() == self.spec_low(),
            self.updated(value).spec_high() == self.spec_high(),
            self.updated(value).initial_latch() == self.initial_latch(),
    {
    }

    /// Any run of samples strictly inside the band `(low, high)` holds the
    /// latch: it ends as it began, whatever it was.
    pub proof fn lemma_band_holds_latch(self, values: Seq<T>)
        requires
            forall|i: int|
                0 <= i < values.len() ==> self.spec_low() < #[trigger] values[i].spec_value()
                    < self.spec_high(),
        ensures
            self.updated_all(values).latch() == self.latch(),
            self.updated_all(values).spec_low() == self.spec_low(),
            self.updated_all(values).spec_high() == self.spec_high(),
        decreases values.len(),
    {
        if values.len() > 0 {
            let front = values.drop_last();
            assert forall|i: int| 0 <= i < front.len() implies self.spec_low()
                < #[trigger] front[i].spec_value() < self.spec_high() by {
                assert(front[i] == values[i]);
            }
            self.lemma_band_holds_latch(front);
            let before = self.updated_all(front);
            assert(self.spec_low() < values[values.len() - 1].spec_value() < self.spec_high());
            before.lemma_update_thresholds(values.last());
        }
    }

    /// Push one sample and return the current latched level.
    pub fn update(&mut self, value: T) -> (on: bool)
        ensures
            *final(self) == old(self).updated(value),
            on == hysteresis_next(
                old(self).latch(),
                value.spec_value(),
                old(self).spec_low(),
                old(self).spec_high(),
            ),
            final(self).latch() == on,
            value.spec_value() >= old(self).spec_high() ==> on,
            value.spec_value() < old(self).spec_high() && value.spec_value() <= old(self).spec_low()
                ==> !on,
            old(self).spec_low() < value.spec_value() < old(self).spec_high() ==> on == old(
                self,
            ).latch(),
            final(self).spec_low() == old(self).spec_low(),
            final(self).spec_high() == old(self).spec_high(),
            final(self).initial_latch() == old(self).initial_latch(),
    {
        let v = value.to_i64();
        if v >= self.high.to_i64() {
            self.latched = true;
        } else if v <= self.low.to_i64() {
            self.latched = false;
        }
        self.latched
    }

    /// Return the current latched level without consuming a sample.
    pub fn state(&self) -> (on: bool)
        ensures
            on == self.latch(),
    {
        self.latched
    }

    /// Restore the latch to the value supplied by
    /// [`with_initial`](Self::with_initial) (or `false`).
    pub fn reset(&mut self)
        ensures
            *final(self) == old(self).restored(),
            final(self).latch() == old(self).initial_latch(),
            final(self).initial_latch() == old(self).initial_latch(),
            final(self).spec_low() == old(self).spec_low(),
            final(self).spec_high() == old(self).spec_high(),
    {
        self.latched = self.initial;
    }
}

// ---------------------------------------------------------------------------
// Debounce
// ---------------------------------------------------------------------------

/// Output from a sample-count [`Debounce`].
#[derive(Copy, Clone, Debug, PartialEq, Eq, Structural)]
pub enum DebounceOutput {
    /// Fewer than `N` consecutive agreeing samples have been seen since start
    /// or the last candidate change, and no level has latched yet.
    WarmingUp {
        /// Consecutive samples agreeing on the current candidate.
        streak: usize,
        /// Samples required to latch (`N`).
        required: usize,
    },
    /// Latched level is unchanged on this sample.
    Steady(bool),
    /// Latched level changed on this sample (including the first latch).
    Edge {
        /// Newly latched level.
        level: bool,
    },
}

/// Debounce state as `(candidate, streak, latched, armed)`.
pub type DebounceState = (bool, int, bool, bool);

/// Candidate and streak after one sample.
pub open spec fn debounce_streak(state: DebounceState, sample: bool, n: int) -> (bool, int) {
    let (candidate, streak, _, _) = state;
    if streak == 0 || sample != candidate {
        (sample, 1)
    } else if streak < n {
        (candidate, streak + 1)
    } else {
        (candidate, streak)
    }
}

/// State after one sample.
pub open spec fn debounce_next(state: DebounceState, sample: bool, n: int) -> DebounceState {
    let (candidate, streak) = debounce_streak(state, sample, n);
    let (_, _, latched, armed) = state;
    if streak < n {
        (candidate, streak, latched, armed)
    } else {
        (candidate, streak, candidate, true)
    }
}

/// Output for one sample.
pub open spec fn debounce_output(state: DebounceState, sample: bool, n: int) -> DebounceOutput {
    let (candidate, streak) = debounce_streak(state, sample, n);
    let (_, _, latched, armed) = state;
    if streak < n {
        if armed {
            DebounceOutput::Steady(latched)
        } else {
            DebounceOutput::WarmingUp { streak: streak as usize, required: n as usize }
        }
    } else if !armed || candidate != latched {
        DebounceOutput::Edge { level: candidate }
    } else {
        DebounceOutput::Steady(latched)
    }
}

/// An edge is reported exactly when the latched level changes, counting
/// the first latch; a steady report repeats the latched level, which the
/// sample leaves as it was; warming up means nothing has latched yet.
pub proof fn lemma_debounce_edge_iff_latch_changes(state: DebounceState, sample: bool, n: int)
    ensures
        ({
            let out = debounce_output(state, sample, n);
            let next = debounce_next(state, sample, n);
            &&& (out is WarmingUp <==> !next.3)
            &&& (out is Edge <==> next.3 && (!state.3 || next.2 != state.2))
            &&& (out matches DebounceOutput::Edge { level } ==> level == next.2)
            &&& (out matches DebounceOutput::Steady(level) ==> state.3 && next.3 && level
                == state.2 && level == next.2)
        }),
{
}

/// State after `k` identical samples.
pub open spec fn debounce_repeat(state: DebounceState, sample: bool, n: int, k: nat) -> DebounceState
    decreases k,
{
    if k == 0 {
        state
    } else {
        debounce_repeat(debounce_next(state, sample, n), sample, n, (k - 1) as nat)
    }
}

/// Sample-count contact debounce for boolean inputs.
///
/// Latches after `N` consecutive agreeing samples. A candidate flip
/// mid-streak resets the streak to one on the new candidate.
#[derive(Copy, Clone, Debug, PartialEq, Eq)]
pub struct Debounce<const N: usize> {
    candidate: bool,
    streak: usize,
    latched: bool,
    armed: bool,
}

impl<const N: usize> Debounce<N> {
    /// `(candidate, streak, latched, armed)`.
    pub closed spec fn model(&self) -> DebounceState {
        (self.candidate, self.streak as int, self.latched, self.armed)
    }

    /// Well-formedness: the streak never exceeds `N`.
    pub closed spec fn wf(&self) -> bool {
        N > 0 && self.streak <= N
    }

    /// Construct an unarmed debounce; `N` must be nonzero.
    pub fn new() -> (d: Self)
        requires
            N > 0,
        ensures
            d.wf(),
            d.model() == (false, 0int, false, false),
    {
        Debounce { candidate: false, streak: 0, latched: false, armed: false }
    }

    /// Push one boolean sample and return the debounce state.
    pub fn update(&mut self, sample: bool) -> (out: DebounceOutput)
        requires
            old(self).wf(),
        ensures
            final(self).wf(),
            final(self).model() == debounce_next(old(self).model(), sample, N as int),
            out == debounce_output(old(self).model(), sample, N as int),
            out is WarmingUp <==> !final(self).model().3,
            out is Edge <==> final(self).model().3 && (!old(self).model().3
                || final(self).model().2 != old(self).model().2),
            out matches DebounceOutput::Edge { level } ==> level == final(self).model().2,
            out matches DebounceOutput::Steady(level) ==> old(self).model().3
                && final(self).model().3 && level == old(self).model().2
                && level == final(self).model().2,
    {
        if self.streak == 0 || sample != self.candidate {
            self.candidate = sample;
            self.streak = 1;
        } else if self.streak < N {
            self.streak = self.streak + 1;
        }
        if self.streak < N {
            if self.armed {
                DebounceOutput::Steady(self.latched)
            } else {
                DebounceOutput::WarmingUp { streak: self.streak, required: N }
            }
        } else if !self.armed {
            self.armed = true;
            self.latched = self.candidate;
            DebounceOutput::Edge { level: self.latched }
        } else if self.candidate != self.latched {
            self.latched = self.candidate;
            DebounceOutput::Edge { level: self.latched }
        } else {
            DebounceOutput::Steady(self.latched)
        }
    }

    /// The latched level after the first confirmed latch, or `None` while
    /// still warming up.
    pub fn state(&self) -> (level: Option<bool>)
        ensures
            level == (if self.model().3 {
                Some(self.model().2)
            } else {
                None
            }),
    {
        if self.armed {
            Some(self.latched)
        } else {
            None
        }
    }

    /// Discard streak and latch state.
    pub fn reset(&mut self)
        requires
            old(self).wf(),
        ensures
            final(self).wf(),
            final(self).model() == (false, 0int, false, false),
    {
        self.candidate = false;
        self.streak = 0;
        self.latched = false;
        self.armed = false;
    }
}

/// Once the candidate agrees with the sample, each further identical sample
/// lengthens the streak by one up to `n`, and reaching `n` latches it.
proof fn lemma_debounce_agreeing_run(state: DebounceState, sample: bool, n: int, k: nat)
    requires
        n > 0,
        1 <= state.1 <= n,
        state.0 == sample,
        state.1 >= n ==> state.3 && state.2 == sample,
    ensures
        debounce_repeat(state, sample, n, k).0 == sample,
        debounce_repeat(state, sample, n, k).1 == if state.1 + k < n {
            state.1 + k
        } else {
            n
        },
        debounce_repeat(state, sample, n, k).1 >= n ==> debounce_repeat(state, sample, n, k).3
            && debounce_repeat(state, sample, n, k).2 == sample,
    decreases k,
{
    if k > 0 {
        let next = debounce_next(state, sample, n);
        lemma_debounce_agreeing_run(next, sample, n, (k - 1) as nat);
    }
}

/// `N` consecutive identical samples always latch that level: whatever
/// came before, the debounce is armed and reports the sample.
pub proof fn lemma_debounce_latches_after_n_agreeing(
    state: DebounceState,
    sample: bool,
    n: int,
    k: nat,
)
    requires
        n > 0,
        0 <= state.1 <= n,
        k >= n,
    ensures
        debounce_repeat(state, sample, n, k).3,
        debounce_repeat(state, sample, n, k).2 == sample,
{
    let next = debounce_next(state, sample, n);
    lemma_debounce_agreeing_run(next, sample, n, (k - 1) as nat);
}

/// The state of a fresh debounce.
pub open spec fn debounce_start() -> DebounceState {
    (false, 0, false, false)
}

/// The state after the samples of `samples`, in order.
pub open spec fn debounce_run(state: DebounceState, samples: Seq<bool>, n: int) -> DebounceState
    decreases samples.len(),
{
    if samples.len() == 0 {
        state
    } else {
        debounce_next(debounce_run(state, samples.drop_last(), n), samples.last(), n)
    }
}

proof fn lemma_debounce_run_streak(h: Seq<bool>, n: int)
    requires
        n > 0,
    ensures
        ({
            let st = debounce_run(debounce_start(), h, n);
            &&& 0 <= st.1 <= n
            &&& st.1 <= h.len()
            &&& forall|i: int| h.len() - st.1 <= i < h.len() ==> #[trigger] h[i] == st.0
        }),
    decreases h.len(),
{
    if h.len() > 0 {
        let prev = h.drop_last();
        lemma_debounce_run_streak(prev, n);
        let st = debounce_run(debounce_start(), prev, n);
        let next = debounce_run(debounce_start(), h, n);
        assert(next == debounce_next(st, h.last(), n));
        assert forall|i: int| h.len() - next.1 <= i < h.len() implies #[trigger] h[i] == next.0 by {
            if i < h.len() - 1 {
                assert(h[i] == prev[i]);
            }
        }
    }
}

/// A debounce reports an edge only when the last `N` samples, this one
/// included, all agreed on the new level: fed `history` from new (or after
/// a reset) and then `sample`, an `Edge { level }` means at least `N`
/// samples have arrived and the newest `N` all equal `level`.
pub proof fn lemma_debounce_edge_means_agreement(history: Seq<bool>, sample: bool, n: int)
    requires
        n > 0,
        debounce_output(debounce_run(debounce_start(), history, n), sample, n) is Edge,
    ensures
        ({
            let all = history.push(sample);
            let level = debounce_output(debounce_run(debounce_start(), history, n), sample, n)->level;
            &&& all.len() >= n
            &&& forall|i: int| all.len() - n <= i < all.len() ==> #[trigger] all[i] == level
        }),
{
    lemma_debounce_run_streak(history, n);
    let all = history.push(sample);
    let st = debounce_run(debounce_start(), history, n);
    assert forall|i: int| all.len() - n <= i < all.len() implies #[trigger] all[i]
        == debounce_output(st, sample, n)->level by {
        if i < history.len() {
            assert(all[i] == history[i]);
        }
    }
}

} // verus!
