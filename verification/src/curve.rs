//! Curve types and traits.
//!
//! A *curve* maps a normalized input position to an output value via a
//! pre-computed lookup table (LUT). When the curve is *monotonic* an inverse
//! LUT is also available, enabling the tickless scheduler to work backwards
//! from a target output value to the corresponding input position.

use vstd::prelude::*;

use crate::math::UnitValue;

verus! {

/// Curve evaluation trait.
///
/// `I` is the input (index / domain) type and `V` is the output (value /
/// range) type. `spec_eval` names what the curve returns at each position.
pub trait Curve<I, V> {
    /// The value of the curve at `u`.
    spec fn spec_eval(&self, u: I) -> V;

    /// Evaluate the curve at the normalized position `u`.
    fn eval(&self, u: I) -> (v: V)
        ensures
            v == self.spec_eval(u),
    ;
}

/// Trait for monotonic curves that can be inverted.
///
/// `spec_inv` names the input position the inverse table stores for `w`.
pub trait MonotonicCurve<I, V>: Curve<I, V> {
    /// The input position that the inverse maps `w` to.
    spec fn spec_inv(&self, w: V) -> I;

    /// Look up the input position that maps to the output value `w`.
    fn inv(&self, w: V) -> (u: I)
        ensures
            u == self.spec_inv(w),
    ;
}

/// A curve backed by an `N`-entry forward and optional `M`-entry inverse LUT.
///
/// `N` is at least `I::one() + 1` and, when the inverse is present, `M` is
/// at least `V::one() + 1`, so every index value addresses an entry.
#[derive(Copy, Debug)]
pub struct CurveLut<I: UnitValue, V: UnitValue, const N: usize, const M: usize> {
    /// Forward lookup table mapping `I` → `V`.
    pub(crate) fwd: &'static [V; N],
    /// Optional inverse lookup table mapping `V` → `I`.
    pub(crate) inv: Option<&'static [I; M]>,
}

/// A 256-entry curve lookup table (u8 domain and range).
pub type CurveLut256 = CurveLut<u8, u8, 256, 256>;

/// A 65536-entry curve lookup table (u16 domain and range).
pub type CurveLut65536 = CurveLut<u16, u16, 65536, 65536>;

/// Table sizes that cover every index of the domain and range types.
pub open spec fn tables_cover<I: UnitValue, V: UnitValue>(n: nat, m: nat, has_inverse: bool) -> bool {
    &&& n >= I::spec_one() + 1
    &&& has_inverse ==> m >= V::spec_one() + 1
}

impl<I: UnitValue, V: UnitValue, const N: usize, const M: usize> CurveLut<I, V, N, M> {
    #[verifier::type_invariant]
    spec fn sized(self) -> bool {
        tables_cover::<I, V>(N as nat, M as nat, self.inv.is_some())
    }

    /// The forward table.
    pub closed spec fn fwd_view(self) -> Seq<V> {
        self.fwd@
    }

    /// The inverse table, when present.
    pub closed spec fn inv_view(self) -> Option<Seq<I>> {
        match self.inv {
            Some(inv) => Some(inv@),
            None => None,
        }
    }

    /// Create a new curve from a forward LUT and an optional inverse LUT.
    pub fn new(fwd: &'static [V; N], inv: Option<&'static [I; M]>) -> (curve: Self)
        requires
            tables_cover::<I, V>(N as nat, M as nat, inv.is_some()),
        ensures
            curve.fwd_view() == fwd@,
            curve.inv_view() == (match inv {
                Some(t) => Some(t@),
                None => None::<Seq<I>>,
            }),
    {
        Self { fwd, inv }
    }

    /// Return the forward lookup table.
    pub fn fwd_lut(&self) -> (t: &'static [V; N])
        ensures
            t@ == self.fwd_view(),
    {
        self.fwd
    }

    /// Return the inverse lookup table if available.
    pub fn inv_lut(&self) -> (t: Option<&'static [I; M]>)
        ensures
            self.inv_view() == (match t {
                Some(t) => Some(t@),
                None => None::<Seq<I>>,
            }),
    {
        self.inv
    }

    /// Convert to a [`MonotonicCurveLut`] if the inverse LUT is present.
    ///
    /// Returns `None` exactly when the curve has no inverse table.
    pub fn monotonic(self) -> (m: Option<MonotonicCurveLut<I, V, N, M>>)
        ensures
            self.inv_view() is None <==> m is None,
            m matches Some(c) ==> c.fwd_view() == self.fwd_view() && Some(c.inv_view())
                == self.inv_view(),
    {
        proof {
            use_type_invariant(&self);
        }
        match self.inv {
            Some(inv) => Some(MonotonicCurveLut { fwd: self.fwd, inv }),
            None => None,
        }
    }
}

impl<I: UnitValue, V: UnitValue, const N: usize, const M: usize> CurveLut<I, V, N, M> {
    /// Evaluation reads the forward table at the position's own index, for
    /// every table, monotonic or not: no neighbouring entry is consulted.
    pub proof fn lemma_eval_is_table_entry(self, u: I)
        ensures
            Curve::<I, V>::spec_eval(&self, u) == self.fwd_view()[u.spec_index() as int],
            forall|t: I|
                #![trigger t.spec_index()]
                t.spec_index() == u.spec_index() ==> Curve::<I, V>::spec_eval(&self, t)
                    == Curve::<I, V>::spec_eval(&self, u),
    {
    }
}

impl<I: UnitValue, V: UnitValue, const N: usize, const M: usize> Clone for CurveLut<I, V, N, M> {
    fn clone(&self) -> (c: Self)
        ensures
            c == *self,
    {
        *self
    }
}

impl<I: UnitValue, V: UnitValue, const N: usize, const M: usize> Curve<I, V> for CurveLut<
    I,
    V,
    N,
    M,
> {
    open spec fn spec_eval(&self, u: I) -> V {
        self.fwd_view()[u.spec_index() as int]
    }

    fn eval(&self, u: I) -> (v: V)
        ensures
            u.spec_index() < self.fwd_view().len(),
            v == self.fwd_view()[u.spec_index() as int],
    {
        proof {
            use_type_invariant(self);
            u.lemma_index_bounds();
        }
        self.fwd[u.to_index()]
    }
}

/// A monotonic curve backed by an `N`-entry forward and `M`-entry inverse LUT.
///
/// Unlike [`CurveLut`], this type always has an inverse table, so it
/// implements [`MonotonicCurve`].
#[derive(Copy, Debug)]
pub struct MonotonicCurveLut<I: UnitValue, V: UnitValue, const N: usize, const M: usize> {
    fwd: &'static [V; N],
    inv: &'static [I; M],
}

/// A 256-entry monotonic curve lookup table (u8 domain and range).
pub type MonotonicCurveLut256 = MonotonicCurveLut<u8, u8, 256, 256>;

/// A 65536-entry monotonic curve lookup table (u16 domain and range).
pub type MonotonicCurveLut65536 = MonotonicCurveLut<u16, u16, 65536, 65536>;

impl<I: UnitValue, V: UnitValue, const N: usize, const M: usize> MonotonicCurveLut<I, V, N, M> {
    #[verifier::type_invariant]
    spec fn sized(self) -> bool {
        tables_cover::<I, V>(N as nat, M as nat, true)
    }

    /// The forward table.
    pub closed spec fn fwd_view(self) -> Seq<V> {
        self.fwd@
    }

    /// The inverse table.
    pub closed spec fn inv_view(self) -> Seq<I> {
        self.inv@
    }

    /// Create a new monotonic curve from forward and inverse LUTs.
    pub fn new(fwd: &'static [V; N], inv: &'static [I; M]) -> (curve: Self)
        requires
            tables_cover::<I, V>(N as nat, M as nat, true),
        ensures
            curve.fwd_view() == fwd@,
            curve.inv_view() == inv@,
    {
        Self { fwd, inv }
    }

    /// Return the forward lookup table.
    pub fn fwd_lut(&self) -> (t: &'static [V; N])
        ensures
            t@ == self.fwd_view(),
    {
        self.fwd
    }

    /// Return the inverse lookup table.
    pub fn inv_lut(&self) -> (t: &'static [I; M])
        ensures
            t@ == self.inv_view(),
    {
        self.inv
    }
}

impl<I: UnitValue, V: UnitValue, const N: usize, const M: usize> MonotonicCurveLut<I, V, N, M> {
    /// Evaluation reads the forward table, and inversion the inverse table,
    /// each at the argument's own index.
    pub proof fn lemma_lookups_are_table_entries(self, u: I, w: V)
        ensures
            Curve::<I, V>::spec_eval(&self, u) == self.fwd_view()[u.spec_index() as int],
            MonotonicCurve::<I, V>::spec_inv(&self, w) == self.inv_view()[w.spec_index() as int],
    {
    }
}

impl<I: UnitValue, V: UnitValue, const N: usize, const M: usize> Clone for MonotonicCurveLut<I, V, N, M> {
    fn clone(&self) -> (c: Self)
        ensures
            c == *self,
    {
        *self
    }
}

impl<I: UnitValue, V: UnitValue, const N: usize, const M: usize> Curve<I, V> for MonotonicCurveLut<
    I,
    V,
    N,
    M,
> {
    open spec fn spec_eval(&self, u: I) -> V {
        self.fwd_view()[u.spec_index() as int]
    }

    fn eval(&self, u: I) -> (v: V)
        ensures
            u.spec_index() < self.fwd_view().len(),
            v == self.fwd_view()[u.spec_index() as int],
    {
        proof {
            use_type_invariant(self);
            u.lemma_index_bounds();
        }
        self.fwd[u.to_index()]
    }
}

impl<I: UnitValue, V: UnitValue, const N: usize, const M: usize> MonotonicCurve<
    I,
    V,
> for MonotonicCurveLut<I, V, N, M> {
    open spec fn spec_inv(&self, w: V) -> I {
        self.inv_view()[w.spec_index() as int]
    }

    fn inv(&self, w: V) -> (u: I)
        ensures
            w.spec_index() < self.inv_view().len(),
            u == self.inv_view()[w.spec_index() as int],
    {
        proof {
            use_type_invariant(self);
            w.lemma_index_bounds();
        }
        self.inv[w.to_index()]
    }
}

} // verus!
