//! Seal for [`crate::TemporalSample`]: only this crate names the trait.

use vstd::prelude::*;

verus! {

/// Marker implemented only for the supported sample types.
pub trait Sealed {
}

impl Sealed for u16 {
}

impl Sealed for i32 {
}

impl Sealed for u32 {
}

} // verus!
