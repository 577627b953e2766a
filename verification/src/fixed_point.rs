//! Fixed-point arithmetic from the `fixed` crate, carried as raw bits.
//!
//! Each function here makes one call into `fixed` on the bit patterns of
//! `I32F32`, `I16F16` or `U16F16` values and states, as a contract, the
//! integer arithmetic that `fixed` documents for that operation: integer
//! conversion shifts by the fractional bit count, `+`/`-` act on the bits,
//! `*` keeps the high bits of the double-width product (rounding toward
//! minus infinity), `/` divides the shifted numerator with truncation toward
//! zero, `to_num` to an integer discards fractional bits (toward minus
//! infinity) and `ceil` rounds up. Every precondition excludes the inputs on
//! which `fixed` panics in debug builds (overflow, division by zero).

use fixed::types::{I16F16, I32F32, U16F16};
use vstd::prelude::*;

use crate::round::abs_int;

verus! {

/// `2^32`, the scale of an `I32F32` bit pattern.
pub open spec fn scale32() -> int {
    0x1_0000_0000
}

/// `2^16`, the scale of an `I16F16` / `U16F16` bit pattern.
pub open spec fn scale16() -> int {
    0x1_0000
}

/// Integer division truncated toward zero (Rust's `/` on integers).
pub open spec fn trunc_div(n: int, d: int) -> int {
    if (n >= 0) == (d > 0) {
        abs_int(n) / abs_int(d)
    } else {
        -(abs_int(n) / abs_int(d))
    }
}

/// Bits of the `I32F32` product of two `I32F32` bit patterns.
pub open spec fn i32f32_mul_bits(a: int, b: int) -> int {
    (a * b) / scale32()
}

/// Bits of the `I32F32` quotient of two `I32F32` bit patterns.
pub open spec fn i32f32_div_bits(a: int, b: int) -> int {
    trunc_div(a * scale32(), b)
}

/// Bits of the `I16F16` product of two `I16F16` bit patterns.
pub open spec fn i16f16_mul_bits(a: int, b: int) -> int {
    (a * b) / scale16()
}

/// Bits of the `I16F16` quotient of two `I16F16` bit patterns.
pub open spec fn i16f16_div_bits(a: int, b: int) -> int {
    trunc_div(a * scale16(), b)
}

/// `I32F32::from_num` on an integer: the bits are `x * 2^32`.
#[verifier::external_body]
pub(crate) fn i32f32_from_int(x: i64) -> (bits: i64)
    requires
        -0x8000_0000 <= x < 0x8000_0000,
    ensures
        bits == x * scale32(),
{
    I32F32::from_num(x).to_bits()
}

/// `+` on two `I32F32` values: the bits add.
#[verifier::external_body]
pub(crate) fn i32f32_add(a: i64, b: i64) -> (bits: i64)
    requires
        i64::MIN <= a + b <= i64::MAX,
    ensures
        bits == a + b,
{
    (I32F32::from_bits(a) + I32F32::from_bits(b)).to_bits()
}

/// `-` on two `I32F32` values: the bits subtract.
#[verifier::external_body]
pub(crate) fn i32f32_sub(a: i64, b: i64) -> (bits: i64)
    requires
        i64::MIN <= a - b <= i64::MAX,
    ensures
        bits == a - b,
{
    (I32F32::from_bits(a) - I32F32::from_bits(b)).to_bits()
}

/// `*` on two `I32F32` values: `floor(a * b / 2^32)` on the bits.
#[verifier::external_body]
pub(crate) fn i32f32_mul(a: i64, b: i64) -> (bits: i64)
    requires
        -0x4000_0000_0000_0000_0000_0000 < a * b < 0x4000_0000_0000_0000_0000_0000,
        i64::MIN <= i32f32_mul_bits(a as int, b as int) <= i64::MAX,
    ensures
        bits == i32f32_mul_bits(a as int, b as int),
{
    (I32F32::from_bits(a) * I32F32::from_bits(b)).to_bits()
}

/// `/` on two `I32F32` values: `(a * 2^32) / b` truncated toward zero.
#[verifier::external_body]
pub(crate) fn i32f32_div(a: i64, b: i64) -> (bits: i64)
    requires
        b != 0,
        i64::MIN <= i32f32_div_bits(a as int, b as int) <= i64::MAX,
    ensures
        bits == i32f32_div_bits(a as int, b as int),
{
    (I32F32::from_bits(a) / I32F32::from_bits(b)).to_bits()
}

/// `I32F32::to_num::<i64>`: the fractional bits are discarded (floor).
#[verifier::external_body]
pub(crate) fn i32f32_to_i64(a: i64) -> (n: i64)
    ensures
        n == (a as int) / scale32(),
{
    I32F32::from_bits(a).to_num::<i64>()
}

/// `I32F32::ceil`: rounds up to the next integer, on the bits.
#[verifier::external_body]
pub(crate) fn i32f32_ceil(a: i64) -> (bits: i64)
    requires
        a <= i64::MAX - scale32(),
    ensures
        bits == -((-(a as int)) / scale32()) * scale32(),
{
    I32F32::from_bits(a).ceil().to_bits()
}

/// `I16F16::from_num` on an integer: the bits are `x * 2^16`.
#[verifier::external_body]
pub(crate) fn i16f16_from_int(x: i32) -> (bits: i32)
    requires
        -0x8000 <= x < 0x8000,
    ensures
        bits == x * scale16(),
{
    I16F16::from_num(x).to_bits()
}

/// `+` on two `I16F16` values: the bits add.
#[verifier::external_body]
pub(crate) fn i16f16_add(a: i32, b: i32) -> (bits: i32)
    requires
        i32::MIN <= a + b <= i32::MAX,
    ensures
        bits == a + b,
{
    (I16F16::from_bits(a) + I16F16::from_bits(b)).to_bits()
}

/// `-` on two `I16F16` values: the bits subtract.
#[verifier::external_body]
pub(crate) fn i16f16_sub(a: i32, b: i32) -> (bits: i32)
    requires
        i32::MIN <= a - b <= i32::MAX,
    ensures
        bits == a - b,
{
    (I16F16::from_bits(a) - I16F16::from_bits(b)).to_bits()
}

/// `*` on two `I16F16` values: `floor(a * b / 2^16)` on the bits.
#[verifier::external_body]
pub(crate) fn i16f16_mul(a: i32, b: i32) -> (bits: i32)
    requires
        i32::MIN <= i16f16_mul_bits(a as int, b as int) <= i32::MAX,
    ensures
        bits == i16f16_mul_bits(a as int, b as int),
{
    (I16F16::from_bits(a) * I16F16::from_bits(b)).to_bits()
}

/// `/` on two `I16F16` values: `(a * 2^16) / b` truncated toward zero.
#[verifier::external_body]
pub(crate) fn i16f16_div(a: i32, b: i32) -> (bits: i32)
    requires
        b != 0,
        i32::MIN <= i16f16_div_bits(a as int, b as int) <= i32::MAX,
    ensures
        bits == i16f16_div_bits(a as int, b as int),
{
    (I16F16::from_bits(a) / I16F16::from_bits(b)).to_bits()
}

/// `I16F16::to_num::<i32>`: the fractional bits are discarded (floor).
#[verifier::external_body]
pub(crate) fn i16f16_to_i32(a: i32) -> (n: i32)
    ensures
        n == (a as int) / scale16(),
{
    I16F16::from_bits(a).to_num::<i32>()
}

/// `U16F16::from_num` on an integer: the bits are `x * 2^16`.
#[verifier::external_body]
pub(crate) fn u16f16_from_int(x: u32) -> (bits: u32)
    requires
        x < 0x1_0000,
    ensures
        bits == x * scale16(),
{
    U16F16::from_num(x).to_bits()
}

/// `*` on two `U16F16` values: `floor(a * b / 2^16)` on the bits.
#[verifier::external_body]
pub(crate) fn u16f16_mul(a: u32, b: u32) -> (bits: u32)
    requires
        (a as int) * (b as int) / scale16() <= u32::MAX,
    ensures
        bits == (a as int) * (b as int) / scale16(),
{
    (U16F16::from_bits(a) * U16F16::from_bits(b)).to_bits()
}

/// `/` on two `U16F16` values: `floor(a * 2^16 / b)` on the bits.
#[verifier::external_body]
pub(crate) fn u16f16_div(a: u32, b: u32) -> (bits: u32)
    requires
        b != 0,
        (a as int) * scale16() / (b as int) <= u32::MAX,
    ensures
        bits == (a as int) * scale16() / (b as int),
{
    (U16F16::from_bits(a) / U16F16::from_bits(b)).to_bits()
}

/// `U16F16::to_num::<u32>`: the fractional bits are discarded (floor).
#[verifier::external_body]
pub(crate) fn u16f16_to_u32(a: u32) -> (n: u32)
    ensures
        n == (a as int) / scale16(),
{
    U16F16::from_bits(a).to_num::<u32>()
}

} // verus!
