//! The closed menu of element widths as marker traits, and a layout
//! comparison for storage types.
//!
//! The engine dispatches on a small fixed set of widths; these traits
//! record, at the type level, how wide each primitive storage type is,
//! so that code generic over storage can bound itself to the menu.

use vstd::prelude::*;

verus! {

/// Restricts the width traits to the primitive types this crate knows.
pub trait Sealed {}

/// Marks a type as exactly `SIZE_EQU` bits wide.
pub trait SizeEquals<const SIZE_EQU: usize>: Sealed {}

/// Marks a type as at least `SIZE_MIN` bits wide (inclusive).
pub trait SizeGreater<const SIZE_MIN: usize>: Sealed {}

/// Marks a type as at most `SIZE_MAX` bits wide (inclusive).
pub trait SizeLesser<const SIZE_MAX: usize>: Sealed {}

/// Marks a type as exactly eight bits wide.
pub trait Is8: SizeEquals<8> {}

/// Marks a type as exactly sixteen bits wide.
pub trait Is16: SizeEquals<16> {}

/// Marks a type as exactly thirty-two bits wide.
pub trait Is32: SizeEquals<32> {}

/// Marks a type as exactly sixty-four bits wide.
pub trait Is64: SizeEquals<64> {}

/// Marks a type as exactly one hundred twenty-eight bits wide.
pub trait Is128: SizeEquals<128> {}

/// Marks a type as eight or more bits wide.
pub trait AtLeast8: SizeGreater<8> {}

/// Marks a type as sixteen or more bits wide.
pub trait AtLeast16: SizeGreater<16> {}

/// Marks a type as thirty-two or more bits wide.
pub trait AtLeast32: SizeGreater<32> {}

/// Marks a type as sixty-four or more bits wide.
pub trait AtLeast64: SizeGreater<64> {}

/// Marks a type as one hundred twenty-eight or more bits wide.
pub trait AtLeast128: SizeGreater<128> {}

/// Marks a type as eight or fewer bits wide.
pub trait AtMost8: SizeLesser<8> {}

/// Marks a type as sixteen or fewer bits wide.
pub trait AtMost16: SizeLesser<16> {}

/// Marks a type as thirty-two or fewer bits wide.
pub trait AtMost32: SizeLesser<32> {}

/// Marks a type as sixty-four or fewer bits wide.
pub trait AtMost64: SizeLesser<64> {}

/// Marks a type as one hundred twenty-eight or fewer bits wide.
pub trait AtMost128: SizeLesser<128> {}

impl<T: SizeEquals<8>> Is8 for T {}

impl<T: SizeEquals<16>> Is16 for T {}

impl<T: SizeEquals<32>> Is32 for T {}

impl<T: SizeEquals<64>> Is64 for T {}

impl<T: SizeEquals<128>> Is128 for T {}

impl<T: SizeGreater<8>> AtLeast8 for T {}

impl<T: SizeGreater<16>> AtLeast16 for T {}

impl<T: SizeGreater<32>> AtLeast32 for T {}

impl<T: SizeGreater<64>> AtLeast64 for T {}

impl<T: SizeGreater<128>> AtLeast128 for T {}

impl<T: SizeLesser<8>> AtMost8 for T {}

impl<T: SizeLesser<16>> AtMost16 for T {}

impl<T: SizeLesser<32>> AtMost32 for T {}

impl<T: SizeLesser<64>> AtMost64 for T {}

impl<T: SizeLesser<128>> AtMost128 for T {}

impl Sealed for u8 {}

impl Sealed for u16 {}

impl Sealed for u32 {}

impl Sealed for u64 {}

impl Sealed for u128 {}

impl Sealed for usize {}

impl Sealed for i8 {}

impl Sealed for i16 {}

impl Sealed for i32 {}

impl Sealed for i64 {}

impl Sealed for i128 {}

impl Sealed for isize {}

impl SizeEquals<8> for u8 {}

impl SizeEquals<8> for i8 {}

impl SizeEquals<16> for u16 {}

impl SizeEquals<16> for i16 {}

impl SizeEquals<32> for u32 {}

impl SizeEquals<32> for i32 {}

impl SizeEquals<64> for u64 {}

impl SizeEquals<64> for i64 {}

impl SizeEquals<64> for usize {}

impl SizeEquals<64> for isize {}

impl SizeEquals<128> for u128 {}

impl SizeEquals<128> for i128 {}

impl SizeGreater<8> for u8 {}

impl SizeGreater<8> for i8 {}

impl SizeGreater<8> for u16 {}

impl SizeGreater<8> for i16 {}

impl SizeGreater<8> for u32 {}

impl SizeGreater<8> for i32 {}

impl SizeGreater<8> for u64 {}

impl SizeGreater<8> for i64 {}

impl SizeGreater<8> for u128 {}

impl SizeGreater<8> for i128 {}

impl SizeGreater<8> for usize {}

impl SizeGreater<8> for isize {}

impl SizeGreater<16> for u16 {}

impl SizeGreater<16> for i16 {}

impl SizeGreater<16> for u32 {}

impl SizeGreater<16> for i32 {}

impl SizeGreater<16> for u64 {}

impl SizeGreater<16> for i64 {}

impl SizeGreater<16> for u128 {}

impl SizeGreater<16> for i128 {}

impl SizeGreater<16> for usize {}

impl SizeGreater<16> for isize {}

impl SizeGreater<32> for u32 {}

impl SizeGreater<32> for i32 {}

impl SizeGreater<32> for u64 {}

impl SizeGreater<32> for i64 {}

impl SizeGreater<32> for u128 {}

impl SizeGreater<32> for i128 {}

impl SizeGreater<32> for usize {}

impl SizeGreater<32> for isize {}

impl SizeGreater<64> for u64 {}

impl SizeGreater<64> for i64 {}

impl SizeGreater<64> for u128 {}

impl SizeGreater<64> for i128 {}

impl SizeGreater<64> for usize {}

impl SizeGreater<64> for isize {}

impl SizeGreater<128> for u128 {}

impl SizeGreater<128> for i128 {}

impl SizeLesser<8> for u8 {}

impl SizeLesser<8> for i8 {}

impl SizeLesser<16> for u8 {}

impl SizeLesser<16> for i8 {}

impl SizeLesser<16> for u16 {}

impl SizeLesser<16> for i16 {}

impl SizeLesser<32> for u8 {}

impl SizeLesser<32> for i8 {}

impl SizeLesser<32> for u16 {}

impl SizeLesser<32> for i16 {}

impl SizeLesser<32> for u32 {}

impl SizeLesser<32> for i32 {}

impl SizeLesser<64> for u8 {}

impl SizeLesser<64> for i8 {}

impl SizeLesser<64> for u16 {}

impl SizeLesser<64> for i16 {}

impl SizeLesser<64> for u32 {}

impl SizeLesser<64> for i32 {}

impl SizeLesser<64> for u64 {}

impl SizeLesser<64> for i64 {}

impl SizeLesser<64> for usize {}

impl SizeLesser<64> for isize {}

impl SizeLesser<128> for u8 {}

impl SizeLesser<128> for i8 {}

impl SizeLesser<128> for u16 {}

impl SizeLesser<128> for i16 {}

impl SizeLesser<128> for u32 {}

impl SizeLesser<128> for i32 {}

impl SizeLesser<128> for u64 {}

impl SizeLesser<128> for i64 {}

impl SizeLesser<128> for u128 {}

impl SizeLesser<128> for i128 {}

impl SizeLesser<128> for usize {}

impl SizeLesser<128> for isize {}

/// Whether two types have the same layout: equal size and equal alignment.
pub fn layout_equal<T, U>() -> (r: bool)
    ensures
        r == (vstd::layout::size_of::<T>() == vstd::layout::size_of::<U>()
            && vstd::layout::align_of::<T>() == vstd::layout::align_of::<U>()),
{
    core::mem::size_of::<T>() == core::mem::size_of::<U>() && core::mem::align_of::<T>()
        == core::mem::align_of::<U>()
}

} // verus!
