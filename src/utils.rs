use vstd::layout::{align_of, size_of};
use vstd::prelude::*;

verus! {

/// Whether `address` is a multiple of the natural alignment of `T`.
pub fn is_aligned<T>(address: usize) -> (r: bool)
    ensures
        r == (address as nat % align_of::<T>() == 0),
{
    broadcast use vstd::layout::align_nonzero;

    address % core::mem::align_of::<T>() == 0
}

/// Whether a byte stride steps from one `T` exactly to the next one, with no
/// gap and no overlap.
pub fn is_contiguous<T>(byte_stride: isize) -> (r: bool)
    ensures
        r == (byte_stride as int == size_of::<T>()),
{
    byte_stride >= 0 && byte_stride as usize == core::mem::size_of::<T>()
}

} // verus!
