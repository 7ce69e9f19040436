use crate::element::{lemma_wrap_add, Complex, Scalar};
use crate::ufunc::{fits, non_overlapping, strided_view, ufunc_1_1_fn, untouched_outside, Stream};
use vstd::prelude::*;

verus! {

/// `x·x`, wrapped to the width of `T`.
pub open spec fn abs2_of<T: Scalar>(x: T) -> T {
    T::wrap(x.value() * x.value())
}

/// `re·re + im·im`, wrapped to the width of `T`.
pub open spec fn abs2_complex_of<T: Scalar>(z: Complex<T>) -> T {
    T::wrap(z.re.value() * z.re.value() + z.im.value() * z.im.value())
}

/// Writes the square of each of `length` elements of `input` to `output`.
pub fn abs2_real<T: Scalar>(
    input: &[u8],
    i1: Stream,
    output: &mut [u8],
    o1: Stream,
    length: usize,
)
    requires
        fits::<T>(input@.len(), i1, length as nat),
        fits::<T>(old(output)@.len(), o1, length as nat),
        non_overlapping::<T>(o1, length as nat),
    ensures
        untouched_outside::<T>(old(output)@, final(output)@, o1, length as nat),
        strided_view::<T>(final(output)@, o1, length as nat) == strided_view::<T>(
            input@,
            i1,
            length as nat,
        ).map_values(|x: T| abs2_of(x)),
{
    let op = |x: T| -> (r: T)
        ensures
            r == abs2_of(x),
        { x.mul_wrap(x) };
    ufunc_1_1_fn(op, input, i1, output, o1, length);
    assert(strided_view::<T>(output@, o1, length as nat) =~= strided_view::<T>(
        input@,
        i1,
        length as nat,
    ).map_values(|x: T| abs2_of(x)));
}

/// Writes the squared magnitude of each of `length` complex elements of
/// `input` to `output`.
pub fn abs2_complex<T: Scalar>(
    input: &[u8],
    i1: Stream,
    output: &mut [u8],
    o1: Stream,
    length: usize,
)
    requires
        fits::<Complex<T>>(input@.len(), i1, length as nat),
        fits::<T>(old(output)@.len(), o1, length as nat),
        non_overlapping::<T>(o1, length as nat),
    ensures
        untouched_outside::<T>(old(output)@, final(output)@, o1, length as nat),
        strided_view::<T>(final(output)@, o1, length as nat) == strided_view::<Complex<T>>(
            input@,
            i1,
            length as nat,
        ).map_values(|z: Complex<T>| abs2_complex_of(z)),
{
    let op = |z: Complex<T>| -> (r: T)
        ensures
            r == abs2_complex_of(z),
        {
            proof {
                lemma_wrap_add::<T>(z.re.value() * z.re.value(), z.im.value() * z.im.value());
            }
            z.re.mul_wrap(z.re).add_wrap(z.im.mul_wrap(z.im))
        };
    ufunc_1_1_fn(op, input, i1, output, o1, length);
    assert(strided_view::<T>(output@, o1, length as nat) =~= strided_view::<Complex<T>>(
        input@,
        i1,
        length as nat,
    ).map_values(|z: Complex<T>| abs2_complex_of(z)));
}

} // verus!
