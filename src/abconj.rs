use crate::element::{lemma_wrap_add, lemma_wrap_neg, lemma_wrap_sub, Complex, Element, Scalar};
use crate::ufunc::{
    element_at, fits, non_overlapping, strided_view, ufunc_2_1_fn, untouched_outside, Stream,
};
use vstd::prelude::*;

verus! {

/// `a·b`, wrapped: a real number times the conjugate of a real number.
pub open spec fn abconj_real_of<T: Scalar>(a: T, b: T) -> T {
    T::wrap(a.value() * b.value())
}

/// `a` times the conjugate of `b`: `(ar·br + ai·bi, ai·br − ar·bi)`, each part
/// wrapped.
pub open spec fn abconj_complex_of<T: Scalar>(a: Complex<T>, b: Complex<T>) -> Complex<T> {
    Complex {
        re: T::wrap(a.re.value() * b.re.value() + a.im.value() * b.im.value()),
        im: T::wrap(a.im.value() * b.re.value() - a.re.value() * b.im.value()),
    }
}

/// A real `a` times the conjugate of `b`: `(a·br, −a·bi)`, each part wrapped.
pub open spec fn abconj_real_complex_of<T: Scalar>(a: T, b: Complex<T>) -> Complex<T> {
    Complex { re: T::wrap(a.value() * b.re.value()), im: T::wrap(-(a.value() * b.im.value())) }
}

/// `a` times a real `b`, which is its own conjugate: `(ar·b, ai·b)`, each
/// part wrapped.
pub open spec fn abconj_complex_real_of<T: Scalar>(a: Complex<T>, b: T) -> Complex<T> {
    Complex { re: T::wrap(a.re.value() * b.value()), im: T::wrap(a.im.value() * b.value()) }
}

/// The `n` results of `f` on the elements of two streams, index by index.
pub open spec fn zip_view<A: Element, B: Element, C>(
    mem1: Seq<u8>,
    s1: Stream,
    mem2: Seq<u8>,
    s2: Stream,
    n: nat,
    f: spec_fn(A, B) -> C,
) -> Seq<C> {
    Seq::new(n, |i: int| f(element_at::<A>(mem1, s1, i), element_at::<B>(mem2, s2, i)))
}

/// Writes `a·b` for each of `length` pairs of real elements.
pub fn abconj_real<T: Scalar>(
    input1: &[u8],
    i1: Stream,
    input2: &[u8],
    i2: Stream,
    output: &mut [u8],
    o1: Stream,
    length: usize,
)
    requires
        fits::<T>(input1@.len(), i1, length as nat),
        fits::<T>(input2@.len(), i2, length as nat),
        fits::<T>(old(output)@.len(), o1, length as nat),
        non_overlapping::<T>(o1, length as nat),
    ensures
        untouched_outside::<T>(old(output)@, final(output)@, o1, length as nat),
        strided_view::<T>(final(output)@, o1, length as nat) == zip_view(
            input1@,
            i1,
            input2@,
            i2,
            length as nat,
            |a: T, b: T| abconj_real_of(a, b),
        ),
{
    let op = |a: T, b: T| -> (r: T)
        ensures
            r == abconj_real_of(a, b),
        {
            a.mul_wrap(b)
        };
    ufunc_2_1_fn(op, input1, i1, input2, i2, output, o1, length);
    assert(strided_view::<T>(output@, o1, length as nat) =~= zip_view(
        input1@,
        i1,
        input2@,
        i2,
        length as nat,
        |a: T, b: T| abconj_real_of(a, b),
    ));
}

/// Writes `a` times the conjugate of `b` for each of `length` pairs of
/// complex elements.
pub fn abconj_complex<T: Scalar>(
    input1: &[u8],
    i1: Stream,
    input2: &[u8],
    i2: Stream,
    output: &mut [u8],
    o1: Stream,
    length: usize,
)
    requires
        fits::<Complex<T>>(input1@.len(), i1, length as nat),
        fits::<Complex<T>>(input2@.len(), i2, length as nat),
        fits::<Complex<T>>(old(output)@.len(), o1, length as nat),
        non_overlapping::<Complex<T>>(o1, length as nat),
    ensures
        untouched_outside::<Complex<T>>(old(output)@, final(output)@, o1, length as nat),
        strided_view::<Complex<T>>(final(output)@, o1, length as nat) == zip_view(
            input1@,
            i1,
            input2@,
            i2,
            length as nat,
            |a: Complex<T>, b: Complex<T>| abconj_complex_of(a, b),
        ),
{
    let op = |a: Complex<T>, b: Complex<T>| -> (r: Complex<T>)
        ensures
            r == abconj_complex_of(a, b),
        {
            proof {
                lemma_wrap_add::<T>(a.re.value() * b.re.value(), a.im.value() * b.im.value());
                lemma_wrap_sub::<T>(a.im.value() * b.re.value(), a.re.value() * b.im.value());
            }
            Complex {
                re: a.re.mul_wrap(b.re).add_wrap(a.im.mul_wrap(b.im)),
                im: a.im.mul_wrap(b.re).sub_wrap(a.re.mul_wrap(b.im)),
            }
        };
    ufunc_2_1_fn(op, input1, i1, input2, i2, output, o1, length);
    assert(strided_view::<Complex<T>>(output@, o1, length as nat) =~= zip_view(
        input1@,
        i1,
        input2@,
        i2,
        length as nat,
        |a: Complex<T>, b: Complex<T>| abconj_complex_of(a, b),
    ));
}

/// Writes a real `a` times the conjugate of a complex `b` for each of
/// `length` pairs of elements.
pub fn abconj_real_complex<T: Scalar>(
    input1: &[u8],
    i1: Stream,
    input2: &[u8],
    i2: Stream,
    output: &mut [u8],
    o1: Stream,
    length: usize,
)
    requires
        fits::<T>(input1@.len(), i1, length as nat),
        fits::<Complex<T>>(input2@.len(), i2, length as nat),
        fits::<Complex<T>>(old(output)@.len(), o1, length as nat),
        non_overlapping::<Complex<T>>(o1, length as nat),
    ensures
        untouched_outside::<Complex<T>>(old(output)@, final(output)@, o1, length as nat),
        strided_view::<Complex<T>>(final(output)@, o1, length as nat) == zip_view(
            input1@,
            i1,
            input2@,
            i2,
            length as nat,
            |a: T, b: Complex<T>| abconj_real_complex_of(a, b),
        ),
{
    let op = |a: T, b: Complex<T>| -> (r: Complex<T>)
        ensures
            r == abconj_real_complex_of(a, b),
        {
            proof {
                lemma_wrap_neg::<T>(a.value() * b.im.value());
            }
            Complex { re: a.mul_wrap(b.re), im: a.mul_wrap(b.im).neg_wrap() }
        };
    ufunc_2_1_fn(op, input1, i1, input2, i2, output, o1, length);
    assert(strided_view::<Complex<T>>(output@, o1, length as nat) =~= zip_view(
        input1@,
        i1,
        input2@,
        i2,
        length as nat,
        |a: T, b: Complex<T>| abconj_real_complex_of(a, b),
    ));
}

/// Writes a complex `a` times a real `b` for each of `length` pairs of
/// elements.
pub fn abconj_complex_real<T: Scalar>(
    input1: &[u8],
    i1: Stream,
    input2: &[u8],
    i2: Stream,
    output: &mut [u8],
    o1: Stream,
    length: usize,
)
    requires
        fits::<Complex<T>>(input1@.len(), i1, length as nat),
        fits::<T>(input2@.len(), i2, length as nat),
        fits::<Complex<T>>(old(output)@.len(), o1, length as nat),
        non_overlapping::<Complex<T>>(o1, length as nat),
    ensures
        untouched_outside::<Complex<T>>(old(output)@, final(output)@, o1, length as nat),
        strided_view::<Complex<T>>(final(output)@, o1, length as nat) == zip_view(
            input1@,
            i1,
            input2@,
            i2,
            length as nat,
            |a: Complex<T>, b: T| abconj_complex_real_of(a, b),
        ),
{
    let op = |a: Complex<T>, b: T| -> (r: Complex<T>)
        ensures
            r == abconj_complex_real_of(a, b),
        {
            Complex { re: a.re.mul_wrap(b), im: a.im.mul_wrap(b) }
        };
    ufunc_2_1_fn(op, input1, i1, input2, i2, output, o1, length);
    assert(strided_view::<Complex<T>>(output@, o1, length as nat) =~= zip_view(
        input1@,
        i1,
        input2@,
        i2,
        length as nat,
        |a: Complex<T>, b: T| abconj_complex_real_of(a, b),
    ));
}

} // verus!
