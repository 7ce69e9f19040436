use crate::element::Element;
use crate::utils::{is_aligned, is_contiguous};
use vstd::prelude::*;

verus! {

/// Which value, if any, leaves an operation's other operand unchanged; a
/// host uses it to start or skip a reduction.
#[derive(Debug, Copy, Clone, PartialEq, Eq, Hash, PartialOrd, Ord)]
pub enum Identity {
    Zero,
    One,
    MinusOne,
    NoIdentity,
}

impl Identity {
    /// The number by which a host's registration call encodes the policy.
    pub open spec fn spec_code(self) -> i32 {
        match self {
            Identity::Zero => 0,
            Identity::One => 1,
            Identity::MinusOne => 2,
            Identity::NoIdentity => -1i32,
        }
    }

    pub fn code(&self) -> (r: i32)
        ensures
            r == self.spec_code(),
    {
        match self {
            Identity::Zero => 0,
            Identity::One => 1,
            Identity::MinusOne => 2,
            Identity::NoIdentity => -1,
        }
    }
}

/// An element type of the host, as named in a type signature.
#[derive(Debug, Copy, Clone, PartialEq, Eq, Hash, PartialOrd, Ord)]
pub enum BuiltInType {
    Bool,
    Byte,
    UByte,
    Short,
    UShort,
    Int,
    UInt,
    Long,
    ULong,
    LongLong,
    ULongLong,
    Float,
    Double,
    LongDouble,
    CFloat,
    CDouble,
    CLongDouble,
    Object,
    String,
    Unicode,
    Void,
    Datetime,
    Timedelta,
    Half,
}

impl BuiltInType {
    /// The number by which the host identifies the type.
    pub open spec fn spec_type_num(self) -> i8 {
        match self {
            BuiltInType::Bool => 0i8,
            BuiltInType::Byte => 1,
            BuiltInType::UByte => 2,
            BuiltInType::Short => 3,
            BuiltInType::UShort => 4,
            BuiltInType::Int => 5,
            BuiltInType::UInt => 6,
            BuiltInType::Long => 7,
            BuiltInType::ULong => 8,
            BuiltInType::LongLong => 9,
            BuiltInType::ULongLong => 10,
            BuiltInType::Float => 11,
            BuiltInType::Double => 12,
            BuiltInType::LongDouble => 13,
            BuiltInType::CFloat => 14,
            BuiltInType::CDouble => 15,
            BuiltInType::CLongDouble => 16,
            BuiltInType::Object => 17,
            BuiltInType::String => 18,
            BuiltInType::Unicode => 19,
            BuiltInType::Void => 20,
            BuiltInType::Datetime => 21,
            BuiltInType::Timedelta => 22,
            BuiltInType::Half => 23,
        }
    }

    pub fn type_num(&self) -> (r: i8)
        ensures
            r == self.spec_type_num(),
    {
        match self {
            BuiltInType::Bool => 0,
            BuiltInType::Byte => 1,
            BuiltInType::UByte => 2,
            BuiltInType::Short => 3,
            BuiltInType::UShort => 4,
            BuiltInType::Int => 5,
            BuiltInType::UInt => 6,
            BuiltInType::Long => 7,
            BuiltInType::ULong => 8,
            BuiltInType::LongLong => 9,
            BuiltInType::ULongLong => 10,
            BuiltInType::Float => 11,
            BuiltInType::Double => 12,
            BuiltInType::LongDouble => 13,
            BuiltInType::CFloat => 14,
            BuiltInType::CDouble => 15,
            BuiltInType::CLongDouble => 16,
            BuiltInType::Object => 17,
            BuiltInType::String => 18,
            BuiltInType::Unicode => 19,
            BuiltInType::Void => 20,
            BuiltInType::Datetime => 21,
            BuiltInType::Timedelta => 22,
            BuiltInType::Half => 23,
        }
    }
}

/// The element types of the inputs and of the outputs of one kernel.
pub struct Signature<const N_IN: usize, const N_OUT: usize> {
    pub input: [BuiltInType; N_IN],
    pub output: [BuiltInType; N_OUT],
}

/// The host's numbers of the given types, in order.
pub open spec fn type_nums_of(types: Seq<BuiltInType>) -> Seq<i8> {
    types.map_values(|t: BuiltInType| t.spec_type_num())
}

impl<const N_IN: usize, const N_OUT: usize> Signature<N_IN, N_OUT> {
    /// The type numbers of the inputs followed by those of the outputs: the
    /// form in which the host's registration call takes a signature.
    pub fn type_nums(&self) -> (r: Vec<i8>)
        ensures
            r@ == type_nums_of(self.input@) + type_nums_of(self.output@),
    {
        let mut r: Vec<i8> = Vec::new();
        let mut i: usize = 0;
        while i < N_IN
            invariant
                i <= N_IN == self.input@.len(),
                r@ == type_nums_of(self.input@.subrange(0, i as int)),
            decreases N_IN - i,
        {
            r.push(self.input[i].type_num());
            assert(self.input@.subrange(0, i + 1) =~= self.input@.subrange(0, i as int).push(
                self.input@[i as int],
            ));
            i = i + 1;
        }
        assert(self.input@.subrange(0, N_IN as int) =~= self.input@);
        let mut j: usize = 0;
        while j < N_OUT
            invariant
                j <= N_OUT == self.output@.len(),
                r@ == type_nums_of(self.input@) + type_nums_of(self.output@.subrange(0, j as int)),
            decreases N_OUT - j,
        {
            r.push(self.output[j].type_num());
            assert(self.output@.subrange(0, j + 1) =~= self.output@.subrange(0, j as int).push(
                self.output@[j as int],
            ));
            j = j + 1;
        }
        assert(self.output@.subrange(0, N_OUT as int) =~= self.output@);
        r
    }
}

/// Where one argument's elements lie in its buffer: the byte offset of the
/// first element and the signed byte distance from each element to the next.
/// Alignment is judged on the offset, as if the buffer began at an address
/// aligned for every element type.
#[derive(Clone, Copy, Debug, PartialEq, Eq)]
pub struct Stream {
    pub offset: usize,
    pub stride: isize,
}

/// Byte position of element `i` of a stream.
pub open spec fn position(s: Stream, i: int) -> int {
    s.offset as int + i * s.stride as int
}

/// Element `i` of a stream, decoded from the bytes at its position.
pub open spec fn element_at<T: Element>(mem: Seq<u8>, s: Stream, i: int) -> T {
    T::decode(mem.subrange(position(s, i), position(s, i) + T::width()))
}

/// The `n` elements of a stream, in traversal order.
pub open spec fn strided_view<T: Element>(mem: Seq<u8>, s: Stream, n: nat) -> Seq<T> {
    Seq::new(n, |i: int| element_at::<T>(mem, s, i))
}

/// Every one of the first `n` elements of the stream lies inside a buffer of
/// `len` bytes.
pub open spec fn fits<T: Element>(len: nat, s: Stream, n: nat) -> bool {
    forall|i: int|
        0 <= i < n ==> 0 <= #[trigger] position(s, i) && position(s, i) + T::width() <= len
}

/// No two of the first `n` elements of the stream share a byte.
pub open spec fn non_overlapping<T: Element>(s: Stream, n: nat) -> bool {
    forall|i: int, j: int|
        0 <= i < n && 0 <= j < n && i != j ==> #[trigger] position(s, i) + T::width() <= position(
            s,
            j,
        ) || #[trigger] position(s, j) + T::width() <= position(s, i)
}

/// Byte `j` belongs to one of the first `n` elements of the stream.
pub open spec fn covered<T: Element>(s: Stream, n: nat, j: int) -> bool {
    exists|i: int| 0 <= i < n && #[trigger] position(s, i) <= j < position(s, i) + T::width()
}

/// Bytes that no element of the stream covers are as they were.
pub open spec fn untouched_outside<T: Element>(
    before: Seq<u8>,
    after: Seq<u8>,
    s: Stream,
    n: nat,
) -> bool {
    &&& after.len() == before.len()
    &&& forall|j: int|
        0 <= j < before.len() && !covered::<T>(s, n, j) ==> #[trigger] after[j] == before[j]
}

/// How a loop driver walks its arguments, chosen once per call.
#[derive(Clone, Copy, Debug, PartialEq, Eq)]
pub enum Traversal {
    /// Every argument aligned and packed with no gap: a flat walk.
    Contiguous,
    /// Every argument aligned, some stride other than the element size.
    AlignedStrided,
    /// Some argument misaligned for its element type.
    UnalignedStrided,
}

/// The strategy for arguments that are all aligned or not, and all packed
/// or not.
pub open spec fn traversal_for(all_aligned: bool, all_contiguous: bool) -> Traversal {
    if !all_aligned {
        Traversal::UnalignedStrided
    } else if all_contiguous {
        Traversal::Contiguous
    } else {
        Traversal::AlignedStrided
    }
}

/// Picks the traversal strategy from the alignment and packing of the
/// arguments.
pub fn select_traversal(all_aligned: bool, all_contiguous: bool) -> (r: Traversal)
    ensures
        r == traversal_for(all_aligned, all_contiguous),
{
    if !all_aligned {
        Traversal::UnalignedStrided
    } else if all_contiguous {
        Traversal::Contiguous
    } else {
        Traversal::AlignedStrided
    }
}

/// Position of the next element, `stride` bytes on from `pos`.
fn advance(pos: usize, stride: isize) -> (r: usize)
    requires
        0 <= pos + stride <= usize::MAX,
    ensures
        r == pos + stride,
{
    if stride >= 0 {
        pos + stride as usize
    } else {
        pos - ((-(stride + 1)) as usize + 1)
    }
}

proof fn lemma_next_position(s: Stream, k: int)
    ensures
        position(s, k + 1) == position(s, k) + s.stride,
{
    assert(s.offset + (k + 1) * s.stride == s.offset + k * s.stride + s.stride) by (nonlinear_arith);
}

/// Storing element `k` of an output stream keeps the elements before it and
/// the bytes that no element covers.
proof fn lemma_store_element<O1: Element>(
    before: Seq<u8>,
    mid: Seq<u8>,
    after: Seq<u8>,
    o1: Stream,
    k: int,
    length: nat,
)
    requires
        0 <= k < length,
        fits::<O1>(before.len(), o1, length),
        non_overlapping::<O1>(o1, length),
        untouched_outside::<O1>(before, mid, o1, k as nat),
        after.len() == mid.len(),
        forall|j: int|
            0 <= j < mid.len() && !(position(o1, k) <= j < position(o1, k) + O1::width())
                ==> after[j] == mid[j],
    ensures
        untouched_outside::<O1>(before, after, o1, (k + 1) as nat),
        forall|i: int|
            0 <= i < k ==> #[trigger] element_at::<O1>(after, o1, i) == element_at::<O1>(
                mid,
                o1,
                i,
            ),
{
    assert forall|j: int|
        0 <= j < before.len() && !covered::<O1>(o1, (k + 1) as nat, j) implies #[trigger] after[j]
        == before[j] by {
        assert(!(position(o1, k) <= j < position(o1, k) + O1::width()));
        assert(!covered::<O1>(o1, k as nat, j));
    }
    assert forall|i: int| 0 <= i < k implies #[trigger] element_at::<O1>(after, o1, i)
        == element_at::<O1>(mid, o1, i) by {
        assert(position(o1, i) + O1::width() <= position(o1, k) || position(o1, k) + O1::width()
            <= position(o1, i));
        assert(0 <= position(o1, i));
        assert(after.subrange(position(o1, i), position(o1, i) + O1::width()) =~= mid.subrange(
            position(o1, i),
            position(o1, i) + O1::width(),
        ));
    }
}

/// What a one-input loop has done after its first `k` elements.
pub open spec fn unary_done<I1: Element, O1: Element, F: Fn(I1) -> O1>(
    op: F,
    input: Seq<u8>,
    i1: Stream,
    before: Seq<u8>,
    after: Seq<u8>,
    o1: Stream,
    k: nat,
) -> bool {
    &&& untouched_outside::<O1>(before, after, o1, k)
    &&& forall|i: int|
        0 <= i < k ==> op.ensures(
            (element_at::<I1>(input, i1, i),),
            #[trigger] element_at::<O1>(after, o1, i),
        )
}

/// Applies `op` to each of `length` elements of `input` and stores the
/// results in `output`, picking the traversal from the arguments' layout.
pub fn ufunc_1_1_fn<I1: Element, O1: Element, F: Fn(I1) -> O1>(
    op: F,
    input: &[u8],
    i1: Stream,
    output: &mut [u8],
    o1: Stream,
    length: usize,
)
    requires
        forall|x: I1| op.requires((x,)),
        fits::<I1>(input@.len(), i1, length as nat),
        fits::<O1>(old(output)@.len(), o1, length as nat),
        non_overlapping::<O1>(o1, length as nat),
    ensures
        unary_done(op, input@, i1, old(output)@, final(output)@, o1, length as nat),
{
    let all_aligned = is_aligned::<I1>(i1.offset) && is_aligned::<O1>(o1.offset);
    let all_contiguous = is_contiguous::<I1>(i1.stride) && is_contiguous::<O1>(o1.stride);
    let in_len = input.len();
    let out_len = output.len();
    let mut in_pos: usize = i1.offset;
    let mut out_pos: usize = o1.offset;
    let mut k: usize = 0;
    match select_traversal(all_aligned, all_contiguous) {
        Traversal::Contiguous => {
            let in_step = i1.stride as usize;
            let out_step = o1.stride as usize;
            while k < length
                invariant
                    k <= length,
                    in_len == input@.len(),
                    out_len == output@.len(),
                    in_step == i1.stride,
                    out_step == o1.stride,
                    forall|x: I1| op.requires((x,)),
                    fits::<I1>(input@.len(), i1, length as nat),
                    fits::<O1>(old(output)@.len(), o1, length as nat),
                    non_overlapping::<O1>(o1, length as nat),
                    k < length ==> in_pos == position(i1, k as int),
                    k < length ==> out_pos == position(o1, k as int),
                    unary_done(op, input@, i1, old(output)@, output@, o1, k as nat),
                decreases length - k,
            {
                assert(position(i1, k as int) >= 0 && position(o1, k as int) >= 0);
                let x = I1::load(input, in_pos);
                let y = op(x);
                let ghost mid = output@;
                O1::store(output, out_pos, y);
                proof {
                    lemma_store_element::<O1>(old(output)@, mid, output@, o1, k as int, length as nat);
                    lemma_next_position(i1, k as int);
                    lemma_next_position(o1, k as int);
                }
                if k + 1 < length {
                    assert(position(i1, k + 1) >= 0 && position(o1, k + 1) >= 0);
                    in_pos = in_pos + in_step;
                    out_pos = out_pos + out_step;
                }
                k = k + 1;
            }
        },
        _ => {
            while k < length
                invariant
                    k <= length,
                    in_len == input@.len(),
                    out_len == output@.len(),
                    forall|x: I1| op.requires((x,)),
                    fits::<I1>(input@.len(), i1, length as nat),
                    fits::<O1>(old(output)@.len(), o1, length as nat),
                    non_overlapping::<O1>(o1, length as nat),
                    k < length ==> in_pos == position(i1, k as int),
                    k < length ==> out_pos == position(o1, k as int),
                    unary_done(op, input@, i1, old(output)@, output@, o1, k as nat),
                decreases length - k,
            {
                assert(position(i1, k as int) >= 0 && position(o1, k as int) >= 0);
                let x = I1::load(input, in_pos);
                let y = op(x);
                let ghost mid = output@;
                O1::store(output, out_pos, y);
                proof {
                    lemma_store_element::<O1>(old(output)@, mid, output@, o1, k as int, length as nat);
                    lemma_next_position(i1, k as int);
                    lemma_next_position(o1, k as int);
                }
                if k + 1 < length {
                    assert(position(i1, k + 1) >= 0 && position(o1, k + 1) >= 0);
                    in_pos = advance(in_pos, i1.stride);
                    out_pos = advance(out_pos, o1.stride);
                }
                k = k + 1;
            }
        },
    }
}

/// What a two-input loop has done after its first `k` elements.
pub open spec fn binary_done<I1: Element, I2: Element, O1: Element, F: Fn(I1, I2) -> O1>(
    op: F,
    input1: Seq<u8>,
    i1: Stream,
    input2: Seq<u8>,
    i2: Stream,
    before: Seq<u8>,
    after: Seq<u8>,
    o1: Stream,
    k: nat,
) -> bool {
    &&& untouched_outside::<O1>(before, after, o1, k)
    &&& forall|i: int|
        0 <= i < k ==> op.ensures(
            (element_at::<I1>(input1, i1, i), element_at::<I2>(input2, i2, i)),
            #[trigger] element_at::<O1>(after, o1, i),
        )
}

/// Applies `op` to each of `length` pairs of elements of `input1` and
/// `input2` and stores the results in `output`, picking the traversal from
/// the arguments' layout.
pub fn ufunc_2_1_fn<I1: Element, I2: Element, O1: Element, F: Fn(I1, I2) -> O1>(
    op: F,
    input1: &[u8],
    i1: Stream,
    input2: &[u8],
    i2: Stream,
    output: &mut [u8],
    o1: Stream,
    length: usize,
)
    requires
        forall|x: I1, y: I2| op.requires((x, y)),
        fits::<I1>(input1@.len(), i1, length as nat),
        fits::<I2>(input2@.len(), i2, length as nat),
        fits::<O1>(old(output)@.len(), o1, length as nat),
        non_overlapping::<O1>(o1, length as nat),
    ensures
        binary_done(op, input1@, i1, input2@, i2, old(output)@, final(output)@, o1, length as nat),
{
    let all_aligned = is_aligned::<I1>(i1.offset) && is_aligned::<I2>(i2.offset) && is_aligned::<
        O1,
    >(o1.offset);
    let all_contiguous = is_contiguous::<I1>(i1.stride) && is_contiguous::<I2>(i2.stride)
        && is_contiguous::<O1>(o1.stride);
    let in1_len = input1.len();
    let in2_len = input2.len();
    let out_len = output.len();
    let mut in1_pos: usize = i1.offset;
    let mut in2_pos: usize = i2.offset;
    let mut out_pos: usize = o1.offset;
    let mut k: usize = 0;
    match select_traversal(all_aligned, all_contiguous) {
        Traversal::Contiguous => {
            let in1_step = i1.stride as usize;
            let in2_step = i2.stride as usize;
            let out_step = o1.stride as usize;
            while k < length
                invariant
                    k <= length,
                    in1_len == input1@.len(),
                    in2_len == input2@.len(),
                    out_len == output@.len(),
                    in1_step == i1.stride,
                    in2_step == i2.stride,
                    out_step == o1.stride,
                    forall|x: I1, y: I2| op.requires((x, y)),
                    fits::<I1>(input1@.len(), i1, length as nat),
                    fits::<I2>(input2@.len(), i2, length as nat),
                    fits::<O1>(old(output)@.len(), o1, length as nat),
                    non_overlapping::<O1>(o1, length as nat),
                    k < length ==> in1_pos == position(i1, k as int),
                    k < length ==> in2_pos == position(i2, k as int),
                    k < length ==> out_pos == position(o1, k as int),
                    binary_done(op, input1@, i1, input2@, i2, old(output)@, output@, o1, k as nat),
                decreases length - k,
            {
                assert(position(i1, k as int) >= 0 && position(i2, k as int) >= 0);
                assert(position(o1, k as int) >= 0);
                let x = I1::load(input1, in1_pos);
                let y = I2::load(input2, in2_pos);
                let z = op(x, y);
                let ghost mid = output@;
                O1::store(output, out_pos, z);
                proof {
                    lemma_store_element::<O1>(old(output)@, mid, output@, o1, k as int, length as nat);
                    lemma_next_position(i1, k as int);
                    lemma_next_position(i2, k as int);
                    lemma_next_position(o1, k as int);
                }
                if k + 1 < length {
                    assert(position(i1, k + 1) >= 0 && position(i2, k + 1) >= 0);
                    assert(position(o1, k + 1) >= 0);
                    in1_pos = in1_pos + in1_step;
                    in2_pos = in2_pos + in2_step;
                    out_pos = out_pos + out_step;
                }
                k = k + 1;
            }
        },
        _ => {
            while k < length
                invariant
                    k <= length,
                    in1_len == input1@.len(),
                    in2_len == input2@.len(),
                    out_len == output@.len(),
                    forall|x: I1, y: I2| op.requires((x, y)),
                    fits::<I1>(input1@.len(), i1, length as nat),
                    fits::<I2>(input2@.len(), i2, length as nat),
                    fits::<O1>(old(output)@.len(), o1, length as nat),
                    non_overlapping::<O1>(o1, length as nat),
                    k < length ==> in1_pos == position(i1, k as int),
                    k < length ==> in2_pos == position(i2, k as int),
                    k < length ==> out_pos == position(o1, k as int),
                    binary_done(op, input1@, i1, input2@, i2, old(output)@, output@, o1, k as nat),
                decreases length - k,
            {
                assert(position(i1, k as int) >= 0 && position(i2, k as int) >= 0);
                assert(position(o1, k as int) >= 0);
                let x = I1::load(input1, in1_pos);
                let y = I2::load(input2, in2_pos);
                let z = op(x, y);
                let ghost mid = output@;
                O1::store(output, out_pos, z);
                proof {
                    lemma_store_element::<O1>(old(output)@, mid, output@, o1, k as int, length as nat);
                    lemma_next_position(i1, k as int);
                    lemma_next_position(i2, k as int);
                    lemma_next_position(o1, k as int);
                }
                if k + 1 < length {
                    assert(position(i1, k + 1) >= 0 && position(i2, k + 1) >= 0);
                    assert(position(o1, k + 1) >= 0);
                    in1_pos = advance(in1_pos, i1.stride);
                    in2_pos = advance(in2_pos, i2.stride);
                    out_pos = advance(out_pos, o1.stride);
                }
                k = k + 1;
            }
        },
    }
}

/// A one-input kernel gives one result for each argument.
pub open spec fn deterministic_1_1<I1, O1, F: Fn(I1) -> O1>(op: F) -> bool {
    forall|x: I1, r1: O1, r2: O1|
        #![trigger op.ensures((x,), r1), op.ensures((x,), r2)]
        op.ensures((x,), r1) && op.ensures((x,), r2) ==> r1 == r2
}

/// A two-input kernel gives one result for each pair of arguments.
pub open spec fn deterministic_2_1<I1, I2, O1, F: Fn(I1, I2) -> O1>(op: F) -> bool {
    forall|x: I1, y: I2, r1: O1, r2: O1|
        #![trigger op.ensures((x, y), r1), op.ensures((x, y), r2)]
        op.ensures((x, y), r1) && op.ensures((x, y), r2) ==> r1 == r2
}

/// Layout invariance of the one-input driver: with one kernel and the same
/// input elements, two calls write the same output elements whatever the
/// offsets, strides and alignments of their arguments, and so whichever
/// traversal those select.
pub proof fn lemma_layout_invariance_1_1<I1: Element, O1: Element, F: Fn(I1) -> O1>(
    op: F,
    input_a: Seq<u8>,
    ia: Stream,
    before_a: Seq<u8>,
    after_a: Seq<u8>,
    oa: Stream,
    input_b: Seq<u8>,
    ib: Stream,
    before_b: Seq<u8>,
    after_b: Seq<u8>,
    ob: Stream,
    n: nat,
)
    requires
        deterministic_1_1(op),
        strided_view::<I1>(input_a, ia, n) == strided_view::<I1>(input_b, ib, n),
        unary_done(op, input_a, ia, before_a, after_a, oa, n),
        unary_done(op, input_b, ib, before_b, after_b, ob, n),
    ensures
        strided_view::<O1>(after_a, oa, n) == strided_view::<O1>(after_b, ob, n),
{
    assert forall|i: int| 0 <= i < n implies element_at::<O1>(after_a, oa, i) == element_at::<O1>(
        after_b,
        ob,
        i,
    ) by {
        assert(strided_view::<I1>(input_a, ia, n)[i] == strided_view::<I1>(input_b, ib, n)[i]);
        let x = element_at::<I1>(input_a, ia, i);
        assert(strided_view::<I1>(input_a, ia, n)[i] == x);
        assert(x == element_at::<I1>(input_b, ib, i));
        assert(op.ensures((x,), element_at::<O1>(after_a, oa, i)));
        assert(op.ensures((x,), element_at::<O1>(after_b, ob, i)));
    }
    assert(strided_view::<O1>(after_a, oa, n) =~= strided_view::<O1>(after_b, ob, n));
}

/// Layout invariance of the two-input driver: with one kernel and the same
/// input elements, two calls write the same output elements whatever the
/// offsets, strides and alignments of their arguments.
pub proof fn lemma_layout_invariance_2_1<
    I1: Element,
    I2: Element,
    O1: Element,
    F: Fn(I1, I2) -> O1,
>(
    op: F,
    input1_a: Seq<u8>,
    i1a: Stream,
    input2_a: Seq<u8>,
    i2a: Stream,
    before_a: Seq<u8>,
    after_a: Seq<u8>,
    oa: Stream,
    input1_b: Seq<u8>,
    i1b: Stream,
    input2_b: Seq<u8>,
    i2b: Stream,
    before_b: Seq<u8>,
    after_b: Seq<u8>,
    ob: Stream,
    n: nat,
)
    requires
        deterministic_2_1(op),
        strided_view::<I1>(input1_a, i1a, n) == strided_view::<I1>(input1_b, i1b, n),
        strided_view::<I2>(input2_a, i2a, n) == strided_view::<I2>(input2_b, i2b, n),
        binary_done(op, input1_a, i1a, input2_a, i2a, before_a, after_a, oa, n),
        binary_done(op, input1_b, i1b, input2_b, i2b, before_b, after_b, ob, n),
    ensures
        strided_view::<O1>(after_a, oa, n) == strided_view::<O1>(after_b, ob, n),
{
    assert forall|i: int| 0 <= i < n implies element_at::<O1>(after_a, oa, i) == element_at::<O1>(
        after_b,
        ob,
        i,
    ) by {
        assert(strided_view::<I1>(input1_a, i1a, n)[i] == strided_view::<I1>(input1_b, i1b, n)[i]);
        assert(strided_view::<I2>(input2_a, i2a, n)[i] == strided_view::<I2>(input2_b, i2b, n)[i]);
        let x = element_at::<I1>(input1_a, i1a, i);
        let y = element_at::<I2>(input2_a, i2a, i);
        assert(strided_view::<I1>(input1_a, i1a, n)[i] == x);
        assert(strided_view::<I2>(input2_a, i2a, n)[i] == y);
        assert(x == element_at::<I1>(input1_b, i1b, i));
        assert(y == element_at::<I2>(input2_b, i2b, i));
        assert(op.ensures((x, y), element_at::<O1>(after_a, oa, i)));
        assert(op.ensures((x, y), element_at::<O1>(after_b, ob, i)));
    }
    assert(strided_view::<O1>(after_a, oa, n) =~= strided_view::<O1>(after_b, ob, n));
}

/// Zero-stride broadcast: a stream with stride zero reads the element at its
/// offset `n` times, the same elements as a packed stream that holds `n`
/// copies of it.
pub proof fn lemma_broadcast<T: Element>(
    mem: Seq<u8>,
    s: Stream,
    packed_mem: Seq<u8>,
    packed: Stream,
    n: nat,
)
    requires
        s.stride == 0,
        packed.stride == T::width(),
        forall|i: int|
            0 <= i < n ==> #[trigger] element_at::<T>(packed_mem, packed, i) == element_at::<T>(
                mem,
                s,
                0,
            ),
    ensures
        strided_view::<T>(mem, s, n) == Seq::new(n, |_i: int| element_at::<T>(mem, s, 0)),
        strided_view::<T>(mem, s, n) == strided_view::<T>(packed_mem, packed, n),
{
    assert forall|i: int| 0 <= i < n implies #[trigger] position(s, i) == position(s, 0) by {
        assert(i * s.stride == 0);
    }
    assert(strided_view::<T>(mem, s, n) =~= Seq::new(n, |_i: int| element_at::<T>(mem, s, 0)));
    assert(strided_view::<T>(mem, s, n) =~= strided_view::<T>(packed_mem, packed, n));
}

/// The stream that walks the first `n` elements of `s` from the last one
/// back to the first.
pub open spec fn reversed(s: Stream, n: nat) -> Stream {
    Stream { offset: position(s, n - 1) as usize, stride: (-s.stride) as isize }
}

/// Reverse traversal of a stream reads its elements in reverse order.
pub proof fn lemma_reversed_view<T: Element>(mem: Seq<u8>, s: Stream, n: nat)
    requires
        n > 0,
        0 <= position(s, n - 1) <= usize::MAX,
        s.stride != isize::MIN,
    ensures
        strided_view::<T>(mem, reversed(s, n), n) == strided_view::<T>(mem, s, n).reverse(),
{
    let r = reversed(s, n);
    assert forall|i: int| 0 <= i < n implies #[trigger] position(r, i) == position(
        s,
        n - 1 - i,
    ) by {
        let (o, st) = (s.offset as int, s.stride as int);
        assert(o + (n - 1) * st + i * (-st) == o + (n - 1 - i) * st) by (nonlinear_arith);
    }
    assert(strided_view::<T>(mem, r, n) =~= strided_view::<T>(mem, s, n).reverse());
}

/// Reverse traversal of a call: reading the input from its last element
/// backwards writes the results of the forward call in reverse order.
pub proof fn lemma_reverse_traversal<I1: Element, O1: Element, F: Fn(I1) -> O1>(
    op: F,
    input: Seq<u8>,
    i1: Stream,
    before_a: Seq<u8>,
    after_a: Seq<u8>,
    before_b: Seq<u8>,
    after_b: Seq<u8>,
    o1: Stream,
    n: nat,
)
    requires
        deterministic_1_1(op),
        n > 0,
        0 <= position(i1, n - 1) <= usize::MAX,
        i1.stride != isize::MIN,
        unary_done(op, input, i1, before_a, after_a, o1, n),
        unary_done(op, input, reversed(i1, n), before_b, after_b, o1, n),
    ensures
        strided_view::<O1>(after_b, o1, n) == strided_view::<O1>(after_a, o1, n).reverse(),
{
    lemma_reversed_view::<I1>(input, i1, n);
    assert forall|i: int| 0 <= i < n implies element_at::<O1>(after_b, o1, i) == element_at::<O1>(
        after_a,
        o1,
        n - 1 - i,
    ) by {
        assert(strided_view::<I1>(input, reversed(i1, n), n)[i] == strided_view::<I1>(
            input,
            i1,
            n,
        )[n - 1 - i]);
    }
    assert(strided_view::<O1>(after_b, o1, n) =~= strided_view::<O1>(after_a, o1, n).reverse());
}

} // verus!
