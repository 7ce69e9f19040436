use onum::{
    abconj_complex, abconj_complex_real, abconj_real, abconj_real_complex, abs2_complex,
    abs2_real, is_aligned, is_contiguous, select_traversal, ufunc_1_1_fn, ufunc_2_1_fn,
    BuiltInType, Complex, Identity, Signature, Stream, Traversal,
};

fn packed(width: usize) -> Stream {
    Stream { offset: 0, stride: width as isize }
}

fn i32_bytes(values: &[i32]) -> Vec<u8> {
    values.iter().flat_map(|v| v.to_le_bytes()).collect()
}

fn i32_at(mem: &[u8], at: usize) -> i32 {
    i32::from_le_bytes([mem[at], mem[at + 1], mem[at + 2], mem[at + 3]])
}

fn i64_at(mem: &[u8], at: usize) -> i64 {
    let mut b = [0u8; 8];
    b.copy_from_slice(&mem[at..at + 8]);
    i64::from_le_bytes(b)
}

#[test]
fn abs2_int8_wraps_around() {
    let input: Vec<u8> = [3i8, -4, 127].iter().map(|v| *v as u8).collect();
    let mut output = vec![0u8; 3];
    abs2_real::<i8>(&input, packed(1), &mut output, packed(1), 3);
    let result: Vec<i8> = output.iter().map(|b| *b as i8).collect();
    assert_eq!(result, vec![9, 16, 1]);
}

#[test]
fn abs2_of_each_integer_width() {
    let mut out = vec![0u8; 2];
    abs2_real::<u16>(&300u16.to_le_bytes(), packed(2), &mut out, packed(2), 1);
    assert_eq!(u16::from_le_bytes([out[0], out[1]]), 24464); // 90000 mod 65536

    let mut out = vec![0u8; 4];
    abs2_real::<i32>(&(-46341i32).to_le_bytes(), packed(4), &mut out, packed(4), 1);
    assert_eq!(i32_at(&out, 0), (-46341i32).wrapping_mul(-46341));

    let mut out = vec![0u8; 8];
    abs2_real::<i64>(&i64::MIN.to_le_bytes(), packed(8), &mut out, packed(8), 1);
    assert_eq!(i64_at(&out, 0), 0);

    let mut out = vec![0u8; 8];
    abs2_real::<u64>(&u64::MAX.to_le_bytes(), packed(8), &mut out, packed(8), 1);
    assert_eq!(u64::from_le_bytes(out[..8].try_into().unwrap()), 1);

    let mut out = vec![0u8; 1];
    abs2_real::<u8>(&[16u8], packed(1), &mut out, packed(1), 1);
    assert_eq!(out[0], 0);
}

#[test]
fn abs2_complex_sums_squares() {
    let input = i32_bytes(&[3, 4, -5, 12]);
    let mut output = vec![0u8; 8];
    abs2_complex::<i32>(&input, packed(8), &mut output, packed(4), 2);
    assert_eq!(i32_at(&output, 0), 25);
    assert_eq!(i32_at(&output, 4), 169);

    let mut out = vec![0u8; 1];
    abs2_complex::<u8>(&[16u8, 16], packed(2), &mut out, packed(1), 1);
    assert_eq!(out[0], 0);
}

#[test]
fn abconj_of_complex_pairs() {
    let a: Vec<u8> = [1i64, 2].iter().flat_map(|v| v.to_le_bytes()).collect();
    let b: Vec<u8> = [3i64, 4].iter().flat_map(|v| v.to_le_bytes()).collect();
    let mut out = vec![0u8; 16];
    abconj_complex::<i64>(&a, packed(16), &b, packed(16), &mut out, packed(16), 1);
    assert_eq!((i64_at(&out, 0), i64_at(&out, 8)), (11, 2));
}

#[test]
fn abconj_of_reals() {
    let mut out = vec![0u8; 2];
    abconj_real::<u8>(&[16, 3], packed(1), &[17, 5], packed(1), &mut out, packed(1), 2);
    assert_eq!(out, vec![16, 15]); // 272 mod 256, 15
}

#[test]
fn abconj_real_times_conjugate_of_complex() {
    let a = i32_bytes(&[2]);
    let b = i32_bytes(&[3, 4]);
    let mut out = vec![0u8; 8];
    abconj_real_complex::<i32>(&a, packed(4), &b, packed(8), &mut out, packed(8), 1);
    assert_eq!((i32_at(&out, 0), i32_at(&out, 4)), (6, -8));
}

#[test]
fn abconj_complex_times_real_keeps_sign() {
    let a = i32_bytes(&[1, 2]);
    let b = i32_bytes(&[3]);
    let mut out = vec![0u8; 8];
    abconj_complex_real::<i32>(&a, packed(8), &b, packed(4), &mut out, packed(8), 1);
    assert_eq!((i32_at(&out, 0), i32_at(&out, 4)), (3, 6));
}

#[test]
fn layouts_give_identical_results() {
    let values = [7i32, -3, 100, 46341];
    // packed and aligned
    let contiguous = i32_bytes(&values);
    // aligned, with a four-byte gap after each element
    let mut gapped = vec![0u8; 32];
    // one byte in, so no element is aligned
    let mut shifted = vec![0u8; 17];
    for (i, v) in values.iter().enumerate() {
        gapped[8 * i..8 * i + 4].copy_from_slice(&v.to_le_bytes());
        shifted[1 + 4 * i..5 + 4 * i].copy_from_slice(&v.to_le_bytes());
    }
    let layouts = [
        (contiguous, Stream { offset: 0, stride: 4 }, Traversal::Contiguous),
        (gapped, Stream { offset: 0, stride: 8 }, Traversal::AlignedStrided),
        (shifted, Stream { offset: 1, stride: 4 }, Traversal::UnalignedStrided),
    ];
    let mut results = Vec::new();
    for (mem, s, expected) in layouts.iter() {
        let aligned = is_aligned::<i32>(s.offset);
        let packed_stride = is_contiguous::<i32>(s.stride);
        assert_eq!(select_traversal(aligned, packed_stride), *expected);
        let mut out = vec![0u8; 16];
        abs2_real::<i32>(mem, *s, &mut out, packed(4), 4);
        results.push(out);
    }
    assert_eq!(results[0], results[1]);
    assert_eq!(results[1], results[2]);
    assert_eq!(i32_at(&results[0], 0), 49);
    assert_eq!(i32_at(&results[0], 12), 46341i32.wrapping_mul(46341));
}

#[test]
fn zero_stride_broadcasts_one_element() {
    let a = i32_bytes(&[1, 2, 3]);
    let b = i32_bytes(&[5]);
    let mut broadcast = vec![0u8; 12];
    abconj_real::<i32>(&a, packed(4), &b, Stream { offset: 0, stride: 0 }, &mut broadcast, packed(4), 3);
    let repeated = i32_bytes(&[5, 5, 5]);
    let mut manual = vec![0u8; 12];
    abconj_real::<i32>(&a, packed(4), &repeated, packed(4), &mut manual, packed(4), 3);
    assert_eq!(broadcast, manual);
    assert_eq!(broadcast, i32_bytes(&[5, 10, 15]));
}

#[test]
fn negative_stride_reverses_results() {
    let input = i32_bytes(&[1, 2, 3, 4]);
    let mut forward = vec![0u8; 16];
    abs2_real::<i32>(&input, packed(4), &mut forward, packed(4), 4);
    let mut backward = vec![0u8; 16];
    abs2_real::<i32>(&input, Stream { offset: 12, stride: -4 }, &mut backward, packed(4), 4);
    assert_eq!(forward, i32_bytes(&[1, 4, 9, 16]));
    assert_eq!(backward, i32_bytes(&[16, 9, 4, 1]));
}

#[test]
fn strided_output_leaves_gaps_untouched() {
    let input = [2u8, 3, 4];
    let mut out = vec![0xAAu8; 6];
    abs2_real::<u8>(&input, packed(1), &mut out, Stream { offset: 1, stride: 2 }, 3);
    assert_eq!(out, vec![0xAA, 4, 0xAA, 9, 0xAA, 16]);
}

#[test]
fn zero_length_writes_nothing() {
    let mut out = vec![7u8; 4];
    abs2_real::<i32>(&[], packed(4), &mut out, packed(4), 0);
    assert_eq!(out, vec![7u8; 4]);
}

#[test]
fn drivers_apply_any_kernel() {
    let input = 65535u16.to_le_bytes();
    let mut out = vec![0u8; 2];
    ufunc_1_1_fn(|x: u16| x.wrapping_add(1), &input, packed(2), &mut out, packed(2), 1);
    assert_eq!(out, vec![0, 0]);

    let mut out = vec![0u8; 1];
    ufunc_2_1_fn(
        |a: Complex<u8>, b: u8| a.re.wrapping_sub(a.im).wrapping_sub(b),
        &[1u8, 2],
        packed(2),
        &[3u8],
        packed(1),
        &mut out,
        packed(1),
        1,
    );
    assert_eq!(out, vec![252]);
}

#[test]
fn alignment_and_packing_checks() {
    assert!(is_aligned::<u64>(16));
    assert!(!is_aligned::<u32>(6));
    assert!(is_aligned::<u8>(3));
    assert!(is_contiguous::<i16>(2));
    assert!(!is_contiguous::<i16>(-2));
    assert!(!is_contiguous::<i16>(0));
    assert_eq!(select_traversal(true, true), Traversal::Contiguous);
    assert_eq!(select_traversal(true, false), Traversal::AlignedStrided);
    assert_eq!(select_traversal(false, true), Traversal::UnalignedStrided);
}

#[test]
fn identity_and_type_codes() {
    assert_eq!(Identity::Zero.code(), 0);
    assert_eq!(Identity::One.code(), 1);
    assert_eq!(Identity::MinusOne.code(), 2);
    assert_eq!(Identity::NoIdentity.code(), -1);
    assert_eq!(BuiltInType::Bool.type_num(), 0);
    assert_eq!(BuiltInType::Byte.type_num(), 1);
    assert_eq!(BuiltInType::Double.type_num(), 12);
    assert_eq!(BuiltInType::CDouble.type_num(), 15);
    assert_eq!(BuiltInType::Half.type_num(), 23);
}

#[test]
fn signature_lists_type_numbers_inputs_first() {
    let signature = Signature { input: [BuiltInType::Float, BuiltInType::CFloat], output: [BuiltInType::CFloat] };
    assert_eq!(signature.type_nums(), vec![11, 14, 14]);
    let unary = Signature { input: [BuiltInType::UByte], output: [BuiltInType::UInt] };
    assert_eq!(unary.type_nums(), vec![2, 6]);
}
