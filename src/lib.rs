//! Element-wise numeric kernels over strided byte buffers.
//!
//! Each argument of a call is described by a [`Stream`]: the byte offset of
//! its first element inside a buffer and a signed byte stride. A loop driver
//! applies a kernel at every index of the shared element count, picking one
//! of three traversal strategies from the alignment and stride metadata.
//! Every strategy meets the same contract, so the choice affects speed only.
//!
//! Integer kernels wrap around at the width of their output type.

pub mod abconj;
pub mod abs2;
pub mod element;
pub mod ufunc;
pub mod utils;

pub use abconj::{abconj_complex, abconj_complex_real, abconj_real, abconj_real_complex};
pub use abs2::{abs2_complex, abs2_real};
pub use element::{Complex, Element, Scalar};
pub use ufunc::{
    select_traversal, ufunc_1_1_fn, ufunc_2_1_fn, BuiltInType, Identity, Signature, Stream,
    Traversal,
};
pub use utils::{is_aligned, is_contiguous};
