//! Contiguity markers.  A tensor carries one of three zero-sized marker
//! types recording whether its memory suits fast-path kernels:
//! [`Contiguous`] for row-major storage, [`Transposed`] for storage whose
//! axes were reversed as a whole, and [`Strided`] for anything else.
//! The marker is an invariant on the layout's shape and strides, and
//! transposition maps each marker to its counterpart.

use vstd::prelude::*;

use crate::layout::contiguous_layout;
use crate::shape::rev_seq;

verus! {

/// Marker for row-major contiguous tensors.
#[derive(Clone, Copy, Debug, PartialEq, Eq, Structural)]
pub struct Contiguous;

/// Marker for contiguous tensors whose axis order has been reversed.
#[derive(Clone, Copy, Debug, PartialEq, Eq, Structural)]
pub struct Transposed;

/// Marker for tensors with an arbitrary stride pattern.
#[derive(Clone, Copy, Debug, PartialEq, Eq, Structural)]
pub struct Strided;

/// The relation between a contiguity marker and the layouts it may tag,
/// and what the marker becomes under transposition.
pub trait TransposePolicy {
    /// The marker of the transposed tensor.
    type Transposed;

    /// What the marker guarantees of a layout's buffer, shape and strides.
    spec fn marker_inv(data_len: int, shape: Seq<usize>, strides: Seq<usize>) -> bool;
}

impl TransposePolicy for Contiguous {
    type Transposed = Transposed;

    open spec fn marker_inv(data_len: int, shape: Seq<usize>, strides: Seq<usize>) -> bool {
        contiguous_layout(data_len, shape, strides)
    }
}

impl TransposePolicy for Transposed {
    type Transposed = Contiguous;

    open spec fn marker_inv(data_len: int, shape: Seq<usize>, strides: Seq<usize>) -> bool {
        contiguous_layout(data_len, rev_seq(shape), rev_seq(strides))
    }
}

impl TransposePolicy for Strided {
    type Transposed = Strided;

    open spec fn marker_inv(data_len: int, shape: Seq<usize>, strides: Seq<usize>) -> bool {
        true
    }
}

} // verus!
