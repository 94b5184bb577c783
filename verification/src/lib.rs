//! A tensor layout and shape-algebra library with a reverse-mode
//! automatic-differentiation layer.
//!
//! Shapes are ordered lists of axis sizes; a shape descriptor may leave an
//! axis dynamic, to be resolved when a tensor is built.  Layouts unify owned
//! heap storage and strided views behind one iteration contract, and the
//! `backprop` arena records operations so that a single `backward` call
//! replays gradients through the whole graph.
//!
//! Scalar elements are 64-bit integers with wrapping arithmetic.

pub mod allocation_policy;
pub mod backprop;
pub mod core_ops;
pub mod heap_layout;
pub mod layout;
pub mod reduction;
pub mod ring;
pub mod shape;
pub mod slice_layout;
pub mod static_heap_layout;
pub mod strided_chunks;
pub mod tensor;
pub mod transpose_policy;
