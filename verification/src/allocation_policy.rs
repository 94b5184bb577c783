//! Allocation policies: which concrete layout a freshly computed result
//! tensor should use.  Operations materialize their result through the
//! policy of their left operand, separately for shapes fixed ahead of
//! time and shapes resolved at run time.

use vstd::prelude::*;

use crate::heap_layout::HeapLayout;
use crate::layout::{contiguous_layout, Layout};
use crate::shape::{shape_product, strides_fit};
use crate::static_heap_layout::StaticHeapLayout;

verus! {

/// Chooses the layout of results whose shape is fixed ahead of time.
pub trait StaticAllocationPolicy {
    /// The layout that results of this policy use.
    type Layout: Layout;

    /// Builds the result layout around a freshly computed buffer.
    fn materialize(data: Vec<i64>, shape: Vec<usize>) -> (r: Self::Layout)
        requires
            strides_fit(shape@),
            data@.len() == shape_product(shape@),
        ensures
            r.wf(),
            r.data_spec() == data@,
            r.shape_spec() == shape@,
            contiguous_layout(r.data_spec().len() as int, r.shape_spec(), r.strides_spec()),
    ;
}

/// Chooses the layout of results whose shape is resolved at run time.
pub trait DynamicAllocationPolicy {
    /// The layout that results of this policy use.
    type Layout: Layout;

    /// Builds the result layout around a freshly computed buffer.
    fn materialize(data: Vec<i64>, shape: Vec<usize>) -> (r: Self::Layout)
        requires
            strides_fit(shape@),
            data@.len() == shape_product(shape@),
        ensures
            r.wf(),
            r.data_spec() == data@,
            r.shape_spec() == shape@,
            contiguous_layout(r.data_spec().len() as int, r.shape_spec(), r.strides_spec()),
    ;
}

/// The default policy: [`StaticHeapLayout`] for shapes fixed ahead of
/// time, [`HeapLayout`] for shapes resolved at run time.
#[derive(Clone, Copy, Debug, PartialEq, Eq, Structural)]
pub struct DefaultPolicy;

/// A policy that favors the leanest storage available.  Stack storage
/// needs extents known to the compiler, which runtime shapes cannot
/// provide, so both cases fall back to heap-backed layouts.
#[derive(Clone, Copy, Debug, PartialEq, Eq, Structural)]
pub struct StackFirstPolicy;

impl StaticAllocationPolicy for DefaultPolicy {
    type Layout = StaticHeapLayout;

    fn materialize(data: Vec<i64>, shape: Vec<usize>) -> (r: Self::Layout) {
        StaticHeapLayout::from_parts(data, shape)
    }
}

impl DynamicAllocationPolicy for DefaultPolicy {
    type Layout = HeapLayout;

    fn materialize(data: Vec<i64>, shape: Vec<usize>) -> (r: Self::Layout) {
        HeapLayout::from_parts(data, shape)
    }
}

impl StaticAllocationPolicy for StackFirstPolicy {
    type Layout = StaticHeapLayout;

    fn materialize(data: Vec<i64>, shape: Vec<usize>) -> (r: Self::Layout) {
        StaticHeapLayout::from_parts(data, shape)
    }
}

impl DynamicAllocationPolicy for StackFirstPolicy {
    type Layout = HeapLayout;

    fn materialize(data: Vec<i64>, shape: Vec<usize>) -> (r: Self::Layout) {
        HeapLayout::from_parts(data, shape)
    }
}

} // verus!
