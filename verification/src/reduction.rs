//! Axis reductions: collapsing one axis of a tensor to size 1 by summing
//! along it with wrapping addition.

use vstd::prelude::*;

use core::marker::PhantomData;

use crate::allocation_policy::{DynamicAllocationPolicy, StaticAllocationPolicy};
use crate::core_ops::{wadd, wmul};
use crate::layout::{
    dot, dot_product, lemma_contiguous_logical_is_data, lemma_dot_row_major_bound,
    logical_position, multi_index, valid_pos, Layout,
};
use crate::shape::{
    clone_usizes, intrinsic_strides_in_place, is_row_major, lemma_suffix_product_le,
    num_elements_of, row_major, shape_product, strides_fit, suffix_product,
};
use crate::tensor::Tensor;
use crate::transpose_policy::{Contiguous, TransposePolicy};

verus! {

/// The element of a logical sequence at a given position of its shape.
pub open spec fn logical_at(logi: Seq<i64>, sh: Seq<usize>, pos: Seq<usize>) -> i64 {
    logi[dot(pos, row_major(sh)) as int]
}

/// The wrapping sum of the elements along `axis` at position `pos` (whose
/// coordinate on `axis` is ignored), over the first `k` coordinates.
pub open spec fn axis_sum(logi: Seq<i64>, sh: Seq<usize>, axis: int, pos: Seq<usize>, k: int) -> i64
    decreases k,
{
    if k <= 0 {
        0i64
    } else {
        wadd(
            axis_sum(logi, sh, axis, pos, k - 1),
            logical_at(logi, sh, pos.update(axis, (k - 1) as usize)),
        )
    }
}

/// The wrapping product of the elements along `axis` at position `pos`
/// (whose coordinate on `axis` is ignored), over the first `k`
/// coordinates.
pub open spec fn axis_prod(logi: Seq<i64>, sh: Seq<usize>, axis: int, pos: Seq<usize>, k: int) -> i64
    decreases k,
{
    if k <= 0 {
        1i64
    } else {
        wmul(
            axis_prod(logi, sh, axis, pos, k - 1),
            logical_at(logi, sh, pos.update(axis, (k - 1) as usize)),
        )
    }
}

impl<C: TransposePolicy, L: Layout, P: StaticAllocationPolicy> Tensor<C, L, P> {
    /// Collapses `axis` to size 1, each output cell holding the wrapping
    /// sum of the input cells along that axis.
    #[verifier::loop_isolation(false)]
    pub fn sum(&self, axis: usize) -> (r: Tensor<Contiguous, <P as StaticAllocationPolicy>::Layout, P>)
        requires
            self.wf(),
            axis < self.shape_spec().len(),
            self.shape_spec()[axis as int] >= 1,
        ensures
            r.wf(),
            r.shape_spec() == self.shape_spec().update(axis as int, 1usize),
            r.logical().len() == shape_product(r.shape_spec()),
            forall|j: int|
                0 <= j < r.logical().len() ==> r.logical()[j] == axis_sum(
                    self.logical(),
                    self.shape_spec(),
                    axis as int,
                    multi_index(r.shape_spec(), j),
                    self.shape_spec()[axis as int] as int,
                ),
    {
        proof {
            self.layout.wf_facts();
        }
        let ghost ssh = self.shape_spec();
        let sh = self.layout.shape();
        let mut out_shape = clone_usizes(&sh);
        out_shape.set(axis, 1);
        let ghost osh = out_shape@;
        proof {
            assert forall|i: int| 0 <= i <= osh.len() implies #[trigger] suffix_product(osh, i)
                <= usize::MAX by {
                lemma_suffix_product_le(osh, ssh, i);
                assert(suffix_product(ssh, i) <= usize::MAX);
            }
            crate::shape::lemma_row_major_is_row_major(ssh);
        }
        let m = num_elements_of(&out_shape);
        let extent = sh[axis];
        let rm = intrinsic_strides_in_place(clone_usizes(&sh));
        assert(rm@ =~= row_major(ssh));
        let mut data: Vec<i64> = Vec::new();
        let mut j: usize = 0;
        while j < m
            invariant
                self.wf(),
                sh@ == ssh,
                osh == ssh.update(axis as int, 1usize),
                axis < ssh.len(),
                ssh[axis as int] >= 1,
                extent == ssh[axis as int],
                strides_fit(osh),
                strides_fit(ssh),
                rm@ == row_major(ssh),
                is_row_major(rm@, ssh),
                m == shape_product(osh),
                0 <= j <= m,
                data@.len() == j,
                forall|q: int|
                    0 <= q < j ==> data@[q] == axis_sum(
                        self.logical(),
                        ssh,
                        axis as int,
                        multi_index(osh, q),
                        extent as int,
                    ),
            decreases m - j,
        {
            let mut pos = logical_position(&out_shape, j);
            let mut acc: i64 = 0;
            let mut k: usize = 0;
            while k < extent
                invariant
                    self.wf(),
                    sh@ == ssh,
                    osh == ssh.update(axis as int, 1usize),
                    axis < ssh.len(),
                    extent == ssh[axis as int],
                    strides_fit(ssh),
                    rm@ == row_major(ssh),
                    is_row_major(rm@, ssh),
                    pos@.len() == ssh.len(),
                    forall|b: int| 0 <= b < ssh.len() && b != axis ==> pos@[b] == multi_index(
                        osh,
                        j as int,
                    )[b],
                    forall|b: int| 0 <= b < ssh.len() && b != axis ==> pos@[b] < osh[b],
                    0 <= k <= extent,
                    acc == axis_sum(
                        self.logical(),
                        ssh,
                        axis as int,
                        multi_index(osh, j as int),
                        k as int,
                    ),
                decreases extent - k,
            {
                pos.set(axis, k);
                proof {
                    assert(valid_pos(pos@, ssh));
                    lemma_dot_row_major_bound(ssh, rm@, pos@);
                }
                let lin = dot_product(&pos, &rm);
                let v = self.layout.elem(lin);
                proof {
                    assert(pos@ =~= multi_index(osh, j as int).update(axis as int, k as usize));
                    assert(v == logical_at(self.logical(), ssh, pos@));
                }
                acc = crate::core_ops::apply_bin_exec(crate::core_ops::BinOp::Add, acc, v);
                k = k + 1;
            }
            data.push(acc);
            j = j + 1;
        }
        let lay = <P as StaticAllocationPolicy>::materialize(data, out_shape);
        proof {
            lemma_contiguous_logical_is_data(lay.data_spec(), lay.shape_spec(), lay.strides_spec());
        }
        Tensor { layout: lay, markers: PhantomData }
    }

    /// Collapses `axis` to size 1, each output cell holding the wrapping
    /// product of the input cells along that axis.
    #[verifier::loop_isolation(false)]
    pub fn prod(&self, axis: usize) -> (r: Tensor<
        Contiguous,
        <P as StaticAllocationPolicy>::Layout,
        P,
    >)
        requires
            self.wf(),
            axis < self.shape_spec().len(),
            self.shape_spec()[axis as int] >= 1,
        ensures
            r.wf(),
            r.shape_spec() == self.shape_spec().update(axis as int, 1usize),
            r.logical().len() == shape_product(r.shape_spec()),
            forall|j: int|
                0 <= j < r.logical().len() ==> r.logical()[j] == axis_prod(
                    self.logical(),
                    self.shape_spec(),
                    axis as int,
                    multi_index(r.shape_spec(), j),
                    self.shape_spec()[axis as int] as int,
                ),
    {
        proof {
            self.layout.wf_facts();
        }
        let ghost ssh = self.shape_spec();
        let sh = self.layout.shape();
        let mut out_shape = clone_usizes(&sh);
        out_shape.set(axis, 1);
        let ghost osh = out_shape@;
        proof {
            assert forall|i: int| 0 <= i <= osh.len() implies #[trigger] suffix_product(osh, i)
                <= usize::MAX by {
                lemma_suffix_product_le(osh, ssh, i);
                assert(suffix_product(ssh, i) <= usize::MAX);
            }
            crate::shape::lemma_row_major_is_row_major(ssh);
        }
        let m = num_elements_of(&out_shape);
        let extent = sh[axis];
        let rm = intrinsic_strides_in_place(clone_usizes(&sh));
        assert(rm@ =~= row_major(ssh));
        let mut data: Vec<i64> = Vec::new();
        let mut j: usize = 0;
        while j < m
            invariant
                0 <= j <= m,
                data@.len() == j,
                forall|q: int|
                    0 <= q < j ==> data@[q] == axis_prod(
                        self.logical(),
                        ssh,
                        axis as int,
                        multi_index(osh, q),
                        extent as int,
                    ),
            decreases m - j,
        {
            let mut pos = logical_position(&out_shape, j);
            let mut acc: i64 = 1;
            let mut k: usize = 0;
            while k < extent
                invariant
                    pos@.len() == ssh.len(),
                    forall|b: int| 0 <= b < ssh.len() && b != axis ==> pos@[b] == multi_index(
                        osh,
                        j as int,
                    )[b],
                    forall|b: int| 0 <= b < ssh.len() && b != axis ==> pos@[b] < osh[b],
                    0 <= k <= extent,
                    acc == axis_prod(
                        self.logical(),
                        ssh,
                        axis as int,
                        multi_index(osh, j as int),
                        k as int,
                    ),
                decreases extent - k,
            {
                pos.set(axis, k);
                proof {
                    assert(valid_pos(pos@, ssh));
                    lemma_dot_row_major_bound(ssh, rm@, pos@);
                }
                let lin = dot_product(&pos, &rm);
                let v = self.layout.elem(lin);
                proof {
                    assert(pos@ =~= multi_index(osh, j as int).update(axis as int, k as usize));
                    assert(v == logical_at(self.logical(), ssh, pos@));
                }
                acc = crate::core_ops::apply_bin_exec(crate::core_ops::BinOp::Mul, acc, v);
                k = k + 1;
            }
            data.push(acc);
            j = j + 1;
        }
        let lay = <P as StaticAllocationPolicy>::materialize(data, out_shape);
        proof {
            lemma_contiguous_logical_is_data(lay.data_spec(), lay.shape_spec(), lay.strides_spec());
        }
        Tensor { layout: lay, markers: PhantomData }
    }
}

impl<C: TransposePolicy, L: Layout, P: DynamicAllocationPolicy> Tensor<C, L, P> {
    /// The runtime-shape form of [`Tensor::sum`], materialized through
    /// the dynamic allocation policy.
    #[verifier::loop_isolation(false)]
    pub fn sum_dynamic(&self, axis: usize) -> (r: Tensor<
        Contiguous,
        <P as DynamicAllocationPolicy>::Layout,
        P,
    >)
        requires
            self.wf(),
            axis < self.shape_spec().len(),
            self.shape_spec()[axis as int] >= 1,
        ensures
            r.wf(),
            r.shape_spec() == self.shape_spec().update(axis as int, 1usize),
            r.logical().len() == shape_product(r.shape_spec()),
            forall|j: int|
                0 <= j < r.logical().len() ==> r.logical()[j] == axis_sum(
                    self.logical(),
                    self.shape_spec(),
                    axis as int,
                    multi_index(r.shape_spec(), j),
                    self.shape_spec()[axis as int] as int,
                ),
    {
        proof {
            self.layout.wf_facts();
        }
        let ghost ssh = self.shape_spec();
        let sh = self.layout.shape();
        let mut out_shape = clone_usizes(&sh);
        out_shape.set(axis, 1);
        let ghost osh = out_shape@;
        proof {
            assert forall|i: int| 0 <= i <= osh.len() implies #[trigger] suffix_product(osh, i)
                <= usize::MAX by {
                lemma_suffix_product_le(osh, ssh, i);
                assert(suffix_product(ssh, i) <= usize::MAX);
            }
            crate::shape::lemma_row_major_is_row_major(ssh);
        }
        let m = num_elements_of(&out_shape);
        let extent = sh[axis];
        let rm = intrinsic_strides_in_place(clone_usizes(&sh));
        assert(rm@ =~= row_major(ssh));
        let mut data: Vec<i64> = Vec::new();
        let mut j: usize = 0;
        while j < m
            invariant
                0 <= j <= m,
                data@.len() == j,
                forall|q: int|
                    0 <= q < j ==> data@[q] == axis_sum(
                        self.logical(),
                        ssh,
                        axis as int,
                        multi_index(osh, q),
                        extent as int,
                    ),
            decreases m - j,
        {
            let mut pos = logical_position(&out_shape, j);
            let mut acc: i64 = 0;
            let mut k: usize = 0;
            while k < extent
                invariant
                    pos@.len() == ssh.len(),
                    forall|b: int| 0 <= b < ssh.len() && b != axis ==> pos@[b] == multi_index(
                        osh,
                        j as int,
                    )[b],
                    forall|b: int| 0 <= b < ssh.len() && b != axis ==> pos@[b] < osh[b],
                    0 <= k <= extent,
                    acc == axis_sum(
                        self.logical(),
                        ssh,
                        axis as int,
                        multi_index(osh, j as int),
                        k as int,
                    ),
                decreases extent - k,
            {
                pos.set(axis, k);
                proof {
                    assert(valid_pos(pos@, ssh));
                    lemma_dot_row_major_bound(ssh, rm@, pos@);
                }
                let lin = dot_product(&pos, &rm);
                let v = self.layout.elem(lin);
                proof {
                    assert(pos@ =~= multi_index(osh, j as int).update(axis as int, k as usize));
                    assert(v == logical_at(self.logical(), ssh, pos@));
                }
                acc = crate::core_ops::apply_bin_exec(crate::core_ops::BinOp::Add, acc, v);
                k = k + 1;
            }
            data.push(acc);
            j = j + 1;
        }
        let lay = <P as DynamicAllocationPolicy>::materialize(data, out_shape);
        proof {
            lemma_contiguous_logical_is_data(lay.data_spec(), lay.shape_spec(), lay.strides_spec());
        }
        Tensor { layout: lay, markers: PhantomData }
    }
}

} // verus!
