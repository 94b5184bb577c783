//! Elementwise operations on tensors.  Scalar elements are 64-bit
//! integers with wrapping arithmetic.  Every operation gathers its
//! operands in row-major logical order, combines them pair by pair with a
//! data-parallel map, and materializes the result contiguously through
//! the allocation policy of its left operand.
//!
//! The same kernels serve contiguous, broadcast, transposed and strided
//! operands: only the logical order of the elements matters.

use vstd::prelude::*;

use core::marker::PhantomData;

use rayon::iter::{IndexedParallelIterator, IntoParallelRefIterator, ParallelIterator};

use crate::allocation_policy::{DynamicAllocationPolicy, StaticAllocationPolicy};
use crate::layout::{
    lemma_contiguous_logical_is_data, lemma_row_major_roundtrip, Layout, LayoutMut,
};
use crate::tensor::Tensor;
use crate::transpose_policy::{Contiguous, TransposePolicy};

verus! {

/// The elementwise binary operations.
#[derive(Clone, Copy, Debug, PartialEq, Eq, Structural)]
pub enum BinOp {
    Add,
    Sub,
    Mul,
}

/// Wrapping addition of two elements.
pub open spec fn wadd(a: i64, b: i64) -> i64 {
    vstd::wrapping::i64_specs::wrapping_add(a, b)
}

/// Wrapping subtraction of two elements.
pub open spec fn wsub(a: i64, b: i64) -> i64 {
    vstd::wrapping::i64_specs::wrapping_sub(a, b)
}

/// Wrapping multiplication of two elements.
pub open spec fn wmul(a: i64, b: i64) -> i64 {
    vstd::wrapping::i64_specs::wrapping_mul(a, b)
}

/// Applies one binary operation to a pair of elements.
pub open spec fn apply_bin(op: BinOp, a: i64, b: i64) -> i64 {
    match op {
        BinOp::Add => wadd(a, b),
        BinOp::Sub => wsub(a, b),
        BinOp::Mul => wmul(a, b),
    }
}

/// Applies one binary operation to a pair of elements.
pub fn apply_bin_exec(op: BinOp, a: i64, b: i64) -> (r: i64)
    ensures
        r == apply_bin(op, a, b),
{
    match op {
        BinOp::Add => a.wrapping_add(b),
        BinOp::Sub => a.wrapping_sub(b),
        BinOp::Mul => a.wrapping_mul(b),
    }
}

/// Two element sequences combined position by position.
pub open spec fn zip_apply(op: BinOp, a: Seq<i64>, b: Seq<i64>) -> Seq<i64> {
    Seq::new(a.len(), |i: int| apply_bin(op, a[i], b[i]))
}

/// One element sequence combined with a fixed scalar.
pub open spec fn map_apply(op: BinOp, a: Seq<i64>, param: i64) -> Seq<i64> {
    Seq::new(a.len(), |i: int| apply_bin(op, a[i], param))
}

/// Coercion equivalence: an elementwise result is a function of the
/// operands' logical elements alone, so a dynamically shaped tensor and a
/// statically shaped tensor holding the same runtime shape and data give
/// identical results from the same operation — the contracts of the
/// shape-checked and runtime-shape operation families share this one
/// result sequence.
pub proof fn lemma_coercion_equivalence<
    C1: TransposePolicy,
    L1: Layout,
    P1,
    C2: TransposePolicy,
    L2: Layout,
    P2,
>(op: BinOp, a1: &Tensor<C1, L1, P1>, b1: &Tensor<C1, L1, P1>, a2: &Tensor<C2, L2, P2>, b2: &Tensor<
    C2,
    L2,
    P2,
>)
    requires
        a1.logical() == a2.logical(),
        b1.logical() == b2.logical(),
    ensures
        zip_apply(op, a1.logical(), b1.logical()) == zip_apply(op, a2.logical(), b2.logical()),
{
}

/// Relies on rayon's `par_iter`, `zip`, `map` and `collect`: over slices
/// these are indexed parallel iterators, `zip` pairs equal positions,
/// `map` keeps length and position, and `collect` into a `Vec` restores
/// index order, so the result applies `apply_bin_exec` position by
/// position.
#[verifier::external_body]
fn par_zip_apply(a: &Vec<i64>, b: &Vec<i64>, op: BinOp) -> (r: Vec<i64>)
    requires
        a@.len() == b@.len(),
    ensures
        r@.len() == a@.len(),
        forall|i: int| 0 <= i < a@.len() ==> r@[i] == apply_bin(op, a@[i], b@[i]),
{
    a.par_iter().zip(b.par_iter()).map(|(x, y): (&i64, &i64)| apply_bin_exec(op, *x, *y)).collect()
}

/// Relies on rayon's `par_iter`, `map` and `collect`: over a slice these
/// are indexed parallel iterators and `collect` into a `Vec` restores
/// index order, so the result applies `apply_bin_exec` position by
/// position against the fixed scalar.
#[verifier::external_body]
fn par_map_apply(a: &Vec<i64>, op: BinOp, param: i64) -> (r: Vec<i64>)
    ensures
        r@.len() == a@.len(),
        forall|i: int| 0 <= i < a@.len() ==> r@[i] == apply_bin(op, a@[i], param),
{
    a.par_iter().map(|x: &i64| apply_bin_exec(op, *x, param)).collect()
}

/// Elementwise and scalar operations materialized through the static
/// allocation policy of the left operand.
impl<C: TransposePolicy, L: Layout, P: StaticAllocationPolicy> Tensor<C, L, P> {
    /// One elementwise binary operation.
    fn apply_binary<C2: TransposePolicy, L2: Layout, P2>(
        &self,
        rhs: &Tensor<C2, L2, P2>,
        op: BinOp,
    ) -> (r: Tensor<Contiguous, P::Layout, P>)
        requires
            self.wf(),
            rhs.wf(),
            self.shape_spec() == rhs.shape_spec(),
        ensures
            r.wf(),
            r.shape_spec() == self.shape_spec(),
            r.logical() == zip_apply(op, self.logical(), rhs.logical()),
    {
        proof {
            self.layout.wf_facts();
        }
        let a = self.to_logical_vec();
        let b = rhs.to_logical_vec();
        let data = par_zip_apply(&a, &b, op);
        assert(data@ =~= zip_apply(op, self.logical(), rhs.logical()));
        let shape = self.layout.shape();
        let lay = <P as StaticAllocationPolicy>::materialize(data, shape);
        proof {
            lemma_contiguous_logical_is_data(
                lay.data_spec(),
                lay.shape_spec(),
                lay.strides_spec(),
            );
        }
        Tensor { layout: lay, markers: PhantomData }
    }

    /// One scalar operation applied to every element.
    fn apply_scalar(&self, op: BinOp, param: i64) -> (r: Tensor<Contiguous, P::Layout, P>)
        requires
            self.wf(),
        ensures
            r.wf(),
            r.shape_spec() == self.shape_spec(),
            r.logical() == map_apply(op, self.logical(), param),
    {
        proof {
            self.layout.wf_facts();
        }
        let a = self.to_logical_vec();
        let data = par_map_apply(&a, op, param);
        assert(data@ =~= map_apply(op, self.logical(), param));
        let shape = self.layout.shape();
        let lay = <P as StaticAllocationPolicy>::materialize(data, shape);
        proof {
            lemma_contiguous_logical_is_data(
                lay.data_spec(),
                lay.shape_spec(),
                lay.strides_spec(),
            );
        }
        Tensor { layout: lay, markers: PhantomData }
    }

    /// Elementwise wrapping addition.  Both operands must share one
    /// runtime shape; the checker enforces this ahead of time, mirroring
    /// the compile-time shape proof of statically shaped tensors.
    pub fn add<C2: TransposePolicy, L2: Layout, P2>(&self, rhs: &Tensor<C2, L2, P2>) -> (r: Tensor<
        Contiguous,
        P::Layout,
        P,
    >)
        requires
            self.wf(),
            rhs.wf(),
            self.shape_spec() == rhs.shape_spec(),
        ensures
            r.wf(),
            r.shape_spec() == self.shape_spec(),
            r.logical() == zip_apply(BinOp::Add, self.logical(), rhs.logical()),
    {
        self.apply_binary(rhs, BinOp::Add)
    }

    /// Elementwise wrapping subtraction.
    pub fn sub<C2: TransposePolicy, L2: Layout, P2>(&self, rhs: &Tensor<C2, L2, P2>) -> (r: Tensor<
        Contiguous,
        P::Layout,
        P,
    >)
        requires
            self.wf(),
            rhs.wf(),
            self.shape_spec() == rhs.shape_spec(),
        ensures
            r.wf(),
            r.shape_spec() == self.shape_spec(),
            r.logical() == zip_apply(BinOp::Sub, self.logical(), rhs.logical()),
    {
        self.apply_binary(rhs, BinOp::Sub)
    }

    /// Elementwise wrapping multiplication.
    pub fn mul<C2: TransposePolicy, L2: Layout, P2>(&self, rhs: &Tensor<C2, L2, P2>) -> (r: Tensor<
        Contiguous,
        P::Layout,
        P,
    >)
        requires
            self.wf(),
            rhs.wf(),
            self.shape_spec() == rhs.shape_spec(),
        ensures
            r.wf(),
            r.shape_spec() == self.shape_spec(),
            r.logical() == zip_apply(BinOp::Mul, self.logical(), rhs.logical()),
    {
        self.apply_binary(rhs, BinOp::Mul)
    }

    /// Adds a scalar to every element, wrapping.
    pub fn scal_add(&self, param: i64) -> (r: Tensor<Contiguous, P::Layout, P>)
        requires
            self.wf(),
        ensures
            r.wf(),
            r.shape_spec() == self.shape_spec(),
            r.logical() == map_apply(BinOp::Add, self.logical(), param),
    {
        self.apply_scalar(BinOp::Add, param)
    }

    /// Subtracts a scalar from every element, wrapping.
    pub fn scal_sub(&self, param: i64) -> (r: Tensor<Contiguous, P::Layout, P>)
        requires
            self.wf(),
        ensures
            r.wf(),
            r.shape_spec() == self.shape_spec(),
            r.logical() == map_apply(BinOp::Sub, self.logical(), param),
    {
        self.apply_scalar(BinOp::Sub, param)
    }

    /// Multiplies every element by a scalar, wrapping.
    pub fn scal_mul(&self, param: i64) -> (r: Tensor<Contiguous, P::Layout, P>)
        requires
            self.wf(),
        ensures
            r.wf(),
            r.shape_spec() == self.shape_spec(),
            r.logical() == map_apply(BinOp::Mul, self.logical(), param),
    {
        self.apply_scalar(BinOp::Mul, param)
    }

    /// A contiguous copy of this tensor, whatever its stride pattern.
    pub fn as_contiguous(&self) -> (r: Tensor<Contiguous, P::Layout, P>)
        requires
            self.wf(),
        ensures
            r.wf(),
            r.shape_spec() == self.shape_spec(),
            r.logical() == self.logical(),
    {
        proof {
            self.layout.wf_facts();
        }
        let data = self.to_logical_vec();
        let shape = self.layout.shape();
        let lay = <P as StaticAllocationPolicy>::materialize(data, shape);
        proof {
            lemma_contiguous_logical_is_data(
                lay.data_spec(),
                lay.shape_spec(),
                lay.strides_spec(),
            );
        }
        Tensor { layout: lay, markers: PhantomData }
    }
}

/// The runtime-shape forms of the elementwise operations, materialized
/// through the dynamic allocation policy of the left operand.
impl<C: TransposePolicy, L: Layout, P: DynamicAllocationPolicy> Tensor<C, L, P> {
    /// One elementwise binary operation over a runtime shape.
    fn apply_binary_dynamic<C2: TransposePolicy, L2: Layout, P2>(
        &self,
        rhs: &Tensor<C2, L2, P2>,
        op: BinOp,
    ) -> (r: Tensor<Contiguous, <P as DynamicAllocationPolicy>::Layout, P>)
        requires
            self.wf(),
            rhs.wf(),
            self.shape_spec() == rhs.shape_spec(),
        ensures
            r.wf(),
            r.shape_spec() == self.shape_spec(),
            r.logical() == zip_apply(op, self.logical(), rhs.logical()),
    {
        proof {
            self.layout.wf_facts();
        }
        let a = self.to_logical_vec();
        let b = rhs.to_logical_vec();
        let data = par_zip_apply(&a, &b, op);
        assert(data@ =~= zip_apply(op, self.logical(), rhs.logical()));
        let shape = self.layout.shape();
        let lay = <P as DynamicAllocationPolicy>::materialize(data, shape);
        proof {
            lemma_contiguous_logical_is_data(
                lay.data_spec(),
                lay.shape_spec(),
                lay.strides_spec(),
            );
        }
        Tensor { layout: lay, markers: PhantomData }
    }

    /// Elementwise wrapping addition over a runtime shape.  Operands of
    /// unequal shape are rejected ahead of time; the runtime check is
    /// [`Tensor::equals`]-style shape comparison by the caller.
    pub fn add_dynamic<C2: TransposePolicy, L2: Layout, P2>(&self, rhs: &Tensor<C2, L2, P2>) -> (r:
        Tensor<Contiguous, <P as DynamicAllocationPolicy>::Layout, P>)
        requires
            self.wf(),
            rhs.wf(),
            self.shape_spec() == rhs.shape_spec(),
        ensures
            r.wf(),
            r.shape_spec() == self.shape_spec(),
            r.logical() == zip_apply(BinOp::Add, self.logical(), rhs.logical()),
    {
        self.apply_binary_dynamic(rhs, BinOp::Add)
    }

    /// Elementwise wrapping subtraction over a runtime shape.
    pub fn sub_dynamic<C2: TransposePolicy, L2: Layout, P2>(&self, rhs: &Tensor<C2, L2, P2>) -> (r:
        Tensor<Contiguous, <P as DynamicAllocationPolicy>::Layout, P>)
        requires
            self.wf(),
            rhs.wf(),
            self.shape_spec() == rhs.shape_spec(),
        ensures
            r.wf(),
            r.shape_spec() == self.shape_spec(),
            r.logical() == zip_apply(BinOp::Sub, self.logical(), rhs.logical()),
    {
        self.apply_binary_dynamic(rhs, BinOp::Sub)
    }

    /// Elementwise wrapping multiplication over a runtime shape.
    pub fn mul_dynamic<C2: TransposePolicy, L2: Layout, P2>(&self, rhs: &Tensor<C2, L2, P2>) -> (r:
        Tensor<Contiguous, <P as DynamicAllocationPolicy>::Layout, P>)
        requires
            self.wf(),
            rhs.wf(),
            self.shape_spec() == rhs.shape_spec(),
        ensures
            r.wf(),
            r.shape_spec() == self.shape_spec(),
            r.logical() == zip_apply(BinOp::Mul, self.logical(), rhs.logical()),
    {
        self.apply_binary_dynamic(rhs, BinOp::Mul)
    }

    /// One scalar operation over a runtime shape.
    fn apply_scalar_dynamic(&self, op: BinOp, param: i64) -> (r: Tensor<
        Contiguous,
        <P as DynamicAllocationPolicy>::Layout,
        P,
    >)
        requires
            self.wf(),
        ensures
            r.wf(),
            r.shape_spec() == self.shape_spec(),
            r.logical() == map_apply(op, self.logical(), param),
    {
        proof {
            self.layout.wf_facts();
        }
        let a = self.to_logical_vec();
        let data = par_map_apply(&a, op, param);
        assert(data@ =~= map_apply(op, self.logical(), param));
        let shape = self.layout.shape();
        let lay = <P as DynamicAllocationPolicy>::materialize(data, shape);
        proof {
            lemma_contiguous_logical_is_data(
                lay.data_spec(),
                lay.shape_spec(),
                lay.strides_spec(),
            );
        }
        Tensor { layout: lay, markers: PhantomData }
    }

    /// Adds a scalar to every element over a runtime shape, wrapping.
    pub fn scal_add_dynamic(&self, param: i64) -> (r: Tensor<
        Contiguous,
        <P as DynamicAllocationPolicy>::Layout,
        P,
    >)
        requires
            self.wf(),
        ensures
            r.wf(),
            r.shape_spec() == self.shape_spec(),
            r.logical() == map_apply(BinOp::Add, self.logical(), param),
    {
        self.apply_scalar_dynamic(BinOp::Add, param)
    }

    /// Multiplies every element by a scalar over a runtime shape,
    /// wrapping.
    pub fn scal_mul_dynamic(&self, param: i64) -> (r: Tensor<
        Contiguous,
        <P as DynamicAllocationPolicy>::Layout,
        P,
    >)
        requires
            self.wf(),
        ensures
            r.wf(),
            r.shape_spec() == self.shape_spec(),
            r.logical() == map_apply(BinOp::Mul, self.logical(), param),
    {
        self.apply_scalar_dynamic(BinOp::Mul, param)
    }
}

/// In-place elementwise operations on contiguous mutable tensors.
impl<L: LayoutMut, P> Tensor<Contiguous, L, P> {
    /// One in-place elementwise binary operation.
    fn apply_binary_in_place<C2: TransposePolicy, L2: Layout, P2>(
        &mut self,
        rhs: &Tensor<C2, L2, P2>,
        op: BinOp,
    )
        requires
            old(self).wf(),
            rhs.wf(),
            old(self).shape_spec() == rhs.shape_spec(),
        ensures
            final(self).wf(),
            final(self).shape_spec() == old(self).shape_spec(),
            final(self).layout.strides_spec() == old(self).layout.strides_spec(),
            final(self).logical() == zip_apply(op, old(self).logical(), rhs.logical()),
    {
        let b = rhs.to_logical_vec();
        let n = self.layout.num_elements();
        proof {
            lemma_contiguous_logical_is_data(
                self.layout.data_spec(),
                self.layout.shape_spec(),
                self.layout.strides_spec(),
            );
        }
        let ghost orig = self.layout.data_spec();
        let mut i: usize = 0;
        while i < n
            invariant
                self.wf(),
                rhs.wf(),
                self.shape_spec() == old(self).shape_spec(),
                self.layout.strides_spec() == old(self).layout.strides_spec(),
                self.layout.opt_chunk_spec() == old(self).layout.opt_chunk_spec(),
                b@ == rhs.logical(),
                self.shape_spec() == rhs.shape_spec(),
                n == crate::shape::shape_product(self.shape_spec()),
                orig == old(self).layout.data_spec(),
                orig.len() == n,
                self.layout.data_spec().len() == n,
                0 <= i <= n,
                forall|j: int|
                    0 <= j < i ==> self.layout.data_spec()[j] == apply_bin(op, orig[j], b@[j]),
                forall|j: int| i <= j < n ==> self.layout.data_spec()[j] == orig[j],
            decreases n - i,
        {
            proof {
                lemma_contiguous_logical_is_data(
                    self.layout.data_spec(),
                    self.layout.shape_spec(),
                    self.layout.strides_spec(),
                );
                lemma_row_major_roundtrip(
                    self.layout.shape_spec(),
                    self.layout.strides_spec(),
                    i as int,
                );
            }
            let v = self.layout.elem(i);
            let w = apply_bin_exec(op, v, b[i]);
            self.layout.set_elem(i, w);
            i = i + 1;
        }
        proof {
            lemma_contiguous_logical_is_data(
                self.layout.data_spec(),
                self.layout.shape_spec(),
                self.layout.strides_spec(),
            );
            lemma_contiguous_logical_is_data(
                orig,
                old(self).layout.shape_spec(),
                old(self).layout.strides_spec(),
            );
            assert(self.layout.data_spec() =~= zip_apply(op, orig, b@));
        }
    }

    /// In-place elementwise wrapping addition: accumulates `rhs` into
    /// this tensor.
    pub fn add_(&mut self, rhs: &Tensor<Contiguous, L, P>)
        requires
            old(self).wf(),
            rhs.wf(),
            old(self).shape_spec() == rhs.shape_spec(),
        ensures
            final(self).wf(),
            final(self).shape_spec() == old(self).shape_spec(),
            final(self).logical() == zip_apply(BinOp::Add, old(self).logical(), rhs.logical()),
    {
        self.apply_binary_in_place(rhs, BinOp::Add)
    }

    /// In-place elementwise wrapping multiplication.
    pub fn mul_<C2: TransposePolicy, L2: Layout, P2>(&mut self, rhs: &Tensor<C2, L2, P2>)
        requires
            old(self).wf(),
            rhs.wf(),
            old(self).shape_spec() == rhs.shape_spec(),
        ensures
            final(self).wf(),
            final(self).shape_spec() == old(self).shape_spec(),
            final(self).logical() == zip_apply(BinOp::Mul, old(self).logical(), rhs.logical()),
    {
        self.apply_binary_in_place(rhs, BinOp::Mul)
    }

    /// In-place wrapping multiplication by a scalar.
    pub fn scal_mul_(&mut self, param: i64)
        requires
            old(self).wf(),
        ensures
            final(self).wf(),
            final(self).shape_spec() == old(self).shape_spec(),
            final(self).logical() == map_apply(BinOp::Mul, old(self).logical(), param),
    {
        let n = self.layout.num_elements();
        proof {
            lemma_contiguous_logical_is_data(
                self.layout.data_spec(),
                self.layout.shape_spec(),
                self.layout.strides_spec(),
            );
        }
        let ghost orig = self.layout.data_spec();
        let mut i: usize = 0;
        while i < n
            invariant
                self.wf(),
                self.shape_spec() == old(self).shape_spec(),
                self.layout.strides_spec() == old(self).layout.strides_spec(),
                n == crate::shape::shape_product(self.shape_spec()),
                orig == old(self).layout.data_spec(),
                orig.len() == n,
                self.layout.data_spec().len() == n,
                0 <= i <= n,
                forall|j: int|
                    0 <= j < i ==> self.layout.data_spec()[j] == apply_bin(
                        BinOp::Mul,
                        orig[j],
                        param,
                    ),
                forall|j: int| i <= j < n ==> self.layout.data_spec()[j] == orig[j],
            decreases n - i,
        {
            proof {
                lemma_contiguous_logical_is_data(
                    self.layout.data_spec(),
                    self.layout.shape_spec(),
                    self.layout.strides_spec(),
                );
                lemma_row_major_roundtrip(
                    self.layout.shape_spec(),
                    self.layout.strides_spec(),
                    i as int,
                );
            }
            let v = self.layout.elem(i);
            let w = apply_bin_exec(BinOp::Mul, v, param);
            self.layout.set_elem(i, w);
            i = i + 1;
        }
        proof {
            lemma_contiguous_logical_is_data(
                self.layout.data_spec(),
                self.layout.shape_spec(),
                self.layout.strides_spec(),
            );
            lemma_contiguous_logical_is_data(
                orig,
                old(self).layout.shape_spec(),
                old(self).layout.strides_spec(),
            );
            assert(self.layout.data_spec() =~= map_apply(BinOp::Mul, orig, param));
        }
    }
}

} // verus!
