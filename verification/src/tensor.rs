//! The tensor facade: one generic wrapper binding a contiguity marker, a
//! concrete layout and an allocation policy.  Structural view operations
//! (broadcast, reshape, transpose, strided sub-sampling) are checked by
//! the shape algebra through their preconditions and produce strided
//! views without copying element by element.

use vstd::prelude::*;

use core::marker::PhantomData;

use crate::heap_layout::HeapLayout;
use crate::layout::{
    contiguous_layout, dot, layout_logical, lemma_contiguous_logical_is_data,
    lemma_contiguous_reads_in_bounds, lemma_dot_reverse, lemma_dot_term_equal,
    lemma_dot_zero_prefix, logical_seq, valid_pos, Alloc, DynamicFill, Layout, StaticFill,
};
use crate::shape::{
    checked_num_elements, clone_usizes, intrinsic_strides_in_place, is_row_major,
    num_elements_of, rev_seq, rev_usizes, runtime_compat, runtime_compat_spec, shape_product,
    sizes_broadcast, strides_fit, suffix_product, Dim,
};
use crate::slice_layout::SliceLayout;
use crate::static_heap_layout::StaticHeapLayout;
use crate::transpose_policy::{Contiguous, Strided, TransposePolicy, Transposed};
use crate::allocation_policy::DefaultPolicy;

verus! {

/// The recoverable construction error: a source buffer that does not
/// match the target shape, or a runtime shape that contradicts its
/// descriptor.
#[derive(Clone, Copy, Debug, PartialEq, Eq, Structural)]
pub enum TensorError {
    SizeMismatch,
    ShapeMismatch,
}

/// A tensor: a layout tagged with a contiguity marker `C` and an
/// allocation policy `P`.
#[derive(Debug)]
#[verifier::reject_recursive_types(C)]
#[verifier::reject_recursive_types(P)]
pub struct Tensor<C, L, P> {
    /// The storage behind this tensor.
    pub layout: L,
    /// The zero-sized contiguity and allocation-policy markers.
    pub markers: PhantomData<(C, P)>,
}

/// The default tensor for shapes fixed ahead of time.
pub type StaticTensor = Tensor<Contiguous, StaticHeapLayout, DefaultPolicy>;

/// The default tensor for shapes resolved at run time.
pub type DynamicTensor = Tensor<Contiguous, HeapLayout, DefaultPolicy>;

/// The default contiguous view tensor.
pub type SliceTensor = Tensor<Contiguous, SliceLayout, DefaultPolicy>;

/// The default strided view tensor.
pub type StridedSliceTensor = Tensor<Strided, SliceLayout, DefaultPolicy>;

impl<C: TransposePolicy, L: Layout, P> Tensor<C, L, P> {
    /// A well-formed tensor: its layout is well formed and satisfies the
    /// guarantee of the contiguity marker.
    pub open spec fn wf(&self) -> bool {
        &&& self.layout.wf()
        &&& C::marker_inv(
            self.layout.data_spec().len() as int,
            self.layout.shape_spec(),
            self.layout.strides_spec(),
        )
    }

    /// The runtime shape.
    pub open spec fn shape_spec(&self) -> Seq<usize> {
        self.layout.shape_spec()
    }

    /// The elements in row-major logical order.
    pub open spec fn logical(&self) -> Seq<i64> {
        layout_logical(&self.layout)
    }

    /// Wraps a layout known to satisfy the marker's guarantee.
    pub fn from_layout(layout: L) -> (r: Self)
        requires
            layout.wf(),
            C::marker_inv(
                layout.data_spec().len() as int,
                layout.shape_spec(),
                layout.strides_spec(),
            ),
        ensures
            r.wf(),
            r.layout == layout,
    {
        Tensor { layout, markers: PhantomData }
    }

    /// The runtime shape, one size per axis.
    pub fn shape(&self) -> (r: Vec<usize>)
        requires
            self.wf(),
        ensures
            r@ == self.shape_spec(),
    {
        self.layout.shape()
    }

    /// The strides, one per axis.
    pub fn strides(&self) -> (r: Vec<usize>)
        requires
            self.wf(),
        ensures
            r@ == self.layout.strides_spec(),
    {
        self.layout.strides()
    }

    /// The advertised contiguous run length.
    pub fn opt_chunk_size(&self) -> (r: usize)
        requires
            self.wf(),
        ensures
            r == self.layout.opt_chunk_spec(),
    {
        self.layout.opt_chunk_size()
    }

    /// The number of logical elements.
    pub fn num_elements(&self) -> (r: usize)
        requires
            self.wf(),
        ensures
            r == shape_product(self.shape_spec()),
    {
        self.layout.num_elements()
    }

    /// The element at logical (row-major) index `i`.
    pub fn elem(&self, i: usize) -> (r: i64)
        requires
            self.wf(),
            i < shape_product(self.shape_spec()),
        ensures
            r == self.logical()[i as int],
    {
        self.layout.elem(i)
    }

    /// The elements in row-major logical order, gathered into a vector.
    pub fn to_logical_vec(&self) -> (r: Vec<i64>)
        requires
            self.wf(),
        ensures
            r@ == self.logical(),
    {
        let n = self.layout.num_elements();
        let mut out: Vec<i64> = Vec::new();
        let mut i: usize = 0;
        while i < n
            invariant
                self.wf(),
                n == shape_product(self.shape_spec()),
                0 <= i <= n,
                out@.len() == i,
                forall|j: int| 0 <= j < i ==> out@[j] == self.logical()[j],
            decreases n - i,
        {
            out.push(self.layout.elem(i));
            i = i + 1;
        }
        assert(out@ =~= self.logical());
        out
    }

    /// Whether two tensors have the same shape and the same elements in
    /// logical order, whatever their layouts.
    pub fn equals<C2: TransposePolicy, L2: Layout, P2>(&self, other: &Tensor<C2, L2, P2>) -> (r:
        bool)
        requires
            self.wf(),
            other.wf(),
        ensures
            r == (self.shape_spec() == other.shape_spec() && self.logical() == other.logical()),
    {
        let sa = self.layout.shape();
        let sb = other.layout.shape();
        if sa.len() != sb.len() {
            return false;
        }
        let mut a: usize = 0;
        while a < sa.len()
            invariant
                self.wf(),
                other.wf(),
                sa@ == self.shape_spec(),
                sb@ == other.shape_spec(),
                sa@.len() == sb@.len(),
                0 <= a <= sa@.len(),
                forall|j: int| 0 <= j < a ==> sa@[j] == sb@[j],
            decreases sa@.len() - a,
        {
            if sa[a] != sb[a] {
                assert(self.shape_spec()[a as int] != other.shape_spec()[a as int]);
                return false;
            }
            a = a + 1;
        }
        assert(sa@ =~= sb@);
        let n = self.layout.num_elements();
        let mut i: usize = 0;
        while i < n
            invariant
                self.wf(),
                other.wf(),
                self.shape_spec() == other.shape_spec(),
                n == shape_product(self.shape_spec()),
                0 <= i <= n,
                forall|j: int| 0 <= j < i ==> self.logical()[j] == other.logical()[j],
            decreases n - i,
        {
            let x = self.layout.elem(i);
            let y = other.layout.elem(i);
            if x != y {
                assert(self.logical()[i as int] != other.logical()[i as int]);
                return false;
            }
            i = i + 1;
        }
        assert(self.logical() =~= other.logical());
        true
    }

    /// A non-owning view of this tensor: same data, shape and strides,
    /// under the same contiguity marker.
    pub fn as_view(&self) -> (r: Tensor<C, SliceLayout, P>)
        requires
            self.wf(),
        ensures
            r.wf(),
            r.layout.data_spec() == self.layout.data_spec(),
            r.shape_spec() == self.shape_spec(),
            r.layout.strides_spec() == self.layout.strides_spec(),
            r.layout.opt_chunk_spec() == self.layout.opt_chunk_spec(),
            r.logical() == self.logical(),
    {
        proof {
            self.layout.wf_facts();
        }
        let data = self.layout.buffer();
        let shape = self.layout.shape();
        let strides = self.layout.strides();
        let n = self.layout.num_elements();
        let opt = self.layout.opt_chunk_size();
        let lay = SliceLayout::from_slice_unchecked(data, shape, strides, n, opt);
        Tensor { layout: lay, markers: PhantomData }
    }
}

/// The strides of a broadcast view: newly introduced leading axes and
/// axes expanded from size 1 get stride 0; every other axis keeps the
/// source stride.
pub open spec fn broadcast_strides(
    sshape: Seq<usize>,
    sstrides: Seq<usize>,
    target: Seq<usize>,
) -> Seq<usize> {
    Seq::new(
        target.len(),
        |a: int|
            if a < target.len() - sshape.len() {
                0usize
            } else {
                let b = a - (target.len() - sshape.len());
                if sshape[b] == 1 {
                    0usize
                } else {
                    sstrides[b]
                }
            },
    )
}

/// The source position read by a broadcast view at position `p`: leading
/// axes are dropped and expanded axes read coordinate 0.
pub open spec fn broadcast_source_pos(p: Seq<usize>, sshape: Seq<usize>) -> Seq<usize> {
    Seq::new(
        sshape.len(),
        |b: int|
            if sshape[b] == 1 {
                0usize
            } else {
                p[b + p.len() - sshape.len()]
            },
    )
}

/// A broadcast view reads, at every position, the source cell of the
/// projected position.
pub proof fn lemma_broadcast_dot(
    sshape: Seq<usize>,
    sstrides: Seq<usize>,
    target: Seq<usize>,
    p: Seq<usize>,
)
    requires
        sshape.len() == sstrides.len(),
        sshape.len() <= target.len(),
        p.len() == target.len(),
    ensures
        dot(p, broadcast_strides(sshape, sstrides, target)) == dot(
            broadcast_source_pos(p, sshape),
            sstrides,
        ),
{
    let bst = broadcast_strides(sshape, sstrides, target);
    let off = target.len() - sshape.len();
    lemma_dot_zero_prefix(p, bst, off as int);
    let pt = p.skip(off as int);
    let bt = bst.skip(off as int);
    let sp = broadcast_source_pos(p, sshape);
    assert forall|b: int| 0 <= b < pt.len() implies #[trigger] (pt[b] * bt[b]) == sp[b]
        * sstrides[b] by {
        if sshape[b] == 1 {
            assert(pt[b] * bt[b] == 0) by (nonlinear_arith)
                requires
                    bt[b] == 0,
            ;
            assert(sp[b] * sstrides[b] == 0) by (nonlinear_arith)
                requires
                    sp[b] == 0,
            ;
        }
    }
    lemma_dot_term_equal(pt, bt, sp, sstrides);
}

/// The projected position of a valid broadcast position is valid for the
/// source shape.
pub proof fn lemma_broadcast_source_valid(sshape: Seq<usize>, target: Seq<usize>, p: Seq<usize>)
    requires
        sizes_broadcast(sshape, target),
        valid_pos(p, target),
        forall|b: int| 0 <= b < sshape.len() ==> sshape[b] >= 1,
    ensures
        valid_pos(broadcast_source_pos(p, sshape), sshape),
{
    let sp = broadcast_source_pos(p, sshape);
    assert forall|b: int| 0 <= b < sshape.len() implies sp[b] < sshape[b] by {
        if sshape[b] != 1 {
            let i = sshape.len() - 1 - b;
            assert({
                let x = sshape[sshape.len() - 1 - i];
                let y = target[target.len() - 1 - i];
                x == y || x == 1 || y == 1
            });
            let a = b + p.len() - sshape.len();
            assert(target[a] == target[target.len() - 1 - i]);
            assert(p[a] < target[a]);
        }
    }
}

/// The advertised run length of a broadcast view: the size of the block
/// inside the innermost zero-stride axis, or the whole view if no stride
/// is zero.
pub open spec fn zero_scan(strides: Seq<usize>, shape: Seq<usize>, j: int) -> nat
    recommends
        strides.len() == shape.len(),
        0 <= j <= shape.len(),
    decreases j,
{
    if j <= 0 {
        shape_product(shape)
    } else if strides[j - 1] == 0 {
        suffix_product(shape, j)
    } else {
        zero_scan(strides, shape, j - 1)
    }
}

/// Computes [`zero_scan`] over the whole stride vector.
fn broadcast_opt_chunk(strides: &Vec<usize>, shape: &Vec<usize>) -> (r: usize)
    requires
        strides@.len() == shape@.len(),
        strides_fit(shape@),
    ensures
        r == zero_scan(strides@, shape@, shape@.len() as int),
{
    let rm = intrinsic_strides_in_place(clone_usizes(shape));
    let mut j: usize = shape.len();
    while j > 0
        invariant
            strides@.len() == shape@.len(),
            rm@.len() == shape@.len(),
            is_row_major(rm@, shape@),
            strides_fit(shape@),
            0 <= j <= shape@.len(),
            zero_scan(strides@, shape@, shape@.len() as int) == zero_scan(
                strides@,
                shape@,
                j as int,
            ),
        decreases j,
    {
        if strides[j - 1] == 0 {
            assert(rm@[j - 1] == suffix_product(shape@, j as int));
            return rm[j - 1];
        }
        j = j - 1;
    }
    num_elements_of(shape)
}

impl<C: TransposePolicy, L: Layout, P> Tensor<C, L, P> {
    /// A zero-copy broadcast view of this tensor under `target`, a shape
    /// of equal or higher rank whose axes, aligned at the innermost end,
    /// each equal the source axis or expand a size-1 side.  Expanded and
    /// newly introduced axes get stride 0, so all their positions read
    /// the one source cell.
    pub fn broadcast(&self, target: Vec<usize>) -> (r: Tensor<Strided, SliceLayout, P>)
        requires
            self.wf(),
            sizes_broadcast(self.shape_spec(), target@),
            strides_fit(target@),
            forall|b: int| 0 <= b < self.shape_spec().len() ==> self.shape_spec()[b] >= 1,
        ensures
            r.wf(),
            r.shape_spec() == target@,
            r.layout.data_spec() == self.layout.data_spec(),
            r.layout.strides_spec() == broadcast_strides(
                self.shape_spec(),
                self.layout.strides_spec(),
                target@,
            ),
            r.layout.opt_chunk_spec() == zero_scan(
                r.layout.strides_spec(),
                target@,
                target@.len() as int,
            ),
            forall|p: Seq<usize>|
                valid_pos(p, target@) ==> #[trigger] dot(p, r.layout.strides_spec()) == dot(
                    broadcast_source_pos(p, self.shape_spec()),
                    self.layout.strides_spec(),
                ),
    {
        proof {
            self.layout.wf_facts();
        }
        let ghost ssh = self.shape_spec();
        let ghost sst = self.layout.strides_spec();
        let sshape = self.layout.shape();
        let sstrides = self.layout.strides();
        let off = target.len() - sshape.len();
        let mut bst: Vec<usize> = Vec::new();
        let mut k: usize = 0;
        while k < off
            invariant
                0 <= k <= off <= target@.len(),
                bst@.len() == k,
                forall|j: int| 0 <= j < k ==> bst@[j] == 0,
            decreases off - k,
        {
            bst.push(0);
            k = k + 1;
        }
        let mut b: usize = 0;
        while b < sshape.len()
            invariant
                sshape@ == ssh,
                sstrides@ == sst,
                ssh.len() == sst.len(),
                off == target@.len() - ssh.len(),
                0 <= b <= ssh.len(),
                bst@.len() == off + b,
                forall|j: int| 0 <= j < off ==> bst@[j] == 0,
                forall|j: int|
                    0 <= j < b ==> bst@[off + j] == (if ssh[j] == 1 {
                        0usize
                    } else {
                        sst[j]
                    }),
            decreases ssh.len() - b,
        {
            if sshape[b] == 1 {
                bst.push(0);
            } else {
                bst.push(sstrides[b]);
            }
            b = b + 1;
        }
        assert(bst@ =~= broadcast_strides(ssh, sst, target@));
        let n = num_elements_of(&target);
        let opt = broadcast_opt_chunk(&bst, &target);
        let data = self.layout.buffer();
        proof {
            assert forall|p: Seq<usize>| valid_pos(p, target@) implies #[trigger] dot(p, bst@)
                < data@.len() by {
                lemma_broadcast_dot(ssh, sst, target@, p);
                lemma_broadcast_source_valid(ssh, target@, p);
            }
        }
        let lay = SliceLayout::from_slice_unchecked(data, target, bst, n, opt);
        proof {
            assert forall|p: Seq<usize>| valid_pos(p, lay.shape_spec()) implies #[trigger] dot(
                p,
                lay.strides_spec(),
            ) == dot(broadcast_source_pos(p, ssh), sst) by {
                lemma_broadcast_dot(ssh, sst, lay.shape_spec(), p);
            }
        }
        Tensor { layout: lay, markers: PhantomData }
    }

    /// The runtime-shape form of [`Tensor::broadcast`].
    pub fn broadcast_dynamic(&self, shape: Vec<usize>) -> (r: Tensor<Strided, SliceLayout, P>)
        requires
            self.wf(),
            sizes_broadcast(self.shape_spec(), shape@),
            strides_fit(shape@),
            forall|b: int| 0 <= b < self.shape_spec().len() ==> self.shape_spec()[b] >= 1,
        ensures
            r.wf(),
            r.shape_spec() == shape@,
            r.layout.data_spec() == self.layout.data_spec(),
            r.layout.strides_spec() == broadcast_strides(
                self.shape_spec(),
                self.layout.strides_spec(),
                shape@,
            ),
            r.layout.opt_chunk_spec() == zero_scan(
                r.layout.strides_spec(),
                shape@,
                shape@.len() as int,
            ),
            forall|p: Seq<usize>|
                valid_pos(p, shape@) ==> #[trigger] dot(p, r.layout.strides_spec()) == dot(
                    broadcast_source_pos(p, self.shape_spec()),
                    self.layout.strides_spec(),
                ),
    {
        self.broadcast(shape)
    }
}

/// The shape of a strided sub-sampling: each axis keeps every `step`-th
/// element, so its extent divides by the step, rounding up.
pub open spec fn strided_shape_of(shape: Seq<usize>, steps: Seq<usize>) -> Seq<usize> {
    Seq::new(shape.len(), |a: int| (crate::shape::ceil_div(shape[a], steps[a]) as usize))
}

/// A vector scaled pointwise by the steps.
pub open spec fn scaled_seq(v: Seq<usize>, steps: Seq<usize>) -> Seq<usize> {
    Seq::new(v.len(), |a: int| ((v[a] * steps[a]) as usize))
}

/// The advertised run length of a strided view: the innermost unit-stride
/// run.  While the innermost axis strides by 1 its whole extent is
/// contiguous in the backing store; any other stride pattern leaves runs
/// as small as one cell.
pub open spec fn strided_opt_chunk(shape: Seq<usize>, strides: Seq<usize>) -> usize {
    if shape.len() > 0 && strides[shape.len() - 1] == 1 {
        shape[shape.len() - 1]
    } else {
        1usize
    }
}

/// A strided view reads, at every valid position, the source cell at the
/// position scaled back by the steps.
pub proof fn lemma_strided_dot(
    shape: Seq<usize>,
    strides: Seq<usize>,
    steps: Seq<usize>,
    p: Seq<usize>,
)
    requires
        strides.len() == shape.len(),
        steps.len() == shape.len(),
        forall|a: int| 0 <= a < steps.len() ==> steps[a] >= 1,
        forall|a: int| 0 <= a < steps.len() ==> #[trigger] (strides[a] * steps[a]) <= usize::MAX,
        valid_pos(p, strided_shape_of(shape, steps)),
    ensures
        valid_pos(scaled_seq(p, steps), shape),
        dot(p, scaled_seq(strides, steps)) == dot(scaled_seq(p, steps), strides),
{
    lemma_strided_pos(shape, steps, p);
    assert forall|j: int| 0 <= j < p.len() implies #[trigger] (p[j] * scaled_seq(strides, steps)[j])
        == scaled_seq(p, steps)[j] * strides[j] by {
        assert(p[j] * steps[j] < shape[j]);
        assert(p[j] * (strides[j] * steps[j]) == (p[j] * steps[j]) * strides[j])
            by (nonlinear_arith);
    }
    lemma_dot_term_equal(p, scaled_seq(strides, steps), scaled_seq(p, steps), strides);
}

/// A valid position of the sub-sampled view scales back to a valid
/// position of the source.
pub proof fn lemma_strided_pos(shape: Seq<usize>, steps: Seq<usize>, p: Seq<usize>)
    requires
        steps.len() == shape.len(),
        forall|a: int| 0 <= a < steps.len() ==> steps[a] >= 1,
        valid_pos(p, strided_shape_of(shape, steps)),
    ensures
        valid_pos(scaled_seq(p, steps), shape),
        forall|a: int| 0 <= a < p.len() ==> #[trigger] (p[a] * steps[a]) < shape[a],
    decreases 0int,
{
    assert forall|a: int| 0 <= a < p.len() implies #[trigger] (p[a] * steps[a]) < shape[a] by {
        let n: int = shape[a] as int;
        let k: int = steps[a] as int;
        let c: int = (n + k - 1) / k;
        vstd::arithmetic::div_mod::lemma_fundamental_div_mod(n + k - 1, k);
        assert(k * c <= n + k - 1);
        assert(p[a] < c);
        assert(p[a] * k <= (c - 1) * k) by (nonlinear_arith)
            requires
                p[a] as int <= c - 1,
                k >= 1,
        ;
        assert((c - 1) * k == k * c - k) by (nonlinear_arith);
    }
}

impl<C: TransposePolicy, L: Layout, P> Tensor<C, L, P> {
    /// A zero-copy strided sub-sampling: axis `a` keeps every
    /// `steps[a]`-th element.  The advertised run length is the innermost
    /// unit-stride run of the resulting view.
    pub fn stride(&self, steps: Vec<usize>) -> (r: Tensor<Strided, SliceLayout, P>)
        requires
            self.wf(),
            steps@.len() == self.shape_spec().len(),
            forall|a: int| 0 <= a < steps@.len() ==> steps@[a] >= 1,
            forall|a: int|
                0 <= a < steps@.len() ==> #[trigger] (self.layout.strides_spec()[a] * steps@[a])
                    <= usize::MAX,
        ensures
            r.wf(),
            r.layout.data_spec() == self.layout.data_spec(),
            r.shape_spec() == strided_shape_of(self.shape_spec(), steps@),
            r.layout.strides_spec() == scaled_seq(self.layout.strides_spec(), steps@),
            r.layout.opt_chunk_spec() == strided_opt_chunk(
                r.shape_spec(),
                r.layout.strides_spec(),
            ),
    {
        proof {
            self.layout.wf_facts();
        }
        let ghost ssh = self.shape_spec();
        let ghost sst = self.layout.strides_spec();
        let sshape = self.layout.shape();
        let sstrides = self.layout.strides();
        let mut new_shape: Vec<usize> = Vec::new();
        let mut new_strides: Vec<usize> = Vec::new();
        let mut a: usize = 0;
        while a < sshape.len()
            invariant
                sshape@ == ssh,
                sstrides@ == sst,
                ssh.len() == sst.len(),
                steps@.len() == ssh.len(),
                forall|j: int| 0 <= j < steps@.len() ==> steps@[j] >= 1,
                forall|j: int|
                    0 <= j < steps@.len() ==> #[trigger] (sst[j] * steps@[j]) <= usize::MAX,
                0 <= a <= ssh.len(),
                new_shape@.len() == a,
                new_strides@.len() == a,
                forall|j: int| 0 <= j < a ==> new_shape@[j] == strided_shape_of(ssh, steps@)[j],
                forall|j: int| 0 <= j < a ==> new_strides@[j] == scaled_seq(sst, steps@)[j],
            decreases ssh.len() - a,
        {
            let step = steps[a];
            let extent = sshape[a];
            proof {
                let n: int = extent as int;
                let k: int = step as int;
                vstd::arithmetic::div_mod::lemma_fundamental_div_mod(n, k);
                vstd::arithmetic::div_mod::lemma_fundamental_div_mod(n + k - 1, k);
                if n % k == 0 {
                    assert((n + k - 1) / k == n / k) by (nonlinear_arith)
                        requires
                            k >= 1,
                            n >= 0,
                            n % k == 0,
                    ;
                } else {
                    assert((n + k - 1) / k == n / k + 1) by (nonlinear_arith)
                        requires
                            k >= 1,
                            n >= 0,
                            n % k != 0,
                    ;
                    assert(n / k + 1 <= n) by (nonlinear_arith)
                        requires
                            k >= 1,
                            n >= 1,
                            n % k != 0,
                    ;
                }
            }
            let d = if extent % step == 0 {
                extent / step
            } else {
                extent / step + 1
            };
            new_shape.push(d);
            new_strides.push(sstrides[a] * step);
            a = a + 1;
        }
        assert(new_shape@ =~= strided_shape_of(ssh, steps@));
        assert(new_strides@ =~= scaled_seq(sst, steps@));
        proof {
            assert forall|j: int| 0 <= j < ssh.len() implies #[trigger] strided_shape_of(
                ssh,
                steps@,
            )[j] <= ssh[j] by {
                let n: int = ssh[j] as int;
                let k: int = steps@[j] as int;
                vstd::arithmetic::div_mod::lemma_fundamental_div_mod(n + k - 1, k);
                assert((n + k - 1) / k <= n) by (nonlinear_arith)
                    requires
                        k >= 1,
                        n >= 0,
                ;
            }
            assert forall|i: int|
                0 <= i <= new_shape@.len() implies #[trigger] suffix_product(new_shape@, i)
                <= usize::MAX by {
                crate::shape::lemma_suffix_product_le(new_shape@, ssh, i);
                assert(suffix_product(ssh, i) <= usize::MAX);
            }
        }
        let n = num_elements_of(&new_shape);
        let data = self.layout.buffer();
        proof {
            assert forall|p: Seq<usize>| valid_pos(p, new_shape@) implies #[trigger] dot(
                p,
                new_strides@,
            ) < data@.len() by {
                lemma_strided_dot(ssh, sst, steps@, p);
                assert(dot(scaled_seq(p, steps@), sst) < data@.len());
            }
        }
        let opt = if new_strides.len() > 0 && new_strides[new_strides.len() - 1] == 1 {
            new_shape[new_shape.len() - 1]
        } else {
            1
        };
        assert(opt == strided_opt_chunk(new_shape@, new_strides@));
        let lay = SliceLayout::from_slice_unchecked(data, new_shape, new_strides, n, opt);
        Tensor { layout: lay, markers: PhantomData }
    }

    /// The runtime-steps form of [`Tensor::stride`].
    pub fn stride_dynamic(&self, strides: Vec<usize>) -> (r: Tensor<Strided, SliceLayout, P>)
        requires
            self.wf(),
            strides@.len() == self.shape_spec().len(),
            forall|a: int| 0 <= a < strides@.len() ==> strides@[a] >= 1,
            forall|a: int|
                0 <= a < strides@.len() ==> #[trigger] (self.layout.strides_spec()[a] * strides@[a])
                    <= usize::MAX,
        ensures
            r.wf(),
            r.layout.data_spec() == self.layout.data_spec(),
            r.shape_spec() == strided_shape_of(self.shape_spec(), strides@),
            r.layout.strides_spec() == scaled_seq(self.layout.strides_spec(), strides@),
            r.layout.opt_chunk_spec() == strided_opt_chunk(
                r.shape_spec(),
                r.layout.strides_spec(),
            ),
    {
        self.stride(strides)
    }
}

/// Transposition is an involution: reversing shape and strides twice
/// restores them, and with them every element of the tensor, so a double
/// transpose equals the original view (and its contiguity marker returns
/// to the original, since the markers swap in pairs).
pub proof fn lemma_transpose_involution(data: Seq<i64>, shape: Seq<usize>, strides: Seq<usize>)
    ensures
        rev_seq(rev_seq(shape)) == shape,
        rev_seq(rev_seq(strides)) == strides,
        logical_seq(data, rev_seq(rev_seq(shape)), rev_seq(rev_seq(strides))) == logical_seq(
            data,
            shape,
            strides,
        ),
{
    assert(rev_seq(rev_seq(shape)) =~= shape);
    assert(rev_seq(rev_seq(strides)) =~= strides);
}

/// The transposed view of a layout: axes and strides reversed, whole
/// buffer shared, with the conservative run length 1.
fn transposed_layout<L: Layout>(lay: &L) -> (r: SliceLayout)
    requires
        lay.wf(),
        strides_fit(rev_seq(lay.shape_spec())),
    ensures
        r.wf(),
        r.data_spec() == lay.data_spec(),
        r.shape_spec() == rev_seq(lay.shape_spec()),
        r.strides_spec() == rev_seq(lay.strides_spec()),
        r.opt_chunk_spec() == 1,
        forall|p: Seq<usize>|
            valid_pos(p, rev_seq(lay.shape_spec())) ==> #[trigger] dot(p, rev_seq(
                lay.strides_spec(),
            )) == dot(rev_seq(p), lay.strides_spec()),
{
    proof {
        lay.wf_facts();
    }
    let ghost sh = lay.shape_spec();
    let ghost st = lay.strides_spec();
    let rshape = rev_usizes(&lay.shape());
    let rstrides = rev_usizes(&lay.strides());
    let n = num_elements_of(&rshape);
    let data = lay.buffer();
    proof {
        assert forall|p: Seq<usize>| valid_pos(p, rev_seq(sh)) implies #[trigger] dot(
            p,
            rev_seq(st),
        ) == dot(rev_seq(p), st) by {
            let q = rev_seq(p);
            lemma_dot_reverse(q, st);
            assert(rev_seq(q) =~= p);
        }
        assert forall|p: Seq<usize>| valid_pos(p, rev_seq(sh)) implies #[trigger] dot(
            p,
            rev_seq(st),
        ) < data@.len() by {
            let q = rev_seq(p);
            assert(valid_pos(q, sh));
            assert(dot(q, st) < data@.len());
        }
    }
    SliceLayout::from_slice_unchecked(data, rshape, rstrides, n, 1)
}

impl<L: Layout, P> Tensor<Contiguous, L, P> {
    /// The zero-copy transpose: axis order and strides fully reversed.
    /// The result carries the [`Transposed`] marker.
    pub fn transpose(&self) -> (r: Tensor<Transposed, SliceLayout, P>)
        requires
            self.wf(),
            strides_fit(rev_seq(self.shape_spec())),
        ensures
            r.wf(),
            r.layout.data_spec() == self.layout.data_spec(),
            r.shape_spec() == rev_seq(self.shape_spec()),
            r.layout.strides_spec() == rev_seq(self.layout.strides_spec()),
            r.layout.opt_chunk_spec() == 1,
            forall|p: Seq<usize>|
                valid_pos(p, r.shape_spec()) ==> #[trigger] dot(p, r.layout.strides_spec()) == dot(
                    rev_seq(p),
                    self.layout.strides_spec(),
                ),
    {
        let lay = transposed_layout(&self.layout);
        proof {
            assert(rev_seq(rev_seq(self.layout.shape_spec())) =~= self.layout.shape_spec());
            assert(rev_seq(rev_seq(self.layout.strides_spec())) =~= self.layout.strides_spec());
        }
        Tensor { layout: lay, markers: PhantomData }
    }
}

impl<L: Layout, P> Tensor<Transposed, L, P> {
    /// The zero-copy transpose of an already transposed tensor: the
    /// result is contiguous again.
    pub fn transpose(&self) -> (r: Tensor<Contiguous, SliceLayout, P>)
        requires
            self.wf(),
            strides_fit(rev_seq(self.shape_spec())),
        ensures
            r.wf(),
            r.layout.data_spec() == self.layout.data_spec(),
            r.shape_spec() == rev_seq(self.shape_spec()),
            r.layout.strides_spec() == rev_seq(self.layout.strides_spec()),
            r.layout.opt_chunk_spec() == 1,
            forall|p: Seq<usize>|
                valid_pos(p, r.shape_spec()) ==> #[trigger] dot(p, r.layout.strides_spec()) == dot(
                    rev_seq(p),
                    self.layout.strides_spec(),
                ),
    {
        let lay = transposed_layout(&self.layout);
        Tensor { layout: lay, markers: PhantomData }
    }
}

impl<L: Layout, P> Tensor<Strided, L, P> {
    /// The zero-copy transpose of a strided tensor, itself strided.
    pub fn transpose(&self) -> (r: Tensor<Strided, SliceLayout, P>)
        requires
            self.wf(),
            strides_fit(rev_seq(self.shape_spec())),
        ensures
            r.wf(),
            r.layout.data_spec() == self.layout.data_spec(),
            r.shape_spec() == rev_seq(self.shape_spec()),
            r.layout.strides_spec() == rev_seq(self.layout.strides_spec()),
            r.layout.opt_chunk_spec() == 1,
            forall|p: Seq<usize>|
                valid_pos(p, r.shape_spec()) ==> #[trigger] dot(p, r.layout.strides_spec()) == dot(
                    rev_seq(p),
                    self.layout.strides_spec(),
                ),
    {
        let lay = transposed_layout(&self.layout);
        Tensor { layout: lay, markers: PhantomData }
    }
}

impl<L: Layout, P> Tensor<Contiguous, L, P> {
    /// Reinterprets a contiguous tensor under a new shape with the same
    /// element count: same buffer, same logical order, no copy.
    pub fn reshape(&self, target: Vec<usize>) -> (r: Tensor<Contiguous, SliceLayout, P>)
        requires
            self.wf(),
            strides_fit(target@),
            shape_product(target@) == shape_product(self.shape_spec()),
        ensures
            r.wf(),
            r.shape_spec() == target@,
            r.layout.data_spec() == self.layout.data_spec(),
            is_row_major(r.layout.strides_spec(), target@),
            r.layout.opt_chunk_spec() == shape_product(target@),
            r.logical() == self.logical(),
    {
        let strides = intrinsic_strides_in_place(clone_usizes(&target));
        let n = num_elements_of(&target);
        let data = self.layout.buffer();
        proof {
            lemma_contiguous_reads_in_bounds(data@.len() as int, target@, strides@);
        }
        let lay = SliceLayout::from_slice_unchecked(data, target, strides, n, n);
        proof {
            lemma_contiguous_logical_is_data(
                self.layout.data_spec(),
                self.layout.shape_spec(),
                self.layout.strides_spec(),
            );
            lemma_contiguous_logical_is_data(lay.data_spec(), lay.shape_spec(), lay.strides_spec());
        }
        Tensor { layout: lay, markers: PhantomData }
    }

    /// The runtime-shape form of [`Tensor::reshape`].
    pub fn reshape_dynamic(&self, shape: Vec<usize>) -> (r: Tensor<Contiguous, SliceLayout, P>)
        requires
            self.wf(),
            strides_fit(shape@),
            shape_product(shape@) == shape_product(self.shape_spec()),
        ensures
            r.wf(),
            r.shape_spec() == shape@,
            r.layout.data_spec() == self.layout.data_spec(),
            is_row_major(r.layout.strides_spec(), shape@),
            r.layout.opt_chunk_spec() == shape_product(shape@),
            r.logical() == self.logical(),
    {
        self.reshape(shape)
    }
}

impl<L: StaticFill, P> Tensor<Contiguous, L, P> {
    /// A tensor of the given shape holding `value` everywhere.
    pub fn fill(value: i64, shape: Vec<usize>) -> (r: Self)
        requires
            strides_fit(shape@),
        ensures
            r.wf(),
            r.shape_spec() == shape@,
            r.logical() == Seq::new(shape_product(shape@), |i: int| value),
    {
        let layout = L::fill(value, shape);
        proof {
            lemma_contiguous_logical_is_data(
                layout.data_spec(),
                layout.shape_spec(),
                layout.strides_spec(),
            );
        }
        Tensor { layout, markers: PhantomData }
    }
}

impl<L: DynamicFill, P> Tensor<Contiguous, L, P> {
    /// A tensor of the given runtime shape holding `value` everywhere.
    pub fn fill_dynamic(value: i64, shape: Vec<usize>) -> (r: Self)
        requires
            strides_fit(shape@),
        ensures
            r.wf(),
            r.shape_spec() == shape@,
            r.logical() == Seq::new(shape_product(shape@), |i: int| value),
    {
        let layout = L::fill(value, shape);
        proof {
            lemma_contiguous_logical_is_data(
                layout.data_spec(),
                layout.shape_spec(),
                layout.strides_spec(),
            );
        }
        Tensor { layout, markers: PhantomData }
    }
}

impl<L: Alloc, P> Tensor<Contiguous, L, P> {
    /// A zero-filled tensor of the given runtime shape.
    pub fn allocate(shape: Vec<usize>) -> (r: Self)
        requires
            strides_fit(shape@),
        ensures
            r.wf(),
            r.shape_spec() == shape@,
            r.logical() == Seq::new(shape_product(shape@), |i: int| 0i64),
    {
        let layout = L::allocate(shape);
        proof {
            lemma_contiguous_logical_is_data(
                layout.data_spec(),
                layout.shape_spec(),
                layout.strides_spec(),
            );
        }
        Tensor { layout, markers: PhantomData }
    }
}

impl<C: TransposePolicy, P> Tensor<C, HeapLayout, P> {
    /// A copy of this tensor: same shape, strides and data.
    pub fn duplicate(&self) -> (r: Self)
        requires
            self.wf(),
        ensures
            r.wf(),
            r.layout.data_spec() == self.layout.data_spec(),
            r.shape_spec() == self.shape_spec(),
            r.layout.strides_spec() == self.layout.strides_spec(),
            r.logical() == self.logical(),
    {
        Tensor { layout: self.layout.duplicate(), markers: PhantomData }
    }
}

impl<P> Tensor<Contiguous, StaticHeapLayout, P> {
    /// Builds a tensor of shape `shape` from a flat buffer.  Fails with
    /// the recoverable [`TensorError::SizeMismatch`] exactly when the
    /// buffer's length is not the shape's element count.
    pub fn try_from_vec(data: Vec<i64>, shape: Vec<usize>) -> (r: Result<Self, TensorError>)
        ensures
            match r {
                Ok(t) => {
                    &&& strides_fit(shape@)
                    &&& data@.len() == shape_product(shape@)
                    &&& t.wf()
                    &&& t.shape_spec() == shape@
                    &&& t.logical() == data@
                },
                Err(e) => {
                    &&& e == TensorError::SizeMismatch
                    &&& !(strides_fit(shape@) && data@.len() == shape_product(shape@))
                },
            },
    {
        match checked_num_elements(&shape) {
            None => Err(TensorError::SizeMismatch),
            Some(n) => {
                if n != data.len() {
                    Err(TensorError::SizeMismatch)
                } else {
                    let layout = StaticHeapLayout::from_parts(data, shape);
                    proof {
                        lemma_contiguous_logical_is_data(
                            layout.data_spec(),
                            layout.shape_spec(),
                            layout.strides_spec(),
                        );
                    }
                    Ok(Tensor { layout, markers: PhantomData })
                }
            },
        }
    }
}

impl<P> Tensor<Contiguous, HeapLayout, P> {
    /// Builds a dynamically shaped tensor from a flat buffer.  Fails with
    /// the recoverable [`TensorError::SizeMismatch`] exactly when the
    /// buffer's length is not the shape's element count.
    pub fn try_from_vec(data: Vec<i64>, shape: Vec<usize>) -> (r: Result<Self, TensorError>)
        ensures
            match r {
                Ok(t) => {
                    &&& strides_fit(shape@)
                    &&& data@.len() == shape_product(shape@)
                    &&& t.wf()
                    &&& t.shape_spec() == shape@
                    &&& t.logical() == data@
                },
                Err(e) => {
                    &&& e == TensorError::SizeMismatch
                    &&& !(strides_fit(shape@) && data@.len() == shape_product(shape@))
                },
            },
    {
        match checked_num_elements(&shape) {
            None => Err(TensorError::SizeMismatch),
            Some(n) => {
                if n != data.len() {
                    Err(TensorError::SizeMismatch)
                } else {
                    let layout = HeapLayout::from_parts(data, shape);
                    proof {
                        lemma_contiguous_logical_is_data(
                            layout.data_spec(),
                            layout.shape_spec(),
                            layout.strides_spec(),
                        );
                    }
                    Ok(Tensor { layout, markers: PhantomData })
                }
            },
        }
    }
}

impl<P> Tensor<Contiguous, SliceLayout, P> {
    /// A contiguous view of a flat buffer under a shape fixed ahead of
    /// time.  Fails with the recoverable [`TensorError::SizeMismatch`]
    /// exactly when the buffer's length is not the shape's element count.
    pub fn from_slice(slice: Vec<i64>, shape: Vec<usize>) -> (r: Result<Self, TensorError>)
        ensures
            match r {
                Ok(t) => {
                    &&& strides_fit(shape@)
                    &&& slice@.len() == shape_product(shape@)
                    &&& t.wf()
                    &&& t.shape_spec() == shape@
                    &&& t.logical() == slice@
                },
                Err(e) => {
                    &&& e == TensorError::SizeMismatch
                    &&& !(strides_fit(shape@) && slice@.len() == shape_product(shape@))
                },
            },
    {
        match checked_num_elements(&shape) {
            None => Err(TensorError::SizeMismatch),
            Some(n) => {
                if n != slice.len() {
                    Err(TensorError::SizeMismatch)
                } else {
                    let strides = intrinsic_strides_in_place(clone_usizes(&shape));
                    proof {
                        lemma_contiguous_reads_in_bounds(slice@.len() as int, shape@, strides@);
                    }
                    let layout = SliceLayout::from_slice_unchecked(slice, shape, strides, n, n);
                    proof {
                        lemma_contiguous_logical_is_data(
                            layout.data_spec(),
                            layout.shape_spec(),
                            layout.strides_spec(),
                        );
                    }
                    Ok(Tensor { layout, markers: PhantomData })
                }
            },
        }
    }

    /// A contiguous view of a flat buffer under a runtime shape checked
    /// against a shape descriptor.  An incompatible shape gives
    /// [`TensorError::ShapeMismatch`]; a buffer of the wrong length gives
    /// [`TensorError::SizeMismatch`].
    pub fn from_slice_dyn(slice: Vec<i64>, desc: &Vec<Dim>, shape: Vec<usize>) -> (r: Result<
        Self,
        TensorError,
    >)
        ensures
            match r {
                Ok(t) => {
                    &&& runtime_compat_spec(desc@, shape@)
                    &&& strides_fit(shape@)
                    &&& slice@.len() == shape_product(shape@)
                    &&& t.wf()
                    &&& t.shape_spec() == shape@
                    &&& t.logical() == slice@
                },
                Err(e) => {
                    if !runtime_compat_spec(desc@, shape@) {
                        e == TensorError::ShapeMismatch
                    } else {
                        e == TensorError::SizeMismatch && !(strides_fit(shape@) && slice@.len()
                            == shape_product(shape@))
                    }
                },
            },
    {
        if !runtime_compat(desc, &shape) {
            Err(TensorError::ShapeMismatch)
        } else {
            Tensor::<Contiguous, SliceLayout, P>::from_slice(slice, shape)
        }
    }
}

} // verus!
