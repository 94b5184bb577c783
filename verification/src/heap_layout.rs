//! Contiguous heap storage for dynamically shaped tensors: the backing
//! vector together with the runtime shape and the row-major strides, which
//! are stored because they are not known ahead of time.

use vstd::prelude::*;

use crate::layout::{
    contiguous_layout, lemma_contiguous_reads_in_bounds, lemma_row_major_roundtrip, Alloc,
    DynamicFill, Layout, LayoutMut,
};
use crate::shape::{
    clone_usizes, intrinsic_strides_in_place, is_row_major, num_elements_of, shape_product,
    strides_fit,
};

verus! {

/// A vector of `n` copies of `value`.
pub fn filled_vec(value: i64, n: usize) -> (r: Vec<i64>)
    ensures
        r@ == Seq::new(n as nat, |i: int| value),
{
    let mut out: Vec<i64> = Vec::new();
    let mut i: usize = 0;
    while i < n
        invariant
            0 <= i <= n,
            out@.len() == i,
            forall|j: int| 0 <= j < i ==> out@[j] == value,
        decreases n - i,
    {
        out.push(value);
        i = i + 1;
    }
    assert(out@ =~= Seq::new(n as nat, |i: int| value));
    out
}

/// Contiguous heap-backed layout with a runtime shape.
#[derive(Debug)]
pub struct HeapLayout {
    data: Vec<i64>,
    shape: Vec<usize>,
    strides: Vec<usize>,
}

impl HeapLayout {
    /// Wraps a buffer holding exactly one cell per element of `shape` in
    /// row-major order.
    pub fn from_parts(data: Vec<i64>, shape: Vec<usize>) -> (r: Self)
        requires
            strides_fit(shape@),
            data@.len() == shape_product(shape@),
        ensures
            r.wf(),
            r.data_spec() == data@,
            r.shape_spec() == shape@,
            contiguous_layout(r.data_spec().len() as int, r.shape_spec(), r.strides_spec()),
    {
        let strides = intrinsic_strides_in_place(clone_usizes(&shape));
        HeapLayout { data, shape, strides }
    }

    /// An owned contiguous layout is one contiguous run: the advertised
    /// run length is the whole buffer, which holds exactly one cell per
    /// element.
    pub proof fn lemma_opt_chunk_is_whole_buffer(&self)
        requires
            self.wf(),
        ensures
            self.opt_chunk_spec() == shape_product(self.shape_spec()),
            self.opt_chunk_spec() == self.data_spec().len(),
    {
    }

    /// A copy of this layout.
    pub fn duplicate(&self) -> (r: Self)
        requires
            self.wf(),
        ensures
            r.wf(),
            r.data_spec() == self.data_spec(),
            r.shape_spec() == self.shape_spec(),
            r.strides_spec() == self.strides_spec(),
    {
        HeapLayout {
            data: crate::heap_layout::clone_i64s(&self.data),
            shape: clone_usizes(&self.shape),
            strides: clone_usizes(&self.strides),
        }
    }
}

/// A copy of a data buffer.
pub fn clone_i64s(v: &Vec<i64>) -> (r: Vec<i64>)
    ensures
        r@ == v@,
{
    let mut out: Vec<i64> = Vec::new();
    let mut i: usize = 0;
    while i < v.len()
        invariant
            0 <= i <= v@.len(),
            out@ == v@.take(i as int),
        decreases v@.len() - i,
    {
        out.push(v[i]);
        i = i + 1;
    }
    assert(out@ =~= v@);
    out
}

impl Layout for HeapLayout {
    closed spec fn data_spec(&self) -> Seq<i64> {
        self.data@
    }

    closed spec fn shape_spec(&self) -> Seq<usize> {
        self.shape@
    }

    closed spec fn strides_spec(&self) -> Seq<usize> {
        self.strides@
    }

    closed spec fn opt_chunk_spec(&self) -> usize {
        self.data.len()
    }

    closed spec fn wf(&self) -> bool {
        &&& strides_fit(self.shape@)
        &&& is_row_major(self.strides@, self.shape@)
        &&& self.data@.len() == shape_product(self.shape@)
    }

    proof fn wf_facts(&self) {
        lemma_contiguous_reads_in_bounds(
            self.data@.len() as int,
            self.shape@,
            self.strides@,
        );
    }

    fn shape(&self) -> (r: Vec<usize>) {
        clone_usizes(&self.shape)
    }

    fn strides(&self) -> (r: Vec<usize>) {
        clone_usizes(&self.strides)
    }

    fn opt_chunk_size(&self) -> (r: usize) {
        self.data.len()
    }

    fn num_elements(&self) -> (r: usize) {
        self.data.len()
    }

    fn elem(&self, i: usize) -> (r: i64) {
        proof {
            lemma_row_major_roundtrip(self.shape@, self.strides@, i as int);
        }
        self.data[i]
    }

    fn buffer(&self) -> (r: Vec<i64>) {
        clone_i64s(&self.data)
    }
}

impl LayoutMut for HeapLayout {
    fn set_elem(&mut self, i: usize, v: i64) {
        proof {
            lemma_row_major_roundtrip(old(self).shape@, old(self).strides@, i as int);
        }
        self.data.set(i, v);
    }

    fn set_chunk(&mut self, start: usize, chunk: &Vec<i64>) {
        let dl = self.data.len();
        let mut k: usize = 0;
        while k < chunk.len()
            invariant
                self.shape@ == old(self).shape@,
                self.strides@ == old(self).strides@,
                start + chunk@.len() <= dl,
                dl == old(self).data@.len(),
                self.data@.len() == old(self).data@.len(),
                0 <= k <= chunk@.len(),
                forall|j: int| 0 <= j < k ==> self.data@[start + j] == chunk@[j],
                forall|j: int|
                    0 <= j < self.data@.len() && !(start <= j < start + k) ==> self.data@[j] == old(
                        self,
                    ).data@[j],
            decreases chunk@.len() - k,
        {
            self.data.set(start + k, chunk[k]);
            k = k + 1;
        }
        assert(self.data@ =~= crate::layout::spliced(old(self).data@, start as int, chunk@));
    }
}

impl DynamicFill for HeapLayout {
    fn fill(value: i64, shape: Vec<usize>) -> (r: Self) {
        let n = num_elements_of(&shape);
        let data = filled_vec(value, n);
        HeapLayout::from_parts(data, shape)
    }
}

impl Alloc for HeapLayout {
    fn allocate(shape: Vec<usize>) -> (r: Self) {
        <HeapLayout as DynamicFill>::fill(0, shape)
    }
}

} // verus!
