//! Contiguous heap storage for tensors whose shape is fixed ahead of time.
//! Only the buffer and the shape are stored; the strides are always the
//! row-major strides of the shape and are recomputed on demand.

use vstd::prelude::*;

use crate::heap_layout::{clone_i64s, filled_vec};
use crate::layout::{
    contiguous_layout, lemma_contiguous_reads_in_bounds, lemma_row_major_roundtrip, Layout,
    LayoutMut, StaticFill,
};
use crate::shape::{
    clone_usizes, intrinsic_strides_in_place, lemma_row_major_is_row_major, num_elements_of,
    row_major, shape_product, strides_fit,
};

verus! {

/// Contiguous heap-backed layout for a shape fixed ahead of time.
#[derive(Debug)]
pub struct StaticHeapLayout {
    data: Vec<i64>,
    shape: Vec<usize>,
}

impl StaticHeapLayout {
    /// Wraps a buffer holding exactly one cell per element of `shape` in
    /// row-major order.
    pub fn from_parts(data: Vec<i64>, shape: Vec<usize>) -> (r: Self)
        requires
            strides_fit(shape@),
            data@.len() == shape_product(shape@),
        ensures
            r.wf(),
            r.data_spec() == data@,
            r.shape_spec() == shape@,
            contiguous_layout(r.data_spec().len() as int, r.shape_spec(), r.strides_spec()),
    {
        proof {
            lemma_row_major_is_row_major(shape@);
        }
        StaticHeapLayout { data, shape }
    }

    /// An owned contiguous layout is one contiguous run: the advertised
    /// run length is the whole buffer, which holds exactly one cell per
    /// element.
    pub proof fn lemma_opt_chunk_is_whole_buffer(&self)
        requires
            self.wf(),
        ensures
            self.opt_chunk_spec() == shape_product(self.shape_spec()),
            self.opt_chunk_spec() == self.data_spec().len(),
    {
    }

    /// A copy of this layout.
    pub fn duplicate(&self) -> (r: Self)
        requires
            self.wf(),
        ensures
            r.wf(),
            r.data_spec() == self.data_spec(),
            r.shape_spec() == self.shape_spec(),
            r.strides_spec() == self.strides_spec(),
    {
        StaticHeapLayout { data: clone_i64s(&self.data), shape: clone_usizes(&self.shape) }
    }
}

impl Layout for StaticHeapLayout {
    closed spec fn data_spec(&self) -> Seq<i64> {
        self.data@
    }

    closed spec fn shape_spec(&self) -> Seq<usize> {
        self.shape@
    }

    closed spec fn strides_spec(&self) -> Seq<usize> {
        row_major(self.shape@)
    }

    closed spec fn opt_chunk_spec(&self) -> usize {
        self.data.len()
    }

    closed spec fn wf(&self) -> bool {
        &&& strides_fit(self.shape@)
        &&& self.data@.len() == shape_product(self.shape@)
    }

    proof fn wf_facts(&self) {
        lemma_row_major_is_row_major(self.shape@);
        lemma_contiguous_reads_in_bounds(
            self.data@.len() as int,
            self.shape@,
            row_major(self.shape@),
        );
    }

    fn shape(&self) -> (r: Vec<usize>) {
        clone_usizes(&self.shape)
    }

    fn strides(&self) -> (r: Vec<usize>) {
        proof {
            lemma_row_major_is_row_major(self.shape@);
        }
        let r = intrinsic_strides_in_place(clone_usizes(&self.shape));
        assert(r@ =~= row_major(self.shape@));
        r
    }

    fn opt_chunk_size(&self) -> (r: usize) {
        self.data.len()
    }

    fn num_elements(&self) -> (r: usize) {
        self.data.len()
    }

    fn elem(&self, i: usize) -> (r: i64) {
        proof {
            lemma_row_major_is_row_major(self.shape@);
            lemma_row_major_roundtrip(self.shape@, row_major(self.shape@), i as int);
        }
        self.data[i]
    }

    fn buffer(&self) -> (r: Vec<i64>) {
        clone_i64s(&self.data)
    }
}

impl LayoutMut for StaticHeapLayout {
    fn set_elem(&mut self, i: usize, v: i64) {
        proof {
            lemma_row_major_is_row_major(old(self).shape@);
            lemma_row_major_roundtrip(old(self).shape@, row_major(old(self).shape@), i as int);
        }
        self.data.set(i, v);
    }

    fn set_chunk(&mut self, start: usize, chunk: &Vec<i64>) {
        let dl = self.data.len();
        let mut k: usize = 0;
        while k < chunk.len()
            invariant
                self.shape@ == old(self).shape@,
                start + chunk@.len() <= dl,
                dl == old(self).data@.len(),
                self.data@.len() == old(self).data@.len(),
                0 <= k <= chunk@.len(),
                forall|j: int| 0 <= j < k ==> self.data@[start + j] == chunk@[j],
                forall|j: int|
                    0 <= j < self.data@.len() && !(start <= j < start + k) ==> self.data@[j] == old(
                        self,
                    ).data@[j],
            decreases chunk@.len() - k,
        {
            self.data.set(start + k, chunk[k]);
            k = k + 1;
        }
        assert(self.data@ =~= crate::layout::spliced(old(self).data@, start as int, chunk@));
    }
}

impl StaticFill for StaticHeapLayout {
    fn fill(value: i64, shape: Vec<usize>) -> (r: Self) {
        let n = num_elements_of(&shape);
        let data = filled_vec(value, n);
        StaticHeapLayout::from_parts(data, shape)
    }
}

} // verus!
