//! The non-contiguous view layout: a snapshot of a parent buffer together
//! with a shape, arbitrary per-axis strides, the element count and the
//! advertised contiguous-run length.  Broadcasts, transposes, reshapes and
//! strided slices are all views of this kind.

use vstd::prelude::*;

use crate::layout::{
    dot, dot_product, lemma_multi_index_valid, lemma_product_pos_dims, lemma_suffix_product_pos,
    multi_index, reads_in_bounds, valid_pos, Layout,
};
use crate::shape::{
    clone_usizes, intrinsic_strides_in_place, is_row_major, shape_product, strides_fit,
    suffix_product,
};

verus! {

/// A strided view over a buffer.
#[derive(Debug)]
pub struct SliceLayout {
    data: Vec<i64>,
    shape: Vec<usize>,
    strides: Vec<usize>,
    num_elements: usize,
    opt_chunk_size: usize,
}

impl SliceLayout {
    /// Wraps a buffer with an arbitrary shape and stride pattern.  The
    /// caller proves that the description is consistent and that every
    /// position reads inside the buffer; no check is made at run time.
    pub fn from_slice_unchecked(
        slice: Vec<i64>,
        shape: Vec<usize>,
        strides: Vec<usize>,
        num_elements: usize,
        opt_chunk_size: usize,
    ) -> (r: Self)
        requires
            shape@.len() == strides@.len(),
            strides_fit(shape@),
            num_elements == shape_product(shape@),
            reads_in_bounds(slice@.len() as int, shape@, strides@),
        ensures
            r.wf(),
            r.data_spec() == slice@,
            r.shape_spec() == shape@,
            r.strides_spec() == strides@,
            r.opt_chunk_spec() == opt_chunk_size,
    {
        SliceLayout { data: slice, shape, strides, num_elements, opt_chunk_size }
    }

    /// The length of the backing buffer.
    pub fn data_len(&self) -> (r: usize)
        ensures
            r == self.data_spec().len(),
    {
        self.data.len()
    }

    /// The storage offset of a position: its dot product with the strides.
    pub fn linear_index(&self, position: &Vec<usize>) -> (r: usize)
        requires
            self.wf(),
            valid_pos(position@, self.shape_spec()),
        ensures
            r == dot(position@, self.strides_spec()),
            r < self.data_spec().len(),
    {
        let dl = self.data.len();
        assert(dot(position@, self.strides@) < dl);
        dot_product(position, &self.strides)
    }

    /// The run of `size` cells starting at the offset of `position`.
    pub fn chunk_at(&self, position: &Vec<usize>, size: usize) -> (r: Vec<i64>)
        requires
            self.wf(),
            valid_pos(position@, self.shape_spec()),
            dot(position@, self.strides_spec()) + size <= self.data_spec().len(),
        ensures
            r@ == self.data_spec().subrange(
                dot(position@, self.strides_spec()) as int,
                dot(position@, self.strides_spec()) + size,
            ),
    {
        let start = self.linear_index(position);
        let dl = self.data.len();
        let mut out: Vec<i64> = Vec::new();
        let mut k: usize = 0;
        while k < size
            invariant
                start == dot(position@, self.strides_spec()),
                dl == self.data_spec().len(),
                start + size <= dl,
                self.data_spec() == self.data@,
                0 <= k <= size,
                out@.len() == k,
                forall|j: int| 0 <= j < k ==> out@[j] == self.data@[start + j],
            decreases size - k,
        {
            out.push(self.data[start + k]);
            k = k + 1;
        }
        assert(out@ =~= self.data@.subrange(start as int, start + size));
        out
    }
}

impl Layout for SliceLayout {
    closed spec fn data_spec(&self) -> Seq<i64> {
        self.data@
    }

    closed spec fn shape_spec(&self) -> Seq<usize> {
        self.shape@
    }

    closed spec fn strides_spec(&self) -> Seq<usize> {
        self.strides@
    }

    closed spec fn opt_chunk_spec(&self) -> usize {
        self.opt_chunk_size
    }

    closed spec fn wf(&self) -> bool {
        &&& self.shape@.len() == self.strides@.len()
        &&& strides_fit(self.shape@)
        &&& self.num_elements == shape_product(self.shape@)
        &&& reads_in_bounds(self.data@.len() as int, self.shape@, self.strides@)
    }

    proof fn wf_facts(&self) {
    }

    fn shape(&self) -> (r: Vec<usize>) {
        clone_usizes(&self.shape)
    }

    fn strides(&self) -> (r: Vec<usize>) {
        clone_usizes(&self.strides)
    }

    fn opt_chunk_size(&self) -> (r: usize) {
        self.opt_chunk_size
    }

    fn num_elements(&self) -> (r: usize) {
        self.num_elements
    }

    fn elem(&self, i: usize) -> (r: i64) {
        proof {
            lemma_product_pos_dims(self.shape@);
        }
        let rm = intrinsic_strides_in_place(clone_usizes(&self.shape));
        let mut pos: Vec<usize> = Vec::new();
        let mut a: usize = 0;
        while a < self.shape.len()
            invariant
                self.shape@.len() == rm@.len(),
                is_row_major(rm@, self.shape@),
                i < shape_product(self.shape@),
                forall|b: int| 0 <= b < self.shape@.len() ==> self.shape@[b] >= 1,
                0 <= a <= self.shape@.len(),
                pos@.len() == a,
                forall|b: int| 0 <= b < a ==> pos@[b] == multi_index(self.shape@, i as int)[b],
            decreases self.shape@.len() - a,
        {
            proof {
                lemma_suffix_product_pos(self.shape@, a as int + 1);
                assert(rm@[a as int] == suffix_product(self.shape@, a as int + 1));
            }
            let digit = (i / rm[a]) % self.shape[a];
            pos.push(digit);
            a = a + 1;
        }
        assert(pos@ =~= multi_index(self.shape@, i as int));
        proof {
            lemma_multi_index_valid(self.shape@, i as int);
        }
        let idx = self.linear_index(&pos);
        self.data[idx]
    }

    fn buffer(&self) -> (r: Vec<i64>) {
        crate::heap_layout::clone_i64s(&self.data)
    }
}

} // verus!
