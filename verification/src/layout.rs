//! The layout abstraction: one uniform contract for querying shape and
//! strides and for reading elements of a tensor in row-major logical order,
//! whatever the underlying storage.
//!
//! The meaning of a layout is the sequence of its elements in logical
//! order: element `i` lives at the offset obtained by decomposing `i` into
//! per-axis digits of the shape and taking the dot product of those digits
//! with the strides.  The lemmas in this module connect that reading
//! discipline with contiguous storage.

use vstd::arithmetic::div_mod::*;
use vstd::arithmetic::mul::*;
use vstd::prelude::*;

use crate::shape::{is_row_major, shape_product, strides_fit, suffix_product, rev_seq};

verus! {

/// Partial dot product of `pos` and `strides` over the axes from `k` on.
pub open spec fn dot_from(pos: Seq<usize>, strides: Seq<usize>, k: int) -> nat
    recommends
        pos.len() == strides.len(),
        0 <= k <= pos.len(),
    decreases pos.len() - k,
{
    if k < 0 || k >= pos.len() {
        0
    } else {
        (pos[k] * strides[k] + dot_from(pos, strides, k + 1)) as nat
    }
}

/// Dot product of a position with the strides: the storage offset of the
/// element at that position.
pub open spec fn dot(pos: Seq<usize>, strides: Seq<usize>) -> nat {
    dot_from(pos, strides, 0)
}

/// A position is valid for a shape when it has one coordinate per axis,
/// each strictly below that axis' size.
pub open spec fn valid_pos(pos: Seq<usize>, shape: Seq<usize>) -> bool {
    &&& pos.len() == shape.len()
    &&& forall|a: int| 0 <= a < pos.len() ==> pos[a] < shape[a]
}

/// The per-axis digits of logical index `i` under `shape`, row-major.
pub open spec fn multi_index(shape: Seq<usize>, i: int) -> Seq<usize>
    recommends
        0 <= i < shape_product(shape),
{
    Seq::new(
        shape.len(),
        |a: int| (((i / (suffix_product(shape, a + 1) as int)) % (shape[a] as int)) as usize),
    )
}

/// The elements of a layout in row-major logical order.
pub open spec fn logical_seq(data: Seq<i64>, shape: Seq<usize>, strides: Seq<usize>) -> Seq<i64> {
    Seq::new(shape_product(shape), |i: int| data[dot(multi_index(shape, i), strides) as int])
}

/// Every valid position reads inside the backing store.
pub open spec fn reads_in_bounds(data_len: int, shape: Seq<usize>, strides: Seq<usize>) -> bool {
    forall|pos: Seq<usize>| valid_pos(pos, shape) ==> #[trigger] dot(pos, strides) < data_len
}

/// A contiguous layout: row-major strides over a store holding exactly one
/// cell per element.
pub open spec fn contiguous_layout(data_len: int, shape: Seq<usize>, strides: Seq<usize>) -> bool {
    &&& is_row_major(strides, shape)
    &&& data_len == shape_product(shape)
}

/// If an axis has size zero, every suffix product that includes it is zero.
proof fn lemma_zero_dim_zero_product(shape: Seq<usize>, a: int, k: int)
    requires
        0 <= k <= a < shape.len(),
        shape[a] == 0,
    ensures
        suffix_product(shape, k) == 0,
    decreases a - k,
{
    if k == a {
        assert(suffix_product(shape, a) == (shape[a] * suffix_product(shape, a + 1)) as nat);
        assert(shape[a] * suffix_product(shape, a + 1) == 0) by (nonlinear_arith)
            requires
                shape[a] == 0,
        ;
    } else {
        lemma_zero_dim_zero_product(shape, a, k + 1);
        assert(suffix_product(shape, k) == (shape[k] * suffix_product(shape, k + 1)) as nat);
        assert(shape[k] * 0 == 0) by (nonlinear_arith);
    }
}

/// A shape with a positive element count has only positive axis sizes.
pub proof fn lemma_product_pos_dims(shape: Seq<usize>)
    requires
        shape_product(shape) > 0,
    ensures
        forall|a: int| 0 <= a < shape.len() ==> shape[a] >= 1,
{
    assert forall|a: int| 0 <= a < shape.len() implies shape[a] >= 1 by {
        if shape[a] == 0 {
            lemma_zero_dim_zero_product(shape, a, 0);
        }
    }
}

/// All suffix products of a shape with positive axis sizes are positive.
pub proof fn lemma_suffix_product_pos(shape: Seq<usize>, k: int)
    requires
        forall|a: int| 0 <= a < shape.len() ==> shape[a] >= 1,
        0 <= k <= shape.len(),
    ensures
        suffix_product(shape, k) >= 1,
    decreases shape.len() - k,
{
    if k < shape.len() {
        lemma_suffix_product_pos(shape, k + 1);
        assert(shape[k] * suffix_product(shape, k + 1) >= 1) by (nonlinear_arith)
            requires
                shape[k] >= 1,
                suffix_product(shape, k + 1) >= 1,
        ;
    }
}

/// The digits of a logical index form a valid position.
pub proof fn lemma_multi_index_valid(shape: Seq<usize>, i: int)
    requires
        0 <= i < shape_product(shape),
    ensures
        valid_pos(multi_index(shape, i), shape),
{
    lemma_product_pos_dims(shape);
    let m = multi_index(shape, i);
    assert forall|a: int| 0 <= a < m.len() implies m[a] < shape[a] by {
        let y: int = suffix_product(shape, a + 1) as int;
        lemma_suffix_product_pos(shape, a + 1);
        lemma_div_pos_is_pos(i, y);
        lemma_mod_division_less_than_divisor(i / y, shape[a] as int);
        lemma_mod_bound(i / y, shape[a] as int);
    }
}

/// Later partial dot products never exceed earlier ones.
pub proof fn lemma_dot_from_le(pos: Seq<usize>, strides: Seq<usize>, k: int)
    requires
        pos.len() == strides.len(),
        0 <= k <= pos.len(),
    ensures
        dot_from(pos, strides, k) <= dot(pos, strides),
    decreases k,
{
    if k > 0 {
        assert(dot_from(pos, strides, k - 1) == (pos[k - 1] * strides[k - 1] + dot_from(
            pos,
            strides,
            k,
        )) as nat);
        assert(pos[k - 1] * strides[k - 1] >= 0) by (nonlinear_arith);
        lemma_dot_from_le(pos, strides, k - 1);
    }
}

/// Decomposing a logical index into digits and recombining with row-major
/// strides gives back the remainder of the index past axis `k`.
proof fn lemma_roundtrip_aux(shape: Seq<usize>, strides: Seq<usize>, i: int, k: int)
    requires
        is_row_major(strides, shape),
        0 <= i < shape_product(shape),
        0 <= k <= shape.len(),
    ensures
        dot_from(multi_index(shape, i), strides, k) == i % (suffix_product(shape, k) as int),
    decreases shape.len() - k,
{
    let m = multi_index(shape, i);
    lemma_product_pos_dims(shape);
    if k == shape.len() {
        assert(suffix_product(shape, k) == 1);
        assert(i % 1int == 0) by (nonlinear_arith)
            requires
                i >= 0,
        ;
    } else {
        lemma_roundtrip_aux(shape, strides, i, k + 1);
        let y: int = suffix_product(shape, k + 1) as int;
        let z: int = shape[k] as int;
        lemma_suffix_product_pos(shape, k + 1);
        assert(y > 0 && z > 0);
        lemma_breakdown(i, y, z);
        assert(i % (y * z) == y * ((i / y) % z) + i % y);
        lemma_div_pos_is_pos(i, y);
        lemma_mod_bound(i / y, z);
        assert(m[k] as int == (i / y) % z);
        assert(strides[k] as int == y);
        assert(m[k] * strides[k] == y * ((i / y) % z)) by (nonlinear_arith)
            requires
                m[k] as int == (i / y) % z,
                strides[k] as int == y,
        ;
        assert(suffix_product(shape, k) == (shape[k] * suffix_product(shape, k + 1)) as nat);
        assert(z * y == y * z) by (nonlinear_arith);
        assert(dot_from(m, strides, k) == (m[k] * strides[k] + dot_from(m, strides, k + 1)) as nat);
    }
}

/// Row-major round trip: the offset of the digits of logical index `i`
/// under row-major strides is `i` itself.
pub proof fn lemma_row_major_roundtrip(shape: Seq<usize>, strides: Seq<usize>, i: int)
    requires
        is_row_major(strides, shape),
        0 <= i < shape_product(shape),
    ensures
        dot(multi_index(shape, i), strides) == i,
{
    lemma_roundtrip_aux(shape, strides, i, 0);
    lemma_small_mod(i as nat, shape_product(shape));
}

/// In a contiguous layout the logical order is the storage order.
pub proof fn lemma_contiguous_logical_is_data(data: Seq<i64>, shape: Seq<usize>, strides: Seq<
    usize,
>)
    requires
        contiguous_layout(data.len() as int, shape, strides),
    ensures
        logical_seq(data, shape, strides) =~= data,
{
    assert forall|i: int| 0 <= i < shape_product(shape) implies logical_seq(data, shape, strides)[i]
        == data[i] by {
        lemma_row_major_roundtrip(shape, strides, i);
    }
}

/// Partial dot products of a valid position under row-major strides stay
/// below the matching suffix product.
proof fn lemma_dot_bound_aux(shape: Seq<usize>, strides: Seq<usize>, pos: Seq<usize>, k: int)
    requires
        is_row_major(strides, shape),
        valid_pos(pos, shape),
        0 <= k <= shape.len(),
    ensures
        dot_from(pos, strides, k) < suffix_product(shape, k),
    decreases shape.len() - k,
{
    assert forall|a: int| 0 <= a < shape.len() implies shape[a] >= 1 by {
        assert(pos[a] < shape[a]);
    }
    if k == shape.len() {
    } else {
        lemma_dot_bound_aux(shape, strides, pos, k + 1);
        let y: int = suffix_product(shape, k + 1) as int;
        let z: int = shape[k] as int;
        assert(pos[k] * strides[k] + dot_from(pos, strides, k + 1) < z * y) by (nonlinear_arith)
            requires
                pos[k] as int <= z - 1,
                strides[k] as int == y,
                dot_from(pos, strides, k + 1) < y,
                y >= 1,
                z >= 1,
        ;
        assert(suffix_product(shape, k) == (shape[k] * suffix_product(shape, k + 1)) as nat);
    }
}

/// The offset of any valid position under row-major strides is below the
/// element count, so contiguous reads are in bounds.
pub proof fn lemma_dot_row_major_bound(shape: Seq<usize>, strides: Seq<usize>, pos: Seq<usize>)
    requires
        is_row_major(strides, shape),
        valid_pos(pos, shape),
    ensures
        dot(pos, strides) < shape_product(shape),
{
    lemma_dot_bound_aux(shape, strides, pos, 0);
}

/// A contiguous layout reads in bounds at every valid position.
pub proof fn lemma_contiguous_reads_in_bounds(data_len: int, shape: Seq<usize>, strides: Seq<
    usize,
>)
    requires
        contiguous_layout(data_len, shape, strides),
    ensures
        reads_in_bounds(data_len, shape, strides),
{
    assert forall|pos: Seq<usize>| valid_pos(pos, shape) implies #[trigger] dot(pos, strides)
        < data_len by {
        lemma_dot_row_major_bound(shape, strides, pos);
    }
}

/// Positions that differ only on zero-stride axes share an offset.
proof fn lemma_dot_zero_stride_aux(p: Seq<usize>, q: Seq<usize>, st: Seq<usize>, k: int)
    requires
        p.len() == st.len(),
        q.len() == st.len(),
        forall|a: int| 0 <= a < st.len() ==> p[a] == q[a] || st[a] == 0,
        0 <= k <= st.len(),
    ensures
        dot_from(p, st, k) == dot_from(q, st, k),
    decreases st.len() - k,
{
    if k < st.len() {
        lemma_dot_zero_stride_aux(p, q, st, k + 1);
        if st[k] == 0 {
            assert(p[k] * st[k] == 0) by (nonlinear_arith)
                requires
                    st[k] == 0,
            ;
            assert(q[k] * st[k] == 0) by (nonlinear_arith)
                requires
                    st[k] == 0,
            ;
        }
    }
}

/// Broadcast invariant: a zero stride makes every coordinate of that axis
/// read the same cell, so positions differing only there agree.
pub proof fn lemma_dot_zero_stride(p: Seq<usize>, q: Seq<usize>, st: Seq<usize>)
    requires
        p.len() == st.len(),
        q.len() == st.len(),
        forall|a: int| 0 <= a < st.len() ==> p[a] == q[a] || st[a] == 0,
    ensures
        dot(p, st) == dot(q, st),
{
    lemma_dot_zero_stride_aux(p, q, st, 0);
}

/// Dot products agree whenever the per-axis terms agree.
proof fn lemma_dot_term_equal_aux(
    p1: Seq<usize>,
    s1: Seq<usize>,
    p2: Seq<usize>,
    s2: Seq<usize>,
    k: int,
)
    requires
        p1.len() == s1.len(),
        p2.len() == s2.len(),
        p1.len() == p2.len(),
        forall|a: int| 0 <= a < p1.len() ==> #[trigger] (p1[a] * s1[a]) == p2[a] * s2[a],
        0 <= k <= p1.len(),
    ensures
        dot_from(p1, s1, k) == dot_from(p2, s2, k),
    decreases p1.len() - k,
{
    if k < p1.len() {
        lemma_dot_term_equal_aux(p1, s1, p2, s2, k + 1);
    }
}

/// Dot products agree whenever the per-axis terms agree.
pub proof fn lemma_dot_term_equal(p1: Seq<usize>, s1: Seq<usize>, p2: Seq<usize>, s2: Seq<usize>)
    requires
        p1.len() == s1.len(),
        p2.len() == s2.len(),
        p1.len() == p2.len(),
        forall|a: int| 0 <= a < p1.len() ==> #[trigger] (p1[a] * s1[a]) == p2[a] * s2[a],
    ensures
        dot(p1, s1) == dot(p2, s2),
{
    lemma_dot_term_equal_aux(p1, s1, p2, s2, 0);
}

/// Leading zero-stride axes contribute nothing to the offset.
proof fn lemma_dot_zero_prefix_aux(p: Seq<usize>, st: Seq<usize>, off: int, k: int)
    requires
        p.len() == st.len(),
        0 <= k <= off <= p.len(),
        forall|j: int| 0 <= j < off ==> st[j] == 0,
    ensures
        dot_from(p, st, k) == dot_from(p, st, off),
    decreases off - k,
{
    if k < off {
        lemma_dot_zero_prefix_aux(p, st, off, k + 1);
        assert(p[k] * st[k] == 0) by (nonlinear_arith)
            requires
                st[k] == 0,
        ;
    }
}

/// Dropping leading zero-stride axes keeps the offset.
pub proof fn lemma_dot_zero_prefix(p: Seq<usize>, st: Seq<usize>, off: int)
    requires
        p.len() == st.len(),
        0 <= off <= p.len(),
        forall|j: int| 0 <= j < off ==> st[j] == 0,
    ensures
        dot(p, st) == dot(p.skip(off), st.skip(off)),
{
    lemma_dot_zero_prefix_aux(p, st, off, 0);
    lemma_dot_from_skip(p, st, off);
}

/// Changing one coordinate changes the offset by that axis' terms.
proof fn lemma_dot_update_aux(c: Seq<usize>, st: Seq<usize>, j: int, v: usize, k: int)
    requires
        c.len() == st.len(),
        0 <= j < c.len(),
        0 <= k <= c.len(),
    ensures
        k <= j ==> dot_from(c.update(j, v), st, k) + c[j] * st[j] == dot_from(c, st, k) + v
            * st[j],
        k > j ==> dot_from(c.update(j, v), st, k) == dot_from(c, st, k),
    decreases c.len() - k,
{
    if k < c.len() {
        lemma_dot_update_aux(c, st, j, v, k + 1);
    }
}

/// Changing one coordinate changes the offset by that axis' terms.
pub proof fn lemma_dot_update(c: Seq<usize>, st: Seq<usize>, j: int, v: usize)
    requires
        c.len() == st.len(),
        0 <= j < c.len(),
    ensures
        dot(c.update(j, v), st) + c[j] * st[j] == dot(c, st) + v * st[j],
{
    lemma_dot_update_aux(c, st, j, v, 0);
}

/// Axes holding coordinate zero contribute nothing to the offset.
pub proof fn lemma_dot_from_zero_tail(c: Seq<usize>, st: Seq<usize>, k: int)
    requires
        c.len() == st.len(),
        0 <= k <= c.len(),
        forall|j: int| k <= j < c.len() ==> c[j] == 0,
    ensures
        dot_from(c, st, k) == 0,
    decreases c.len() - k,
{
    if k < c.len() {
        lemma_dot_from_zero_tail(c, st, k + 1);
        assert(c[k] * st[k] == 0) by (nonlinear_arith)
            requires
                c[k] == 0,
        ;
    }
}

/// Shifting the start axis by one matches dropping the first axis.
proof fn lemma_dot_shift(p: Seq<usize>, st: Seq<usize>, j: int)
    requires
        p.len() == st.len(),
        1 <= j <= p.len(),
    ensures
        dot_from(p, st, j) == dot_from(p.skip(1), st.skip(1), j - 1),
    decreases p.len() - j,
{
    if j < p.len() {
        lemma_dot_shift(p, st, j + 1);
    }
}

/// A partial dot product is the full dot product of the remaining axes.
pub proof fn lemma_dot_from_skip(p: Seq<usize>, st: Seq<usize>, k: int)
    requires
        p.len() == st.len(),
        0 <= k <= p.len(),
    ensures
        dot_from(p, st, k) == dot(p.skip(k), st.skip(k)),
    decreases k,
{
    if k == 0 {
        assert(p.skip(0) =~= p);
        assert(st.skip(0) =~= st);
    } else {
        lemma_dot_shift(p, st, k);
        lemma_dot_from_skip(p.skip(1), st.skip(1), k - 1);
        assert(p.skip(1).skip(k - 1) =~= p.skip(k));
        assert(st.skip(1).skip(k - 1) =~= st.skip(k));
    }
}

/// The last axis' term can be split off a dot product.
proof fn lemma_dot_drop_last(p: Seq<usize>, st: Seq<usize>)
    requires
        p.len() == st.len(),
        p.len() >= 1,
    ensures
        dot(p, st) == dot(p.drop_last(), st.drop_last()) + p[p.len() - 1] * st[p.len() - 1],
    decreases p.len(),
{
    let l = p.len() as int;
    if p.len() == 1 {
        assert(p.drop_last() =~= Seq::<usize>::empty());
        assert(st.drop_last() =~= Seq::<usize>::empty());
        assert(dot_from(p, st, 1) == 0);
        assert(dot(p, st) == p[0] * st[0]);
        assert(dot(p.drop_last(), st.drop_last()) == 0);
    } else {
        let pt = p.skip(1);
        let stt = st.skip(1);
        lemma_dot_shift(p, st, 1);
        assert(dot(p, st) == p[0] * st[0] + dot(pt, stt));
        lemma_dot_drop_last(pt, stt);
        assert(pt.drop_last() =~= p.drop_last().skip(1));
        assert(stt.drop_last() =~= st.drop_last().skip(1));
        assert(pt[pt.len() - 1] == p[l - 1]);
        assert(stt[stt.len() - 1] == st[l - 1]);
        lemma_dot_shift(p.drop_last(), st.drop_last(), 1);
        assert(dot(p.drop_last(), st.drop_last()) == p.drop_last()[0] * st.drop_last()[0] + dot(
            p.drop_last().skip(1),
            st.drop_last().skip(1),
        ));
        assert(p.drop_last()[0] == p[0] && st.drop_last()[0] == st[0]);
        assert(dot(pt.drop_last(), stt.drop_last()) == dot(
            p.drop_last().skip(1),
            st.drop_last().skip(1),
        ));
        assert(dot(p, st) == dot(p.drop_last(), st.drop_last()) + p[l - 1] * st[l - 1]);
    }
}

/// Reversing position and strides together keeps the offset.
pub proof fn lemma_dot_reverse(p: Seq<usize>, st: Seq<usize>)
    requires
        p.len() == st.len(),
    ensures
        dot(rev_seq(p), rev_seq(st)) == dot(p, st),
    decreases p.len(),
{
    let l = p.len() as int;
    if p.len() > 0 {
        let rp = rev_seq(p);
        let rst = rev_seq(st);
        lemma_dot_shift(rp, rst, 1);
        assert(rp.skip(1) =~= rev_seq(p.drop_last()));
        assert(rst.skip(1) =~= rev_seq(st.drop_last()));
        lemma_dot_reverse(p.drop_last(), st.drop_last());
        lemma_dot_drop_last(p, st);
        assert(rp[0] == p[l - 1] && rst[0] == st[l - 1]);
    }
}

/// The dot product of a position with the strides, computed innermost
/// axis first.
pub fn dot_product(pos: &Vec<usize>, strides: &Vec<usize>) -> (r: usize)
    requires
        pos@.len() == strides@.len(),
        dot(pos@, strides@) <= usize::MAX,
    ensures
        r == dot(pos@, strides@),
{
    let mut acc: usize = 0;
    let mut j: usize = pos.len();
    while j > 0
        invariant
            pos@.len() == strides@.len(),
            0 <= j <= pos@.len(),
            dot(pos@, strides@) <= usize::MAX,
            acc == dot_from(pos@, strides@, j as int),
        decreases j,
    {
        j = j - 1;
        proof {
            lemma_dot_from_le(pos@, strides@, j as int);
            assert(dot_from(pos@, strides@, j as int) == (pos@[j as int] * strides@[j as int]
                + dot_from(pos@, strides@, j as int + 1)) as nat);
        }
        acc = acc + pos[j] * strides[j];
    }
    acc
}

/// The per-axis digits of logical index `i` under `shape`, computed by
/// dividing by each axis' row-major stride.
pub fn logical_position(shape: &Vec<usize>, i: usize) -> (r: Vec<usize>)
    requires
        strides_fit(shape@),
        i < shape_product(shape@),
    ensures
        r@ == multi_index(shape@, i as int),
        valid_pos(r@, shape@),
{
    proof {
        lemma_product_pos_dims(shape@);
    }
    let rm = crate::shape::intrinsic_strides_in_place(crate::shape::clone_usizes(shape));
    let mut pos: Vec<usize> = Vec::new();
    let mut a: usize = 0;
    while a < shape.len()
        invariant
            shape@.len() == rm@.len(),
            is_row_major(rm@, shape@),
            i < shape_product(shape@),
            forall|b: int| 0 <= b < shape@.len() ==> shape@[b] >= 1,
            0 <= a <= shape@.len(),
            pos@.len() == a,
            forall|b: int| 0 <= b < a ==> pos@[b] == multi_index(shape@, i as int)[b],
        decreases shape@.len() - a,
    {
        proof {
            lemma_suffix_product_pos(shape@, a as int + 1);
            assert(rm@[a as int] == suffix_product(shape@, a as int + 1));
        }
        let digit = (i / rm[a]) % shape[a];
        pos.push(digit);
        a = a + 1;
    }
    assert(pos@ =~= multi_index(shape@, i as int));
    proof {
        lemma_multi_index_valid(shape@, i as int);
    }
    pos
}

/// The layout contract: introspection of shape, strides, chunking and the
/// row-major element reading discipline shared by every storage strategy.
pub trait Layout: Sized {
    /// The raw backing store.
    spec fn data_spec(&self) -> Seq<i64>;

    /// The runtime shape.
    spec fn shape_spec(&self) -> Seq<usize>;

    /// The per-axis element strides into the backing store.
    spec fn strides_spec(&self) -> Seq<usize>;

    /// The advertised size of contiguous runs for chunked iteration.
    spec fn opt_chunk_spec(&self) -> usize;

    /// Well-formedness of the concrete layout.
    spec fn wf(&self) -> bool;

    /// Every well-formed layout has one stride per axis, suffix products
    /// that fit a `usize`, and in-bounds reads at all valid positions.
    proof fn wf_facts(&self)
        requires
            self.wf(),
        ensures
            self.shape_spec().len() == self.strides_spec().len(),
            strides_fit(self.shape_spec()),
            reads_in_bounds(self.data_spec().len() as int, self.shape_spec(), self.strides_spec()),
    ;

    /// The runtime shape, one size per axis.
    fn shape(&self) -> (r: Vec<usize>)
        requires
            self.wf(),
        ensures
            r@ == self.shape_spec(),
    ;

    /// The strides, one per axis.
    fn strides(&self) -> (r: Vec<usize>)
        requires
            self.wf(),
        ensures
            r@ == self.strides_spec(),
    ;

    /// The advertised contiguous run length.
    fn opt_chunk_size(&self) -> (r: usize)
        requires
            self.wf(),
        ensures
            r == self.opt_chunk_spec(),
    ;

    /// The number of logical elements.
    fn num_elements(&self) -> (r: usize)
        requires
            self.wf(),
        ensures
            r == shape_product(self.shape_spec()),
    ;

    /// The element at logical (row-major) index `i`.
    fn elem(&self, i: usize) -> (r: i64)
        requires
            self.wf(),
            i < shape_product(self.shape_spec()),
        ensures
            r == logical_seq(self.data_spec(), self.shape_spec(), self.strides_spec())[i as int],
    ;

    /// A copy of the backing store.
    fn buffer(&self) -> (r: Vec<i64>)
        requires
            self.wf(),
        ensures
            r@ == self.data_spec(),
    ;
}

/// The elements of a layout in logical order.
pub open spec fn layout_logical<L: Layout>(l: &L) -> Seq<i64> {
    logical_seq(l.data_spec(), l.shape_spec(), l.strides_spec())
}

/// The storage offset read for logical index `i` of a layout.
pub open spec fn phys_index<L: Layout>(l: &L, i: int) -> int {
    dot(multi_index(l.shape_spec(), i), l.strides_spec()) as int
}

/// A buffer with the run `chunk` written at offset `start`, all other
/// cells unchanged.
pub open spec fn spliced(data: Seq<i64>, start: int, chunk: Seq<i64>) -> Seq<i64> {
    Seq::new(
        data.len(),
        |i: int|
            if start <= i < start + chunk.len() {
                chunk[i - start]
            } else {
                data[i]
            },
    )
}

/// Mutable counterpart of [`Layout`]: writing one element at a logical
/// index, or one contiguous run of cells, leaving shape and strides
/// untouched.
pub trait LayoutMut: Layout {
    /// Writes `v` at logical index `i`.
    fn set_elem(&mut self, i: usize, v: i64)
        requires
            old(self).wf(),
            i < shape_product(old(self).shape_spec()),
        ensures
            final(self).wf(),
            final(self).shape_spec() == old(self).shape_spec(),
            final(self).strides_spec() == old(self).strides_spec(),
            final(self).opt_chunk_spec() == old(self).opt_chunk_spec(),
            final(self).data_spec() == old(self).data_spec().update(
                phys_index(old(self), i as int),
                v,
            ),
    ;

    /// Writes the run `chunk` at storage offset `start`: the mutable
    /// counterpart of chunked iteration, letting a kernel fill a result
    /// one contiguous run at a time.
    fn set_chunk(&mut self, start: usize, chunk: &Vec<i64>)
        requires
            old(self).wf(),
            start + chunk@.len() <= old(self).data_spec().len(),
        ensures
            final(self).wf(),
            final(self).shape_spec() == old(self).shape_spec(),
            final(self).strides_spec() == old(self).strides_spec(),
            final(self).opt_chunk_spec() == old(self).opt_chunk_spec(),
            final(self).data_spec() == spliced(old(self).data_spec(), start as int, chunk@),
    ;
}

/// Allocation of a zero-filled contiguous layout from a runtime shape.
pub trait Alloc: Layout {
    /// A contiguous layout of the given shape, all cells zero.
    fn allocate(shape: Vec<usize>) -> (r: Self)
        requires
            strides_fit(shape@),
        ensures
            r.wf(),
            r.shape_spec() == shape@,
            contiguous_layout(r.data_spec().len() as int, r.shape_spec(), r.strides_spec()),
            r.data_spec() == Seq::new(shape_product(shape@), |i: int| 0i64),
    ;
}

/// Construction of a contiguous layout holding one value everywhere, for
/// shapes fixed ahead of time.
pub trait StaticFill: Layout {
    /// A contiguous layout of the given shape with every cell `value`.
    fn fill(value: i64, shape: Vec<usize>) -> (r: Self)
        requires
            strides_fit(shape@),
        ensures
            r.wf(),
            r.shape_spec() == shape@,
            contiguous_layout(r.data_spec().len() as int, r.shape_spec(), r.strides_spec()),
            r.data_spec() == Seq::new(shape_product(shape@), |i: int| value),
    ;
}

/// Construction of a contiguous layout holding one value everywhere, for
/// shapes resolved at run time.
pub trait DynamicFill: Layout {
    /// A contiguous layout of the given shape with every cell `value`.
    fn fill(value: i64, shape: Vec<usize>) -> (r: Self)
        requires
            strides_fit(shape@),
        ensures
            r.wf(),
            r.shape_spec() == shape@,
            contiguous_layout(r.data_spec().len() as int, r.shape_spec(), r.strides_spec()),
            r.data_spec() == Seq::new(shape_product(shape@), |i: int| value),
    ;
}

} // verus!
