//! Chunked iteration over a strided view.  A per-axis counter walks the
//! view odometer-style, innermost axis first; each step yields the run of
//! cells at the counter's offset.  The per-axis step sizes are derived by
//! consuming the requested chunk size across the axes from the innermost
//! outward.

use vstd::prelude::*;

use crate::layout::{
    dot, dot_from, lemma_dot_from_zero_tail, lemma_dot_update, valid_pos, Layout,
};
use crate::shape::{clone_usizes, is_row_major, shape_product, suffix_product};
use crate::slice_layout::SliceLayout;

verus! {

/// The chunk budget left after the axes from `j` (inclusive) outward have
/// consumed their share, walking from the innermost axis down to `j`.
pub open spec fn chunk_left(shape: Seq<usize>, cs: nat, j: int) -> nat
    recommends
        0 <= j <= shape.len(),
    decreases shape.len() - j,
{
    if j < 0 || j >= shape.len() {
        cs
    } else {
        let c = chunk_left(shape, cs, j + 1);
        if c < shape[j] {
            c
        } else if shape[j] == 0 {
            c
        } else {
            c / (shape[j] as nat)
        }
    }
}

/// The step size of axis `j`: its full extent while the chunk budget still
/// covers it, and 1 from the first axis that the budget cannot fill.
pub open spec fn step_at(shape: Seq<usize>, cs: nat, j: int) -> usize
    recommends
        0 <= j < shape.len(),
{
    if chunk_left(shape, cs, j + 1) < shape[j] {
        1usize
    } else {
        shape[j]
    }
}

/// The counter after one odometer step, carrying from axis `a` inward to
/// axis 0; an axis rolls over to 0 when its step would pass its extent.
pub open spec fn odo_counter(c: Seq<usize>, steps: Seq<usize>, sh: Seq<usize>, a: int) -> Seq<
    usize,
>
    recommends
        c.len() == sh.len(),
        steps.len() == sh.len(),
        a < c.len(),
    decreases a + 1,
{
    if a < 0 {
        c
    } else if c[a] + steps[a] >= sh[a] {
        odo_counter(c.update(a, 0), steps, sh, a - 1)
    } else {
        c.update(a, (c[a] + steps[a]) as usize)
    }
}

/// Whether one odometer step starting the carry at axis `a` rolls over the
/// outermost axis, exhausting the iteration.
pub open spec fn odo_dead(c: Seq<usize>, steps: Seq<usize>, sh: Seq<usize>, a: int) -> bool
    recommends
        c.len() == sh.len(),
        steps.len() == sh.len(),
        a < c.len(),
    decreases a + 1,
{
    if a < 0 {
        true
    } else if c[a] + steps[a] >= sh[a] {
        odo_dead(c.update(a, 0), steps, sh, a - 1)
    } else {
        false
    }
}

/// The product of the axis sizes over `[m, j)`.
pub open spec fn range_product(sh: Seq<usize>, m: int, j: int) -> nat
    recommends
        0 <= m <= j <= sh.len(),
    decreases j - m,
{
    if j <= m {
        1
    } else {
        (range_product(sh, m, j - 1) * sh[j - 1]) as nat
    }
}

/// Partial axis products are positive when every size is.
proof fn lemma_range_product_pos(sh: Seq<usize>, m: int, j: int)
    requires
        0 <= m <= j <= sh.len(),
        forall|a: int| 0 <= a < sh.len() ==> sh[a] >= 1,
    ensures
        range_product(sh, m, j) >= 1,
    decreases j - m,
{
    if j > m {
        lemma_range_product_pos(sh, m, j - 1);
        assert(range_product(sh, m, j - 1) * sh[j - 1] >= 1) by (nonlinear_arith)
            requires
                range_product(sh, m, j - 1) >= 1,
                sh[j - 1] >= 1,
        ;
    }
}

/// While the chunk budget is a suffix product, each processed axis
/// divides it exactly, leaving the product of the axes still outside.
proof fn lemma_chunk_left_suffix(sh: Seq<usize>, m: int, j: int)
    requires
        0 <= m <= j <= sh.len(),
        forall|a: int| 0 <= a < sh.len() ==> sh[a] >= 1,
    ensures
        chunk_left(sh, suffix_product(sh, m), j) == range_product(sh, m, j),
    decreases sh.len() - j,
{
    if j == sh.len() {
        crate::layout::lemma_suffix_product_pos(sh, m);
        assert(range_product(sh, m, j) == suffix_product(sh, m)) by {
            lemma_range_is_suffix(sh, m, j);
            let rp: int = range_product(sh, m, j) as int;
            assert(rp * 1 == rp) by (nonlinear_arith);
        }
    } else {
        lemma_chunk_left_suffix(sh, m, j + 1);
        lemma_range_product_pos(sh, m, j);
        let rp: int = range_product(sh, m, j) as int;
        let e: int = sh[j] as int;
        assert(range_product(sh, m, j + 1) == (range_product(sh, m, j) * sh[j]) as nat);
        assert(rp * e >= e) by (nonlinear_arith)
            requires
                rp >= 1,
                e >= 0,
        ;
        vstd::arithmetic::div_mod::lemma_div_by_multiple(rp, e);
        assert((rp * e) / e == rp);
    }
}

/// The product of the axes from `m` to the end is the suffix product.
proof fn lemma_range_is_suffix(sh: Seq<usize>, m: int, j: int)
    requires
        0 <= m <= j <= sh.len(),
    ensures
        (range_product(sh, m, j) * suffix_product(sh, j)) as nat == suffix_product(sh, m),
    decreases j - m,
{
    if j == m {
        let s: int = suffix_product(sh, m) as int;
        assert(1 * s == s) by (nonlinear_arith);
    } else {
        lemma_range_is_suffix(sh, m, j - 1);
        let rp: int = range_product(sh, m, j - 1) as int;
        let e: int = sh[j - 1] as int;
        let s: int = suffix_product(sh, j) as int;
        assert(suffix_product(sh, j - 1) == (sh[j - 1] * suffix_product(sh, j)) as nat);
        assert(rp * (e * s) == suffix_product(sh, m));
        assert((rp * e) * s == rp * (e * s)) by (nonlinear_arith);
        assert(range_product(sh, m, j) as int == rp * e);
    }
}

/// Below the consumed axes the chunk budget is exhausted down to 1.
proof fn lemma_chunk_left_low(sh: Seq<usize>, m: int, j: int)
    requires
        0 <= j <= m <= sh.len(),
        forall|a: int| 0 <= a < sh.len() ==> sh[a] >= 1,
    ensures
        chunk_left(sh, suffix_product(sh, m), j) == 1,
    decreases m - j,
{
    if j == m {
        lemma_chunk_left_suffix(sh, m, m);
    } else {
        lemma_chunk_left_low(sh, m, j + 1);
        assert(chunk_left(sh, suffix_product(sh, m), j + 1) == 1);
        if sh[j] == 1 {
            assert((1 as nat) / (sh[j] as nat) == 1);
        }
    }
}

/// When the chunk size is the suffix product at axis `m`, the derived
/// step sizes are the full extents from `m` inward and 1 outside.
pub proof fn lemma_steps_for_suffix_chunk(sh: Seq<usize>, m: int, j: int)
    requires
        0 <= m <= sh.len(),
        0 <= j < sh.len(),
        forall|a: int| 0 <= a < sh.len() ==> sh[a] >= 1,
    ensures
        step_at(sh, suffix_product(sh, m), j) == if j >= m {
            sh[j]
        } else {
            1usize
        },
{
    if j + 1 <= m {
        lemma_chunk_left_low(sh, m, j + 1);
    } else {
        lemma_chunk_left_suffix(sh, m, j + 1);
        lemma_range_product_pos(sh, m, j);
        let rp: int = range_product(sh, m, j) as int;
        let e: int = sh[j] as int;
        assert(range_product(sh, m, j + 1) == (range_product(sh, m, j) * sh[j]) as nat);
        assert(rp * e >= e) by (nonlinear_arith)
            requires
                rp >= 1,
                e >= 0,
        ;
    }
}

/// The carry from a rolled-over zero suffix passes straight through:
/// axes at and inside `m` hold zero and roll over without change.
proof fn lemma_odo_skip_high(c: Seq<usize>, steps: Seq<usize>, sh: Seq<usize>, j: int, m: int)
    requires
        c.len() == sh.len(),
        steps.len() == sh.len(),
        0 <= m <= sh.len(),
        m - 1 <= j < sh.len(),
        forall|k: int| m <= k < sh.len() ==> c[k] == 0,
        forall|k: int| m <= k < sh.len() ==> steps[k] == sh[k],
        forall|k: int| 0 <= k < sh.len() ==> sh[k] >= 1,
    ensures
        odo_counter(c, steps, sh, j) == odo_counter(c, steps, sh, m - 1),
        odo_dead(c, steps, sh, j) == odo_dead(c, steps, sh, m - 1),
    decreases j - m + 1,
{
    if j >= m {
        assert(c[j] + steps[j] >= sh[j]);
        assert(c.update(j, 0) =~= c);
        lemma_odo_skip_high(c, steps, sh, j - 1, m);
    }
}

/// One unit-step carry over the outer axes: either every digit was maxed
/// (the odometer dies), or the counter advances to the next position,
/// `suffix_product(sh, a + 1)` cells further in row-major order.
proof fn lemma_odo_carry(c: Seq<usize>, steps: Seq<usize>, sh: Seq<usize>, st: Seq<usize>, a: int)
    requires
        c.len() == sh.len(),
        steps.len() == sh.len(),
        is_row_major(st, sh),
        valid_pos(c, sh),
        a < sh.len(),
        forall|k: int| 0 <= k <= a ==> steps[k] == 1,
    ensures
        odo_dead(c, steps, sh, a) ==> forall|k: int| 0 <= k <= a ==> c[k] == sh[k] - 1,
        !odo_dead(c, steps, sh, a) ==> {
            let c2 = odo_counter(c, steps, sh, a);
            &&& valid_pos(c2, sh)
            &&& forall|k: int| a < k < sh.len() ==> c2[k] == c[k]
            &&& dot(c2, st) == dot(c, st) + suffix_product(sh, a + 1)
        },
    decreases a + 1,
{
    if a >= 0 {
        if c[a] + steps[a] >= sh[a] {
            assert(c[a] == sh[a] - 1);
            let cz = c.update(a, 0usize);
            lemma_odo_carry(cz, steps, sh, st, a - 1);
            if odo_dead(c, steps, sh, a) {
                assert forall|k: int| 0 <= k <= a implies c[k] == sh[k] - 1 by {
                    if k < a {
                        assert(cz[k] == sh[k] - 1);
                    }
                }
            }
            if !odo_dead(c, steps, sh, a) {
                let c2 = odo_counter(cz, steps, sh, a - 1);
                lemma_dot_update(c, st, a, 0usize);
                assert(dot(cz, st) + c[a] * st[a] == dot(c, st) + 0usize * st[a]);
                assert(0usize * st[a] == 0) by (nonlinear_arith);
                assert(dot(c2, st) == dot(cz, st) + suffix_product(sh, a));
                let e: int = sh[a] as int;
                let x: int = suffix_product(sh, a + 1) as int;
                assert(st[a] as int == x);
                assert(suffix_product(sh, a) == (sh[a] * suffix_product(sh, a + 1)) as nat);
                assert((e - 1) * x + x == e * x) by (nonlinear_arith);
                assert(dot(c2, st) == dot(c, st) + suffix_product(sh, a + 1));
            }
        } else {
            let v = (c[a] + steps[a]) as usize;
            assert(v == c[a] + 1);
            let c2 = c.update(a, v);
            lemma_dot_update(c, st, a, v);
            assert(v * st[a] == c[a] * st[a] + st[a]) by (nonlinear_arith)
                requires
                    v == c[a] + 1,
            ;
        }
    }
}

/// Positions with every digit maxed below `m` and zero from `m` inward
/// sit exactly one chunk short of the end of the view.
proof fn lemma_dot_maxed(c: Seq<usize>, sh: Seq<usize>, st: Seq<usize>, m: int, k: int)
    requires
        c.len() == sh.len(),
        is_row_major(st, sh),
        0 <= k <= m <= sh.len(),
        forall|j: int| 0 <= j < m ==> c[j] == sh[j] - 1,
        forall|j: int| m <= j < sh.len() ==> c[j] == 0,
        forall|j: int| 0 <= j < sh.len() ==> sh[j] >= 1,
    ensures
        dot_from(c, st, k) + suffix_product(sh, m) == suffix_product(sh, k),
    decreases m - k,
{
    if k == m {
        lemma_dot_from_zero_tail(c, st, m);
    } else {
        lemma_dot_maxed(c, sh, st, m, k + 1);
        let e: int = sh[k] as int;
        let x: int = suffix_product(sh, k + 1) as int;
        assert(st[k] as int == x);
        assert(suffix_product(sh, k) == (sh[k] * suffix_product(sh, k + 1)) as nat);
        assert((e - 1) * x + x == e * x) by (nonlinear_arith);
    }
}

/// Chunk tiling: at a chunk size that is the suffix product of the axes
/// from `m` inward, one odometer step advances the row-major offset by
/// exactly that chunk size, and the iteration dies exactly when the
/// chunk that just ended was the last one.  Successive chunks of a
/// contiguous view therefore tile the buffer in order.
pub proof fn lemma_chunk_step_advances(
    c: Seq<usize>,
    steps: Seq<usize>,
    sh: Seq<usize>,
    st: Seq<usize>,
    m: int,
)
    requires
        c.len() == sh.len(),
        steps.len() == sh.len(),
        is_row_major(st, sh),
        valid_pos(c, sh),
        0 <= m <= sh.len(),
        forall|j: int| 0 <= j < sh.len() ==> sh[j] >= 1,
        forall|j: int|
            0 <= j < sh.len() ==> steps[j] == (if j >= m {
                sh[j]
            } else {
                1usize
            }),
        forall|j: int| m <= j < sh.len() ==> c[j] == 0,
    ensures
        odo_dead(c, steps, sh, sh.len() - 1) ==> dot(c, st) + suffix_product(sh, m)
            == shape_product(sh),
        !odo_dead(c, steps, sh, sh.len() - 1) ==> {
            let c2 = odo_counter(c, steps, sh, sh.len() - 1);
            &&& valid_pos(c2, sh)
            &&& forall|j: int| m <= j < sh.len() ==> c2[j] == 0
            &&& dot(c2, st) == dot(c, st) + suffix_product(sh, m)
        },
{
    lemma_odo_skip_high(c, steps, sh, sh.len() - 1, m);
    lemma_odo_carry(c, steps, sh, st, m - 1);
    if odo_dead(c, steps, sh, sh.len() - 1) {
        lemma_dot_maxed(c, sh, st, m, 0);
    }
}

impl SliceLayout {
    /// Chunked iteration over this view: successive runs of `chunk_size`
    /// cells, odometer-ordered.  Kernel authors call this at the minimum
    /// advertised run length across all participating tensors.
    pub fn chunks<'a>(&'a self, chunk_size: usize) -> (r: StridedChunks<'a>)
        requires
            self.wf(),
        ensures
            r.wf(),
            r.layout_spec() == *self,
            r.chunk_size_spec() == chunk_size,
            r.counter_spec() == Seq::new(self.shape_spec().len(), |a: int| 0usize),
            r.dead_spec() == (shape_product(self.shape_spec()) == 0),
    {
        StridedChunks::new(self, chunk_size)
    }
}

/// Chunked iteration state over a [`SliceLayout`].
pub struct StridedChunks<'a> {
    counter: Vec<usize>,
    step_sizes: Vec<usize>,
    dead: bool,
    chunk_size: usize,
    layout: &'a SliceLayout,
}

impl<'a> StridedChunks<'a> {
    /// The view being iterated.
    pub closed spec fn layout_spec(&self) -> SliceLayout {
        *self.layout
    }

    /// The per-axis position of the next chunk.
    pub closed spec fn counter_spec(&self) -> Seq<usize> {
        self.counter@
    }

    /// The per-axis step sizes.
    pub closed spec fn steps_spec(&self) -> Seq<usize> {
        self.step_sizes@
    }

    /// Whether the iteration is exhausted.
    pub closed spec fn dead_spec(&self) -> bool {
        self.dead
    }

    /// The length of each yielded chunk.
    pub closed spec fn chunk_size_spec(&self) -> usize {
        self.chunk_size
    }

    /// Iteration state over a well-formed view.
    pub open spec fn wf(&self) -> bool {
        &&& self.layout_spec().wf()
        &&& self.counter_spec().len() == self.layout_spec().shape_spec().len()
        &&& self.steps_spec().len() == self.layout_spec().shape_spec().len()
        &&& (self.dead_spec() || valid_pos(self.counter_spec(), self.layout_spec().shape_spec()))
    }

    /// Builds the iteration state: counter at the origin, step sizes from
    /// the chunk budget, already exhausted only for an empty view.
    pub fn new(layout: &'a SliceLayout, chunk_size: usize) -> (r: Self)
        requires
            layout.wf(),
        ensures
            r.wf(),
            r.layout_spec() == *layout,
            r.chunk_size_spec() == chunk_size,
            r.counter_spec() == Seq::new(layout.shape_spec().len(), |a: int| 0usize),
            r.dead_spec() == (shape_product(layout.shape_spec()) == 0),
            forall|j: int|
                0 <= j < layout.shape_spec().len() ==> #[trigger] r.steps_spec()[j] == step_at(
                    layout.shape_spec(),
                    chunk_size as nat,
                    j,
                ),
    {
        let ghost sh = layout.shape_spec();
        let shape = layout.shape();
        let n = layout.num_elements();
        let mut step_sizes = clone_usizes(&shape);
        let mut cs = chunk_size;
        let mut j: usize = shape.len();
        while j > 0
            invariant
                shape@ == sh,
                step_sizes@.len() == sh.len(),
                0 <= j <= sh.len(),
                cs == chunk_left(sh, chunk_size as nat, j as int),
                forall|k: int| 0 <= k < j ==> step_sizes@[k] == sh[k],
                forall|k: int|
                    j <= k < sh.len() ==> #[trigger] step_sizes@[k] == step_at(
                        sh,
                        chunk_size as nat,
                        k,
                    ),
            decreases j,
        {
            j = j - 1;
            let extent = shape[j];
            if cs < extent {
                step_sizes.set(j, 1);
            } else {
                if extent != 0 {
                    cs = cs / extent;
                }
            }
        }
        let mut counter: Vec<usize> = Vec::new();
        let mut i: usize = 0;
        while i < shape.len()
            invariant
                0 <= i <= shape@.len(),
                counter@.len() == i,
                forall|k: int| 0 <= k < i ==> counter@[k] == 0,
            decreases shape@.len() - i,
        {
            counter.push(0);
            i = i + 1;
        }
        assert(counter@ =~= Seq::new(sh.len(), |a: int| 0usize));
        proof {
            if n > 0 {
                crate::layout::lemma_product_pos_dims(sh);
            }
        }
        StridedChunks { counter, step_sizes, dead: n == 0, chunk_size, layout }
    }

    /// Yields the run of cells at the current counter and advances the
    /// odometer.  The iteration ends after the outermost axis rolls over,
    /// or at once if a chunk would run past the buffer.
    #[verifier::loop_isolation(false)]
    pub fn next(&mut self) -> (r: Option<Vec<i64>>)
        requires
            old(self).wf(),
        ensures
            final(self).wf(),
            final(self).layout_spec() == old(self).layout_spec(),
            final(self).steps_spec() == old(self).steps_spec(),
            final(self).chunk_size_spec() == old(self).chunk_size_spec(),
            old(self).dead_spec() ==> r is None && *final(self) == *old(self),
            !old(self).dead_spec() ==> {
                let lay = old(self).layout_spec();
                let lin = dot(old(self).counter_spec(), lay.strides_spec());
                if lin + old(self).chunk_size_spec() > lay.data_spec().len() {
                    r is None && final(self).dead_spec()
                } else {
                    &&& r matches Some(chunk) && chunk@ == lay.data_spec().subrange(
                        lin as int,
                        lin + old(self).chunk_size_spec(),
                    )
                    &&& final(self).counter_spec() == odo_counter(
                        old(self).counter_spec(),
                        old(self).steps_spec(),
                        lay.shape_spec(),
                        lay.shape_spec().len() - 1,
                    )
                    &&& final(self).dead_spec() == odo_dead(
                        old(self).counter_spec(),
                        old(self).steps_spec(),
                        lay.shape_spec(),
                        lay.shape_spec().len() - 1,
                    )
                }
            },
    {
        if self.dead {
            return None;
        }
        let ghost sh = self.layout.shape_spec();
        let ghost steps0 = self.step_sizes@;
        let ghost c0 = self.counter@;
        let lin = self.layout.linear_index(&self.counter);
        let dl = self.layout.data_len();
        if self.chunk_size > dl - lin {
            self.dead = true;
            return None;
        }
        let chunk = self.layout.chunk_at(&self.counter, self.chunk_size);
        let shape = self.layout.shape();
        let mut a: usize = shape.len();
        while a > 0
            invariant
                shape@ == sh,
                self.layout == old(self).layout,
                self.step_sizes@ == steps0,
                self.dead == false,
                self.chunk_size == old(self).chunk_size,
                self.counter@.len() == sh.len(),
                steps0.len() == sh.len(),
                0 <= a <= sh.len(),
                forall|k: int| 0 <= k < sh.len() ==> self.counter@[k] < sh[k],
                forall|k: int| a <= k < sh.len() ==> self.counter@[k] == 0,
                odo_counter(c0, steps0, sh, sh.len() - 1) == odo_counter(
                    self.counter@,
                    steps0,
                    sh,
                    a as int - 1,
                ),
                odo_dead(c0, steps0, sh, sh.len() - 1) == odo_dead(
                    self.counter@,
                    steps0,
                    sh,
                    a as int - 1,
                ),
            decreases a,
        {
            a = a - 1;
            let bound = shape[a];
            let step = self.step_sizes[a];
            let digit = self.counter[a];
            if step >= bound - digit {
                self.counter.set(a, 0);
            } else {
                let ghost cb = self.counter@;
                self.counter.set(a, digit + step);
                proof {
                    assert(cb[a as int] + steps0[a as int] < sh[a as int]);
                    assert(odo_counter(cb, steps0, sh, a as int) == cb.update(
                        a as int,
                        (cb[a as int] + steps0[a as int]) as usize,
                    ));
                    assert(odo_dead(cb, steps0, sh, a as int) == false);
                }
                return Some(chunk);
            }
        }
        self.dead = true;
        Some(chunk)
    }
}

} // verus!
