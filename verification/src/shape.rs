//! Shape algebra: descriptors of tensor shapes and the relations between
//! them (compatibility, broadcasting, reduction, transposition) together
//! with row-major stride computation.
//!
//! A shape descriptor is a vector of [`Dim`] values, one per axis,
//! innermost last.  Every relation is a spec function over sequences with
//! an executable counterpart proved against it.

use vstd::prelude::*;

verus! {

/// One axis of a shape descriptor: a size fixed ahead of time or a dynamic
/// placeholder resolved when a tensor is built.
#[derive(Clone, Copy, PartialEq, Eq, Structural, Debug)]
pub enum Dim {
    Fixed(usize),
    Dyn,
}

/// A fixed axis matches exactly its size; a dynamic axis matches any size.
pub open spec fn dim_matches(d: Dim, n: usize) -> bool {
    match d {
        Dim::Fixed(k) => k == n,
        Dim::Dyn => true,
    }
}

/// Every axis of the descriptor is a fixed size.
pub open spec fn all_fixed(s: Seq<Dim>) -> bool {
    forall|i: int| 0 <= i < s.len() ==> s[i] is Fixed
}

/// The sizes of a fully fixed descriptor (dynamic axes read as 0).
pub open spec fn fixed_sizes(s: Seq<Dim>) -> Seq<usize> {
    Seq::new(
        s.len(),
        |i: int|
            match s[i] {
                Dim::Fixed(k) => k,
                Dim::Dyn => 0,
            },
    )
}

/// A runtime shape is compatible with a descriptor when the ranks agree and
/// every axis matches.
pub open spec fn runtime_compat_spec(desc: Seq<Dim>, shape: Seq<usize>) -> bool {
    &&& desc.len() == shape.len()
    &&& forall|i: int| 0 <= i < desc.len() ==> dim_matches(desc[i], shape[i])
}

/// Product of the sizes from axis `i` (inclusive) to the end.
pub open spec fn suffix_product(shape: Seq<usize>, i: int) -> nat
    recommends
        0 <= i <= shape.len(),
    decreases shape.len() - i,
{
    if i < 0 || i >= shape.len() {
        1
    } else {
        (shape[i] * suffix_product(shape, i + 1)) as nat
    }
}

/// Total number of elements described by a shape.
pub open spec fn shape_product(shape: Seq<usize>) -> nat {
    suffix_product(shape, 0)
}

/// Every suffix product of the shape fits in a `usize`, so strides and the
/// element count can be computed without overflow.
pub open spec fn strides_fit(shape: Seq<usize>) -> bool {
    forall|i: int| 0 <= i <= shape.len() ==> #[trigger] suffix_product(shape, i) <= usize::MAX
}

/// `strides` are the row-major strides of `shape`: each axis strides by the
/// product of the sizes of the axes inside it.
pub open spec fn is_row_major(strides: Seq<usize>, shape: Seq<usize>) -> bool {
    &&& strides.len() == shape.len()
    &&& forall|a: int| 0 <= a < shape.len() ==> #[trigger] strides[a] == suffix_product(shape, a + 1)
}

/// The row-major strides of a shape as a sequence.
pub open spec fn row_major(shape: Seq<usize>) -> Seq<usize> {
    Seq::new(shape.len(), |a: int| (suffix_product(shape, a + 1) as usize))
}

/// When the suffix products fit a `usize`, [`row_major`] satisfies
/// [`is_row_major`].
pub proof fn lemma_row_major_is_row_major(shape: Seq<usize>)
    requires
        strides_fit(shape),
    ensures
        is_row_major(row_major(shape), shape),
{
    assert forall|a: int| 0 <= a < shape.len() implies #[trigger] row_major(shape)[a]
        == suffix_product(shape, a + 1) by {
        assert(suffix_product(shape, a + 1) <= usize::MAX);
    }
}

/// Two axes are compatible when they are equal or at least one is dynamic.
pub open spec fn same_dims(a: Dim, b: Dim) -> bool {
    a is Dyn || b is Dyn || a == b
}

/// Two descriptors are compatible (`Same`): equal rank, compatible axes.
pub open spec fn shapes_same(a: Seq<Dim>, b: Seq<Dim>) -> bool {
    &&& a.len() == b.len()
    &&& forall|i: int| 0 <= i < a.len() ==> same_dims(a[i], b[i])
}

/// An axis may broadcast to another when they are compatible or either one
/// is exactly size 1.
pub open spec fn dim_broadcastable(a: Dim, b: Dim) -> bool {
    same_dims(a, b) || a == Dim::Fixed(1usize) || b == Dim::Fixed(1usize)
}

/// A descriptor broadcasts to a target of equal or higher rank when the
/// axes, aligned at the innermost end, are pairwise broadcastable.
pub open spec fn shapes_broadcast(a: Seq<Dim>, b: Seq<Dim>) -> bool {
    &&& a.len() <= b.len()
    &&& forall|i: int|
        0 <= i < a.len() ==> dim_broadcastable(
            #[trigger] a[a.len() - 1 - i],
            b[b.len() - 1 - i],
        )
}

/// Runtime counterpart of [`shapes_broadcast`] on resolved sizes.
pub open spec fn sizes_broadcast(a: Seq<usize>, b: Seq<usize>) -> bool {
    &&& a.len() <= b.len()
    &&& forall|i: int|
        0 <= i < a.len() ==> {
            let x = #[trigger] a[a.len() - 1 - i];
            let y = b[b.len() - 1 - i];
            x == y || x == 1 || y == 1
        }
}

/// The representative of two compatible axes: the fixed side wins.
pub open spec fn repr_dim(a: Dim, b: Dim) -> Dim {
    if a is Fixed {
        a
    } else {
        b
    }
}

/// The representative of two compatible descriptors, axis by axis.
pub open spec fn repr_dims(a: Seq<Dim>, b: Seq<Dim>) -> Seq<Dim> {
    Seq::new(a.len(), |i: int| repr_dim(a[i], b[i]))
}

/// A sequence reversed.
pub open spec fn rev_seq<A>(s: Seq<A>) -> Seq<A> {
    Seq::new(s.len(), |i: int| s[s.len() - 1 - i])
}

/// Ceiling division, used by strided sub-sampling.
pub open spec fn ceil_div(n: usize, k: usize) -> int
    recommends
        k > 0,
{
    (n + k - 1) / (k as int)
}

/// Computes the row-major strides of `shape` in place, replacing each size
/// with the product of the sizes inside it.
pub fn intrinsic_strides_in_place(shape: Vec<usize>) -> (r: Vec<usize>)
    requires
        strides_fit(shape@),
    ensures
        is_row_major(r@, shape@),
{
    let ghost orig = shape@;
    let mut strides = shape;
    let mut product: usize = 1;
    let mut j: usize = strides.len();
    while j > 0
        invariant
            strides@.len() == orig.len(),
            0 <= j <= orig.len(),
            strides_fit(orig),
            product == suffix_product(orig, j as int),
            forall|k: int| 0 <= k < j ==> strides@[k] == orig[k],
            forall|k: int| j <= k < orig.len() ==> #[trigger] strides@[k] == suffix_product(
                orig,
                k + 1,
            ),
        decreases j,
    {
        j = j - 1;
        let tmp = product;
        proof {
            assert(strides@[j as int] == orig[j as int]);
            assert(suffix_product(orig, j as int) == (orig[j as int] * suffix_product(
                orig,
                j as int + 1,
            )) as nat);
            assert(suffix_product(orig, j as int) <= usize::MAX);
            let p: int = product as int;
            let d: int = orig[j as int] as int;
            assert(p * d == d * p) by (nonlinear_arith);
            assert(product * strides@[j as int] == suffix_product(orig, j as int));
        }
        product = product * strides[j];
        strides.set(j, tmp);
    }
    strides
}

/// Number of elements of a runtime shape: the product of all sizes.
pub fn num_elements_of(shape: &Vec<usize>) -> (r: usize)
    requires
        strides_fit(shape@),
    ensures
        r == shape_product(shape@),
{
    let mut product: usize = 1;
    let mut j: usize = shape.len();
    while j > 0
        invariant
            0 <= j <= shape@.len(),
            strides_fit(shape@),
            product == suffix_product(shape@, j as int),
        decreases j,
    {
        j = j - 1;
        proof {
            assert(suffix_product(shape@, j as int) == (shape@[j as int] * suffix_product(
                shape@,
                j as int + 1,
            )) as nat);
            assert(suffix_product(shape@, j as int) <= usize::MAX);
            let p: int = product as int;
            let d: int = shape@[j as int] as int;
            assert(p * d == d * p) by (nonlinear_arith);
            assert(product * shape@[j as int] == suffix_product(shape@, j as int));
        }
        product = product * shape[j];
    }
    product
}

/// Number of elements of a runtime shape, detecting overflow: `Some`
/// exactly when every suffix product fits a `usize`.
pub fn checked_num_elements(shape: &Vec<usize>) -> (r: Option<usize>)
    ensures
        match r {
            Some(n) => strides_fit(shape@) && n == shape_product(shape@),
            None => !strides_fit(shape@),
        },
{
    let mut product: usize = 1;
    let mut j: usize = shape.len();
    while j > 0
        invariant
            0 <= j <= shape@.len(),
            product == suffix_product(shape@, j as int),
            forall|i: int| j <= i <= shape@.len() ==> #[trigger] suffix_product(shape@, i)
                <= usize::MAX,
        decreases j,
    {
        j = j - 1;
        proof {
            assert(suffix_product(shape@, j as int) == (shape@[j as int] * suffix_product(
                shape@,
                j as int + 1,
            )) as nat);
            let p: int = product as int;
            let d: int = shape@[j as int] as int;
            assert(p * d == d * p) by (nonlinear_arith);
        }
        match product.checked_mul(shape[j]) {
            Some(p) => {
                product = p;
            },
            None => {
                assert(suffix_product(shape@, j as int) > usize::MAX);
                return None;
            },
        }
    }
    Some(product)
}

/// Checks a runtime shape against a descriptor for compatibility.
pub fn runtime_compat(desc: &Vec<Dim>, shape: &Vec<usize>) -> (r: bool)
    ensures
        r == runtime_compat_spec(desc@, shape@),
{
    if desc.len() != shape.len() {
        return false;
    }
    let mut i: usize = 0;
    let mut ok = true;
    while i < desc.len()
        invariant
            desc@.len() == shape@.len(),
            0 <= i <= desc@.len(),
            ok == forall|j: int| 0 <= j < i ==> dim_matches(desc@[j], shape@[j]),
        decreases desc@.len() - i,
    {
        let matches_here = match desc[i] {
            Dim::Fixed(k) => k == shape[i],
            Dim::Dyn => true,
        };
        if !matches_here {
            ok = false;
        }
        i = i + 1;
    }
    ok
}

/// The runtime sizes of a fully fixed descriptor.
pub fn to_runtime_vector(desc: &Vec<Dim>) -> (r: Vec<usize>)
    requires
        all_fixed(desc@),
    ensures
        r@ == fixed_sizes(desc@),
{
    let mut out: Vec<usize> = Vec::new();
    let mut i: usize = 0;
    while i < desc.len()
        invariant
            all_fixed(desc@),
            0 <= i <= desc@.len(),
            out@.len() == i,
            forall|j: int| 0 <= j < i ==> out@[j] == fixed_sizes(desc@)[j],
        decreases desc@.len() - i,
    {
        match desc[i] {
            Dim::Fixed(k) => {
                out.push(k);
            },
            Dim::Dyn => {
                out.push(0);
            },
        }
        i = i + 1;
    }
    assert(out@ =~= fixed_sizes(desc@));
    out
}

/// Row-major strides of a fully fixed descriptor.
pub fn static_strides(desc: &Vec<Dim>) -> (r: Vec<usize>)
    requires
        all_fixed(desc@),
        strides_fit(fixed_sizes(desc@)),
    ensures
        is_row_major(r@, fixed_sizes(desc@)),
{
    let sizes = to_runtime_vector(desc);
    intrinsic_strides_in_place(sizes)
}

/// Decides the `Same` relation on two descriptors.
pub fn same(a: &Vec<Dim>, b: &Vec<Dim>) -> (r: bool)
    ensures
        r == shapes_same(a@, b@),
{
    if a.len() != b.len() {
        return false;
    }
    let mut i: usize = 0;
    let mut ok = true;
    while i < a.len()
        invariant
            a@.len() == b@.len(),
            0 <= i <= a@.len(),
            ok == forall|j: int| 0 <= j < i ==> same_dims(a@[j], b@[j]),
        decreases a@.len() - i,
    {
        let here = match (a[i], b[i]) {
            (Dim::Dyn, _) => true,
            (_, Dim::Dyn) => true,
            (Dim::Fixed(x), Dim::Fixed(y)) => x == y,
        };
        if !here {
            ok = false;
        }
        i = i + 1;
    }
    ok
}

/// Decides whether descriptor `a` broadcasts to target descriptor `b`.
pub fn broadcast_compat(a: &Vec<Dim>, b: &Vec<Dim>) -> (r: bool)
    ensures
        r == shapes_broadcast(a@, b@),
{
    if a.len() > b.len() {
        return false;
    }
    let mut i: usize = 0;
    let mut ok = true;
    while i < a.len()
        invariant
            a@.len() <= b@.len(),
            0 <= i <= a@.len(),
            ok == forall|j: int|
                0 <= j < i ==> dim_broadcastable(
                    #[trigger] a@[a@.len() - 1 - j],
                    b@[b@.len() - 1 - j],
                ),
        decreases a@.len() - i,
    {
        let da = a[a.len() - 1 - i];
        let db = b[b.len() - 1 - i];
        let here = match (da, db) {
            (Dim::Dyn, _) => true,
            (_, Dim::Dyn) => true,
            (Dim::Fixed(x), Dim::Fixed(y)) => x == y || x == 1 || y == 1,
        };
        if !here {
            ok = false;
        }
        i = i + 1;
    }
    ok
}

/// Decides whether runtime shape `a` broadcasts to runtime shape `b`.
pub fn sizes_broadcast_check(a: &Vec<usize>, b: &Vec<usize>) -> (r: bool)
    ensures
        r == sizes_broadcast(a@, b@),
{
    if a.len() > b.len() {
        return false;
    }
    let mut i: usize = 0;
    let mut ok = true;
    while i < a.len()
        invariant
            a@.len() <= b@.len(),
            0 <= i <= a@.len(),
            ok == forall|j: int|
                0 <= j < i ==> {
                    let x = #[trigger] a@[a@.len() - 1 - j];
                    let y = b@[b@.len() - 1 - j];
                    x == y || x == 1 || y == 1
                },
        decreases a@.len() - i,
    {
        let x = a[a.len() - 1 - i];
        let y = b[b.len() - 1 - i];
        if !(x == y || x == 1 || y == 1) {
            ok = false;
        }
        i = i + 1;
    }
    ok
}

/// Decides whether two fully fixed descriptors describe the same total
/// element count, whatever their per-axis shapes; this gates reshaping.
pub fn same_num_elements(a: &Vec<Dim>, b: &Vec<Dim>) -> (r: bool)
    requires
        all_fixed(a@),
        all_fixed(b@),
        strides_fit(fixed_sizes(a@)),
        strides_fit(fixed_sizes(b@)),
    ensures
        r == (shape_product(fixed_sizes(a@)) == shape_product(fixed_sizes(b@))),
{
    let va = to_runtime_vector(a);
    let vb = to_runtime_vector(b);
    let na = num_elements_of(&va);
    let nb = num_elements_of(&vb);
    na == nb
}

/// The descriptor after reducing `axis` to size 1.
pub fn reduction(desc: &Vec<Dim>, axis: usize) -> (r: Vec<Dim>)
    requires
        axis < desc@.len(),
    ensures
        r@ == desc@.update(axis as int, Dim::Fixed(1usize)),
{
    let mut out = clone_dims(desc);
    out.set(axis, Dim::Fixed(1));
    out
}

/// A copy of a descriptor.
pub fn clone_dims(desc: &Vec<Dim>) -> (r: Vec<Dim>)
    ensures
        r@ == desc@,
{
    let mut out: Vec<Dim> = Vec::new();
    let mut i: usize = 0;
    while i < desc.len()
        invariant
            0 <= i <= desc@.len(),
            out@ == desc@.take(i as int),
        decreases desc@.len() - i,
    {
        out.push(desc[i]);
        i = i + 1;
    }
    assert(out@ =~= desc@);
    out
}

/// A copy of a runtime shape.
pub fn clone_usizes(v: &Vec<usize>) -> (r: Vec<usize>)
    ensures
        r@ == v@,
{
    let mut out: Vec<usize> = Vec::new();
    let mut i: usize = 0;
    while i < v.len()
        invariant
            0 <= i <= v@.len(),
            out@ == v@.take(i as int),
        decreases v@.len() - i,
    {
        out.push(v[i]);
        i = i + 1;
    }
    assert(out@ =~= v@);
    out
}

/// A runtime shape or stride vector with its axes in reverse order.
pub fn rev_usizes(v: &Vec<usize>) -> (r: Vec<usize>)
    ensures
        r@ == rev_seq(v@),
{
    let mut out: Vec<usize> = Vec::new();
    let mut i: usize = 0;
    while i < v.len()
        invariant
            0 <= i <= v@.len(),
            out@.len() == i,
            forall|j: int| 0 <= j < i ==> out@[j] == v@[v@.len() - 1 - j],
        decreases v@.len() - i,
    {
        out.push(v[v.len() - 1 - i]);
        i = i + 1;
    }
    assert(out@ =~= rev_seq(v@));
    out
}

/// The descriptor with its axes in reverse order.
pub fn transpose_desc(desc: &Vec<Dim>) -> (r: Vec<Dim>)
    ensures
        r@ == rev_seq(desc@),
{
    let mut out: Vec<Dim> = Vec::new();
    let mut i: usize = 0;
    while i < desc.len()
        invariant
            0 <= i <= desc@.len(),
            out@.len() == i,
            forall|j: int| 0 <= j < i ==> out@[j] == desc@[desc@.len() - 1 - j],
        decreases desc@.len() - i,
    {
        out.push(desc[desc.len() - 1 - i]);
        i = i + 1;
    }
    assert(out@ =~= rev_seq(desc@));
    out
}

/// The representative of two compatible descriptors: wherever one side is
/// fixed and the other dynamic, the fixed size wins.
pub fn repr_shape(a: &Vec<Dim>, b: &Vec<Dim>) -> (r: Vec<Dim>)
    requires
        shapes_same(a@, b@),
    ensures
        r@ == repr_dims(a@, b@),
{
    let mut out: Vec<Dim> = Vec::new();
    let mut i: usize = 0;
    while i < a.len()
        invariant
            a@.len() == b@.len(),
            0 <= i <= a@.len(),
            out@.len() == i,
            forall|j: int| 0 <= j < i ==> out@[j] == repr_dim(a@[j], b@[j]),
        decreases a@.len() - i,
    {
        let d = match a[i] {
            Dim::Fixed(k) => Dim::Fixed(k),
            Dim::Dyn => b[i],
        };
        out.push(d);
        i = i + 1;
    }
    assert(out@ =~= repr_dims(a@, b@));
    out
}

/// Suffix products are monotone in the axis sizes.
pub proof fn lemma_suffix_product_le(s1: Seq<usize>, s2: Seq<usize>, k: int)
    requires
        s1.len() == s2.len(),
        forall|a: int| 0 <= a < s1.len() ==> s1[a] <= s2[a],
        0 <= k <= s1.len(),
    ensures
        suffix_product(s1, k) <= suffix_product(s2, k),
    decreases s1.len() - k,
{
    if k < s1.len() {
        lemma_suffix_product_le(s1, s2, k + 1);
        assert(s1[k] * suffix_product(s1, k + 1) <= s2[k] * suffix_product(s2, k + 1))
            by (nonlinear_arith)
            requires
                s1[k] <= s2[k],
                suffix_product(s1, k + 1) <= suffix_product(s2, k + 1),
                s1[k] >= 0,
                suffix_product(s1, k + 1) >= 0,
        ;
    }
}

/// Shape round trip: a fully fixed descriptor always accepts its own
/// runtime sizes, and its static strides are the row-major cumulative
/// products of those sizes.
pub proof fn lemma_static_shape_round_trip(s: Seq<Dim>)
    requires
        all_fixed(s),
        strides_fit(fixed_sizes(s)),
    ensures
        runtime_compat_spec(s, fixed_sizes(s)),
        is_row_major(row_major(fixed_sizes(s)), fixed_sizes(s)),
{
    assert forall|i: int| 0 <= i < s.len() implies dim_matches(s[i], fixed_sizes(s)[i]) by {
        assert(s[i] is Fixed);
    }
    lemma_row_major_is_row_major(fixed_sizes(s));
}

} // verus!
