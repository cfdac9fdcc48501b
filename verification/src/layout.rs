//! The mathematical model of a view's layout.
//!
//! A layout is a shape (per-axis extents), strides (per-axis element steps),
//! a format tag and a base offset. The model maps every logical multi-index
//! to a linear buffer offset; well-formedness of a layout says that every
//! such offset stays inside the buffer.

use vstd::prelude::*;
use vstd::arithmetic::mul::*;
use vstd::arithmetic::div_mod::{
    lemma_mod_division_less_than_divisor, lemma_mod_add_multiples_vanish, lemma_small_mod,
};

verus! {

/// Element count of a shape: the product of its extents.
pub open spec fn seq_product(s: Seq<usize>) -> int
    decreases s.len(),
{
    if s.len() == 0 {
        1
    } else {
        s[0] * seq_product(s.skip(1))
    }
}

/// Every suffix product of the shape fits in a `usize`; the machine limit
/// under which strides and element counts can be computed at all.
pub open spec fn suffix_products_fit(s: Seq<usize>) -> bool {
    forall|j: int| 0 <= j <= s.len() ==> #[trigger] seq_product(s.skip(j)) <= usize::MAX
}

pub proof fn lemma_seq_product_nonneg(s: Seq<usize>)
    ensures
        seq_product(s) >= 0,
    decreases s.len(),
{
    if s.len() > 0 {
        lemma_seq_product_nonneg(s.skip(1));
        lemma_mul_nonnegative(s[0] as int, seq_product(s.skip(1)));
    }
}

/// Peeling one axis off a suffix product: the product over `s[j..]` is
/// `s[j]` times the product over `s[j+1..]`.
pub proof fn lemma_seq_product_skip_peel(s: Seq<usize>, j: int)
    requires
        0 <= j < s.len(),
    ensures
        seq_product(s.skip(j)) == s[j] * seq_product(s.skip(j + 1)),
{
    assert(s.skip(j).skip(1) =~= s.skip(j + 1));
    assert(s.skip(j)[0] == s[j]);
}

/// Row-major strides for a shape, computed right to left: the last axis has
/// stride 1, and each preceding axis steps by the product of the extents to
/// its right.
pub fn get_strides_from_shape(shape: &Vec<usize>) -> (strides: Vec<usize>)
    requires
        suffix_products_fit(shape@),
    ensures
        strides@.len() == shape@.len(),
        forall|i: int| 0 <= i < shape@.len() ==> #[trigger] strides@[i] == seq_product(
            shape@.skip(i + 1),
        ),
{
    let n = shape.len();
    let mut strides: Vec<usize> = Vec::new();
    let mut m: usize = 1;
    let mut j: usize = n;
    while j > 0
        invariant
            j <= n,
            n == shape@.len(),
            m == seq_product(shape@.skip(j as int)),
            strides@.len() == n - j,
            forall|k: int| 0 <= k < n - j ==> #[trigger] strides@[k] == seq_product(
                shape@.skip(j + 1 + k),
            ),
            suffix_products_fit(shape@),
        decreases j,
    {
        j = j - 1;
        strides.insert(0, m);
        proof {
            lemma_seq_product_skip_peel(shape@, j as int);
            lemma_mul_is_commutative(m as int, shape@[j as int] as int);
            assert(m * shape@[j as int] == seq_product(shape@.skip(j as int)));
            assert(seq_product(shape@.skip(j as int)) <= usize::MAX);
        }
        m = m * shape[j];
    }
    strides
}

/// The addressing mode of a view, one of three kinds.
///
/// `Dense` resolves a logical index directly; `Offsets` first shifts each
/// axis by a per-axis starting offset; `Picks` replaces each axis's index by
/// a lookup into an arbitrary per-axis list of buffer coordinates.
pub enum FormatModel {
    Dense,
    Offsets(Seq<usize>),
    Picks(Seq<Seq<usize>>),
}

/// The buffer coordinate that logical index `idx` selects on `axis`.
pub open spec fn axis_coord(fmt: FormatModel, axis: int, idx: int) -> int {
    match fmt {
        FormatModel::Dense => idx,
        FormatModel::Offsets(offsets) => offsets[axis] + idx,
        FormatModel::Picks(picks) => picks[axis][idx] as int,
    }
}

/// The per-axis buffer coordinates that a logical multi-index resolves to.
pub open spec fn coords_of(fmt: FormatModel, idx: Seq<int>) -> Seq<int> {
    Seq::new(idx.len(), |i: int| axis_coord(fmt, i, idx[i]))
}

/// Sum of per-axis buffer coordinates weighted by the strides.
pub open spec fn weighted_sum(strides: Seq<usize>, coords: Seq<int>) -> int
    decreases coords.len(),
{
    if coords.len() == 0 || strides.len() != coords.len() {
        0
    } else {
        weighted_sum(strides.drop_last(), coords.drop_last()) + strides.last() * coords.last()
    }
}

/// The linear buffer offset (before any base) that a logical multi-index
/// resolves to; also defined on index prefixes, which resolve over the
/// leading axes alone.
pub open spec fn offset_of(fmt: FormatModel, strides: Seq<usize>, idx: Seq<int>) -> int {
    weighted_sum(strides.take(idx.len() as int), coords_of(fmt, idx))
}

/// A multi-index lies within a shape: one entry per axis, each within its
/// axis's extent.
pub open spec fn valid_index(shape: Seq<usize>, idx: Seq<int>) -> bool {
    &&& idx.len() == shape.len()
    &&& forall|i: int| 0 <= i < idx.len() ==> 0 <= #[trigger] idx[i] < shape[i]
}

/// Wraparound normalization of one signed index: `-1` selects the last
/// element of the axis.
pub open spec fn norm_index(idx: int, extent: int) -> int {
    (idx + extent) % extent
}

/// Wraparound normalization of a whole signed multi-index against a shape.
pub open spec fn norm_indices(idx: Seq<int>, shape: Seq<usize>) -> Seq<int> {
    Seq::new(idx.len(), |i: int| norm_index(idx[i], shape[i] as int))
}

/// A complete layout descriptor: what a handle or view knows about how its
/// buffer is addressed.
pub struct Layout {
    pub shape: Seq<usize>,
    pub strides: Seq<usize>,
    pub fmt: FormatModel,
    pub base: int,
}

/// The format's payload agrees with the shape: offsets and pick lists come
/// one per axis, each pick list is exactly its axis's extent long, and a
/// per-axis offset never pushes an in-extent index past `usize`.
pub open spec fn fmt_ok(fmt: FormatModel, shape: Seq<usize>) -> bool {
    match fmt {
        FormatModel::Dense => true,
        FormatModel::Offsets(offsets) => {
            &&& offsets.len() == shape.len()
            &&& forall|i: int| 0 <= i < shape.len() ==> #[trigger] offsets[i] + shape[i]
                <= usize::MAX
        },
        FormatModel::Picks(picks) => {
            &&& picks.len() == shape.len()
            &&& forall|i: int| 0 <= i < shape.len() ==> #[trigger] picks[i].len() == shape[i]
        },
    }
}

/// Every prefix of a valid multi-index resolves to at most `limit`: the
/// running offset can never leave the buffer, not even part-way through a
/// resolution.
pub open spec fn partials_bounded(l: Layout, limit: int) -> bool {
    forall|j: int, idx: Seq<int>|
        0 <= j <= l.shape.len() && #[trigger] valid_index(l.shape.take(j), idx) ==> l.base
            + offset_of(l.fmt, l.strides, idx) <= limit
}

/// Every valid multi-index resolves to a buffer offset strictly below
/// `limit`: the element it names exists.
pub open spec fn offsets_in_bounds(l: Layout, limit: int) -> bool {
    forall|idx: Seq<int>| #[trigger]
        valid_index(l.shape, idx) ==> l.base + offset_of(l.fmt, l.strides, idx) < limit
}

/// Well-formedness of a layout over a buffer of `limit` elements.
pub open spec fn layout_wf(l: Layout, limit: int) -> bool {
    &&& l.strides.len() == l.shape.len()
    &&& fmt_ok(l.fmt, l.shape)
    &&& suffix_products_fit(l.shape)
    &&& 0 <= l.base <= limit
    &&& partials_bounded(l, limit)
    &&& offsets_in_bounds(l, limit)
}

pub proof fn lemma_weighted_sum_nonneg(strides: Seq<usize>, coords: Seq<int>)
    requires
        strides.len() == coords.len(),
        forall|i: int| 0 <= i < coords.len() ==> 0 <= #[trigger] coords[i],
    ensures
        weighted_sum(strides, coords) >= 0,
    decreases coords.len(),
{
    if coords.len() > 0 {
        lemma_weighted_sum_nonneg(strides.drop_last(), coords.drop_last());
        lemma_mul_nonnegative(strides.last() as int, coords.last());
    }
}

/// Extending a weighted sum by one axis adds that axis's term.
pub proof fn lemma_weighted_sum_take_step(strides: Seq<usize>, coords: Seq<int>, j: int)
    requires
        0 <= j,
        j + 1 <= strides.len(),
        j + 1 <= coords.len(),
    ensures
        weighted_sum(strides.take(j + 1), coords.take(j + 1)) == weighted_sum(
            strides.take(j),
            coords.take(j),
        ) + strides[j] * coords[j],
{
    assert(strides.take(j + 1).drop_last() =~= strides.take(j));
    assert(coords.take(j + 1).drop_last() =~= coords.take(j));
    assert(strides.take(j + 1).last() == strides[j]);
    assert(coords.take(j + 1).last() == coords[j]);
}

/// A weighted sum can also be peeled from the front.
pub proof fn lemma_weighted_sum_skip_first(strides: Seq<usize>, coords: Seq<int>)
    requires
        strides.len() == coords.len(),
        coords.len() > 0,
    ensures
        weighted_sum(strides, coords) == strides[0] * coords[0] + weighted_sum(
            strides.skip(1),
            coords.skip(1),
        ),
    decreases coords.len(),
{
    assert(weighted_sum(strides, coords) == weighted_sum(strides.drop_last(), coords.drop_last())
        + strides.last() * coords.last());
    if coords.len() == 1 {
        assert(strides.drop_last().len() == 0);
        assert(strides.skip(1).len() == 0);
        assert(weighted_sum(strides.skip(1), coords.skip(1)) == 0);
        assert(strides.last() == strides[0]);
        assert(coords.last() == coords[0]);
    } else {
        lemma_weighted_sum_skip_first(strides.drop_last(), coords.drop_last());
        assert(strides.skip(1).len() == coords.skip(1).len());
        assert(weighted_sum(strides.skip(1), coords.skip(1)) == weighted_sum(
            strides.skip(1).drop_last(),
            coords.skip(1).drop_last(),
        ) + strides.skip(1).last() * coords.skip(1).last());
        assert(strides.drop_last().skip(1) =~= strides.skip(1).drop_last());
        assert(coords.drop_last().skip(1) =~= coords.skip(1).drop_last());
        assert(strides.skip(1).last() == strides.last());
        assert(coords.skip(1).last() == coords.last());
        assert(strides.drop_last()[0] == strides[0]);
        assert(coords.drop_last()[0] == coords[0]);
    }
}

/// Two weighted sums agree when they agree term by term.
pub proof fn lemma_weighted_sum_pointwise(
    s1: Seq<usize>,
    c1: Seq<int>,
    s2: Seq<usize>,
    c2: Seq<int>,
)
    requires
        s1.len() == c1.len(),
        s2.len() == c2.len(),
        c1.len() == c2.len(),
        forall|i: int| 0 <= i < c1.len() ==> #[trigger] (s1[i] * c1[i]) == s2[i] * c2[i],
    ensures
        weighted_sum(s1, c1) == weighted_sum(s2, c2),
    decreases c1.len(),
{
    if c1.len() > 0 {
        lemma_weighted_sum_pointwise(s1.drop_last(), c1.drop_last(), s2.drop_last(), c2.drop_last());
        assert(s1[c1.len() - 1] * c1[c1.len() - 1] == s2[c1.len() - 1] * c2[c1.len() - 1]);
    }
}

/// The strides are row-major dense strides for the shape.
pub open spec fn dense_strides_for(strides: Seq<usize>, shape: Seq<usize>) -> bool {
    &&& strides.len() == shape.len()
    &&& forall|i: int| 0 <= i < shape.len() ==> #[trigger] strides[i] as int == seq_product(
        shape.skip(i + 1),
    )
}

/// Bound on dense resolution of an index prefix: the offset over the first
/// `j` axes leaves room for one whole block of the remaining axes.
pub proof fn lemma_dense_partial_bound(shape: Seq<usize>, strides: Seq<usize>, idx: Seq<int>)
    requires
        dense_strides_for(strides, shape),
        idx.len() <= shape.len(),
        valid_index(shape.take(idx.len() as int), idx),
    ensures
        offset_of(FormatModel::Dense, strides, idx) >= 0,
        offset_of(FormatModel::Dense, strides, idx) + seq_product(shape.skip(idx.len() as int))
            <= seq_product(shape),
    decreases idx.len(),
{
    let j = idx.len() as int;
    let coords = coords_of(FormatModel::Dense, idx);
    assert(coords =~= idx);
    lemma_weighted_sum_nonneg(strides.take(j), idx);
    if j == 0 {
        assert(shape.skip(0) =~= shape);
    } else {
        let shape1 = shape.skip(1);
        let strides1 = strides.skip(1);
        let idx1 = idx.skip(1);
        assert forall|i: int| 0 <= i < shape1.len() implies #[trigger] strides1[i] as int
            == seq_product(shape1.skip(i + 1)) by {
            assert(shape1.skip(i + 1) =~= shape.skip(i + 2));
        }
        assert(valid_index(shape1.take(j - 1), idx1)) by {
            assert(shape1.take(j - 1) =~= shape.take(j).skip(1));
            assert forall|i: int| 0 <= i < idx1.len() implies 0 <= #[trigger] idx1[i]
                < shape1.take(j - 1)[i] by {
                assert(idx[i + 1] < shape.take(j)[i + 1]);
            }
        }
        lemma_dense_partial_bound(shape1, strides1, idx1);
        let p1 = seq_product(shape1);
        let pj = seq_product(shape.skip(j));
        let w1 = offset_of(FormatModel::Dense, strides1, idx1);
        assert(shape1.skip(j - 1) =~= shape.skip(j));
        assert(w1 + pj <= p1);
        // Front-peel the full weighted sum.
        lemma_weighted_sum_skip_first(strides.take(j), idx);
        assert(strides.take(j).skip(1) =~= strides1.take(j - 1));
        assert(idx.skip(1) =~= idx1);
        assert(coords_of(FormatModel::Dense, idx1) =~= idx1);
        assert(offset_of(FormatModel::Dense, strides, idx) == strides[0] * idx[0] + w1);
        // strides[0] is the whole block size of the remaining axes.
        assert(strides[0] as int == p1) by {
            assert(shape.skip(1) =~= shape1);
        }
        // (idx[0] + 1) * p1 <= shape[0] * p1
        lemma_seq_product_nonneg(shape1);
        lemma_mul_inequality(idx[0] + 1, shape[0] as int, p1);
        lemma_mul_is_distributive_add_other_way(p1, idx[0], 1);
        lemma_seq_product_skip_peel(shape, 0);
        assert(shape.skip(0) =~= shape);
        lemma_mul_is_commutative(shape[0] as int, p1);
        assert(strides[0] * idx[0] + p1 <= seq_product(shape)) by {
            lemma_mul_is_commutative(idx[0], p1);
        }
    }
}

/// A dense row-major layout over a buffer that holds at least one whole
/// block of elements is well formed.
pub proof fn lemma_dense_layout_wf(l: Layout, limit: int)
    requires
        l.fmt is Dense,
        l.base == 0,
        dense_strides_for(l.strides, l.shape),
        suffix_products_fit(l.shape),
        seq_product(l.shape) <= limit,
    ensures
        layout_wf(l, limit),
{
    lemma_seq_product_nonneg(l.shape);
    assert forall|j: int, idx: Seq<int>|
        0 <= j <= l.shape.len() && #[trigger] valid_index(l.shape.take(j), idx) implies l.base
        + offset_of(l.fmt, l.strides, idx) <= limit by {
        assert(idx.len() == j);
        lemma_dense_partial_bound(l.shape, l.strides, idx);
        lemma_seq_product_nonneg(l.shape.skip(j));
    }
    assert forall|idx: Seq<int>| #[trigger]
        valid_index(l.shape, idx) implies l.base + offset_of(l.fmt, l.strides, idx) < limit by {
        assert(l.shape.take(idx.len() as int) =~= l.shape);
        lemma_dense_partial_bound(l.shape, l.strides, idx);
        assert(l.shape.skip(idx.len() as int).len() == 0);
        assert(seq_product(l.shape.skip(idx.len() as int)) == 1);
    }
}

/// Shrinking a shape pointwise can only shrink its element count.
pub proof fn lemma_seq_product_le(s1: Seq<usize>, s2: Seq<usize>)
    requires
        s1.len() == s2.len(),
        forall|i: int| 0 <= i < s1.len() ==> #[trigger] s1[i] <= s2[i],
    ensures
        seq_product(s1) <= seq_product(s2),
    decreases s1.len(),
{
    if s1.len() > 0 {
        assert forall|i: int| 0 <= i < s1.skip(1).len() implies #[trigger] s1.skip(1)[i]
            <= s2.skip(1)[i] by {
            assert(s1[i + 1] <= s2[i + 1]);
        }
        lemma_seq_product_le(s1.skip(1), s2.skip(1));
        lemma_seq_product_nonneg(s1.skip(1));
        lemma_mul_upper_bound(s1[0] as int, s2[0] as int, seq_product(s1.skip(1)), seq_product(s2.skip(1)));
    }
}

/// On some axis of `dst`, logical index `k`'s weighted term equals the
/// weighted term of a coordinate that is valid on the source layout.
pub open spec fn coord_simulated(src: Layout, dst: Layout, i: int, k: int) -> bool {
    exists|c: int|
        0 <= c < src.shape[i] && #[trigger] (src.strides[i] * c) == dst.strides[i] * axis_coord(
            dst.fmt,
            i,
            k,
        )
}

/// A layout is well formed whenever each of its axis coordinates can be
/// traded, term by term, for a coordinate that is valid on a well-formed
/// dense source layout over the same buffer.
pub proof fn lemma_layout_wf_by_simulation(src: Layout, dst: Layout, limit: int)
    requires
        layout_wf(src, limit),
        src.fmt is Dense,
        src.base == 0,
        dst.base == 0,
        dst.strides.len() == dst.shape.len(),
        dst.shape.len() == src.shape.len(),
        fmt_ok(dst.fmt, dst.shape),
        suffix_products_fit(dst.shape),
        forall|i: int, k: int|
            0 <= i < dst.shape.len() && 0 <= k < dst.shape[i] ==> #[trigger] coord_simulated(
                src,
                dst,
                i,
                k,
            ),
    ensures
        layout_wf(dst, limit),
{
    let pick_coord = |i: int, k: int|
        choose|c: int|
            0 <= c < src.shape[i] && #[trigger] (src.strides[i] * c) == dst.strides[i] * axis_coord(
                dst.fmt,
                i,
                k,
            );
    assert forall|j: int, idx: Seq<int>|
        0 <= j <= dst.shape.len() && #[trigger] valid_index(dst.shape.take(j), idx) implies dst.base
        + offset_of(dst.fmt, dst.strides, idx) <= limit by {
        let d = Seq::new(idx.len(), |i: int| pick_coord(i, idx[i]));
        assert forall|i: int| 0 <= i < d.len() implies 0 <= #[trigger] d[i]
            < src.shape.take(j)[i] && dst.strides[i] * axis_coord(dst.fmt, i, idx[i])
            == src.strides[i] * d[i] by {
            assert(0 <= idx[i] < dst.shape.take(j)[i]);
            assert(coord_simulated(src, dst, i, idx[i]));
        }
        assert(valid_index(src.shape.take(j), d));
        assert forall|i: int| 0 <= i < idx.len() implies #[trigger] (dst.strides.take(j)[i]
            * coords_of(dst.fmt, idx)[i]) == src.strides.take(j)[i] * coords_of(
            FormatModel::Dense,
            d,
        )[i] by {
            assert(coords_of(dst.fmt, idx)[i] == axis_coord(dst.fmt, i, idx[i]));
            assert(coords_of(FormatModel::Dense, d)[i] == d[i]);
        }
        lemma_weighted_sum_pointwise(
            dst.strides.take(j),
            coords_of(dst.fmt, idx),
            src.strides.take(j),
            coords_of(FormatModel::Dense, d),
        );
        assert(offset_of(dst.fmt, dst.strides, idx) == offset_of(FormatModel::Dense, src.strides, d));
    }
    assert forall|idx: Seq<int>| #[trigger]
        valid_index(dst.shape, idx) implies dst.base + offset_of(dst.fmt, dst.strides, idx)
        < limit by {
        let j = dst.shape.len() as int;
        let d = Seq::new(idx.len(), |i: int| pick_coord(i, idx[i]));
        assert forall|i: int| 0 <= i < d.len() implies 0 <= #[trigger] d[i] < src.shape[i]
            && dst.strides[i] * axis_coord(dst.fmt, i, idx[i]) == src.strides[i] * d[i] by {
            assert(0 <= idx[i] < dst.shape[i]);
            assert(coord_simulated(src, dst, i, idx[i]));
        }
        assert(valid_index(src.shape, d));
        assert forall|i: int| 0 <= i < idx.len() implies #[trigger] (dst.strides.take(j)[i]
            * coords_of(dst.fmt, idx)[i]) == src.strides.take(j)[i] * coords_of(
            FormatModel::Dense,
            d,
        )[i] by {
            assert(coords_of(dst.fmt, idx)[i] == axis_coord(dst.fmt, i, idx[i]));
            assert(coords_of(FormatModel::Dense, d)[i] == d[i]);
        }
        lemma_weighted_sum_pointwise(
            dst.strides.take(j),
            coords_of(dst.fmt, idx),
            src.strides.take(j),
            coords_of(FormatModel::Dense, d),
        );
        assert(offset_of(dst.fmt, dst.strides, idx) == offset_of(FormatModel::Dense, src.strides, d));
    }
}

/// A normalized index stays within its axis.
pub proof fn lemma_norm_index_range(idx: int, extent: int)
    requires
        extent > 0,
    ensures
        0 <= norm_index(idx, extent) < extent,
{
    lemma_mod_division_less_than_divisor(idx + extent, extent);
}

/// An index already within the axis is left unchanged by normalization.
pub proof fn lemma_norm_index_in_range(idx: int, extent: int)
    requires
        extent > 0,
        0 <= idx < extent,
    ensures
        norm_index(idx, extent) == idx,
{
    lemma_mod_add_multiples_vanish(idx, extent);
    lemma_small_mod(idx as nat, extent as nat);
}

/// A negative index within one wrap selects from the end of the axis:
/// `-1` is the last element, `-extent` the first.
pub proof fn lemma_norm_index_negative(idx: int, extent: int)
    requires
        extent > 0,
        -extent <= idx < 0,
    ensures
        norm_index(idx, extent) == extent + idx,
{
    lemma_small_mod((idx + extent) as nat, extent as nat);
}

/// The addressing mode that remains after the leading axis is peeled off.
pub open spec fn fmt_tail(fmt: FormatModel) -> FormatModel {
    match fmt {
        FormatModel::Dense => FormatModel::Dense,
        FormatModel::Offsets(offsets) => FormatModel::Offsets(offsets.skip(1)),
        FormatModel::Picks(picks) => FormatModel::Picks(picks.skip(1)),
    }
}

/// The layout of the sub-view at position `k` along the leading axis: the
/// base advances by `k`'s buffer coordinate times the leading stride, and
/// the remaining axes keep their extents, strides and format payloads.
pub open spec fn subview_layout(l: Layout, k: int) -> Layout {
    Layout {
        shape: l.shape.skip(1),
        strides: l.strides.skip(1),
        fmt: fmt_tail(l.fmt),
        base: l.base + l.strides[0] * axis_coord(l.fmt, 0, k),
    }
}

/// A single-axis resolution is just the leading term.
proof fn lemma_offset_of_single(fmt: FormatModel, strides: Seq<usize>, k: int)
    requires
        strides.len() >= 1,
    ensures
        offset_of(fmt, strides, seq![k]) == strides[0] * axis_coord(fmt, 0, k),
{
    let idx = seq![k];
    let cs = coords_of(fmt, idx);
    assert(cs.len() == 1);
    assert(cs[0] == axis_coord(fmt, 0, k));
    assert(weighted_sum(strides.take(1), cs) == weighted_sum(
        strides.take(1).drop_last(),
        cs.drop_last(),
    ) + strides.take(1).last() * cs.last());
    assert(strides.take(1).drop_last().len() == 0);
    assert(strides.take(1).last() == strides[0]);
}

/// Resolving a multi-index splits into the leading axis's term plus the
/// sub-view's resolution of the remaining axes.
proof fn lemma_offset_of_cons(l: Layout, k: int, t: Seq<int>)
    requires
        l.strides.len() == l.shape.len(),
        fmt_ok(l.fmt, l.shape),
        t.len() + 1 <= l.shape.len(),
    ensures
        offset_of(l.fmt, l.strides, seq![k] + t) == l.strides[0] * axis_coord(l.fmt, 0, k)
            + offset_of(fmt_tail(l.fmt), l.strides.skip(1), t),
{
    let f = seq![k] + t;
    let j1 = f.len() as int;
    let cs = coords_of(l.fmt, f);
    lemma_weighted_sum_skip_first(l.strides.take(j1), cs);
    assert(l.strides.take(j1)[0] == l.strides[0]);
    assert(cs[0] == axis_coord(l.fmt, 0, k));
    assert(l.strides.take(j1).skip(1) =~= l.strides.skip(1).take(t.len() as int));
    assert(cs.skip(1) =~= coords_of(fmt_tail(l.fmt), t)) by {
        assert forall|i: int| 0 <= i < t.len() implies cs.skip(1)[i] == axis_coord(
            fmt_tail(l.fmt),
            i,
            t[i],
        ) by {
            assert(cs.skip(1)[i] == cs[i + 1]);
            assert(f[i + 1] == t[i]);
            match l.fmt {
                FormatModel::Dense => {},
                FormatModel::Offsets(offsets) => {
                    assert(offsets.skip(1)[i] == offsets[i + 1]);
                },
                FormatModel::Picks(picks) => {
                    assert(picks.skip(1)[i] == picks[i + 1]);
                },
            }
        }
    }
}

/// Every sub-view of a well-formed layout is well formed over the same
/// buffer, and its base never moves backwards.
pub proof fn lemma_subview_layout_wf(l: Layout, limit: int, k: int)
    requires
        layout_wf(l, limit),
        l.shape.len() >= 1,
        0 <= k < l.shape[0],
    ensures
        layout_wf(subview_layout(l, k), limit),
        l.base <= subview_layout(l, k).base,
{
    let sub = subview_layout(l, k);
    let c0 = axis_coord(l.fmt, 0, k);
    assert(0 <= c0);
    lemma_mul_nonnegative(l.strides[0] as int, c0);
    // The base of the sub-view is the parent's resolution of the one-entry
    // prefix, which the parent's partial bound keeps within the buffer.
    let idx1 = seq![k];
    assert(valid_index(l.shape.take(1), idx1)) by {
        assert(l.shape.take(1)[0] == l.shape[0]);
    }
    assert(l.base + offset_of(l.fmt, l.strides, idx1) <= limit);
    lemma_offset_of_single(l.fmt, l.strides, k);
    assert(sub.base <= limit);
    // Format payload arity carries over to the tail.
    assert(fmt_ok(sub.fmt, sub.shape)) by {
        match l.fmt {
            FormatModel::Dense => {},
            FormatModel::Offsets(offsets) => {
                assert forall|i: int| 0 <= i < sub.shape.len() implies #[trigger] offsets.skip(
                    1,
                )[i] + sub.shape[i] <= usize::MAX by {
                    assert(offsets[i + 1] + l.shape[i + 1] <= usize::MAX);
                }
            },
            FormatModel::Picks(picks) => {
                assert forall|i: int| 0 <= i < sub.shape.len() implies #[trigger] picks.skip(
                    1,
                )[i].len() == sub.shape[i] by {
                    assert(picks[i + 1].len() == l.shape[i + 1]);
                }
            },
        }
    }
    assert(suffix_products_fit(sub.shape)) by {
        assert forall|j: int| 0 <= j <= sub.shape.len() implies #[trigger] seq_product(
            sub.shape.skip(j),
        ) <= usize::MAX by {
            assert(sub.shape.skip(j) =~= l.shape.skip(j + 1));
        }
    }
    assert forall|j: int, t: Seq<int>|
        0 <= j <= sub.shape.len() && #[trigger] valid_index(sub.shape.take(j), t) implies sub.base
        + offset_of(sub.fmt, sub.strides, t) <= limit by {
        let f = seq![k] + t;
        assert(valid_index(l.shape.take(j + 1), f)) by {
            assert forall|i: int| 0 <= i < f.len() implies 0 <= #[trigger] f[i] < l.shape.take(
                j + 1,
            )[i] by {
                if i > 0 {
                    assert(f[i] == t[i - 1]);
                    assert(t[i - 1] < sub.shape.take(j)[i - 1]);
                }
            }
        }
        assert(l.base + offset_of(l.fmt, l.strides, f) <= limit);
        lemma_offset_of_cons(l, k, t);
    }
    assert forall|t: Seq<int>| #[trigger]
        valid_index(sub.shape, t) implies sub.base + offset_of(sub.fmt, sub.strides, t)
        < limit by {
        let f = seq![k] + t;
        assert(valid_index(l.shape, f)) by {
            assert forall|i: int| 0 <= i < f.len() implies 0 <= #[trigger] f[i] < l.shape[i] by {
                if i > 0 {
                    assert(f[i] == t[i - 1]);
                    assert(t[i - 1] < sub.shape[i - 1]);
                }
            }
        }
        assert(l.base + offset_of(l.fmt, l.strides, f) < limit);
        lemma_offset_of_cons(l, k, t);
    }
}

/// The layout that slicing builds — per-axis starting offsets, strides
/// scaled by the per-axis steps — is well formed over the source's buffer,
/// provided every range stays inside its axis.
pub proof fn lemma_offsets_layout_wf(
    src: Layout,
    starts: Seq<usize>,
    steps: Seq<usize>,
    new_shape: Seq<usize>,
    new_strides: Seq<usize>,
    limit: int,
)
    requires
        layout_wf(src, limit),
        src.fmt is Dense,
        src.base == 0,
        starts.len() == src.shape.len(),
        steps.len() == src.shape.len(),
        new_shape.len() == src.shape.len(),
        new_strides.len() == src.shape.len(),
        forall|i: int| 0 <= i < steps.len() ==> #[trigger] steps[i] >= 1,
        forall|i: int| 0 <= i < new_shape.len() ==> #[trigger] new_shape[i] >= 1,
        forall|i: int|
            0 <= i < src.shape.len() ==> #[trigger] (steps[i] * (starts[i] + new_shape[i] - 1))
                < src.shape[i],
        forall|i: int|
            0 <= i < new_strides.len() ==> #[trigger] new_strides[i] as int == src.strides[i]
                * steps[i],
    ensures
        layout_wf(
            Layout {
                shape: new_shape,
                strides: new_strides,
                fmt: FormatModel::Offsets(starts),
                base: 0,
            },
            limit,
        ),
{
    let dst = Layout {
        shape: new_shape,
        strides: new_strides,
        fmt: FormatModel::Offsets(starts),
        base: 0,
    };
    // Each new extent fits inside the old one, so the offsets never push an
    // in-extent index past usize and the suffix products still fit.
    assert forall|i: int| 0 <= i < new_shape.len() implies #[trigger] (starts[i] + new_shape[i])
        <= usize::MAX by {
        lemma_mul_inequality(1, steps[i] as int, starts[i] + new_shape[i] - 1);
        assert(starts[i] + new_shape[i] - 1 <= steps[i] * (starts[i] + new_shape[i] - 1));
    }
    assert forall|i: int| 0 <= i < new_shape.len() implies #[trigger] new_shape[i]
        <= src.shape[i] by {
        lemma_mul_inequality(1, steps[i] as int, starts[i] + new_shape[i] - 1);
        assert(starts[i] + new_shape[i] - 1 <= steps[i] * (starts[i] + new_shape[i] - 1));
    }
    assert(fmt_ok(dst.fmt, dst.shape));
    assert(suffix_products_fit(new_shape)) by {
        assert forall|j: int| 0 <= j <= new_shape.len() implies #[trigger] seq_product(
            new_shape.skip(j),
        ) <= usize::MAX by {
            assert forall|i: int| 0 <= i < new_shape.skip(j).len() implies #[trigger] new_shape.skip(
                j,
            )[i] <= src.shape.skip(j)[i] by {
                assert(new_shape[i + j] <= src.shape[i + j]);
            }
            lemma_seq_product_le(new_shape.skip(j), src.shape.skip(j));
        }
    }
    assert forall|i: int, k: int|
        0 <= i < dst.shape.len() && 0 <= k < dst.shape[i] implies #[trigger] coord_simulated(
        src,
        dst,
        i,
        k,
    ) by {
        let c = steps[i] * (starts[i] + k);
        lemma_mul_nonnegative(steps[i] as int, starts[i] + k);
        lemma_mul_inequality(starts[i] + k, starts[i] + new_shape[i] - 1, steps[i] as int);
        lemma_mul_is_commutative(starts[i] + k, steps[i] as int);
        lemma_mul_is_commutative(starts[i] + new_shape[i] - 1, steps[i] as int);
        assert(0 <= c < src.shape[i]);
        lemma_mul_is_associative(src.strides[i] as int, steps[i] as int, starts[i] + k);
        assert(src.strides[i] * c == dst.strides[i] * axis_coord(dst.fmt, i, k));
    }
    lemma_layout_wf_by_simulation(src, dst, limit);
}

/// The layout that picking builds — per-axis lists of buffer coordinates,
/// strides carried over unchanged — is well formed over the source's buffer,
/// provided every listed coordinate lies inside its axis.
pub proof fn lemma_picks_layout_wf(
    src: Layout,
    picks: Seq<Seq<usize>>,
    new_shape: Seq<usize>,
    limit: int,
)
    requires
        layout_wf(src, limit),
        src.fmt is Dense,
        src.base == 0,
        picks.len() == src.shape.len(),
        new_shape.len() == src.shape.len(),
        forall|i: int| 0 <= i < picks.len() ==> #[trigger] picks[i].len() == new_shape[i],
        forall|i: int, j: int|
            0 <= i < picks.len() && 0 <= j < picks[i].len() ==> #[trigger] picks[i][j]
                < src.shape[i],
        suffix_products_fit(new_shape),
    ensures
        layout_wf(
            Layout {
                shape: new_shape,
                strides: src.strides,
                fmt: FormatModel::Picks(picks),
                base: 0,
            },
            limit,
        ),
{
    let dst = Layout {
        shape: new_shape,
        strides: src.strides,
        fmt: FormatModel::Picks(picks),
        base: 0,
    };
    assert forall|i: int, k: int|
        0 <= i < dst.shape.len() && 0 <= k < dst.shape[i] implies #[trigger] coord_simulated(
        src,
        dst,
        i,
        k,
    ) by {
        let c = picks[i][k] as int;
        assert(picks[i][k] < src.shape[i]);
        assert(src.strides[i] * c == dst.strides[i] * axis_coord(dst.fmt, i, k));
    }
    lemma_layout_wf_by_simulation(src, dst, limit);
}

/// Slicing with the full range `[0, extent - 1]` and step 1 on every axis
/// changes nothing observable: the sliced view resolves every index to the
/// very same buffer offset as the dense original, so reading any valid index
/// through the slice returns the element the original returns.
pub proof fn lemma_full_range_slice_identity(l: Layout, starts: Seq<usize>, idx: Seq<int>)
    requires
        l.fmt is Dense,
        l.strides.len() == l.shape.len(),
        starts.len() == l.shape.len(),
        forall|i: int| 0 <= i < starts.len() ==> #[trigger] starts[i] == 0,
        idx.len() <= l.shape.len(),
    ensures
        offset_of(FormatModel::Offsets(starts), l.strides, idx) == offset_of(
            l.fmt,
            l.strides,
            idx,
        ),
{
    let j = idx.len() as int;
    assert forall|i: int| 0 <= i < idx.len() implies #[trigger] (l.strides.take(j)[i] * coords_of(
        FormatModel::Offsets(starts),
        idx,
    )[i]) == l.strides.take(j)[i] * coords_of(l.fmt, idx)[i] by {
        assert(coords_of(FormatModel::Offsets(starts), idx)[i] == starts[i] + idx[i]);
        assert(starts[i] == 0);
    }
    lemma_weighted_sum_pointwise(
        l.strides.take(j),
        coords_of(FormatModel::Offsets(starts), idx),
        l.strides.take(j),
        coords_of(l.fmt, idx),
    );
}

/// A shape of positive extents holds at least one element.
pub proof fn lemma_seq_product_pos(s: Seq<usize>)
    requires
        forall|i: int| 0 <= i < s.len() ==> #[trigger] s[i] >= 1,
    ensures
        seq_product(s) >= 1,
    decreases s.len(),
{
    if s.len() > 0 {
        assert forall|i: int| 0 <= i < s.skip(1).len() implies #[trigger] s.skip(1)[i] >= 1 by {
            assert(s[i + 1] >= 1);
        }
        lemma_seq_product_pos(s.skip(1));
        lemma_mul_strictly_positive(s[0] as int, seq_product(s.skip(1)));
    }
}

/// Law: on a dense row-major layout, sub-views at distinct positions along
/// the leading axis are pairwise disjoint — every offset one resolves lies
/// in a block of whole-sub-view size that the other's offsets never enter.
/// This is what lets distinct positions be mutated in turn without one write
/// ever aliasing another position's elements.
pub proof fn lemma_dense_subviews_disjoint(
    l: Layout,
    k1: int,
    k2: int,
    t1: Seq<int>,
    t2: Seq<int>,
)
    requires
        l.fmt is Dense,
        dense_strides_for(l.strides, l.shape),
        l.shape.len() >= 1,
        0 <= k1 < l.shape[0],
        0 <= k2 < l.shape[0],
        k1 != k2,
        valid_index(l.shape.skip(1), t1),
        valid_index(l.shape.skip(1), t2),
    ensures
        subview_layout(l, k1).base + offset_of(
            fmt_tail(l.fmt),
            l.strides.skip(1),
            t1,
        ) != subview_layout(l, k2).base + offset_of(fmt_tail(l.fmt), l.strides.skip(1), t2),
{
    let tail_shape = l.shape.skip(1);
    let tail_strides = l.strides.skip(1);
    let p1 = seq_product(tail_shape);
    assert(dense_strides_for(tail_strides, tail_shape)) by {
        assert forall|i: int| 0 <= i < tail_shape.len() implies #[trigger] tail_strides[i] as int
            == seq_product(tail_shape.skip(i + 1)) by {
            assert(tail_shape.skip(i + 1) =~= l.shape.skip(i + 2));
        }
    }
    // Each sub-view's own offsets stay below one block.
    assert(tail_shape.take(t1.len() as int) =~= tail_shape);
    assert(tail_shape.take(t2.len() as int) =~= tail_shape);
    lemma_dense_partial_bound(tail_shape, tail_strides, t1);
    lemma_dense_partial_bound(tail_shape, tail_strides, t2);
    assert(tail_shape.skip(t1.len() as int).len() == 0);
    let o1 = offset_of(FormatModel::Dense, tail_strides, t1);
    let o2 = offset_of(FormatModel::Dense, tail_strides, t2);
    assert(0 <= o1 < p1 && 0 <= o2 < p1);
    // A valid tail index means every tail extent is positive, so a block is
    // at least one element wide.
    assert forall|i: int| 0 <= i < tail_shape.len() implies #[trigger] tail_shape[i] >= 1 by {
        assert(0 <= t1[i] < tail_shape[i]);
    }
    lemma_seq_product_pos(tail_shape);
    // The leading stride is exactly the block size, so distinct positions
    // start whole blocks apart.
    assert(l.strides[0] as int == p1) by {
        assert(l.shape.skip(1) =~= tail_shape);
    }
    if k1 < k2 {
        lemma_mul_inequality(k1 + 1, k2, p1);
        lemma_mul_is_distributive_add_other_way(p1, k1, 1);
        lemma_mul_basics(p1);
        assert(k1 * p1 + p1 <= k2 * p1);
    } else {
        lemma_mul_inequality(k2 + 1, k1, p1);
        lemma_mul_is_distributive_add_other_way(p1, k2, 1);
        lemma_mul_basics(p1);
        assert(k2 * p1 + p1 <= k1 * p1);
    }
    lemma_mul_is_commutative(p1, k1);
    lemma_mul_is_commutative(p1, k2);
    assert(subview_layout(l, k1).base == l.base + p1 * k1);
    assert(subview_layout(l, k2).base == l.base + p1 * k2);
    assert(fmt_tail(l.fmt) == FormatModel::Dense);
}

/// Law: slicing a dense array with the full range `[0, extent - 1]` per axis
/// yields a view observationally equal, under reads, to the unsliced
/// original. `s` is the layout such a slice builds — same shape, same
/// strides (step 1 scales them by nothing), a zero starting offset per axis —
/// and it resolves every signed multi-index to the very same buffer offset
/// as the dense layout `l`, so reading any valid index through the slice
/// returns the element the original returns; an index of the wrong arity is
/// rejected identically on both.
pub proof fn lemma_full_range_slice_observational_identity(l: Layout, s: Layout, idx: Seq<isize>)
    requires
        l.fmt is Dense,
        l.strides.len() == l.shape.len(),
        s.shape == l.shape,
        s.strides == l.strides,
        s.base == l.base,
        (s.fmt matches FormatModel::Offsets(starts) && starts.len() == l.shape.len() && forall|
            i: int,
        | 0 <= i < starts.len() ==> #[trigger] starts[i] == 0),
        idx.len() == l.shape.len(),
    ensures
        resolve_signed(s, idx) == resolve_signed(l, idx),
{
    match s.fmt {
        FormatModel::Offsets(starts) => {
            lemma_full_range_slice_identity(l, starts, norm_indices(int_indices(idx), l.shape));
        },
        _ => {},
    }
}

/// Bundles the four pieces of a layout descriptor.
pub open spec fn mk_layout(
    shape: Seq<usize>,
    strides: Seq<usize>,
    fmt: FormatModel,
    base: int,
) -> Layout {
    Layout { shape, strides, fmt, base }
}

/// A signed multi-index as mathematical integers.
pub open spec fn int_indices(idx: Seq<isize>) -> Seq<int> {
    Seq::new(idx.len(), |i: int| idx[i] as int)
}

/// The buffer offset that a signed multi-index resolves to on a layout:
/// each entry is normalized with wraparound against its axis, mapped through
/// the format to a buffer coordinate, weighted by its stride, and the sum is
/// taken on top of the layout's base.
pub open spec fn resolve_signed(l: Layout, idx: Seq<isize>) -> int {
    l.base + offset_of(l.fmt, l.strides, norm_indices(int_indices(idx), l.shape))
}

/// Element count of a shape held in a vector.
pub fn product_of(extents: &Vec<usize>) -> (p: usize)
    requires
        suffix_products_fit(extents@),
    ensures
        p == seq_product(extents@),
{
    let n = extents.len();
    let mut m: usize = 1;
    let mut j: usize = n;
    while j > 0
        invariant
            j <= n,
            n == extents@.len(),
            m == seq_product(extents@.skip(j as int)),
            suffix_products_fit(extents@),
        decreases j,
    {
        j = j - 1;
        proof {
            lemma_seq_product_skip_peel(extents@, j as int);
            lemma_mul_is_commutative(m as int, extents@[j as int] as int);
            assert(m * extents@[j as int] == seq_product(extents@.skip(j as int)));
            assert(seq_product(extents@.skip(j as int)) <= usize::MAX);
        }
        m = m * extents[j];
    }
    proof {
        assert(extents@.skip(0) =~= extents@);
    }
    m
}

} // verus!
