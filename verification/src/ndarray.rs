//! The strided n-dimensional array handle and its operations.

use vstd::prelude::*;
use std::rc::Rc;

use crate::errors::NdarrayError;
use crate::layout::{
    FormatModel, Layout, layout_wf, norm_index, norm_indices, int_indices, mk_layout,
    resolve_signed, valid_index, coords_of, offset_of, axis_coord, seq_product,
    suffix_products_fit, dense_strides_for, fmt_ok, get_strides_from_shape, product_of,
    lemma_norm_index_range, lemma_weighted_sum_take_step, lemma_weighted_sum_nonneg,
    lemma_dense_layout_wf, lemma_seq_product_skip_peel,
};
use vstd::arithmetic::mul::lemma_mul_nonnegative;

verus! {

/// Describes whether a handle addresses its buffer densely (`Dense`), as a
/// contiguous sub-range per axis (`Slice`), or through one arbitrary index
/// list per axis (`Slices`).
pub enum Format {
    Slice(Vec<usize>),
    Slices(Vec<Vec<usize>>),
    Dense,
}

/// The per-axis index lists of a gather format, as a sequence of sequences.
pub open spec fn lists_model(lists: Vec<Vec<usize>>) -> Seq<Seq<usize>> {
    Seq::new(lists@.len() as nat, |i: int| lists@[i]@)
}

/// The mathematical content of a format tag.
pub open spec fn fmt_model(f: Format) -> FormatModel {
    match f {
        Format::Dense => FormatModel::Dense,
        Format::Slice(offsets) => FormatModel::Offsets(offsets@),
        Format::Slices(lists) => FormatModel::Picks(lists_model(lists)),
    }
}

/// An owned copy of a vector of machine words.
pub(crate) fn copy_usizes(v: &Vec<usize>) -> (r: Vec<usize>)
    ensures
        r@ == v@,
{
    let n = v.len();
    let mut r: Vec<usize> = Vec::new();
    let mut i: usize = 0;
    while i < n
        invariant
            i <= n,
            n == v@.len(),
            r@ == v@.take(i as int),
        decreases n - i,
    {
        r.push(v[i]);
        proof {
            assert(r@ =~= v@.take(i + 1));
        }
        i = i + 1;
    }
    proof {
        assert(v@.take(n as int) =~= v@);
    }
    r
}

/// An owned copy of per-axis index lists.
pub(crate) fn copy_lists(v: &Vec<Vec<usize>>) -> (r: Vec<Vec<usize>>)
    ensures
        lists_model(r) == lists_model(*v),
{
    let n = v.len();
    let mut r: Vec<Vec<usize>> = Vec::new();
    let mut i: usize = 0;
    while i < n
        invariant
            i <= n,
            n == v@.len(),
            r@.len() == i,
            forall|k: int| 0 <= k < i ==> #[trigger] r@[k]@ == v@[k]@,
        decreases n - i,
    {
        r.push(copy_usizes(&v[i]));
        i = i + 1;
    }
    proof {
        assert(lists_model(r) =~~= lists_model(*v));
    }
    r
}

/// An owned copy of a format tag with the same mathematical content.
pub(crate) fn clone_format(f: &Format) -> (r: Format)
    ensures
        fmt_model(r) == fmt_model(*f),
{
    match f {
        Format::Dense => Format::Dense,
        Format::Slice(offsets) => Format::Slice(copy_usizes(offsets)),
        Format::Slices(lists) => Format::Slices(copy_lists(lists)),
    }
}

/// Wraparound normalization of one signed index against an axis extent:
/// negative indices within one wrap count from the end of the axis.
fn normalize_index(idx: isize, extent: usize) -> (r: usize)
    requires
        extent > 0,
        idx + extent >= 0,
    ensures
        r as int == norm_index(idx as int, extent as int),
        r < extent,
{
    proof {
        lemma_norm_index_range(idx as int, extent as int);
    }
    if idx >= 0 {
        let r = (idx as usize) % extent;
        proof {
            vstd::arithmetic::div_mod::lemma_mod_add_multiples_vanish(idx as int, extent as int);
        }
        r
    } else {
        let neg = (-(idx as i128)) as usize;
        let r = extent - neg;
        proof {
            vstd::arithmetic::div_mod::lemma_small_mod(
                (idx + extent) as nat,
                extent as nat,
            );
        }
        r
    }
}

/// Resolves a signed multi-index to a linear buffer offset: normalizes each
/// entry against its axis, maps it through the format to a buffer coordinate,
/// and accumulates the stride-weighted sum on top of `base`. Well-formedness
/// of the layout keeps every step, and the result, inside the buffer.
pub(crate) fn resolve_offset_checked(
    shape: &Vec<usize>,
    strides: &Vec<usize>,
    format: &Format,
    base: usize,
    indices: &Vec<isize>,
    Ghost(limit): Ghost<int>,
) -> (r: usize)
    requires
        layout_wf(mk_layout(shape@, strides@, fmt_model(*format), base as int), limit),
        indices@.len() == shape@.len(),
        forall|i: int| 0 <= i < shape@.len() ==> #[trigger] shape@[i] > 0,
        forall|i: int| 0 <= i < shape@.len() ==> #[trigger] (indices@[i] + shape@[i]) >= 0,
        limit <= usize::MAX,
    ensures
        r as int == resolve_signed(
            mk_layout(shape@, strides@, fmt_model(*format), base as int),
            indices@,
        ),
        r < limit,
{
    let ghost l = mk_layout(shape@, strides@, fmt_model(*format), base as int);
    let ghost nidx = norm_indices(int_indices(indices@), shape@);
    let n = shape.len();
    proof {
        assert forall|k: int| 0 <= k < n implies 0 <= #[trigger] nidx[k] < shape@[k] by {
            lemma_norm_index_range(indices@[k] as int, shape@[k] as int);
        }
    }
    let mut off: usize = base;
    let mut i: usize = 0;
    proof {
        assert(off as int == l.base + offset_of(l.fmt, l.strides, nidx.take(0)));
    }
    while i < n
        invariant
            i <= n,
            n == shape@.len(),
            n == strides@.len(),
            indices@.len() == n,
            layout_wf(l, limit),
            l == mk_layout(shape@, strides@, fmt_model(*format), base as int),
            nidx == norm_indices(int_indices(indices@), shape@),
            nidx.len() == n,
            forall|k: int| 0 <= k < n ==> #[trigger] shape@[k] > 0,
            forall|k: int| 0 <= k < n ==> #[trigger] (indices@[k] + shape@[k]) >= 0,
            forall|k: int| 0 <= k < n ==> 0 <= #[trigger] nidx[k] < shape@[k],
            off as int == l.base + offset_of(l.fmt, l.strides, nidx.take(i as int)),
            limit <= usize::MAX,
        decreases n - i,
    {
        let ni: usize = normalize_index(indices[i], shape[i]);
        proof {
            assert(ni as int == nidx[i as int]);
        }
        let coord: usize = match format {
            Format::Dense => ni,
            Format::Slice(offsets) => {
                proof {
                    assert(fmt_ok(l.fmt, l.shape));
                    assert(offsets@[i as int] + shape@[i as int] <= usize::MAX);
                }
                offsets[i] + ni
            },
            Format::Slices(lists) => {
                proof {
                    assert(fmt_ok(l.fmt, l.shape));
                    assert(lists_model(*lists)[i as int] == lists@[i as int]@);
                    assert(lists@[i as int]@.len() == shape@[i as int]);
                }
                lists[i][ni]
            },
        };
        proof {
            assert(coord as int == axis_coord(l.fmt, i as int, nidx[i as int]));
            // The coordinates seen so far, and the next one, are nonnegative.
            assert forall|k: int| 0 <= k < coords_of(l.fmt, nidx).len() implies 0
                <= #[trigger] coords_of(l.fmt, nidx)[k] by {
                assert(coords_of(l.fmt, nidx)[k] == axis_coord(l.fmt, k, nidx[k]));
            }
            // The extended prefix is still a valid partial index.
            assert(valid_index(l.shape.take(i + 1), nidx.take(i + 1)));
            assert(coords_of(l.fmt, nidx.take(i + 1)) =~= coords_of(l.fmt, nidx).take(i + 1));
            assert(coords_of(l.fmt, nidx.take(i as int)) =~= coords_of(l.fmt, nidx).take(
                i as int,
            ));
            lemma_weighted_sum_take_step(l.strides, coords_of(l.fmt, nidx), i as int);
            assert forall|k: int|
                0 <= k < coords_of(l.fmt, nidx).take(i as int).len() implies 0 <= #[trigger]
            coords_of(l.fmt, nidx).take(i as int)[k] by {
                assert(coords_of(l.fmt, nidx)[k] == axis_coord(l.fmt, k, nidx[k]));
            }
            lemma_weighted_sum_nonneg(
                l.strides.take(i as int),
                coords_of(l.fmt, nidx).take(i as int),
            );
            lemma_mul_nonnegative(l.strides[i as int] as int, coord as int);
            // The partial bound keeps the next accumulation within the buffer.
            assert(l.base + offset_of(l.fmt, l.strides, nidx.take(i + 1)) <= limit);
            assert(off + strides@[i as int] * coord <= limit);
        }
        off = off + strides[i] * coord;
        i = i + 1;
    }
    proof {
        assert(nidx.take(n as int) =~= nidx);
        assert(valid_index(l.shape, nidx));
        assert(l.base + offset_of(l.fmt, l.strides, nidx) < limit);
    }
    off
}

/// A strided n-dimensional array handle: a shared buffer plus the layout
/// descriptor that addresses it.
///
/// The buffer is shared by every handle and view derived from a common root;
/// views never copy data. The layout descriptor — shape, strides and format
/// tag — is owned per handle and cheaply copied.
pub struct NdarrayBase<T> {
    pub data: Rc<Vec<T>>,
    pub shape: Vec<usize>,
    pub strides: Vec<usize>,
    pub format: Format,
}

impl<T> NdarrayBase<T> {
    /// The layout descriptor of this handle, as its mathematical model.
    pub open spec fn layout(&self) -> Layout {
        mk_layout(self.shape@, self.strides@, fmt_model(self.format), 0)
    }

    /// Well-formedness: shape, strides and format agree in arity, the
    /// shape's suffix products fit the machine, and every valid index —
    /// and every prefix of one — resolves inside the buffer.
    pub open spec fn wf(&self) -> bool {
        layout_wf(self.layout(), self.data@.len() as int)
    }

    /// Builds a one-dimensional dense handle over the given elements.
    pub fn new(data: Vec<T>) -> (r: NdarrayBase<T>)
        ensures
            r.data@ == data@,
            r.shape@ =~= seq![data@.len() as usize],
            r.strides@ =~= seq![1usize],
            r.layout().fmt is Dense,
            seq_product(r.shape@) == r.data@.len(),
            r.wf(),
    {
        let n = data.len();
        let mut shape: Vec<usize> = Vec::new();
        shape.push(n);
        let mut strides: Vec<usize> = Vec::new();
        strides.push(1);
        let r = NdarrayBase { data: Rc::new(data), shape, strides, format: Format::Dense };
        proof {
            let sh = r.shape@;
            assert(sh.len() == 1);
            assert(sh.skip(1).len() == 0);
            assert(seq_product(sh.skip(1)) == 1);
            lemma_seq_product_skip_peel(sh, 0);
            assert(sh.skip(0) =~= sh);
            assert(seq_product(sh) == n);
            assert(dense_strides_for(r.strides@, sh));
            assert(suffix_products_fit(sh)) by {
                assert forall|j: int| 0 <= j <= sh.len() implies #[trigger] seq_product(sh.skip(j))
                    <= usize::MAX by {
                    if j == 0 {
                        assert(sh.skip(0) =~= sh);
                    } else {
                        assert(sh.skip(j).len() == 0);
                    }
                }
            }
            lemma_dense_layout_wf(r.layout(), r.data@.len() as int);
        }
        r
    }

    /// Builds a dense handle over a flat buffer reinterpreted under `shape`;
    /// the shape's element count must match the buffer's length.
    pub fn with_shape(data: Vec<T>, shape: Vec<usize>) -> (r: NdarrayBase<T>)
        requires
            suffix_products_fit(shape@),
            seq_product(shape@) == data@.len(),
        ensures
            r.data@ == data@,
            r.shape@ == shape@,
            dense_strides_for(r.strides@, r.shape@),
            r.layout().fmt is Dense,
            seq_product(r.shape@) == r.data@.len(),
            r.wf(),
    {
        let strides = get_strides_from_shape(&shape);
        let r = NdarrayBase { data: Rc::new(data), shape, strides, format: Format::Dense };
        proof {
            lemma_dense_layout_wf(r.layout(), r.data@.len() as int);
        }
        r
    }

    /// The per-axis element steps of this handle.
    pub fn strides(&self) -> (r: &Vec<usize>)
        ensures
            r@ == self.strides@,
    {
        &self.strides
    }

    /// Replaces the strides wholesale; the new strides must keep every valid
    /// index of the current shape and format inside the buffer.
    pub fn set_strides(&mut self, strides: Vec<usize>)
        requires
            layout_wf(
                mk_layout(
                    old(self).shape@,
                    strides@,
                    fmt_model(old(self).format),
                    0,
                ),
                old(self).data@.len() as int,
            ),
        ensures
            final(self).strides@ == strides@,
            final(self).data@ == old(self).data@,
            final(self).shape@ == old(self).shape@,
            fmt_model(final(self).format) == fmt_model(old(self).format),
            final(self).wf(),
    {
        self.strides = strides;
    }

    /// The per-axis extents of this handle.
    pub fn shape(&self) -> (r: &Vec<usize>)
        ensures
            r@ == self.shape@,
    {
        &self.shape
    }

    /// The addressing format of this handle.
    pub fn format(&self) -> (r: &Format)
        ensures
            fmt_model(*r) == fmt_model(self.format),
    {
        &self.format
    }

    /// Reinterprets the handle densely under a new shape. Fails with
    /// `ShapeMismatch` exactly when the new shape's element count differs
    /// from the current one; on success the strides become fresh dense
    /// strides and the format resets to dense addressing, whatever view the
    /// handle carried before. The current view's element count may not
    /// exceed the store — true of every dense handle and of every slice,
    /// but a gather view that repeats more elements than the buffer holds
    /// has no dense reinterpretation.
    pub fn reshape(&mut self, shape: &Vec<usize>) -> (r: Result<(), NdarrayError>)
        requires
            old(self).wf(),
            suffix_products_fit(shape@),
            seq_product(old(self).shape@) <= old(self).data@.len(),
        ensures
            final(self).data@ == old(self).data@,
            match r {
                Ok(()) => {
                    &&& seq_product(shape@) == seq_product(old(self).shape@)
                    &&& final(self).shape@ == shape@
                    &&& dense_strides_for(final(self).strides@, final(self).shape@)
                    &&& final(self).layout().fmt is Dense
                    &&& final(self).wf()
                },
                Err(e) => {
                    &&& e == NdarrayError::ShapeMismatch
                    &&& seq_product(shape@) != seq_product(old(self).shape@)
                    &&& *final(self) == *old(self)
                },
            },
    {
        let new_count = product_of(shape);
        let old_count = product_of(&self.shape);
        if new_count == old_count {
            self.strides = get_strides_from_shape(shape);
            self.shape = copy_usizes(shape);
            self.format = Format::Dense;
            proof {
                lemma_dense_layout_wf(self.layout(), self.data@.len() as int);
            }
            Ok(())
        } else {
            Err(NdarrayError::ShapeMismatch)
        }
    }
}

/// A slice range has the right number of components: `[start, end]` or
/// `[start, end, step]`.
pub open spec fn range_arity_ok(rg: Seq<usize>) -> bool {
    rg.len() == 2 || rg.len() == 3
}

/// The step of a slice range; two-component ranges step by 1.
pub open spec fn range_step(rg: Seq<usize>) -> int {
    if rg.len() == 3 {
        rg[2] as int
    } else {
        1
    }
}

/// A slice range stays within its axis: the bounds are ordered, the step is
/// at least 1, the farthest selected coordinate lies inside the extent, and
/// the scaled stride still fits the machine.
pub open spec fn range_in_extent(rg: Seq<usize>, extent: usize, stride: usize) -> bool {
    &&& rg[0] <= rg[1]
    &&& range_step(rg) >= 1
    &&& range_step(rg) * (rg[1] as int) < extent
    &&& stride * range_step(rg) <= usize::MAX
}

/// The per-axis extents that a gather over these lists produces: each axis's
/// new extent is its list's length.
pub open spec fn lists_extents(lists: Vec<Vec<usize>>) -> Seq<usize> {
    Seq::new(lists@.len() as nat, |i: int| lists@[i]@.len() as usize)
}

impl<T> NdarrayBase<T> {
    /// Creates a contiguous sub-view: one range per axis, each `[start, end]`
    /// (inclusive, implicit step 1) or `[start, end, step]`. The new handle
    /// shares the buffer; per axis the extent becomes `end - start + 1`, the
    /// starting offset `start`, and the stride is scaled by the step. Fails
    /// with `SliceArityError` exactly when some range has other than 2 or 3
    /// components. Slicing is taken from a dense handle; what a slice of an
    /// already non-dense view would mean is left undefined and ruled out.
    pub fn slice(&self, ranges: &Vec<Vec<usize>>) -> (r: Result<
        NdarrayBase<T>,
        NdarrayError,
    >)
        requires
            self.wf(),
            self.layout().fmt is Dense,
            ranges@.len() == self.shape@.len(),
            forall|i: int|
                0 <= i < ranges@.len() && range_arity_ok(ranges@[i]@) ==> #[trigger] range_in_extent(
                    ranges@[i]@,
                    self.shape@[i],
                    self.strides@[i],
                ),
        ensures
            match r {
                Ok(s) => {
                    &&& forall|i: int| 0 <= i < ranges@.len() ==> #[trigger] range_arity_ok(
                        ranges@[i]@,
                    )
                    &&& s.data@ == self.data@
                    &&& s.shape@.len() == ranges@.len()
                    &&& forall|i: int| 0 <= i < ranges@.len() ==> #[trigger] s.shape@[i] as int
                        == ranges@[i]@[1] - ranges@[i]@[0] + 1
                    &&& forall|i: int| 0 <= i < ranges@.len() ==> #[trigger] s.strides@[i] as int
                        == self.strides@[i] * range_step(ranges@[i]@)
                    &&& (s.layout().fmt matches FormatModel::Offsets(starts) && starts.len()
                        == ranges@.len() && forall|i: int|
                        0 <= i < ranges@.len() ==> #[trigger] starts[i] == ranges@[i]@[0])
                    &&& s.wf()
                },
                Err(e) => {
                    &&& e == NdarrayError::SliceArityError
                    &&& exists|i: int|
                        0 <= i < ranges@.len() && !(#[trigger] range_arity_ok(ranges@[i]@))
                },
            },
    {
        let n = self.shape.len();
        let mut starts: Vec<usize> = Vec::new();
        let mut new_shape: Vec<usize> = Vec::new();
        let mut new_strides: Vec<usize> = Vec::new();
        let mut i: usize = 0;
        #[verifier::loop_isolation(false)]
        while i < n
            invariant
                i <= n,
                starts@.len() == i,
                new_shape@.len() == i,
                new_strides@.len() == i,
                forall|k: int| 0 <= k < i ==> #[trigger] range_arity_ok(ranges@[k]@),
                forall|k: int| 0 <= k < i ==> #[trigger] starts@[k] == ranges@[k]@[0],
                forall|k: int| 0 <= k < i ==> #[trigger] new_shape@[k] as int == ranges@[k]@[1]
                    - ranges@[k]@[0] + 1,
                forall|k: int| 0 <= k < i ==> #[trigger] new_strides@[k] as int
                    == self.strides@[k] * range_step(ranges@[k]@),
            decreases n - i,
        {
            let rg = &ranges[i];
            let arity = rg.len();
            if arity == 2 {
                proof {
                    assert(range_arity_ok(ranges@[i as int]@));
                    assert(range_in_extent(
                        ranges@[i as int]@,
                        self.shape@[i as int],
                        self.strides@[i as int],
                    ));
                }
                starts.push(rg[0]);
                new_shape.push(rg[1] - rg[0] + 1);
                new_strides.push(self.strides[i]);
            } else if arity == 3 {
                proof {
                    assert(range_arity_ok(ranges@[i as int]@));
                    assert(range_in_extent(
                        ranges@[i as int]@,
                        self.shape@[i as int],
                        self.strides@[i as int],
                    ));
                    vstd::arithmetic::mul::lemma_mul_inequality(
                        1,
                        rg@[2] as int,
                        rg@[1] as int,
                    );
                    vstd::arithmetic::mul::lemma_mul_is_commutative(
                        rg@[2] as int,
                        self.strides@[i as int] as int,
                    );
                }
                starts.push(rg[0]);
                new_shape.push(rg[1] - rg[0] + 1);
                new_strides.push(rg[2] * self.strides[i]);
            } else {
                proof {
                    assert(!range_arity_ok(ranges@[i as int]@));
                }
                return Err(NdarrayError::SliceArityError);
            }
            i = i + 1;
        }
        let ghost gstarts = starts@;
        let s = NdarrayBase {
            data: self.data.clone(),
            shape: new_shape,
            strides: new_strides,
            format: Format::Slice(starts),
        };
        proof {
            let steps = Seq::new(
                n as nat,
                |k: int|
                    if ranges@[k]@.len() == 3 {
                        ranges@[k]@[2]
                    } else {
                        1usize
                    },
            );
            assert forall|k: int| 0 <= k < n implies #[trigger] steps[k] >= 1 by {
                assert(range_arity_ok(ranges@[k]@));
                assert(range_in_extent(ranges@[k]@, self.shape@[k], self.strides@[k]));
            }
            assert forall|k: int| 0 <= k < n implies #[trigger] s.shape@[k] >= 1 by {
                assert(range_arity_ok(ranges@[k]@));
                assert(range_in_extent(ranges@[k]@, self.shape@[k], self.strides@[k]));
            }
            assert forall|k: int| 0 <= k < n implies #[trigger] (steps[k] * (gstarts[k]
                + s.shape@[k] - 1)) < self.shape@[k] by {
                assert(range_arity_ok(ranges@[k]@));
                assert(range_in_extent(ranges@[k]@, self.shape@[k], self.strides@[k]));
                assert(steps[k] as int == range_step(ranges@[k]@));
                assert(gstarts[k] + s.shape@[k] - 1 == ranges@[k]@[1]);
            }
            assert forall|k: int| 0 <= k < n implies #[trigger] s.strides@[k] as int
                == self.strides@[k] * steps[k] by {
                assert(range_arity_ok(ranges@[k]@));
                assert(steps[k] as int == range_step(ranges@[k]@));
            }
            crate::layout::lemma_offsets_layout_wf(
                self.layout(),
                gstarts,
                steps,
                s.shape@,
                s.strides@,
                self.data@.len() as int,
            );
            assert(fmt_model(s.format) == FormatModel::Offsets(gstarts));
        }
        Ok(s)
    }
}

impl<T> NdarrayBase<T> {
    /// Creates a gather view: one explicit, arbitrarily ordered index list
    /// per axis, duplicates allowed. The new handle shares the buffer; each
    /// axis's new extent is its list's length, the strides carry over
    /// unchanged, and resolution defers entirely to list lookup. Every listed
    /// index must lie within its axis. Picking is taken from a dense handle;
    /// what a pick of an already non-dense view would mean is left undefined
    /// and ruled out.
    pub fn slices(&self, lists: &Vec<Vec<usize>>) -> (r: NdarrayBase<T>)
        requires
            self.wf(),
            self.layout().fmt is Dense,
            lists@.len() == self.shape@.len(),
            forall|i: int, j: int|
                0 <= i < lists@.len() && 0 <= j < lists@[i]@.len() ==> #[trigger] lists@[i]@[j]
                    < self.shape@[i],
            suffix_products_fit(lists_extents(*lists)),
        ensures
            r.data@ == self.data@,
            r.shape@ == lists_extents(*lists),
            r.strides@ == self.strides@,
            r.layout().fmt == FormatModel::Picks(lists_model(*lists)),
            r.wf(),
    {
        let n = lists.len();
        let mut new_shape: Vec<usize> = Vec::new();
        let mut i: usize = 0;
        #[verifier::loop_isolation(false)]
        while i < n
            invariant
                i <= n,
                new_shape@.len() == i,
                forall|k: int| 0 <= k < i ==> #[trigger] new_shape@[k] == lists@[k]@.len(),
            decreases n - i,
        {
            new_shape.push(lists[i].len());
            i = i + 1;
        }
        let r = NdarrayBase {
            data: self.data.clone(),
            shape: new_shape,
            strides: copy_usizes(&self.strides),
            format: Format::Slices(copy_lists(lists)),
        };
        proof {
            assert(r.shape@ =~= lists_extents(*lists));
            assert forall|k: int| 0 <= k < n implies #[trigger] lists_model(*lists)[k].len()
                == r.shape@[k] by {
                assert(lists_model(*lists)[k] == lists@[k]@);
            }
            crate::layout::lemma_picks_layout_wf(
                self.layout(),
                lists_model(*lists),
                r.shape@,
                self.data@.len() as int,
            );
        }
        r
    }
}

impl<T: Copy> NdarrayBase<T> {
    /// Returns the element that a signed multi-index selects, after
    /// wraparound normalization of each entry against its axis. Fails with
    /// `DimensionMismatch` exactly when the index count differs from the
    /// handle's dimensionality.
    ///
    /// Every extent must be positive and every index at least `-extent`;
    /// whether an index at or past `extent` wraps around is part of the
    /// normalization rule and needs no bound.
    pub fn get(&self, indices: &Vec<isize>) -> (r: Result<T, NdarrayError>)
        requires
            self.wf(),
            indices@.len() == self.shape@.len() ==> forall|i: int|
                0 <= i < self.shape@.len() ==> #[trigger] self.shape@[i] > 0 && indices@[i]
                    + self.shape@[i] >= 0,
        ensures
            match r {
                Ok(v) => {
                    &&& indices@.len() == self.shape@.len()
                    &&& v == self.data@[resolve_signed(self.layout(), indices@)]
                },
                Err(e) => {
                    &&& e == NdarrayError::DimensionMismatch
                    &&& indices@.len() != self.shape@.len()
                },
            },
    {
        if indices.len() != self.shape.len() {
            return Err(NdarrayError::DimensionMismatch);
        }
        let total = self.data.len();
        let off = resolve_offset_checked(
            &self.shape,
            &self.strides,
            &self.format,
            0,
            indices,
            Ghost(total as int),
        );
        Ok(self.data[off])
    }
}

} // verus!
