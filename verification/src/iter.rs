//! The iteration subsystem: lazily produced sub-views along the leading axis.
//!
//! Iterating a handle or view yields one sub-view per position along axis 0,
//! each sharing the buffer. A sub-view's base advances by the position's
//! buffer coordinate times the leading stride; the remaining axes keep their
//! extents, strides and format payloads. A fresh iterator restarts
//! independently.

use vstd::prelude::*;
use std::rc::Rc;

use crate::layout::{
    FormatModel, Layout, layout_wf, mk_layout, seq_product, axis_coord, fmt_ok, fmt_tail,
    subview_layout, suffix_products_fit, product_of, resolve_signed, lemma_subview_layout_wf,
};
use crate::errors::NdarrayError;
use crate::ndarray::{
    Format, NdarrayBase, fmt_model, lists_model, copy_usizes, clone_format,
    resolve_offset_checked,
};
use vstd::arithmetic::mul::{lemma_mul_nonnegative, lemma_mul_is_commutative};

verus! {

/// A read-only sub-view into a shared buffer: like a handle, but addressing
/// starts at an explicit base offset, and the element count is carried along.
pub struct NdarrayView<T> {
    pub data: Rc<Vec<T>>,
    pub base: usize,
    pub shape: Vec<usize>,
    pub strides: Vec<usize>,
    pub format: Format,
    pub len: usize,
}

impl<T> NdarrayView<T> {
    /// The layout descriptor of this view.
    pub open spec fn layout(&self) -> Layout {
        mk_layout(self.shape@, self.strides@, fmt_model(self.format), self.base as int)
    }

    /// Well-formedness: the layout is well formed over the buffer and `len`
    /// counts the view's elements.
    pub open spec fn wf(&self) -> bool {
        &&& layout_wf(self.layout(), self.data@.len() as int)
        &&& self.len as int == seq_product(self.shape@)
    }
}

/// A lazy walk along the leading axis of a view: position `count` is the
/// next sub-view to be produced, and the walk is exhausted at `axis_len`.
///
/// `shape` and `strides` hold the remaining axes; `format` still holds the
/// whole format, whose leading payload entry addresses the walked axis.
pub struct ViewIter<T> {
    pub data: Rc<Vec<T>>,
    pub base: usize,
    pub axis_len: usize,
    pub axis_stride: usize,
    pub shape: Vec<usize>,
    pub strides: Vec<usize>,
    pub format: Format,
    pub count: usize,
    pub len: usize,
}

impl<T> ViewIter<T> {
    /// The full layout this iterator walks: the leading axis put back in
    /// front of the remaining ones.
    pub open spec fn layout(&self) -> Layout {
        mk_layout(
            seq![self.axis_len] + self.shape@,
            seq![self.axis_stride] + self.strides@,
            fmt_model(self.format),
            self.base as int,
        )
    }

    /// Well-formedness: the position never passes the axis, and a
    /// non-exhausted walk is over a well-formed layout whose sub-views hold
    /// `len` elements each.
    pub open spec fn wf(&self) -> bool {
        &&& self.count <= self.axis_len
        &&& self.axis_len > 0 ==> layout_wf(self.layout(), self.data@.len() as int)
        &&& self.axis_len > 0 ==> self.len as int == seq_product(self.shape@)
    }

    /// How many sub-views are still to come: exact lower and upper bound.
    pub fn size_hint(&self) -> (r: (usize, Option<usize>))
        requires
            self.wf(),
        ensures
            r.0 == self.axis_len - self.count,
            r.1 == Some(r.0),
    {
        let size = self.axis_len - self.count;
        (size, Some(size))
    }
}

/// The format that remains for a sub-view after the leading axis is walked:
/// dense stays dense, and per-axis payloads drop their leading entry.
pub(crate) fn tail_format(f: &Format) -> (r: Format)
    requires
        (match fmt_model(*f) {
            FormatModel::Dense => true,
            FormatModel::Offsets(offsets) => offsets.len() >= 1,
            FormatModel::Picks(picks) => picks.len() >= 1,
        }),
    ensures
        fmt_model(r) == fmt_tail(fmt_model(*f)),
{
    match f {
        Format::Dense => Format::Dense,
        Format::Slice(offsets) => {
            let t = tail_usizes(offsets);
            Format::Slice(t)
        },
        Format::Slices(lists) => {
            let mut t: Vec<Vec<usize>> = Vec::new();
            let n = lists.len();
            let mut i: usize = 1;
            #[verifier::loop_isolation(false)]
            while i < n
                invariant
                    1 <= i <= n,
                    t@.len() == i - 1,
                    forall|k: int| 0 <= k < i - 1 ==> #[trigger] t@[k]@ == lists@[k + 1]@,
                decreases n - i,
            {
                t.push(copy_usizes(&lists[i]));
                i = i + 1;
            }
            proof {
                assert(lists_model(t) =~~= lists_model(*lists).skip(1));
            }
            Format::Slices(t)
        },
    }
}

/// The tail of a nonempty vector of machine words.
pub(crate) fn tail_usizes(v: &Vec<usize>) -> (r: Vec<usize>)
    requires
        v@.len() >= 1,
    ensures
        r@ == v@.skip(1),
{
    let n = v.len();
    let mut r: Vec<usize> = Vec::new();
    let mut i: usize = 1;
    #[verifier::loop_isolation(false)]
    while i < n
        invariant
            1 <= i <= n,
            r@.len() == i - 1,
            forall|k: int| 0 <= k < i - 1 ==> #[trigger] r@[k] == v@[k + 1],
        decreases n - i,
    {
        r.push(v[i]);
        i = i + 1;
    }
    proof {
        assert(r@ =~= v@.skip(1));
    }
    r
}

/// Builds the iterator for a layout over a shared buffer: the walk starts at
/// position 0 and covers the leading axis, or is exhausted at once when
/// there is no axis to walk.
pub(crate) fn make_iter<T>(
    data: &Rc<Vec<T>>,
    base: usize,
    shape: &Vec<usize>,
    strides: &Vec<usize>,
    format: &Format,
) -> (r: ViewIter<T>)
    requires
        layout_wf(mk_layout(shape@, strides@, fmt_model(*format), base as int), data@.len() as int),
    ensures
        r.data@ == data@,
        r.count == 0,
        r.base == base,
        fmt_model(r.format) == fmt_model(*format),
        r.axis_len as int == if shape@.len() == 0 {
            0int
        } else {
            shape@[0] as int
        },
        shape@.len() > 0 ==> {
            &&& r.axis_stride == strides@[0]
            &&& r.shape@ == shape@.skip(1)
            &&& r.strides@ == strides@.skip(1)
            &&& r.layout() == mk_layout(shape@, strides@, fmt_model(*format), base as int)
            &&& r.len as int == seq_product(shape@.skip(1))
        },
        r.wf(),
{
    if shape.len() == 0 {
        let r = ViewIter {
            data: data.clone(),
            base,
            axis_len: 0,
            axis_stride: 0,
            shape: Vec::new(),
            strides: Vec::new(),
            format: clone_format(format),
            count: 0,
            len: 0,
        };
        r
    } else {
        let tail_sh = tail_usizes(shape);
        let tail_st = tail_usizes(strides);
        proof {
            assert(suffix_products_fit(shape@));
            assert forall|j: int| 0 <= j <= tail_sh@.len() implies #[trigger] seq_product(
                tail_sh@.skip(j),
            ) <= usize::MAX by {
                assert(tail_sh@.skip(j) =~= shape@.skip(j + 1));
            }
        }
        let sub_len = product_of(&tail_sh);
        let r = ViewIter {
            data: data.clone(),
            base,
            axis_len: shape[0],
            axis_stride: strides[0],
            shape: tail_sh,
            strides: tail_st,
            format: clone_format(format),
            count: 0,
            len: sub_len,
        };
        proof {
            assert(seq![r.axis_len] + r.shape@ =~= shape@);
            assert(seq![r.axis_stride] + r.strides@ =~= strides@);
        }
        r
    }
}

impl<T> ViewIter<T> {
    /// Produces the sub-view at the current position and advances, or
    /// reports exhaustion: `Some` exactly as long as positions remain, one
    /// sub-view per position along the walked axis, each of the remaining
    /// shape and sharing the buffer.
    pub fn next(&mut self) -> (r: Option<NdarrayView<T>>)
        requires
            old(self).wf(),
        ensures
            final(self).wf(),
            old(self).count < old(self).axis_len ==> {
                &&& r matches Some(v) && {
                    &&& v.data@ == old(self).data@
                    &&& v.layout() == subview_layout(old(self).layout(), old(self).count as int)
                    &&& v.shape@ == old(self).shape@
                    &&& v.strides@ == old(self).strides@
                    &&& v.len == old(self).len
                    &&& v.wf()
                }
                &&& final(self).count == old(self).count + 1
                &&& final(self).data@ == old(self).data@
                &&& final(self).base == old(self).base
                &&& final(self).axis_len == old(self).axis_len
                &&& final(self).axis_stride == old(self).axis_stride
                &&& final(self).shape@ == old(self).shape@
                &&& final(self).strides@ == old(self).strides@
                &&& fmt_model(final(self).format) == fmt_model(old(self).format)
                &&& final(self).len == old(self).len
            },
            old(self).count >= old(self).axis_len ==> r is None && *final(self) == *old(self),
    {
        if self.count < self.axis_len {
            let ghost l = self.layout();
            let ghost c = self.count as int;
            let count = self.count;
            self.count = count + 1;
            let h: usize = match &self.format {
                Format::Dense => count,
                Format::Slice(offsets) => {
                    proof {
                        assert(fmt_ok(l.fmt, l.shape));
                        assert(offsets@[0] + l.shape[0] <= usize::MAX);
                        assert(l.shape[0] == self.axis_len);
                    }
                    offsets[0] + count
                },
                Format::Slices(lists) => {
                    proof {
                        assert(fmt_ok(l.fmt, l.shape));
                        assert(lists_model(*lists)[0] == lists@[0]@);
                        assert(lists@[0]@.len() == l.shape[0]);
                        assert(l.shape[0] == self.axis_len);
                    }
                    lists[0][count]
                },
            };
            let total = self.data.len();
            proof {
                assert(h as int == axis_coord(l.fmt, 0, c));
                lemma_subview_layout_wf(l, total as int, c);
                assert(l.strides[0] == self.axis_stride);
                lemma_mul_is_commutative(h as int, self.axis_stride as int);
                lemma_mul_nonnegative(self.axis_stride as int, h as int);
                assert(self.base + h * self.axis_stride == subview_layout(l, c).base);
                assert(subview_layout(l, c).base <= total);
            }
            let nb = self.base + h * self.axis_stride;
            let v = NdarrayView {
                data: self.data.clone(),
                base: nb,
                shape: copy_usizes(&self.shape),
                strides: copy_usizes(&self.strides),
                format: tail_format(&self.format),
                len: self.len,
            };
            proof {
                assert(l.shape.skip(1) =~= self.shape@);
                assert(l.strides.skip(1) =~= self.strides@);
                assert(v.layout() == subview_layout(l, c));
            }
            Some(v)
        } else {
            None
        }
    }
}

impl<T> NdarrayView<T> {
    /// A fresh walk along this view's leading axis; it restarts
    /// independently of any earlier one.
    pub fn iter(&self) -> (r: ViewIter<T>)
        requires
            self.wf(),
        ensures
            r.data@ == self.data@,
            r.count == 0,
            r.axis_len as int == if self.shape@.len() == 0 {
                0int
            } else {
                self.shape@[0] as int
            },
            self.shape@.len() > 0 ==> r.layout() == self.layout() && r.shape@ == self.shape@.skip(
                1,
            ),
            r.wf(),
    {
        make_iter(&self.data, self.base, &self.shape, &self.strides, &self.format)
    }
}

impl<T: Copy> NdarrayView<T> {
    /// Returns the element that a signed multi-index selects on this view,
    /// after wraparound normalization of each entry against its axis. Fails
    /// with `DimensionMismatch` exactly when the index count differs from the
    /// view's dimensionality. On a zero-dimensional view the empty index
    /// returns the view's single element.
    pub fn get(&self, indices: &Vec<isize>) -> (r: Result<T, NdarrayError>)
        requires
            self.wf(),
            indices@.len() == self.shape@.len() ==> forall|i: int|
                0 <= i < self.shape@.len() ==> #[trigger] self.shape@[i] > 0 && indices@[i]
                    + self.shape@[i] >= 0,
        ensures
            match r {
                Ok(v) => {
                    &&& indices@.len() == self.shape@.len()
                    &&& v == self.data@[resolve_signed(self.layout(), indices@)]
                },
                Err(e) => {
                    &&& e == NdarrayError::DimensionMismatch
                    &&& indices@.len() != self.shape@.len()
                },
            },
    {
        if indices.len() != self.shape.len() {
            return Err(NdarrayError::DimensionMismatch);
        }
        let total = self.data.len();
        let off = resolve_offset_checked(
            &self.shape,
            &self.strides,
            &self.format,
            self.base,
            indices,
            Ghost(total as int),
        );
        Ok(self.data[off])
    }
}

impl<T> NdarrayBase<T> {
    /// A read-only view of the whole handle: same buffer, same layout,
    /// base offset zero.
    pub fn view(&self) -> (r: NdarrayView<T>)
        requires
            self.wf(),
        ensures
            r.data@ == self.data@,
            r.base == 0,
            r.shape@ == self.shape@,
            r.strides@ == self.strides@,
            r.layout() == self.layout(),
            r.len as int == seq_product(self.shape@),
            r.wf(),
    {
        NdarrayView {
            data: self.data.clone(),
            base: 0,
            shape: copy_usizes(&self.shape),
            strides: copy_usizes(&self.strides),
            format: clone_format(&self.format),
            len: product_of(&self.shape),
        }
    }

    /// A fresh walk along this handle's leading axis; it restarts
    /// independently of any earlier one.
    pub fn iter(&self) -> (r: ViewIter<T>)
        requires
            self.wf(),
        ensures
            r.data@ == self.data@,
            r.count == 0,
            r.axis_len as int == if self.shape@.len() == 0 {
                0int
            } else {
                self.shape@[0] as int
            },
            self.shape@.len() > 0 ==> r.layout() == self.layout() && r.shape@ == self.shape@.skip(
                1,
            ),
            r.wf(),
    {
        make_iter(&self.data, 0, &self.shape, &self.strides, &self.format)
    }
}

} // verus!
