//! Exclusive mutation: the access gate that grants in-place writes, and the
//! mutable iteration protocol.
//!
//! All views into one buffer are shared; granting mutation while any other
//! holder observes the same memory would break aliasing safety. The access gate
//! therefore hands the buffer over to an exclusive handle only when it is
//! the buffer's sole holder, and fails loudly otherwise. Writes then go
//! through the identical offset-computation rules that reads use.
//!
//! Mutable iteration hands out index-range descriptors into the exclusively
//! owned store rather than raw sub-buffers: each position along the leading
//! axis yields a descriptor, and reads and writes through a descriptor are
//! resolved against the store they were made for.

use vstd::prelude::*;
use std::rc::Rc;

use crate::errors::NdarrayError;
use crate::layout::{
    FormatModel, Layout, layout_wf, mk_layout, seq_product, axis_coord, fmt_ok,
    subview_layout, suffix_products_fit, product_of, resolve_signed, lemma_subview_layout_wf,
};
use crate::ndarray::{
    Format, NdarrayBase, fmt_model, lists_model, copy_usizes, clone_format,
    resolve_offset_checked,
};
use vstd::arithmetic::mul::{lemma_mul_nonnegative, lemma_mul_is_commutative};

verus! {

/// An exclusively owned array: the buffer itself plus the layout descriptor
/// that addresses it. Only the mutable-access gate creates one, so holding
/// it proves that no shared view observes the same memory.
pub struct NdarrayBaseMut<T> {
    pub data: Vec<T>,
    pub shape: Vec<usize>,
    pub strides: Vec<usize>,
    pub format: Format,
}

impl<T> NdarrayBaseMut<T> {
    /// The layout descriptor of this exclusive handle.
    pub open spec fn layout(&self) -> Layout {
        mk_layout(self.shape@, self.strides@, fmt_model(self.format), 0)
    }

    /// Well-formedness over the owned store.
    pub open spec fn wf(&self) -> bool {
        layout_wf(self.layout(), self.data@.len() as int)
    }

    /// The mutable-access gate: succeeds exactly when the consumed handle is
    /// its buffer's only holder, handing the buffer over with identical
    /// shape, strides and format; fails with `AliasingError` while any other
    /// handle or view still shares the buffer (the consumed handle is then
    /// released, so the remaining holders keep the buffer). Whether the
    /// holder count is one is a fact of the running program, not of the
    /// handle's value, so no contract can promise which side is taken.
    pub fn new(input: NdarrayBase<T>) -> (r: Result<NdarrayBaseMut<T>, NdarrayError>)
        ensures
            match r {
                Ok(m) => {
                    &&& m.data@ == input.data@
                    &&& m.shape@ == input.shape@
                    &&& m.strides@ == input.strides@
                    &&& fmt_model(m.format) == fmt_model(input.format)
                    &&& (input.wf() ==> m.wf())
                },
                Err(e) => e == NdarrayError::AliasingError,
            },
    {
        let NdarrayBase { data, shape, strides, format } = input;
        match Rc::try_unwrap(data) {
            Ok(owned) => Ok(NdarrayBaseMut { data: owned, shape, strides, format }),
            Err(_) => Err(NdarrayError::AliasingError),
        }
    }

    /// Releases exclusivity: the store goes back behind a shared handle with
    /// the same layout, open again to views and to a later mutation request.
    pub fn into_ndarray(self) -> (r: NdarrayBase<T>)
        ensures
            r.data@ == self.data@,
            r.shape@ == self.shape@,
            r.strides@ == self.strides@,
            fmt_model(r.format) == fmt_model(self.format),
            self.wf() ==> r.wf(),
    {
        NdarrayBase {
            data: Rc::new(self.data),
            shape: self.shape,
            strides: self.strides,
            format: self.format,
        }
    }
}

impl<T: Copy> NdarrayBaseMut<T> {
    /// Returns the element that a signed multi-index selects, under the same
    /// rules as a shared read. Fails with `DimensionMismatch` exactly when
    /// the index count differs from the dimensionality.
    pub fn get(&self, indices: &Vec<isize>) -> (r: Result<T, NdarrayError>)
        requires
            self.wf(),
            indices@.len() == self.shape@.len() ==> forall|i: int|
                0 <= i < self.shape@.len() ==> #[trigger] self.shape@[i] > 0 && indices@[i]
                    + self.shape@[i] >= 0,
        ensures
            match r {
                Ok(v) => {
                    &&& indices@.len() == self.shape@.len()
                    &&& v == self.data@[resolve_signed(self.layout(), indices@)]
                },
                Err(e) => {
                    &&& e == NdarrayError::DimensionMismatch
                    &&& indices@.len() != self.shape@.len()
                },
            },
    {
        if indices.len() != self.shape.len() {
            return Err(NdarrayError::DimensionMismatch);
        }
        let total = self.data.len();
        let off = resolve_offset_checked(
            &self.shape,
            &self.strides,
            &self.format,
            0,
            indices,
            Ghost(total as int),
        );
        Ok(self.data[off])
    }

    /// Writes `value` at the element a signed multi-index selects, through
    /// the identical offset-computation rules that reads use. Fails with
    /// `DimensionMismatch` exactly when the index count differs from the
    /// dimensionality; the layout and every other element stay unchanged.
    pub fn set(&mut self, indices: &Vec<isize>, value: T) -> (r: Result<(), NdarrayError>)
        requires
            old(self).wf(),
            indices@.len() == old(self).shape@.len() ==> forall|i: int|
                0 <= i < old(self).shape@.len() ==> #[trigger] old(self).shape@[i] > 0
                    && indices@[i] + old(self).shape@[i] >= 0,
        ensures
            final(self).shape@ == old(self).shape@,
            final(self).strides@ == old(self).strides@,
            fmt_model(final(self).format) == fmt_model(old(self).format),
            final(self).wf(),
            match r {
                Ok(()) => {
                    &&& indices@.len() == old(self).shape@.len()
                    &&& final(self).data@ == old(self).data@.update(
                        resolve_signed(old(self).layout(), indices@),
                        value,
                    )
                },
                Err(e) => {
                    &&& e == NdarrayError::DimensionMismatch
                    &&& indices@.len() != old(self).shape@.len()
                    &&& final(self).data@ == old(self).data@
                },
            },
    {
        if indices.len() != self.shape.len() {
            return Err(NdarrayError::DimensionMismatch);
        }
        let total = self.data.len();
        let off = resolve_offset_checked(
            &self.shape,
            &self.strides,
            &self.format,
            0,
            indices,
            Ghost(total as int),
        );
        self.data.set(off, value);
        Ok(())
    }
}

/// A mutable sub-view, as an index-range descriptor into an exclusively
/// owned store of `store_len` elements: a base offset plus the remaining
/// axes' extents, strides and format. Reads and writes through it are
/// resolved against the store it was made for.
pub struct NdarrayViewMut {
    pub base: usize,
    pub shape: Vec<usize>,
    pub strides: Vec<usize>,
    pub format: Format,
    pub len: usize,
    pub store_len: usize,
}

impl NdarrayViewMut {
    /// The layout descriptor of this sub-view.
    pub open spec fn layout(&self) -> Layout {
        mk_layout(self.shape@, self.strides@, fmt_model(self.format), self.base as int)
    }

    /// Well-formedness over the store the descriptor indexes into.
    pub open spec fn wf(&self) -> bool {
        &&& layout_wf(self.layout(), self.store_len as int)
        &&& self.len as int == seq_product(self.shape@)
    }
}

/// A lazy walk along the leading axis of an exclusively owned array or of a
/// mutable sub-view, yielding one descriptor per position. Distinct
/// positions address distinct stride multiples, which is what lets a caller
/// mutate through each descriptor in turn over one shared store.
pub struct ViewIterMut {
    pub base: usize,
    pub axis_len: usize,
    pub axis_stride: usize,
    pub shape: Vec<usize>,
    pub strides: Vec<usize>,
    pub format: Format,
    pub count: usize,
    pub len: usize,
    pub store_len: usize,
}

impl ViewIterMut {
    /// The full layout this iterator walks: the leading axis put back in
    /// front of the remaining ones.
    pub open spec fn layout(&self) -> Layout {
        mk_layout(
            seq![self.axis_len] + self.shape@,
            seq![self.axis_stride] + self.strides@,
            fmt_model(self.format),
            self.base as int,
        )
    }

    /// Well-formedness: the position never passes the axis, and a
    /// non-exhausted walk is over a well-formed layout whose sub-views hold
    /// `len` elements each.
    pub open spec fn wf(&self) -> bool {
        &&& self.count <= self.axis_len
        &&& self.axis_len > 0 ==> layout_wf(self.layout(), self.store_len as int)
        &&& self.axis_len > 0 ==> self.len as int == seq_product(self.shape@)
    }

    /// How many descriptors are still to come: exact lower and upper bound.
    pub fn size_hint(&self) -> (r: (usize, Option<usize>))
        requires
            self.wf(),
        ensures
            r.0 == self.axis_len - self.count,
            r.1 == Some(r.0),
    {
        let size = self.axis_len - self.count;
        (size, Some(size))
    }

    /// Produces the descriptor at the current position and advances, or
    /// reports exhaustion: `Some` exactly as long as positions remain, one
    /// descriptor per position along the walked axis, each of the remaining
    /// shape and indexing into the same store.
    pub fn next(&mut self) -> (r: Option<NdarrayViewMut>)
        requires
            old(self).wf(),
        ensures
            final(self).wf(),
            old(self).count < old(self).axis_len ==> {
                &&& r matches Some(v) && {
                    &&& v.store_len == old(self).store_len
                    &&& v.layout() == subview_layout(old(self).layout(), old(self).count as int)
                    &&& v.shape@ == old(self).shape@
                    &&& v.strides@ == old(self).strides@
                    &&& v.len == old(self).len
                    &&& v.wf()
                }
                &&& final(self).count == old(self).count + 1
                &&& final(self).base == old(self).base
                &&& final(self).axis_len == old(self).axis_len
                &&& final(self).axis_stride == old(self).axis_stride
                &&& final(self).shape@ == old(self).shape@
                &&& final(self).strides@ == old(self).strides@
                &&& fmt_model(final(self).format) == fmt_model(old(self).format)
                &&& final(self).len == old(self).len
                &&& final(self).store_len == old(self).store_len
            },
            old(self).count >= old(self).axis_len ==> r is None && *final(self) == *old(self),
    {
        if self.count < self.axis_len {
            let ghost l = self.layout();
            let ghost c = self.count as int;
            let count = self.count;
            self.count = count + 1;
            let h: usize = match &self.format {
                Format::Dense => count,
                Format::Slice(offsets) => {
                    proof {
                        assert(fmt_ok(l.fmt, l.shape));
                        assert(offsets@[0] + l.shape[0] <= usize::MAX);
                        assert(l.shape[0] == self.axis_len);
                    }
                    offsets[0] + count
                },
                Format::Slices(lists) => {
                    proof {
                        assert(fmt_ok(l.fmt, l.shape));
                        assert(lists_model(*lists)[0] == lists@[0]@);
                        assert(lists@[0]@.len() == l.shape[0]);
                        assert(l.shape[0] == self.axis_len);
                    }
                    lists[0][count]
                },
            };
            proof {
                assert(h as int == axis_coord(l.fmt, 0, c));
                lemma_subview_layout_wf(l, self.store_len as int, c);
                assert(l.strides[0] == self.axis_stride);
                lemma_mul_is_commutative(h as int, self.axis_stride as int);
                lemma_mul_nonnegative(self.axis_stride as int, h as int);
                assert(self.base + h * self.axis_stride == subview_layout(l, c).base);
                assert(subview_layout(l, c).base <= self.store_len);
            }
            let nb = self.base + h * self.axis_stride;
            let v = NdarrayViewMut {
                base: nb,
                shape: copy_usizes(&self.shape),
                strides: copy_usizes(&self.strides),
                format: crate::iter::tail_format(&self.format),
                len: self.len,
                store_len: self.store_len,
            };
            proof {
                assert(l.shape.skip(1) =~= self.shape@);
                assert(l.strides.skip(1) =~= self.strides@);
                assert(v.layout() == subview_layout(l, c));
            }
            Some(v)
        } else {
            None
        }
    }
}

/// Builds the descriptor iterator for a layout over a store of `store_len`
/// elements: the walk starts at position 0 and covers the leading axis, or
/// is exhausted at once when there is no axis to walk.
fn make_iter_mut(
    base: usize,
    shape: &Vec<usize>,
    strides: &Vec<usize>,
    format: &Format,
    store_len: usize,
) -> (r: ViewIterMut)
    requires
        layout_wf(
            mk_layout(shape@, strides@, fmt_model(*format), base as int),
            store_len as int,
        ),
    ensures
        r.store_len == store_len,
        r.count == 0,
        r.base == base,
        fmt_model(r.format) == fmt_model(*format),
        r.axis_len as int == if shape@.len() == 0 {
            0int
        } else {
            shape@[0] as int
        },
        shape@.len() > 0 ==> {
            &&& r.axis_stride == strides@[0]
            &&& r.shape@ == shape@.skip(1)
            &&& r.strides@ == strides@.skip(1)
            &&& r.layout() == mk_layout(shape@, strides@, fmt_model(*format), base as int)
            &&& r.len as int == seq_product(shape@.skip(1))
        },
        r.wf(),
{
    if shape.len() == 0 {
        ViewIterMut {
            base,
            axis_len: 0,
            axis_stride: 0,
            shape: Vec::new(),
            strides: Vec::new(),
            format: clone_format(format),
            count: 0,
            len: 0,
            store_len,
        }
    } else {
        let tail_sh = crate::iter::tail_usizes(shape);
        let tail_st = crate::iter::tail_usizes(strides);
        proof {
            assert(suffix_products_fit(shape@));
            assert forall|j: int| 0 <= j <= tail_sh@.len() implies #[trigger] seq_product(
                tail_sh@.skip(j),
            ) <= usize::MAX by {
                assert(tail_sh@.skip(j) =~= shape@.skip(j + 1));
            }
        }
        let sub_len = product_of(&tail_sh);
        let r = ViewIterMut {
            base,
            axis_len: shape[0],
            axis_stride: strides[0],
            shape: tail_sh,
            strides: tail_st,
            format: clone_format(format),
            count: 0,
            len: sub_len,
            store_len,
        };
        proof {
            assert(seq![r.axis_len] + r.shape@ =~= shape@);
            assert(seq![r.axis_stride] + r.strides@ =~= strides@);
        }
        r
    }
}

impl<T> NdarrayBaseMut<T> {
    /// A fresh mutable walk along this array's leading axis; it restarts
    /// independently of any earlier one, and its descriptors index into this
    /// array's store.
    pub fn iter_mut(&self) -> (r: ViewIterMut)
        requires
            self.wf(),
        ensures
            r.store_len == self.data@.len(),
            r.count == 0,
            r.axis_len as int == if self.shape@.len() == 0 {
                0int
            } else {
                self.shape@[0] as int
            },
            self.shape@.len() > 0 ==> r.layout() == self.layout() && r.shape@ == self.shape@.skip(
                1,
            ),
            r.wf(),
    {
        let total = self.data.len();
        make_iter_mut(0, &self.shape, &self.strides, &self.format, total)
    }
}

impl NdarrayViewMut {
    /// A fresh mutable walk along this sub-view's leading axis, indexing
    /// into the same store.
    pub fn iter_mut(&self) -> (r: ViewIterMut)
        requires
            self.wf(),
        ensures
            r.store_len == self.store_len,
            r.count == 0,
            r.axis_len as int == if self.shape@.len() == 0 {
                0int
            } else {
                self.shape@[0] as int
            },
            self.shape@.len() > 0 ==> r.layout() == self.layout() && r.shape@ == self.shape@.skip(
                1,
            ),
            r.wf(),
    {
        make_iter_mut(self.base, &self.shape, &self.strides, &self.format, self.store_len)
    }
}

impl<T: Copy> NdarrayBaseMut<T> {
    /// Reads the element a signed multi-index selects through a sub-view
    /// descriptor made for this array's store.
    pub fn get_view(&self, view: &NdarrayViewMut, indices: &Vec<isize>) -> (r: Result<
        T,
        NdarrayError,
    >)
        requires
            view.wf(),
            view.store_len == self.data@.len(),
            indices@.len() == view.shape@.len() ==> forall|i: int|
                0 <= i < view.shape@.len() ==> #[trigger] view.shape@[i] > 0 && indices@[i]
                    + view.shape@[i] >= 0,
        ensures
            match r {
                Ok(v) => {
                    &&& indices@.len() == view.shape@.len()
                    &&& v == self.data@[resolve_signed(view.layout(), indices@)]
                },
                Err(e) => {
                    &&& e == NdarrayError::DimensionMismatch
                    &&& indices@.len() != view.shape@.len()
                },
            },
    {
        if indices.len() != view.shape.len() {
            return Err(NdarrayError::DimensionMismatch);
        }
        let total = self.data.len();
        let off = resolve_offset_checked(
            &view.shape,
            &view.strides,
            &view.format,
            view.base,
            indices,
            Ghost(total as int),
        );
        Ok(self.data[off])
    }

    /// Writes `value` at the element a signed multi-index selects through a
    /// sub-view descriptor made for this array's store; the layout and every
    /// other element stay unchanged.
    pub fn set_view(&mut self, view: &NdarrayViewMut, indices: &Vec<isize>, value: T) -> (r:
        Result<(), NdarrayError>)
        requires
            view.wf(),
            view.store_len == old(self).data@.len(),
            indices@.len() == view.shape@.len() ==> forall|i: int|
                0 <= i < view.shape@.len() ==> #[trigger] view.shape@[i] > 0 && indices@[i]
                    + view.shape@[i] >= 0,
        ensures
            final(self).shape@ == old(self).shape@,
            final(self).strides@ == old(self).strides@,
            fmt_model(final(self).format) == fmt_model(old(self).format),
            final(self).data@.len() == old(self).data@.len(),
            old(self).wf() ==> final(self).wf(),
            match r {
                Ok(()) => {
                    &&& indices@.len() == view.shape@.len()
                    &&& final(self).data@ == old(self).data@.update(
                        resolve_signed(view.layout(), indices@),
                        value,
                    )
                },
                Err(e) => {
                    &&& e == NdarrayError::DimensionMismatch
                    &&& indices@.len() != view.shape@.len()
                    &&& final(self).data@ == old(self).data@
                },
            },
    {
        if indices.len() != view.shape.len() {
            return Err(NdarrayError::DimensionMismatch);
        }
        let total = self.data.len();
        let off = resolve_offset_checked(
            &view.shape,
            &view.strides,
            &view.format,
            view.base,
            indices,
            Ghost(total as int),
        );
        self.data.set(off, value);
        Ok(())
    }
}

} // verus!
