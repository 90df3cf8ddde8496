//! The builder of fixed-size list arrays.
use crate::array::growable::model::{
    any_nulls, bindable, children, fresh, lemma_child_range, lemma_emptied, lemma_extended,
    lemma_fresh, lemma_room, lemma_with_nulls,
};
use crate::array::growable::utils::{
    extend_validity, extend_validity_nulls, prepare_validity, room_for,
};
use crate::array::growable::{array_views, arrays_wf, make_growable, Growable};
use crate::array::{lemma_raw_len, lemma_wf_sizes, Array, ArrayView, FixedSizeListArray, Payload};
use crate::bitmap::{mutable_view, MutableBitmap};
use crate::datatypes::DataType;
use std::sync::Arc;
use vstd::prelude::*;

verus! {

/// The contents of a list of fixed-size list arrays.
pub open spec fn list_views(arrays: Seq<&FixedSizeListArray>) -> Seq<ArrayView> {
    Seq::new(arrays.len(), |i: int| arrays[i]@)
}

/// Every array of the list is well formed.
pub open spec fn lists_wf(arrays: Seq<&FixedSizeListArray>) -> bool {
    forall|i: int| 0 <= i < arrays.len() ==> (#[trigger] arrays[i]).wf()
}

/// Builds a fixed-size list array out of ranges of the arrays that it is
/// bound to. It owns a builder of its own for the elements, bound to the
/// child arrays of its sources, and drives it: one slot of the list is
/// `size` slots of the child.
pub struct GrowableFixedSizeList<'a> {
    arrays: Vec<&'a FixedSizeListArray>,
    validity: Option<MutableBitmap>,
    values: Box<Growable<'a>>,
    size: usize,
}

impl<'a> GrowableFixedSizeList<'a> {
    /// The contents of the arrays that the builder is bound to.
    pub closed spec fn sources(&self) -> Seq<ArrayView> {
        list_views(self.arrays@)
    }

    /// The array assembled so far.
    pub closed spec fn pending(&self) -> ArrayView
        decreases self,
    {
        ArrayView {
            data_type: self.arrays@[0]@.data_type,
            validity: mutable_view(self.validity),
            payload: Payload::Child(Box::new(self.values.pending())),
        }
    }

    /// What the builder keeps is consistent with its sources, and the
    /// builder of the elements is bound to their children.
    pub closed spec fn inv(&self) -> bool
        decreases self, 0int,
    {
        &&& self.arrays@.len() > 0
        &&& lists_wf(self.arrays@)
        &&& self.size == self.arrays@[0]@.size()
        &&& self.validity matches Some(b) ==> b.wf()
        &&& self.values.wf()
        &&& self.values.sources() == children(self.sources())
    }

    /// The builder is bound to sources that fit together, and the array
    /// assembled so far is well formed, of their type, and small enough
    /// for all its bytes to be addressed.
    pub open spec fn wf(&self) -> bool
        decreases self, 1int,
    {
        &&& self.inv()
        &&& bindable(self.sources())
        &&& self.pending().wf()
        &&& self.pending().data_type == self.sources()[0].data_type
        &&& self.pending().has_room(0)
    }

    /// Binds a new builder to `arrays`, which must not be empty.
    ///
    /// The number of elements in a slot is read from the type of the first
    /// array. The builder tracks validity from the start if `use_validity`
    /// is set or any of the arrays has a null slot. The builder of the
    /// elements is bound to the child arrays, is not asked to track
    /// validity, and has no room set aside. `capacity` is the number of
    /// slots to set room aside for in the validity mask.
    pub fn new(arrays: Vec<&'a FixedSizeListArray>, use_validity: bool, capacity: usize) -> (r:
        Self)
        requires
            arrays@.len() > 0,
            lists_wf(arrays@),
            bindable(list_views(arrays@)),
        ensures
            r.wf(),
            r.sources() == list_views(arrays@),
            r.pending() == fresh(arrays@[0]@.data_type, list_views(arrays@), use_validity),
            r.pending().len() == 0,
        decreases arrays@[0]@.data_type.depth(), 0int,
    {
        let ghost views = list_views(arrays@);
        let mut found = false;
        let mut i: usize = 0;
        while i < arrays.len()
            invariant
                i <= arrays@.len(),
                lists_wf(arrays@),
                views == list_views(arrays@),
                found == (exists|j: int| 0 <= j < i && (#[trigger] views[j]).null_count() > 0),
            decreases arrays@.len() - i,
        {
            let nulls = arrays[i].null_count();
            proof {
                assert(views[i as int] == arrays@[i as int]@);
            }
            if nulls > 0 {
                found = true;
            }
            i = i + 1;
        }
        let tracked_from_start = use_validity || found;

        proof {
            assert(views[0] == arrays@[0]@);
            arrays@[0].lemma_shape();
        }
        let size = match arrays[0].data_type() {
            DataType::FixedSizeList(_, size) => *size,
            DataType::FixedSizeBinary(size) => {
                assert(false);
                *size
            },
        };

        let mut inner: Vec<&'a Array> = Vec::with_capacity(arrays.len());
        let mut k: usize = 0;
        while k < arrays.len()
            invariant
                k <= arrays@.len(),
                lists_wf(arrays@),
                views == list_views(arrays@),
                inner@.len() == k,
                arrays_wf(inner@),
                forall|j: int| 0 <= j < k ==> (#[trigger] inner@[j])@ == views[j].child(),
            decreases arrays@.len() - k,
        {
            let array: &'a FixedSizeListArray = arrays[k];
            proof {
                assert(views[k as int] == array@);
            }
            inner.push(array.values());
            k = k + 1;
        }
        proof {
            assert(array_views(inner@) =~= children(views));
            assert forall|j: int| 0 <= j < children(views).len() implies (#[trigger] children(
                views,
            )[j]).wf() && children(views)[j].data_type == children(views)[0].data_type by {
                assert(views[j].wf());
                assert(views[0].wf());
                assert(views[j].data_type == views[0].data_type);
            }
        }
        let values = make_growable(inner.as_slice(), false, 0);
        let validity = prepare_validity(tracked_from_start, capacity);
        proof {
            lemma_wf_sizes(views[0]);
            lemma_fresh(views[0].data_type, views, use_validity);
            assert(found == any_nulls(views));
        }
        GrowableFixedSizeList { arrays, values: Box::new(values), validity, size }
    }

    /// Takes the assembled array out of the builder, which is left empty
    /// and without a validity mask, as is the builder of the elements. The
    /// array has the logical type of the first source.
    pub fn to(&mut self) -> (r: FixedSizeListArray)
        requires
            old(self).wf(),
        ensures
            r.wf(),
            r@ == old(self).pending(),
            final(self).wf(),
            final(self).sources() == old(self).sources(),
            final(self).pending() == old(self).pending().emptied(),
        decreases *old(self), 0int,
    {
        proof {
            lemma_emptied(self.pending());
        }
        let validity = match self.validity.take() {
            Some(mask) => Some(mask.freeze()),
            None => None,
        };
        let values = self.values.as_box();
        FixedSizeListArray::new(self.arrays[0].data_type().clone(), values, validity)
    }

    /// Appends the slots `start .. start + len` of the source `index`: their
    /// validity to the mask, and their elements, which are the child slots
    /// `start * size .. (start + len) * size`, to the builder of the elements.
    pub fn extend(&mut self, index: usize, start: usize, len: usize)
        requires
            old(self).wf(),
            index < old(self).sources().len(),
            start + len <= old(self).sources()[index as int].len(),
            old(self).pending().has_room(len as nat),
        ensures
            final(self).wf(),
            final(self).sources() == old(self).sources(),
            final(self).pending() == old(self).pending().extended(
                old(self).sources()[index as int],
                start as nat,
                len as nat,
            ),
            final(self).pending().len() == old(self).pending().len() + len,
        decreases *old(self),
    {
        let array = self.arrays[index];
        proof {
            let source = self.sources()[index as int];
            assert(source == array@);
            array.lemma_shape();
            lemma_child_range(source, start as nat, len as nat);
            lemma_raw_len(self.pending());
            lemma_room(self.pending(), len as nat);
            lemma_extended(self.pending(), source, start as nat, len as nat);
            assert(start * self.size <= (start + len) * self.size) by (nonlinear_arith);
            assert(len * self.size <= (start + len) * self.size) by (nonlinear_arith);
        }
        let filled = self.values.len() / self.size;
        extend_validity(&mut self.validity, filled, array.validity(), start, len);
        self.values.extend(index, start * self.size, len * self.size);
    }

    /// Appends `additional` null slots: as many unset bits to the mask,
    /// and `additional * size` null slots to the builder of the elements,
    /// so that the child keeps `size` slots for each slot of the list.
    /// Appending none changes nothing; appending any gives the builder a
    /// validity mask if it had none.
    pub fn extend_validity(&mut self, additional: usize)
        requires
            old(self).wf(),
            old(self).pending().has_room(additional as nat),
        ensures
            final(self).wf(),
            final(self).sources() == old(self).sources(),
            final(self).pending() == old(self).pending().with_nulls(additional as nat),
            final(self).pending().len() == old(self).pending().len() + additional,
        decreases *old(self),
    {
        proof {
            lemma_raw_len(self.pending());
            lemma_room(self.pending(), additional as nat);
            lemma_with_nulls(self.pending(), additional as nat);
        }
        let filled = self.values.len() / self.size;
        self.values.extend_validity(additional * self.size);
        extend_validity_nulls(&mut self.validity, filled, additional);
    }

    /// The number of slots assembled so far: it is not stored, but is the
    /// number of element slots divided by the size of a slot.
    pub fn len(&self) -> (r: usize)
        requires
            self.wf(),
        ensures
            r == self.pending().len(),
        decreases *self,
    {
        self.values.len() / self.size
    }

    /// Whether the builder can take `additional` more slots: whether the
    /// bytes of the array that it would then hold can still be addressed.
    pub fn has_room(&self, additional: usize) -> (r: bool)
        requires
            self.wf(),
        ensures
            r == self.pending().has_room(additional as nat),
    {
        proof {
            lemma_wf_sizes(self.pending());
        }
        room_for(self.len(), self.arrays[0].data_type(), additional)
    }

    /// Takes the assembled array out of the builder, behind a shared pointer.
    pub fn as_arc(&mut self) -> (r: Arc<Array>)
        requires
            old(self).wf(),
        ensures
            *r is FixedSizeList,
            r.wf(),
            r@ == old(self).pending(),
            final(self).wf(),
            final(self).sources() == old(self).sources(),
            final(self).pending() == old(self).pending().emptied(),
        decreases *old(self), 1int,
    {
        Arc::new(Array::FixedSizeList(self.to()))
    }

    /// Takes the assembled array out of the builder, behind an owning pointer.
    pub fn as_box(&mut self) -> (r: Box<Array>)
        requires
            old(self).wf(),
        ensures
            *r is FixedSizeList,
            r.wf(),
            r@ == old(self).pending(),
            final(self).wf(),
            final(self).sources() == old(self).sources(),
            final(self).pending() == old(self).pending().emptied(),
        decreases *old(self), 1int,
    {
        Box::new(Array::FixedSizeList(self.to()))
    }
}

impl FixedSizeListArray {
    /// The array that a builder has assembled; the builder is used up.
    pub fn from<'a>(val: GrowableFixedSizeList<'a>) -> (r: FixedSizeListArray)
        requires
            val.wf(),
        ensures
            r.wf(),
            r@ == val.pending(),
    {
        let mut values = val.values;
        let values = values.as_box();
        let validity = match val.validity {
            Some(mask) => Some(mask.freeze()),
            None => None,
        };
        FixedSizeListArray::new(val.arrays[0].data_type().clone(), values, validity)
    }
}

} // verus!
