//! The builder of fixed-size binary arrays.
use crate::array::growable::model::{
    any_nulls, bindable, fresh, lemma_child_range, lemma_emptied, lemma_extended, lemma_fresh,
    lemma_room, lemma_with_nulls,
};
use crate::array::growable::utils::{
    append_bytes, append_zeros, extend_validity, extend_validity_nulls, prepare_validity,
    room_for,
};
use crate::array::{lemma_raw_len, lemma_wf_sizes, Array, ArrayView, FixedSizeBinaryArray, Payload};
use crate::bitmap::{mutable_view, MutableBitmap};
use std::sync::Arc;
use vstd::prelude::*;

verus! {

/// The contents of a list of fixed-size binary arrays.
pub open spec fn binary_views(arrays: Seq<&FixedSizeBinaryArray>) -> Seq<ArrayView> {
    Seq::new(arrays.len(), |i: int| arrays[i]@)
}

/// Every array of the list is well formed.
pub open spec fn binaries_wf(arrays: Seq<&FixedSizeBinaryArray>) -> bool {
    forall|i: int| 0 <= i < arrays.len() ==> (#[trigger] arrays[i]).wf()
}

/// Builds a fixed-size binary array out of ranges of the arrays that it
/// is bound to.
pub struct GrowableFixedSizeBinary<'a> {
    arrays: Vec<&'a FixedSizeBinaryArray>,
    validity: Option<MutableBitmap>,
    values: Vec<u8>,
    size: usize,
}

impl<'a> GrowableFixedSizeBinary<'a> {
    /// The contents of the arrays that the builder is bound to.
    pub closed spec fn sources(&self) -> Seq<ArrayView> {
        binary_views(self.arrays@)
    }

    /// The array assembled so far.
    pub closed spec fn pending(&self) -> ArrayView {
        ArrayView {
            data_type: self.arrays@[0]@.data_type,
            validity: mutable_view(self.validity),
            payload: Payload::Bytes(self.values@),
        }
    }

    /// What the builder keeps is consistent with its sources.
    pub closed spec fn inv(&self) -> bool {
        &&& self.arrays@.len() > 0
        &&& binaries_wf(self.arrays@)
        &&& self.size == self.arrays@[0]@.size()
        &&& self.validity matches Some(b) ==> b.wf()
    }

    /// The builder is bound to sources that fit together, and the array
    /// assembled so far is well formed, of their type, and small enough
    /// for all its bytes to be addressed.
    pub open spec fn wf(&self) -> bool {
        &&& self.inv()
        &&& bindable(self.sources())
        &&& self.pending().wf()
        &&& self.pending().data_type == self.sources()[0].data_type
        &&& self.pending().has_room(0)
    }

    /// Binds a new builder to `arrays`. It tracks validity from the start
    /// if `use_validity` is set or any of the arrays has a null slot.
    /// `capacity` is the number of slots to set room aside for.
    pub fn new(arrays: Vec<&'a FixedSizeBinaryArray>, use_validity: bool, capacity: usize) -> (r:
        Self)
        requires
            arrays@.len() > 0,
            binaries_wf(arrays@),
            bindable(binary_views(arrays@)),
        ensures
            r.wf(),
            r.sources() == binary_views(arrays@),
            r.pending() == fresh(arrays@[0]@.data_type, binary_views(arrays@), use_validity),
            r.pending().len() == 0,
    {
        let ghost views = binary_views(arrays@);
        let mut found = false;
        let mut i: usize = 0;
        while i < arrays.len()
            invariant
                i <= arrays@.len(),
                binaries_wf(arrays@),
                views == binary_views(arrays@),
                found == (exists|j: int| 0 <= j < i && (#[trigger] views[j]).null_count() > 0),
            decreases arrays@.len() - i,
        {
            let nulls = arrays[i].null_count();
            proof {
                assert(views[i as int] == arrays@[i as int]@);
            }
            if nulls > 0 {
                found = true;
            }
            i = i + 1;
        }
        let tracked_from_start = use_validity || found;
        let size = arrays[0].size();
        let validity = prepare_validity(tracked_from_start, capacity);
        proof {
            assert(views[0] == arrays@[0]@);
            assert(views[0].wf());
            lemma_wf_sizes(views[0]);
            lemma_fresh(views[0].data_type, views, use_validity);
            arrays@[0].lemma_shape();
            assert(found == any_nulls(views));
        }
        GrowableFixedSizeBinary { arrays, validity, values: Vec::with_capacity(0), size }
    }

    /// Appends the slots `start .. start + len` of the source `index`.
    pub fn extend(&mut self, index: usize, start: usize, len: usize)
        requires
            old(self).wf(),
            index < old(self).sources().len(),
            start + len <= old(self).sources()[index as int].len(),
            old(self).pending().has_room(len as nat),
        ensures
            final(self).wf(),
            final(self).sources() == old(self).sources(),
            final(self).pending() == old(self).pending().extended(
                old(self).sources()[index as int],
                start as nat,
                len as nat,
            ),
            final(self).pending().len() == old(self).pending().len() + len,
    {
        let array = self.arrays[index];
        proof {
            let source = self.sources()[index as int];
            assert(source == array@);
            array.lemma_shape();
            lemma_child_range(source, start as nat, len as nat);
            lemma_raw_len(self.pending());
            lemma_room(self.pending(), len as nat);
            lemma_extended(self.pending(), source, start as nat, len as nat);
            assert(start * self.size <= (start + len) * self.size) by (nonlinear_arith);
        }
        let filled = self.values.len() / self.size;
        extend_validity(&mut self.validity, filled, array.validity(), start, len);
        let from = start * self.size;
        let to = (start + len) * self.size;
        append_bytes(&mut self.values, array.values(), from, to);
    }

    /// Appends `additional` null slots. Appending none changes nothing;
    /// appending any gives the builder a validity mask if it had none.
    pub fn extend_validity(&mut self, additional: usize)
        requires
            old(self).wf(),
            old(self).pending().has_room(additional as nat),
        ensures
            final(self).wf(),
            final(self).sources() == old(self).sources(),
            final(self).pending() == old(self).pending().with_nulls(additional as nat),
            final(self).pending().len() == old(self).pending().len() + additional,
    {
        proof {
            lemma_raw_len(self.pending());
            lemma_room(self.pending(), additional as nat);
            lemma_with_nulls(self.pending(), additional as nat);
        }
        let filled = self.values.len() / self.size;
        append_zeros(&mut self.values, additional * self.size);
        extend_validity_nulls(&mut self.validity, filled, additional);
    }

    /// The number of slots assembled so far.
    pub fn len(&self) -> (r: usize)
        requires
            self.wf(),
        ensures
            r == self.pending().len(),
    {
        self.values.len() / self.size
    }

    /// Takes the assembled array out of the builder, which is left empty
    /// and without a validity mask.
    pub fn to(&mut self) -> (r: FixedSizeBinaryArray)
        requires
            old(self).wf(),
        ensures
            r.wf(),
            r@ == old(self).pending(),
            final(self).wf(),
            final(self).sources() == old(self).sources(),
            final(self).pending() == old(self).pending().emptied(),
    {
        proof {
            lemma_emptied(self.pending());
        }
        let validity = match self.validity.take() {
            Some(mask) => Some(mask.freeze()),
            None => None,
        };
        let mut values: Vec<u8> = Vec::new();
        core::mem::swap(&mut self.values, &mut values);
        FixedSizeBinaryArray::new(self.arrays[0].data_type().clone(), values, validity)
    }

    /// Whether the builder can take `additional` more slots: whether the
    /// bytes of the array that it would then hold can still be addressed.
    pub fn has_room(&self, additional: usize) -> (r: bool)
        requires
            self.wf(),
        ensures
            r == self.pending().has_room(additional as nat),
    {
        proof {
            lemma_wf_sizes(self.pending());
        }
        room_for(self.len(), self.arrays[0].data_type(), additional)
    }

    /// Takes the assembled array out of the builder, behind a shared pointer.
    pub fn as_arc(&mut self) -> (r: Arc<Array>)
        requires
            old(self).wf(),
        ensures
            *r is FixedSizeBinary,
            r.wf(),
            r@ == old(self).pending(),
            final(self).wf(),
            final(self).sources() == old(self).sources(),
            final(self).pending() == old(self).pending().emptied(),
    {
        Arc::new(Array::FixedSizeBinary(self.to()))
    }

    /// Takes the assembled array out of the builder, behind an owning pointer.
    pub fn as_box(&mut self) -> (r: Box<Array>)
        requires
            old(self).wf(),
        ensures
            *r is FixedSizeBinary,
            r.wf(),
            r@ == old(self).pending(),
            final(self).wf(),
            final(self).sources() == old(self).sources(),
            final(self).pending() == old(self).pending().emptied(),
    {
        Box::new(Array::FixedSizeBinary(self.to()))
    }
}

} // verus!
