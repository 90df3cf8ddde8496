//! Builders that assemble a new array out of ranges of other arrays.
//!
//! A builder is bound, when it is made, to an ordered list of source
//! arrays of one logical type. It is then driven by calls that append a
//! range of one source, or a run of nulls, and at last gives up the array
//! that it has assembled.
pub mod fixed_size_binary;
pub mod fixed_size_list;
pub mod laws;
pub mod model;
pub mod utils;

pub use fixed_size_binary::GrowableFixedSizeBinary;
pub use fixed_size_list::GrowableFixedSizeList;

use crate::array::growable::fixed_size_binary::{binaries_wf, binary_views};
use crate::array::growable::fixed_size_list::{list_views, lists_wf};
use crate::array::growable::model::{bindable, fresh};
use crate::array::{Array, ArrayView, FixedSizeBinaryArray, FixedSizeListArray};
use std::sync::Arc;
use vstd::prelude::*;

verus! {

/// The contents of a list of arrays.
pub open spec fn array_views(arrays: Seq<&Array>) -> Seq<ArrayView> {
    Seq::new(arrays.len(), |i: int| arrays[i]@)
}

/// Every array of the list is well formed.
pub open spec fn arrays_wf(arrays: Seq<&Array>) -> bool {
    forall|i: int| 0 <= i < arrays.len() ==> (#[trigger] arrays[i]).wf()
}

/// A builder for any of the encodings that this crate knows. Whatever the
/// encoding, it offers the same operations under the same contract.
pub enum Growable<'a> {
    FixedSizeBinary(GrowableFixedSizeBinary<'a>),
    FixedSizeList(GrowableFixedSizeList<'a>),
}

impl<'a> Growable<'a> {
    /// The contents of the arrays that the builder is bound to.
    pub open spec fn sources(&self) -> Seq<ArrayView>
        decreases self,
    {
        match self {
            Growable::FixedSizeBinary(g) => g.sources(),
            Growable::FixedSizeList(g) => g.sources(),
        }
    }

    /// The array assembled so far.
    pub open spec fn pending(&self) -> ArrayView
        decreases self,
    {
        match self {
            Growable::FixedSizeBinary(g) => g.pending(),
            Growable::FixedSizeList(g) => g.pending(),
        }
    }

    /// The builder is bound to sources that fit together, and the array
    /// assembled so far is well formed, of their type, and small enough
    /// for all its bytes to be addressed.
    pub open spec fn wf(&self) -> bool
        decreases self, 0int,
    {
        match self {
            Growable::FixedSizeBinary(g) => g.wf(),
            Growable::FixedSizeList(g) => g.wf(),
        }
    }

    /// Appends the slots `start .. start + len` of the source `index`.
    pub fn extend(&mut self, index: usize, start: usize, len: usize)
        requires
            old(self).wf(),
            index < old(self).sources().len(),
            start + len <= old(self).sources()[index as int].len(),
            old(self).pending().has_room(len as nat),
        ensures
            final(self).wf(),
            final(self).sources() == old(self).sources(),
            final(self).pending() == old(self).pending().extended(
                old(self).sources()[index as int],
                start as nat,
                len as nat,
            ),
            final(self).pending().len() == old(self).pending().len() + len,
        decreases *old(self), 2int,
    {
        match self {
            Growable::FixedSizeBinary(g) => g.extend(index, start, len),
            Growable::FixedSizeList(g) => g.extend(index, start, len),
        }
    }

    /// Appends `additional` null slots. Appending none changes nothing;
    /// appending any gives the builder a validity mask if it had none.
    pub fn extend_validity(&mut self, additional: usize)
        requires
            old(self).wf(),
            old(self).pending().has_room(additional as nat),
        ensures
            final(self).wf(),
            final(self).sources() == old(self).sources(),
            final(self).pending() == old(self).pending().with_nulls(additional as nat),
            final(self).pending().len() == old(self).pending().len() + additional,
        decreases *old(self), 2int,
    {
        match self {
            Growable::FixedSizeBinary(g) => g.extend_validity(additional),
            Growable::FixedSizeList(g) => g.extend_validity(additional),
        }
    }

    /// The number of slots assembled so far.
    pub fn len(&self) -> (r: usize)
        requires
            self.wf(),
        ensures
            r == self.pending().len(),
        decreases *self,
    {
        match self {
            Growable::FixedSizeBinary(g) => g.len(),
            Growable::FixedSizeList(g) => g.len(),
        }
    }

    /// Whether the builder can take `additional` more slots: whether the
    /// bytes of the array that it would then hold can still be addressed.
    pub fn has_room(&self, additional: usize) -> (r: bool)
        requires
            self.wf(),
        ensures
            r == self.pending().has_room(additional as nat),
    {
        match self {
            Growable::FixedSizeBinary(g) => g.has_room(additional),
            Growable::FixedSizeList(g) => g.has_room(additional),
        }
    }

    /// Takes the assembled array out of the builder, behind a shared pointer.
    pub fn as_arc(&mut self) -> (r: Arc<Array>)
        requires
            old(self).wf(),
        ensures
            *r is FixedSizeBinary <==> *old(self) is FixedSizeBinary,
            r.wf(),
            r@ == old(self).pending(),
            final(self).wf(),
            final(self).sources() == old(self).sources(),
            final(self).pending() == old(self).pending().emptied(),
        decreases *old(self), 2int,
    {
        match self {
            Growable::FixedSizeBinary(g) => g.as_arc(),
            Growable::FixedSizeList(g) => g.as_arc(),
        }
    }

    /// Takes the assembled array out of the builder, behind an owning pointer.
    pub fn as_box(&mut self) -> (r: Box<Array>)
        requires
            old(self).wf(),
        ensures
            *r is FixedSizeBinary <==> *old(self) is FixedSizeBinary,
            r.wf(),
            r@ == old(self).pending(),
            final(self).wf(),
            final(self).sources() == old(self).sources(),
            final(self).pending() == old(self).pending().emptied(),
        decreases *old(self), 2int,
    {
        match self {
            Growable::FixedSizeBinary(g) => g.as_box(),
            Growable::FixedSizeList(g) => g.as_box(),
        }
    }
}

/// Binds the builder that fits the encoding of `arrays` to them. It tracks
/// validity from the start if `use_validity` is set or any of the arrays
/// has a null slot. `capacity` is the number of slots to set room aside for.
pub fn make_growable<'a>(arrays: &[&'a Array], use_validity: bool, capacity: usize) -> (r: Growable<
    'a,
>)
    requires
        arrays@.len() > 0,
        arrays_wf(arrays@),
        bindable(array_views(arrays@)),
    ensures
        r.wf(),
        r.sources() == array_views(arrays@),
        r.pending() == fresh(arrays@[0]@.data_type, array_views(arrays@), use_validity),
        r.pending().len() == 0,
        r is FixedSizeBinary <==> arrays@[0] is FixedSizeBinary,
    decreases arrays@[0]@.data_type.depth(), 1int,
{
    let ghost views = array_views(arrays@);
    proof {
        assert(views[0] == arrays@[0]@);
        arrays@[0].lemma_shape();
    }
    match arrays[0] {
        Array::FixedSizeBinary(_) => {
            let mut typed: Vec<&'a FixedSizeBinaryArray> = Vec::with_capacity(arrays.len());
            let mut i: usize = 0;
            while i < arrays.len()
                invariant
                    i <= arrays@.len(),
                    arrays_wf(arrays@),
                    bindable(array_views(arrays@)),
                    arrays@[0]@.data_type is FixedSizeBinary,
                    typed@.len() == i,
                    binaries_wf(typed@),
                    forall|j: int| 0 <= j < i ==> (#[trigger] typed@[j])@ == arrays@[j]@,
                decreases arrays@.len() - i,
            {
                proof {
                    assert(array_views(arrays@)[i as int] == arrays@[i as int]@);
                    arrays@[i as int].lemma_shape();
                }
                match arrays[i] {
                    Array::FixedSizeBinary(a) => {
                        typed.push(a);
                    },
                    Array::FixedSizeList(_) => {
                        assert(false);
                    },
                }
                i = i + 1;
            }
            proof {
                assert(binary_views(typed@) =~= views);
            }
            Growable::FixedSizeBinary(GrowableFixedSizeBinary::new(typed, use_validity, capacity))
        },
        Array::FixedSizeList(_) => {
            let mut typed: Vec<&'a FixedSizeListArray> = Vec::with_capacity(arrays.len());
            let mut i: usize = 0;
            while i < arrays.len()
                invariant
                    i <= arrays@.len(),
                    arrays_wf(arrays@),
                    bindable(array_views(arrays@)),
                    arrays@[0]@.data_type is FixedSizeList,
                    typed@.len() == i,
                    lists_wf(typed@),
                    forall|j: int| 0 <= j < i ==> (#[trigger] typed@[j])@ == arrays@[j]@,
                decreases arrays@.len() - i,
            {
                proof {
                    assert(array_views(arrays@)[i as int] == arrays@[i as int]@);
                    arrays@[i as int].lemma_shape();
                }
                match arrays[i] {
                    Array::FixedSizeList(a) => {
                        typed.push(a);
                    },
                    Array::FixedSizeBinary(_) => {
                        assert(false);
                    },
                }
                i = i + 1;
            }
            proof {
                assert(list_views(typed@) =~= views);
            }
            Growable::FixedSizeList(GrowableFixedSizeList::new(typed, use_validity, capacity))
        },
    }
}

} // verus!
