//! Arrays: typed columns of slots, each slot either null or a value.
//!
//! The contracts of this crate speak of an array through [`ArrayView`], the
//! mathematical content of the array, and through [`Slot`], what a reader
//! of the array sees in one slot.
pub mod fixed_size_binary;
pub mod fixed_size_list;
pub mod growable;

pub use fixed_size_binary::FixedSizeBinaryArray;
pub use fixed_size_list::FixedSizeListArray;

use crate::bitmap::{unset_count, Bitmap};
use crate::datatypes::DataType;
use vstd::prelude::*;

verus! {

/// What an array stores besides its validity mask.
pub enum Payload {
    /// Raw bytes, slot after slot.
    Bytes(Seq<u8>),
    /// The elements of all slots, flattened into one child array.
    Child(Box<ArrayView>),
}

/// The content of an array: its logical type, its validity mask if it has
/// one, and its payload.
pub struct ArrayView {
    pub data_type: DataType,
    pub validity: Option<Seq<bool>>,
    pub payload: Payload,
}

/// What one slot of an array holds, as a reader sees it.
pub enum Slot {
    /// No value.
    Null,
    /// The bytes of a fixed-size binary value.
    Bytes(Seq<u8>),
    /// The elements of a fixed-size list.
    List(Seq<Slot>),
}

impl ArrayView {
    /// The number of bytes, or of child elements, in one slot.
    pub open spec fn size(self) -> nat {
        self.data_type.size()
    }

    /// The raw bytes, where the payload is bytes.
    pub open spec fn bytes(self) -> Seq<u8> {
        match self.payload {
            Payload::Bytes(b) => b,
            Payload::Child(_) => Seq::empty(),
        }
    }

    /// The child array, where the payload is one.
    pub open spec fn child(self) -> ArrayView {
        match self.payload {
            Payload::Child(c) => *c,
            Payload::Bytes(_) => self,
        }
    }

    /// The number of slots: the payload's length divided by the slot size.
    pub open spec fn len(self) -> nat
        decreases self,
    {
        match self.payload {
            Payload::Bytes(b) => b.len() / self.size(),
            Payload::Child(c) => c.len() / self.size(),
        }
    }

    /// The number of bytes, or of child slots, in the payload.
    pub open spec fn raw_len(self) -> nat {
        match self.payload {
            Payload::Bytes(b) => b.len(),
            Payload::Child(c) => c.len(),
        }
    }

    /// The parts fit together: the payload is of the kind that the type
    /// names, its length is a multiple of the positive slot size, a child
    /// has the type's child type, and a validity mask has one bit per slot.
    pub open spec fn wf(self) -> bool
        decreases self,
    {
        &&& self.size() > 0
        &&& match self.payload {
            Payload::Bytes(_) => self.data_type is FixedSizeBinary,
            Payload::Child(c) => {
                &&& self.data_type matches DataType::FixedSizeList(t, _)
                &&& c.data_type == *t
                &&& c.wf()
            },
        }
        &&& self.raw_len() % self.size() == 0
        &&& self.validity matches Some(bits) ==> bits.len() == self.len()
    }

    /// The number of null slots.
    pub open spec fn null_count(self) -> nat {
        match self.validity {
            Some(bits) => unset_count(bits),
            None => 0,
        }
    }

    /// Whether slot `i` is null.
    pub open spec fn is_null(self, i: int) -> bool {
        self.validity matches Some(bits) && !bits[i]
    }

    /// What slot `i` holds.
    pub open spec fn slot(self, i: int) -> Slot
        decreases self,
    {
        if self.is_null(i) {
            Slot::Null
        } else {
            match self.payload {
                Payload::Bytes(b) => Slot::Bytes(
                    b.subrange(i * self.size(), (i + 1) * self.size()),
                ),
                Payload::Child(c) => Slot::List(
                    Seq::new(self.size(), |j: int| c.slot(i * self.size() + j)),
                ),
            }
        }
    }

    /// What the array holds, slot by slot.
    pub open spec fn slots(self) -> Seq<Slot> {
        Seq::new(self.len(), |i: int| self.slot(i))
    }
}

/// A multiple of a positive `n` divides evenly, and gives back its factor.
pub proof fn lemma_multiple(q: nat, n: nat)
    requires
        n > 0,
    ensures
        (q * n) % n == 0,
        (q * n) / n == q,
{
    vstd::arithmetic::div_mod::lemma_fundamental_div_mod_converse(
        (q * n) as int,
        n as int,
        q as int,
        0,
    );
}

/// What divides evenly is its quotient times the divisor.
pub proof fn lemma_exact(a: nat, n: nat)
    requires
        n > 0,
        a % n == 0,
    ensures
        a == (a / n) * n,
{
    vstd::arithmetic::div_mod::lemma_fundamental_div_mod(a as int, n as int);
    assert(n * (a / n) == (a / n) * n) by (nonlinear_arith);
}

/// The payload of a well-formed array is its length times its slot size.
pub proof fn lemma_raw_len(a: ArrayView)
    requires
        a.wf(),
    ensures
        a.raw_len() == a.len() * a.size(),
{
    lemma_exact(a.raw_len(), a.size());
}

/// A well-formed array names positive sizes at every level.
pub proof fn lemma_wf_sizes(a: ArrayView)
    requires
        a.wf(),
    ensures
        a.data_type.sizes_positive(),
    decreases a,
{
    match a.payload {
        Payload::Bytes(_) => {},
        Payload::Child(c) => {
            lemma_wf_sizes(*c);
        },
    }
}

/// An array of any of the encodings that this crate knows.
pub enum Array {
    FixedSizeBinary(FixedSizeBinaryArray),
    FixedSizeList(FixedSizeListArray),
}

impl View for Array {
    type V = ArrayView;

    open spec fn view(&self) -> ArrayView {
        self.model()
    }
}

impl Array {
    /// The content of the array.
    pub open spec fn model(&self) -> ArrayView
        decreases self,
    {
        match self {
            Array::FixedSizeBinary(a) => a.model(),
            Array::FixedSizeList(a) => a.model(),
        }
    }

    /// The array is well formed, and so is its content.
    pub open spec fn wf(&self) -> bool
        decreases self, 0int,
    {
        match self {
            Array::FixedSizeBinary(a) => a.wf(),
            Array::FixedSizeList(a) => a.wf(),
        }
    }

    /// The payload is of the kind that the encoding names, and the
    /// lengths of the array are machine integers.
    pub proof fn lemma_shape(&self)
        requires
            self.wf(),
        ensures
            self is FixedSizeBinary <==> self@.payload is Bytes,
            self is FixedSizeBinary <==> self@.data_type is FixedSizeBinary,
            self@.raw_len() <= usize::MAX,
            self@.len() <= usize::MAX,
        decreases self,
    {
        match self {
            Array::FixedSizeBinary(a) => a.lemma_shape(),
            Array::FixedSizeList(a) => a.lemma_shape(),
        }
    }

    /// The logical type.
    pub fn data_type(&self) -> (r: &DataType)
        requires
            self.wf(),
        ensures
            *r == self@.data_type,
    {
        match self {
            Array::FixedSizeBinary(a) => a.data_type(),
            Array::FixedSizeList(a) => a.data_type(),
        }
    }

    /// The number of slots.
    pub fn len(&self) -> (r: usize)
        requires
            self.wf(),
        ensures
            r == self@.len(),
        decreases self,
    {
        match self {
            Array::FixedSizeBinary(a) => a.len(),
            Array::FixedSizeList(a) => a.len(),
        }
    }

    /// The validity mask, if the array has one.
    pub fn validity(&self) -> (r: Option<&Bitmap>)
        requires
            self.wf(),
        ensures
            match r {
                Some(b) => b.wf() && self@.validity == Some(b@),
                None => self@.validity is None,
            },
    {
        match self {
            Array::FixedSizeBinary(a) => a.validity(),
            Array::FixedSizeList(a) => a.validity(),
        }
    }

    /// The number of null slots.
    pub fn null_count(&self) -> (r: usize)
        requires
            self.wf(),
        ensures
            r == self@.null_count(),
    {
        match self.validity() {
            Some(b) => b.unset_bits(),
            None => 0,
        }
    }
}

} // verus!
