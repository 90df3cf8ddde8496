//! Arrays whose slots hold a fixed number of elements of a child array.
use crate::array::{lemma_raw_len, Array, ArrayView, Payload};
use crate::bitmap::{validity_view, Bitmap};
use crate::datatypes::DataType;
use crate::error::Error;
use vstd::prelude::*;

verus! {

/// An array in which every slot holds the same number of elements; the
/// elements of all slots lie one after another in one child array.
pub struct FixedSizeListArray {
    size: usize,
    data_type: DataType,
    values: Box<Array>,
    validity: Option<Bitmap>,
}

impl View for FixedSizeListArray {
    type V = ArrayView;

    open spec fn view(&self) -> ArrayView {
        self.model()
    }
}

impl FixedSizeListArray {
    /// The content of the array.
    pub closed spec fn model(&self) -> ArrayView
        decreases self,
    {
        ArrayView {
            data_type: self.data_type,
            validity: validity_view(self.validity),
            payload: Payload::Child(Box::new(self.values.model())),
        }
    }

    /// What the array keeps besides its content is consistent with it, at
    /// every level of nesting.
    pub closed spec fn inv(&self) -> bool
        decreases self, 0int,
    {
        &&& self.size == self.data_type.size()
        &&& self.validity matches Some(b) ==> b.wf()
        &&& self.values.wf()
    }

    /// The array is well formed, and so is its content.
    pub open spec fn wf(&self) -> bool
        decreases self, 1int,
    {
        self.inv() && self.model().wf()
    }

    /// What an array made of these parts would hold.
    pub open spec fn candidate(
        data_type: DataType,
        values: ArrayView,
        validity: Option<Seq<bool>>,
    ) -> ArrayView {
        ArrayView { data_type, validity, payload: Payload::Child(Box::new(values)) }
    }

    /// The child type and the slot size that `data_type` names: it must be
    /// a fixed-size list type with a positive size.
    pub fn try_child_and_size(data_type: &DataType) -> (r: Result<(&DataType, usize), Error>)
        ensures
            match r {
                Ok((child, n)) => *data_type == DataType::FixedSizeList(Box::new(*child), n) && n
                    > 0,
                Err(e) => e == Error::ArrayConstructionInvariantViolation && !(
                data_type matches DataType::FixedSizeList(_, n) && n > 0),
            },
    {
        match data_type {
            DataType::FixedSizeList(child, n) => {
                if *n == 0 {
                    Err(Error::ArrayConstructionInvariantViolation)
                } else {
                    Ok((&**child, *n))
                }
            },
            _ => Err(Error::ArrayConstructionInvariantViolation),
        }
    }

    /// Makes an array of these parts if they fit together: the type is a
    /// fixed-size list type of positive size whose child type is that of
    /// `values`, the size divides the number of child slots, and the mask,
    /// if any, has one bit per slot.
    pub fn try_new(data_type: DataType, values: Box<Array>, validity: Option<Bitmap>) -> (r: Result<
        FixedSizeListArray,
        Error,
    >)
        requires
            values.wf(),
            validity matches Some(b) ==> b.wf(),
        ensures
            r is Ok <==> Self::candidate(data_type, values@, validity_view(validity)).wf(),
            r matches Ok(a) ==> a.wf() && a@ == Self::candidate(
                data_type,
                values@,
                validity_view(validity),
            ),
            r matches Err(e) ==> e == Error::ArrayConstructionInvariantViolation,
    {
        let (child, size) = match Self::try_child_and_size(&data_type) {
            Ok(pair) => pair,
            Err(e) => {
                return Err(e);
            },
        };
        if !child.same(values.data_type()) {
            return Err(Error::ArrayConstructionInvariantViolation);
        }
        let total = values.len();
        if total % size != 0 {
            return Err(Error::ArrayConstructionInvariantViolation);
        }
        let len = total / size;
        let fits = match &validity {
            Some(b) => b.len() == len,
            None => true,
        };
        if !fits {
            return Err(Error::ArrayConstructionInvariantViolation);
        }
        Ok(FixedSizeListArray { size, data_type, values, validity })
    }

    /// Makes an array of parts that are known to fit together.
    pub fn new(data_type: DataType, values: Box<Array>, validity: Option<Bitmap>) -> (r:
        FixedSizeListArray)
        requires
            values.wf(),
            validity matches Some(b) ==> b.wf(),
            Self::candidate(data_type, values@, validity_view(validity)).wf(),
        ensures
            r.wf(),
            r@ == Self::candidate(data_type, values@, validity_view(validity)),
    {
        let size = match &data_type {
            DataType::FixedSizeList(_, n) => *n,
            DataType::FixedSizeBinary(n) => *n,
        };
        FixedSizeListArray { size, data_type, values, validity }
    }

    /// The payload of an array is a child array, and its lengths are
    /// machine integers.
    pub proof fn lemma_shape(&self)
        requires
            self.wf(),
        ensures
            self@.payload is Child,
            self@.data_type is FixedSizeList,
            self@.raw_len() <= usize::MAX,
            self@.len() <= usize::MAX,
        decreases self,
    {
        self.values.lemma_shape();
        lemma_raw_len(self@);
        assert(self@.len() <= self@.len() * self@.size()) by (nonlinear_arith)
            requires
                self@.size() >= 1,
        ;
    }

    /// The logical type.
    pub fn data_type(&self) -> (r: &DataType)
        requires
            self.wf(),
        ensures
            *r == self@.data_type,
    {
        &self.data_type
    }

    /// The number of child elements in one slot.
    pub fn size(&self) -> (r: usize)
        requires
            self.wf(),
        ensures
            r == self@.size(),
            r > 0,
    {
        self.size
    }

    /// The number of slots.
    pub fn len(&self) -> (r: usize)
        requires
            self.wf(),
        ensures
            r == self@.len(),
        decreases self,
    {
        self.values.len() / self.size
    }

    /// The child array that holds the elements of all slots.
    pub fn values(&self) -> (r: &Array)
        requires
            self.wf(),
        ensures
            r.wf(),
            r@ == self@.child(),
            self@.payload == Payload::Child(Box::new(r@)),
    {
        &*self.values
    }

    /// The validity mask, if the array has one.
    pub fn validity(&self) -> (r: Option<&Bitmap>)
        requires
            self.wf(),
        ensures
            match r {
                Some(b) => b.wf() && self@.validity == Some(b@),
                None => self@.validity is None,
            },
    {
        self.validity.as_ref()
    }

    /// The number of null slots.
    pub fn null_count(&self) -> (r: usize)
        requires
            self.wf(),
        ensures
            r == self@.null_count(),
    {
        match &self.validity {
            Some(b) => b.unset_bits(),
            None => 0,
        }
    }
}

} // verus!
