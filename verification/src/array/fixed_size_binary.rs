//! Arrays whose slots hold a fixed number of raw bytes.
use crate::array::{lemma_raw_len, ArrayView, Payload};
use crate::bitmap::{validity_view, Bitmap};
use crate::datatypes::DataType;
use crate::error::Error;
use vstd::prelude::*;

verus! {

/// An array in which every slot holds the same number of raw bytes.
pub struct FixedSizeBinaryArray {
    size: usize,
    data_type: DataType,
    values: Vec<u8>,
    validity: Option<Bitmap>,
}

impl View for FixedSizeBinaryArray {
    type V = ArrayView;

    open spec fn view(&self) -> ArrayView {
        self.model()
    }
}

impl FixedSizeBinaryArray {
    /// The content of the array.
    pub closed spec fn model(&self) -> ArrayView {
        ArrayView {
            data_type: self.data_type,
            validity: validity_view(self.validity),
            payload: Payload::Bytes(self.values@),
        }
    }

    /// What the array keeps besides its content is consistent with it.
    pub closed spec fn inv(&self) -> bool {
        &&& self.size == self.data_type.size()
        &&& self.validity matches Some(b) ==> b.wf()
    }

    /// The array is well formed, and so is its content.
    pub open spec fn wf(&self) -> bool {
        self.inv() && self@.wf()
    }

    /// What an array made of these parts would hold.
    pub open spec fn candidate(
        data_type: DataType,
        values: Seq<u8>,
        validity: Option<Seq<bool>>,
    ) -> ArrayView {
        ArrayView { data_type, validity, payload: Payload::Bytes(values) }
    }

    /// The byte width that `data_type` names: it must be a fixed-size binary
    /// type with a positive width.
    pub fn maybe_get_size(data_type: &DataType) -> (r: Result<usize, Error>)
        ensures
            match r {
                Ok(n) => *data_type == DataType::FixedSizeBinary(n) && n > 0,
                Err(e) => e == Error::ArrayConstructionInvariantViolation && !(
                data_type matches DataType::FixedSizeBinary(n) && n > 0),
            },
    {
        match data_type {
            DataType::FixedSizeBinary(n) => {
                if *n == 0 {
                    Err(Error::ArrayConstructionInvariantViolation)
                } else {
                    Ok(*n)
                }
            },
            _ => Err(Error::ArrayConstructionInvariantViolation),
        }
    }

    /// Makes an array of these parts if they fit together: the type is a
    /// fixed-size binary type of positive width, the width divides the
    /// number of bytes, and the mask, if any, has one bit per slot.
    pub fn try_new(data_type: DataType, values: Vec<u8>, validity: Option<Bitmap>) -> (r: Result<
        FixedSizeBinaryArray,
        Error,
    >)
        requires
            validity matches Some(b) ==> b.wf(),
        ensures
            r is Ok <==> Self::candidate(data_type, values@, validity_view(validity)).wf(),
            r matches Ok(a) ==> a.wf() && a@ == Self::candidate(
                data_type,
                values@,
                validity_view(validity),
            ),
            r matches Err(e) ==> e == Error::ArrayConstructionInvariantViolation,
    {
        let size = match Self::maybe_get_size(&data_type) {
            Ok(n) => n,
            Err(e) => {
                return Err(e);
            },
        };
        if values.len() % size != 0 {
            return Err(Error::ArrayConstructionInvariantViolation);
        }
        let len = values.len() / size;
        let fits = match &validity {
            Some(b) => b.len() == len,
            None => true,
        };
        if !fits {
            return Err(Error::ArrayConstructionInvariantViolation);
        }
        Ok(FixedSizeBinaryArray { size, data_type, values, validity })
    }

    /// Makes an array of parts that are known to fit together.
    pub fn new(data_type: DataType, values: Vec<u8>, validity: Option<Bitmap>) -> (r:
        FixedSizeBinaryArray)
        requires
            validity matches Some(b) ==> b.wf(),
            Self::candidate(data_type, values@, validity_view(validity)).wf(),
        ensures
            r.wf(),
            r@ == Self::candidate(data_type, values@, validity_view(validity)),
    {
        let size = match &data_type {
            DataType::FixedSizeBinary(n) => *n,
            DataType::FixedSizeList(_, n) => *n,
        };
        FixedSizeBinaryArray { size, data_type, values, validity }
    }

    /// The payload of an array is bytes, and its lengths are machine integers.
    pub proof fn lemma_shape(&self)
        requires
            self.wf(),
        ensures
            self@.payload is Bytes,
            self@.data_type is FixedSizeBinary,
            self@.raw_len() <= usize::MAX,
            self@.len() <= usize::MAX,
    {
        assert(self.values@.len() == self.values.len());
        lemma_raw_len(self@);
        assert(self@.len() <= self@.len() * self@.size()) by (nonlinear_arith)
            requires
                self@.size() >= 1,
        ;
    }

    /// The logical type.
    pub fn data_type(&self) -> (r: &DataType)
        requires
            self.wf(),
        ensures
            *r == self@.data_type,
    {
        &self.data_type
    }

    /// The number of bytes in one slot.
    pub fn size(&self) -> (r: usize)
        requires
            self.wf(),
        ensures
            r == self@.size(),
            r > 0,
    {
        self.size
    }

    /// The number of slots.
    pub fn len(&self) -> (r: usize)
        requires
            self.wf(),
        ensures
            r == self@.len(),
    {
        self.values.len() / self.size
    }

    /// The raw bytes of all slots.
    pub fn values(&self) -> (r: &Vec<u8>)
        requires
            self.wf(),
        ensures
            r@ == self@.bytes(),
            self@.payload == Payload::Bytes(r@),
    {
        &self.values
    }

    /// The validity mask, if the array has one.
    pub fn validity(&self) -> (r: Option<&Bitmap>)
        requires
            self.wf(),
        ensures
            match r {
                Some(b) => b.wf() && self@.validity == Some(b@),
                None => self@.validity is None,
            },
    {
        self.validity.as_ref()
    }

    /// The number of null slots.
    pub fn null_count(&self) -> (r: usize)
        requires
            self.wf(),
        ensures
            r == self@.null_count(),
    {
        match &self.validity {
            Some(b) => b.unset_bits(),
            None => 0,
        }
    }
}

} // verus!
