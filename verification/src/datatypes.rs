//! Logical types of arrays.
use vstd::prelude::*;

verus! {

/// The logical type of an array. It describes the nesting: a fixed-size
/// list names the type of its elements and how many of them make one slot.
#[derive(Debug)]
pub enum DataType {
    /// Every slot holds exactly this many raw bytes.
    FixedSizeBinary(usize),
    /// Every slot holds exactly this many elements of the child type.
    FixedSizeList(Box<DataType>, usize),
}

impl DataType {
    /// The number of bytes, or of child elements, in one slot.
    pub open spec fn size(self) -> nat {
        match self {
            DataType::FixedSizeBinary(n) => n as nat,
            DataType::FixedSizeList(_, n) => n as nat,
        }
    }

    /// The number of bytes in one slot of an array of this type: the
    /// product of the sizes named at all levels of nesting.
    pub open spec fn width(self) -> nat
        decreases self,
    {
        match self {
            DataType::FixedSizeBinary(n) => n as nat,
            DataType::FixedSizeList(child, n) => n as nat * child.width(),
        }
    }

    /// Every size named in the type, at every level of nesting, is positive.
    pub open spec fn sizes_positive(self) -> bool
        decreases self,
    {
        match self {
            DataType::FixedSizeBinary(n) => n > 0,
            DataType::FixedSizeList(child, n) => n > 0 && child.sizes_positive(),
        }
    }

    /// How many levels of lists lie above the innermost type.
    pub open spec fn depth(self) -> nat
        decreases self,
    {
        match self {
            DataType::FixedSizeBinary(_) => 0,
            DataType::FixedSizeList(child, _) => child.depth() + 1,
        }
    }

    /// The number of bytes in one slot of an array of this type, if it
    /// fits a `usize`.
    pub fn checked_width(&self) -> (r: Option<usize>)
        ensures
            match r {
                Some(w) => w == self.width(),
                None => self.width() > usize::MAX,
            },
        decreases *self,
    {
        match self {
            DataType::FixedSizeBinary(n) => Some(*n),
            DataType::FixedSizeList(child, n) => {
                if *n == 0 {
                    assert(0nat * child.width() == 0) by (nonlinear_arith);
                    Some(0)
                } else {
                    match child.checked_width() {
                        Some(w) => n.checked_mul(w),
                        None => {
                            assert(*n as nat * child.width() > usize::MAX) by (nonlinear_arith)
                                requires
                                    *n >= 1,
                                    child.width() > usize::MAX,
                            ;
                            None
                        },
                    }
                }
            },
        }
    }

    /// Whether the two types are the same, at every level of nesting.
    pub fn same(&self, other: &DataType) -> (r: bool)
        ensures
            r == (*self == *other),
        decreases *self,
    {
        match self {
            DataType::FixedSizeBinary(a) => match other {
                DataType::FixedSizeBinary(b) => *a == *b,
                _ => false,
            },
            DataType::FixedSizeList(c, a) => match other {
                DataType::FixedSizeList(d, b) => *a == *b && c.same(d),
                _ => false,
            },
        }
    }
}

impl Clone for DataType {
    fn clone(&self) -> (r: DataType)
        ensures
            r == *self,
        decreases *self,
    {
        match self {
            DataType::FixedSizeBinary(n) => DataType::FixedSizeBinary(*n),
            DataType::FixedSizeList(child, n) => {
                let inner: DataType = (**child).clone();
                DataType::FixedSizeList(Box::new(inner), *n)
            },
        }
    }
}

impl PartialEq for DataType {
    fn eq(&self, other: &DataType) -> (r: bool) {
        self.same(other)
    }
}

impl Eq for DataType {

}

impl vstd::std_specs::cmp::PartialEqSpecImpl for DataType {
    open spec fn obeys_eq_spec() -> bool {
        true
    }

    open spec fn eq_spec(&self, other: &DataType) -> bool {
        *self == *other
    }
}

} // verus!
