//! The kinds of array, and the orders in which cells and tiles are laid out.

use vstd::prelude::*;
use vstd::std_specs::convert::FromSpecImpl;

pub mod directory;
pub mod schema;

pub use self::directory::Directory;

verus! {

/// Whether an array stores every cell of its domain or only those written.
#[derive(Clone, Copy, Debug, PartialEq, Eq, Structural)]
pub enum ArrayType {
    Dense,
    Sparse,
    Invalid,
}

impl ArrayType {
    /// The tag byte of a variant; 255 for `Invalid`.
    pub open spec fn code(self) -> u8 {
        match self {
            ArrayType::Dense => 0,
            ArrayType::Sparse => 1,
            ArrayType::Invalid => 255,
        }
    }

    /// The variant that a tag byte names.
    pub open spec fn of_code(b: u8) -> ArrayType {
        if b == 0 {
            ArrayType::Dense
        } else if b == 1 {
            ArrayType::Sparse
        } else {
            ArrayType::Invalid
        }
    }

    /// The tag byte of the variant.
    pub fn to_u8(self) -> (b: u8)
        ensures
            b == self.code(),
    {
        match self {
            ArrayType::Dense => 0,
            ArrayType::Sparse => 1,
            ArrayType::Invalid => 255,
        }
    }

    /// A byte and the variant it names determine each other, but for the
    /// bytes that name none: those all give `Invalid`.
    pub proof fn code_of_code(b: u8)
        ensures
            b <= 1 ==> Self::of_code(b) != ArrayType::Invalid && Self::of_code(b).code() == b,
            b > 1 ==> Self::of_code(b) == ArrayType::Invalid,
    {
    }

    /// Every variant is the one that its own tag byte names.
    pub proof fn of_code_code(t: ArrayType)
        ensures
            Self::of_code(t.code()) == t,
            t != ArrayType::Invalid ==> t.code() <= 1,
    {
    }
}

impl From<u8> for ArrayType {
    fn from(orig: u8) -> (t: ArrayType) {
        match orig {
            0 => ArrayType::Dense,
            1 => ArrayType::Sparse,
            _ => ArrayType::Invalid,
        }
    }
}

impl FromSpecImpl<u8> for ArrayType {
    open spec fn obeys_from_spec() -> bool {
        true
    }

    open spec fn from_spec(orig: u8) -> ArrayType {
        ArrayType::of_code(orig)
    }
}

/// The order in which cells or tiles follow each other.
#[derive(Clone, Copy, Debug, PartialEq, Eq, Structural)]
pub enum Layout {
    RowMajor,
    ColMajor,
    GlobalOrder,
    Unordered,
    Hilbert,
    Invalid,
}

impl Layout {
    /// The tag byte of a variant; 255 for `Invalid`.
    pub open spec fn code(self) -> u8 {
        match self {
            Layout::RowMajor => 0,
            Layout::ColMajor => 1,
            Layout::GlobalOrder => 2,
            Layout::Unordered => 3,
            Layout::Hilbert => 4,
            Layout::Invalid => 255,
        }
    }

    /// The variant that a tag byte names.
    pub open spec fn of_code(b: u8) -> Layout {
        if b == 0 {
            Layout::RowMajor
        } else if b == 1 {
            Layout::ColMajor
        } else if b == 2 {
            Layout::GlobalOrder
        } else if b == 3 {
            Layout::Unordered
        } else if b == 4 {
            Layout::Hilbert
        } else {
            Layout::Invalid
        }
    }

    /// The tag byte of the variant.
    pub fn to_u8(self) -> (b: u8)
        ensures
            b == self.code(),
    {
        match self {
            Layout::RowMajor => 0,
            Layout::ColMajor => 1,
            Layout::GlobalOrder => 2,
            Layout::Unordered => 3,
            Layout::Hilbert => 4,
            Layout::Invalid => 255,
        }
    }

    /// A byte and the variant it names determine each other, but for the
    /// bytes that name none: those all give `Invalid`.
    pub proof fn code_of_code(b: u8)
        ensures
            b <= 4 ==> Self::of_code(b) != Layout::Invalid && Self::of_code(b).code() == b,
            b > 4 ==> Self::of_code(b) == Layout::Invalid,
    {
    }

    /// Every variant is the one that its own tag byte names.
    pub proof fn of_code_code(t: Layout)
        ensures
            Self::of_code(t.code()) == t,
            t != Layout::Invalid ==> t.code() <= 4,
    {
    }
}

impl From<u8> for Layout {
    fn from(orig: u8) -> (t: Layout) {
        match orig {
            0 => Layout::RowMajor,
            1 => Layout::ColMajor,
            2 => Layout::GlobalOrder,
            3 => Layout::Unordered,
            4 => Layout::Hilbert,
            _ => Layout::Invalid,
        }
    }
}

impl FromSpecImpl<u8> for Layout {
    open spec fn obeys_from_spec() -> bool {
        true
    }

    open spec fn from_spec(orig: u8) -> Layout {
        Layout::of_code(orig)
    }
}

/// The order that the values of an attribute or label are known to be in.
#[derive(Clone, Copy, Debug, PartialEq, Eq, Structural)]
pub enum DataOrder {
    Unordered,
    Increasing,
    Decreasing,
    Invalid,
}

impl DataOrder {
    /// The tag byte of a variant; 255 for `Invalid`.
    pub open spec fn code(self) -> u8 {
        match self {
            DataOrder::Unordered => 0,
            DataOrder::Increasing => 1,
            DataOrder::Decreasing => 2,
            DataOrder::Invalid => 255,
        }
    }

    /// The variant that a tag byte names.
    pub open spec fn of_code(b: u8) -> DataOrder {
        if b == 0 {
            DataOrder::Unordered
        } else if b == 1 {
            DataOrder::Increasing
        } else if b == 2 {
            DataOrder::Decreasing
        } else {
            DataOrder::Invalid
        }
    }

    /// The tag byte of the variant.
    pub fn to_u8(self) -> (b: u8)
        ensures
            b == self.code(),
    {
        match self {
            DataOrder::Unordered => 0,
            DataOrder::Increasing => 1,
            DataOrder::Decreasing => 2,
            DataOrder::Invalid => 255,
        }
    }

    /// A byte and the variant it names determine each other, but for the
    /// bytes that name none: those all give `Invalid`.
    pub proof fn code_of_code(b: u8)
        ensures
            b <= 2 ==> Self::of_code(b) != DataOrder::Invalid && Self::of_code(b).code() == b,
            b > 2 ==> Self::of_code(b) == DataOrder::Invalid,
    {
    }

    /// Every variant is the one that its own tag byte names.
    pub proof fn of_code_code(t: DataOrder)
        ensures
            Self::of_code(t.code()) == t,
            t != DataOrder::Invalid ==> t.code() <= 2,
    {
    }
}

impl From<u8> for DataOrder {
    fn from(orig: u8) -> (t: DataOrder) {
        match orig {
            0 => DataOrder::Unordered,
            1 => DataOrder::Increasing,
            2 => DataOrder::Decreasing,
            _ => DataOrder::Invalid,
        }
    }
}

impl FromSpecImpl<u8> for DataOrder {
    open spec fn obeys_from_spec() -> bool {
        true
    }

    open spec fn from_spec(orig: u8) -> DataOrder {
        DataOrder::of_code(orig)
    }
}

} // verus!
