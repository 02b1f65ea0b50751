//! The types of the values that cells hold.

use vstd::prelude::*;
use vstd::std_specs::convert::FromSpecImpl;

verus! {

/// The type of a cell value, as its tag byte names it. `Invalid` stands for
/// every byte that names no type.
#[derive(Clone, Copy, Debug, PartialEq, Eq, Structural)]
pub enum DataType {
    Int32,
    Int64,
    Float32,
    Float64,
    Char,
    Int8,
    Uint8,
    Int16,
    Uint16,
    Uint32,
    Uint64,
    StringAscii,
    StringUtf8,
    StringUtf16,
    StringUtf32,
    StringUcs2,
    StringUcs4,
    Any,
    DatetimeYear,
    DatetimeMonth,
    DatetimeWeek,
    DatetimeDay,
    DatetimeHour,
    DatetimeMin,
    DatetimeSec,
    DatetimeMSec,
    DatetimeUSec,
    DatetimeNSec,
    DatetimePSec,
    DatetimeFSec,
    DatetimeASec,
    TimeHour,
    TimeMin,
    TimeSec,
    TimeMSec,
    TimeUSec,
    TimeNSec,
    TimePSec,
    TimeFSec,
    TimeASec,
    Blob,
    Bool,
    Invalid,
}

impl DataType {
    /// The tag byte of a type; 255 for `Invalid`.
    pub open spec fn code(self) -> u8 {
        match self {
            DataType::Int32 => 0,
            DataType::Int64 => 1,
            DataType::Float32 => 2,
            DataType::Float64 => 3,
            DataType::Char => 4,
            DataType::Int8 => 5,
            DataType::Uint8 => 6,
            DataType::Int16 => 7,
            DataType::Uint16 => 8,
            DataType::Uint32 => 9,
            DataType::Uint64 => 10,
            DataType::StringAscii => 11,
            DataType::StringUtf8 => 12,
            DataType::StringUtf16 => 13,
            DataType::StringUtf32 => 14,
            DataType::StringUcs2 => 15,
            DataType::StringUcs4 => 16,
            DataType::Any => 17,
            DataType::DatetimeYear => 18,
            DataType::DatetimeMonth => 19,
            DataType::DatetimeWeek => 20,
            DataType::DatetimeDay => 21,
            DataType::DatetimeHour => 22,
            DataType::DatetimeMin => 23,
            DataType::DatetimeSec => 24,
            DataType::DatetimeMSec => 25,
            DataType::DatetimeUSec => 26,
            DataType::DatetimeNSec => 27,
            DataType::DatetimePSec => 28,
            DataType::DatetimeFSec => 29,
            DataType::DatetimeASec => 30,
            DataType::TimeHour => 31,
            DataType::TimeMin => 32,
            DataType::TimeSec => 33,
            DataType::TimeMSec => 34,
            DataType::TimeUSec => 35,
            DataType::TimeNSec => 36,
            DataType::TimePSec => 37,
            DataType::TimeFSec => 38,
            DataType::TimeASec => 39,
            DataType::Blob => 40,
            DataType::Bool => 41,
            DataType::Invalid => 255,
        }
    }

    /// The type that a tag byte names.
    pub open spec fn of_code(b: u8) -> DataType {
        if b == 0 {
            DataType::Int32
        } else if b == 1 {
            DataType::Int64
        } else if b == 2 {
            DataType::Float32
        } else if b == 3 {
            DataType::Float64
        } else if b == 4 {
            DataType::Char
        } else if b == 5 {
            DataType::Int8
        } else if b == 6 {
            DataType::Uint8
        } else if b == 7 {
            DataType::Int16
        } else if b == 8 {
            DataType::Uint16
        } else if b == 9 {
            DataType::Uint32
        } else if b == 10 {
            DataType::Uint64
        } else if b == 11 {
            DataType::StringAscii
        } else if b == 12 {
            DataType::StringUtf8
        } else if b == 13 {
            DataType::StringUtf16
        } else if b == 14 {
            DataType::StringUtf32
        } else if b == 15 {
            DataType::StringUcs2
        } else if b == 16 {
            DataType::StringUcs4
        } else if b == 17 {
            DataType::Any
        } else if b == 18 {
            DataType::DatetimeYear
        } else if b == 19 {
            DataType::DatetimeMonth
        } else if b == 20 {
            DataType::DatetimeWeek
        } else if b == 21 {
            DataType::DatetimeDay
        } else if b == 22 {
            DataType::DatetimeHour
        } else if b == 23 {
            DataType::DatetimeMin
        } else if b == 24 {
            DataType::DatetimeSec
        } else if b == 25 {
            DataType::DatetimeMSec
        } else if b == 26 {
            DataType::DatetimeUSec
        } else if b == 27 {
            DataType::DatetimeNSec
        } else if b == 28 {
            DataType::DatetimePSec
        } else if b == 29 {
            DataType::DatetimeFSec
        } else if b == 30 {
            DataType::DatetimeASec
        } else if b == 31 {
            DataType::TimeHour
        } else if b == 32 {
            DataType::TimeMin
        } else if b == 33 {
            DataType::TimeSec
        } else if b == 34 {
            DataType::TimeMSec
        } else if b == 35 {
            DataType::TimeUSec
        } else if b == 36 {
            DataType::TimeNSec
        } else if b == 37 {
            DataType::TimePSec
        } else if b == 38 {
            DataType::TimeFSec
        } else if b == 39 {
            DataType::TimeASec
        } else if b == 40 {
            DataType::Blob
        } else if b == 41 {
            DataType::Bool
        } else {
            DataType::Invalid
        }
    }

    /// The width in bytes of one value of the type; 0 for `Invalid`.
    pub open spec fn width(self) -> nat {
        match self {
            DataType::Int32 => 4,
            DataType::Int64 => 8,
            DataType::Float32 => 4,
            DataType::Float64 => 8,
            DataType::Char => 4,
            DataType::Int8 => 1,
            DataType::Uint8 => 1,
            DataType::Int16 => 2,
            DataType::Uint16 => 2,
            DataType::Uint32 => 4,
            DataType::Uint64 => 8,
            DataType::StringAscii => 4,
            DataType::StringUtf8 => 1,
            DataType::StringUtf16 => 2,
            DataType::StringUtf32 => 4,
            DataType::StringUcs2 => 2,
            DataType::StringUcs4 => 4,
            DataType::Any => 1,
            DataType::DatetimeYear => 8,
            DataType::DatetimeMonth => 8,
            DataType::DatetimeWeek => 8,
            DataType::DatetimeDay => 8,
            DataType::DatetimeHour => 8,
            DataType::DatetimeMin => 8,
            DataType::DatetimeSec => 8,
            DataType::DatetimeMSec => 8,
            DataType::DatetimeUSec => 8,
            DataType::DatetimeNSec => 8,
            DataType::DatetimePSec => 8,
            DataType::DatetimeFSec => 8,
            DataType::DatetimeASec => 8,
            DataType::TimeHour => 8,
            DataType::TimeMin => 8,
            DataType::TimeSec => 8,
            DataType::TimeMSec => 8,
            DataType::TimeUSec => 8,
            DataType::TimeNSec => 8,
            DataType::TimePSec => 8,
            DataType::TimeFSec => 8,
            DataType::TimeASec => 8,
            DataType::Blob => 1,
            DataType::Bool => 1,
            DataType::Invalid => 0,
        }
    }

    /// Whether values of the type are text of variable length.
    pub open spec fn is_string(self) -> bool {
        11 <= self.code() <= 16
    }

    /// The tag byte of the type.
    pub fn to_u8(self) -> (b: u8)
        ensures
            b == self.code(),
    {
        match self {
            DataType::Int32 => 0,
            DataType::Int64 => 1,
            DataType::Float32 => 2,
            DataType::Float64 => 3,
            DataType::Char => 4,
            DataType::Int8 => 5,
            DataType::Uint8 => 6,
            DataType::Int16 => 7,
            DataType::Uint16 => 8,
            DataType::Uint32 => 9,
            DataType::Uint64 => 10,
            DataType::StringAscii => 11,
            DataType::StringUtf8 => 12,
            DataType::StringUtf16 => 13,
            DataType::StringUtf32 => 14,
            DataType::StringUcs2 => 15,
            DataType::StringUcs4 => 16,
            DataType::Any => 17,
            DataType::DatetimeYear => 18,
            DataType::DatetimeMonth => 19,
            DataType::DatetimeWeek => 20,
            DataType::DatetimeDay => 21,
            DataType::DatetimeHour => 22,
            DataType::DatetimeMin => 23,
            DataType::DatetimeSec => 24,
            DataType::DatetimeMSec => 25,
            DataType::DatetimeUSec => 26,
            DataType::DatetimeNSec => 27,
            DataType::DatetimePSec => 28,
            DataType::DatetimeFSec => 29,
            DataType::DatetimeASec => 30,
            DataType::TimeHour => 31,
            DataType::TimeMin => 32,
            DataType::TimeSec => 33,
            DataType::TimeMSec => 34,
            DataType::TimeUSec => 35,
            DataType::TimeNSec => 36,
            DataType::TimePSec => 37,
            DataType::TimeFSec => 38,
            DataType::TimeASec => 39,
            DataType::Blob => 40,
            DataType::Bool => 41,
            DataType::Invalid => 255,
        }
    }

    /// The width in bytes of one value of the type.
    pub fn size(&self) -> (n: usize)
        ensures
            n == self.width(),
            n == 0 || n == 1 || n == 2 || n == 4 || n == 8,
            (n == 0) == (*self == DataType::Invalid),
    {
        match self {
            DataType::Int32 => 4,
            DataType::Int64 => 8,
            DataType::Float32 => 4,
            DataType::Float64 => 8,
            DataType::Char => 4,
            DataType::Int8 => 1,
            DataType::Uint8 => 1,
            DataType::Int16 => 2,
            DataType::Uint16 => 2,
            DataType::Uint32 => 4,
            DataType::Uint64 => 8,
            DataType::StringAscii => 4,
            DataType::StringUtf8 => 1,
            DataType::StringUtf16 => 2,
            DataType::StringUtf32 => 4,
            DataType::StringUcs2 => 2,
            DataType::StringUcs4 => 4,
            DataType::Any => 1,
            DataType::DatetimeYear => 8,
            DataType::DatetimeMonth => 8,
            DataType::DatetimeWeek => 8,
            DataType::DatetimeDay => 8,
            DataType::DatetimeHour => 8,
            DataType::DatetimeMin => 8,
            DataType::DatetimeSec => 8,
            DataType::DatetimeMSec => 8,
            DataType::DatetimeUSec => 8,
            DataType::DatetimeNSec => 8,
            DataType::DatetimePSec => 8,
            DataType::DatetimeFSec => 8,
            DataType::DatetimeASec => 8,
            DataType::TimeHour => 8,
            DataType::TimeMin => 8,
            DataType::TimeSec => 8,
            DataType::TimeMSec => 8,
            DataType::TimeUSec => 8,
            DataType::TimeNSec => 8,
            DataType::TimePSec => 8,
            DataType::TimeFSec => 8,
            DataType::TimeASec => 8,
            DataType::Blob => 1,
            DataType::Bool => 1,
            DataType::Invalid => 0,
        }
    }

    /// Whether values of the type are text of variable length.
    pub fn is_string_type(&self) -> (b: bool)
        ensures
            b == self.is_string(),
            b == (*self == DataType::StringAscii || *self == DataType::StringUtf8 || *self
                == DataType::StringUtf16 || *self == DataType::StringUtf32 || *self
                == DataType::StringUcs2 || *self == DataType::StringUcs4),
    {
        match self {
            DataType::StringAscii
            | DataType::StringUtf8
            | DataType::StringUtf16
            | DataType::StringUtf32
            | DataType::StringUcs2
            | DataType::StringUcs4 => true,
            _ => false,
        }
    }

    /// A byte and the type it names determine each other, but for the bytes
    /// that name none: those all give `Invalid`.
    pub proof fn code_of_code(b: u8)
        ensures
            b <= 41 ==> Self::of_code(b) != DataType::Invalid && Self::of_code(b).code() == b,
            b > 41 ==> Self::of_code(b) == DataType::Invalid,
    {
    }

    /// Every type is the one that its own tag byte names.
    pub proof fn of_code_code(t: DataType)
        ensures
            Self::of_code(t.code()) == t,
            t != DataType::Invalid ==> t.code() <= 41,
    {
    }
}

impl From<u8> for DataType {
    fn from(orig: u8) -> (t: DataType) {
        match orig {
            0 => DataType::Int32,
            1 => DataType::Int64,
            2 => DataType::Float32,
            3 => DataType::Float64,
            4 => DataType::Char,
            5 => DataType::Int8,
            6 => DataType::Uint8,
            7 => DataType::Int16,
            8 => DataType::Uint16,
            9 => DataType::Uint32,
            10 => DataType::Uint64,
            11 => DataType::StringAscii,
            12 => DataType::StringUtf8,
            13 => DataType::StringUtf16,
            14 => DataType::StringUtf32,
            15 => DataType::StringUcs2,
            16 => DataType::StringUcs4,
            17 => DataType::Any,
            18 => DataType::DatetimeYear,
            19 => DataType::DatetimeMonth,
            20 => DataType::DatetimeWeek,
            21 => DataType::DatetimeDay,
            22 => DataType::DatetimeHour,
            23 => DataType::DatetimeMin,
            24 => DataType::DatetimeSec,
            25 => DataType::DatetimeMSec,
            26 => DataType::DatetimeUSec,
            27 => DataType::DatetimeNSec,
            28 => DataType::DatetimePSec,
            29 => DataType::DatetimeFSec,
            30 => DataType::DatetimeASec,
            31 => DataType::TimeHour,
            32 => DataType::TimeMin,
            33 => DataType::TimeSec,
            34 => DataType::TimeMSec,
            35 => DataType::TimeUSec,
            36 => DataType::TimeNSec,
            37 => DataType::TimePSec,
            38 => DataType::TimeFSec,
            39 => DataType::TimeASec,
            40 => DataType::Blob,
            41 => DataType::Bool,
            _ => DataType::Invalid,
        }
    }
}

impl FromSpecImpl<u8> for DataType {
    open spec fn obeys_from_spec() -> bool {
        true
    }

    open spec fn from_spec(orig: u8) -> DataType {
        DataType::of_code(orig)
    }
}

} // verus!
