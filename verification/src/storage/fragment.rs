//! Fragments, and the format version that the name of a fragment tells.
//!
//! The names of fragments have had three forms. The newest has five
//! underscores and ends in the format version. The one before ends, behind
//! its last underscore, in an identifier of 32 bytes. Every other name is of
//! the oldest form.

use crate::error::Error;
use crate::io::uri::{UriView, URI};
use vstd::prelude::*;
use vstd::string::StringSliceAdditionalSpecFns;

verus! {

/// The form of the name of a fragment.
#[derive(Clone, Copy, Debug, PartialEq, Eq, Structural)]
pub enum FragmentNameVersion {
    One,
    Two,
    Three,
}

/// The number of underscores in `name`.
pub open spec fn underscores(name: Seq<u8>) -> nat
    decreases name.len(),
{
    if name.len() == 0 {
        0
    } else {
        underscores(name.drop_last()) + if name.last() == 0x5f {
            1nat
        } else {
            0nat
        }
    }
}

/// Where the tail of `name` starts: behind its last underscore, or at -1
/// where it has none.
pub open spec fn tail_start(name: Seq<u8>) -> int
    decreases name.len(),
{
    if name.len() == 0 {
        -1
    } else if name.last() == 0x5f {
        name.len() as int
    } else {
        tail_start(name.drop_last())
    }
}

/// The form of the name of a fragment, given as the bytes of the name.
pub open spec fn name_version(name: Seq<u8>) -> FragmentNameVersion {
    if underscores(name) == 5 {
        FragmentNameVersion::Three
    } else if tail_start(name) >= 0 && name.len() - tail_start(name) == 32 {
        FragmentNameVersion::Two
    } else {
        FragmentNameVersion::One
    }
}

/// Whether `b` is a decimal digit.
pub open spec fn is_digit(b: u8) -> bool {
    0x30 <= b <= 0x39
}

/// The number that the decimal digits `digits` write.
pub open spec fn digits_value(digits: Seq<u8>) -> nat
    decreases digits.len(),
{
    if digits.len() == 0 {
        0
    } else {
        10 * digits_value(digits.drop_last()) + (digits.last() - 0x30) as nat
    }
}

/// Whether all of `digits` are decimal digits.
pub open spec fn all_digits(digits: Seq<u8>) -> bool {
    forall|i: int| 0 <= i < digits.len() ==> is_digit(#[trigger] digits[i])
}

/// `text` without the `+` that it may start with.
pub open spec fn unsigned(text: Seq<u8>) -> Seq<u8> {
    if text.len() > 0 && text[0] == 0x2b {
        text.skip(1)
    } else {
        text
    }
}

/// The number that `text` writes: decimal digits, at least one, behind at
/// most one `+`, that write a number of 32 bits. Nothing for any other text.
pub open spec fn number(text: Seq<u8>) -> Option<u32> {
    let digits = unsigned(text);
    if digits.len() > 0 && all_digits(digits) && digits_value(digits) <= u32::MAX {
        Some(digits_value(digits) as u32)
    } else {
        None
    }
}

/// The format version that the name of a fragment tells: 2 for the oldest
/// form, 4 for the one behind it, and for the newest the number behind its
/// last underscore; an error where no number stands there.
pub open spec fn version_of(name: Seq<u8>) -> Result<u32, Error> {
    match name_version(name) {
        FragmentNameVersion::One => Ok(2u32),
        FragmentNameVersion::Two => Ok(4u32),
        FragmentNameVersion::Three => match number(name.skip(tail_start(name))) {
            Some(version) => Ok(version),
            None => Err(Error::InvalidFragmentName),
        },
    }
}

/// An underscore in a name puts the tail behind it, or behind a later one.
pub proof fn lemma_underscores_tail(name: Seq<u8>)
    ensures
        underscores(name) > 0 ==> 1 <= tail_start(name) <= name.len(),
        underscores(name) == 0 ==> tail_start(name) == -1,
    decreases name.len(),
{
    if name.len() > 0 {
        lemma_underscores_tail(name.drop_last());
    }
}

/// More digits write no smaller number.
pub proof fn lemma_digits_grow(digits: Seq<u8>, k: int)
    requires
        0 <= k <= digits.len(),
        all_digits(digits),
    ensures
        digits_value(digits.take(k)) <= digits_value(digits),
    decreases digits.len() - k,
{
    if k < digits.len() {
        assert(digits.take(k + 1).drop_last() =~= digits.take(k));
        lemma_digits_grow(digits, k + 1);
    } else {
        assert(digits.take(k) =~= digits);
    }
}

/// The form of the name of a fragment.
pub fn get_fragment_name_version(name: &String) -> (version: FragmentNameVersion)
    ensures
        version == name_version(vstd::utf8::encode_utf8(name@)),
{
    let bytes = name.as_str().as_bytes();
    let (count, tail) = scan(bytes);
    if count == 5 {
        return FragmentNameVersion::Three;
    }
    match tail {
        Some(start) => {
            if bytes.len() - start == 32 {
                return FragmentNameVersion::Two;
            }
        },
        None => {},
    }
    FragmentNameVersion::One
}

/// The number of underscores in `bytes`, and where the tail behind the last
/// of them starts.
fn scan(bytes: &[u8]) -> (r: (usize, Option<usize>))
    ensures
        r.0 == underscores(bytes@),
        match r.1 {
            Some(start) => start == tail_start(bytes@) && start <= bytes@.len(),
            None => tail_start(bytes@) == -1,
        },
{
    let mut count: usize = 0;
    let mut tail: Option<usize> = None;
    let mut i: usize = 0;
    assert(bytes@.take(0) =~= Seq::<u8>::empty());
    while i < bytes.len()
        invariant
            i <= bytes@.len(),
            count <= i,
            count == underscores(bytes@.take(i as int)),
            match tail {
                Some(start) => start == tail_start(bytes@.take(i as int)) && start <= i,
                None => tail_start(bytes@.take(i as int)) == -1,
            },
        decreases bytes@.len() - i,
    {
        proof {
            assert(bytes@.take(i + 1).drop_last() =~= bytes@.take(i as int));
        }
        if bytes[i] == 0x5f {
            count += 1;
            tail = Some(i + 1);
        }
        i += 1;
    }
    assert(bytes@.take(i as int) =~= bytes@);
    (count, tail)
}

/// The number that the bytes of `text` from `start` on write.
fn parse_number(text: &[u8], start: usize) -> (r: Option<u32>)
    requires
        start <= text@.len(),
    ensures
        r == number(text@.skip(start as int)),
{
    let ghost whole = text@.skip(start as int);
    let mut first: usize = start;
    if first < text.len() && text[first] == 0x2b {
        first += 1;
    }
    let ghost digits = text@.skip(first as int);
    assert(digits =~= unsigned(whole));
    if first == text.len() {
        return None;
    }
    let mut value: u32 = 0;
    let mut i: usize = first;
    assert(digits.take(0) =~= Seq::<u8>::empty());
    while i < text.len()
        invariant
            first <= i <= text@.len(),
            first < text@.len(),
            digits == text@.skip(first as int),
            whole == text@.skip(start as int),
            digits == unsigned(whole),
            forall|j: int| 0 <= j < i - first ==> is_digit(#[trigger] digits[j]),
            value == digits_value(digits.take(i - first)),
        decreases text@.len() - i,
    {
        let b = text[i];
        assert(digits[i - first] == b);
        if b < 0x30 || b > 0x39 {
            proof {
                assert(!is_digit(digits[i - first]));
                assert(!all_digits(digits));
            }
            return None;
        }
        proof {
            assert(digits.take(i - first + 1).drop_last() =~= digits.take(i - first));
        }
        let digit: u32 = (b - 0x30) as u32;
        if value > (u32::MAX - digit) / 10 {
            proof {
                assert(digits_value(digits.take(i - first + 1)) == 10 * value + digit);
                if all_digits(digits) {
                    lemma_digits_grow(digits, i - first + 1);
                }
            }
            return None;
        }
        value = value * 10 + digit;
        i += 1;
    }
    assert(digits.take(i - first) =~= digits);
    Some(value)
}

/// The format version that the name of a fragment tells.
pub fn get_fragment_version(name: &String) -> (r: Result<u32, Error>)
    ensures
        r == version_of(vstd::utf8::encode_utf8(name@)),
{
    let name_version = get_fragment_name_version(name);
    if name_version == FragmentNameVersion::One {
        return Ok(2);
    }
    if name_version == FragmentNameVersion::Two {
        return Ok(4);
    }
    let bytes = name.as_str().as_bytes();
    let (count, tail) = scan(bytes);
    proof {
        lemma_underscores_tail(bytes@);
    }
    match tail {
        Some(start) => match parse_number(bytes, start) {
            Some(version) => Ok(version),
            None => Err(Error::InvalidFragmentName),
        },
        None => Err(Error::InvalidFragmentName),
    }
}

/// A fragment of an array.
pub struct Fragment {
    pub uri: URI,
    pub format_version: u32,
}

impl Fragment {
    /// The name of the fragment at `uri`: the last part of the path of
    /// `uri`, with the slashes at the end of the path left out.
    pub open spec fn name_of(uri: UriView) -> Seq<char> {
        let path = uri.path.subrange(0, crate::io::uri::trimmed_len(uri.path));
        path.subrange(crate::io::uri::last_part_start(path), path.len() as int)
    }

    /// The fragment at `uri`, in the format version that its name tells.
    pub fn new(uri: &URI) -> (r: Result<Fragment, Error>)
        ensures
            match r {
                Ok(fragment) => fragment.uri@ == uri@ && version_of(
                    vstd::utf8::encode_utf8(Self::name_of(uri@)),
                ) == Ok::<u32, Error>(fragment.format_version),
                Err(e) => version_of(vstd::utf8::encode_utf8(Self::name_of(uri@))) == Err::<
                    u32,
                    Error,
                >(e),
            },
    {
        let name = uri.remove_trailing_slash().last_path_part();
        let format_version = get_fragment_version(&name)?;
        Ok(Fragment { uri: uri.clone(), format_version })
    }
}

} // verus!
