//! Reading and writing the little-endian integers and the byte strings that
//! every stored object is made of.

use crate::error::{Error, Field};
use vstd::prelude::*;
use vstd::slice::{slice_subrange, slice_to_vec};
use vstd::utf8;

verus! {

/// The value of the two bytes of `b` at `at`, least significant first.
pub open spec fn le_u16(b: Seq<u8>, at: int) -> u16 {
    (b[at] as int + 0x100 * (b[at + 1] as int)) as u16
}

/// The value of the four bytes of `b` at `at`, least significant first.
pub open spec fn le_u32(b: Seq<u8>, at: int) -> u32 {
    (b[at] as int + 0x100 * (b[at + 1] as int) + 0x1_0000 * (b[at + 2] as int) + 0x100_0000 * (b[at
        + 3] as int)) as u32
}

/// The value of the eight bytes of `b` at `at`, least significant first.
pub open spec fn le_u64(b: Seq<u8>, at: int) -> u64 {
    (le_u32(b, at) as int + 0x1_0000_0000 * (le_u32(b, at + 4) as int)) as u64
}

/// The signed number that has the bits of `x`.
pub open spec fn as_signed(x: u32) -> i32 {
    if x < 0x8000_0000 {
        x as i32
    } else {
        (x - 0x1_0000_0000) as i32
    }
}

/// The unsigned number that has the bits of `x`.
pub open spec fn as_unsigned(x: i32) -> u32 {
    if x >= 0 {
        x as u32
    } else {
        (x + 0x1_0000_0000) as u32
    }
}

/// The two bytes that hold `x`, least significant first.
#[verifier::opaque]
pub open spec fn u16_le(x: u16) -> Seq<u8> {
    seq![(x % 0x100) as u8, (x / 0x100) as u8]
}

/// The four bytes that hold `x`, least significant first.
#[verifier::opaque]
pub open spec fn u32_le(x: u32) -> Seq<u8> {
    seq![
        (x % 0x100) as u8,
        (x / 0x100 % 0x100) as u8,
        (x / 0x1_0000 % 0x100) as u8,
        (x / 0x100_0000) as u8,
    ]
}

/// The eight bytes that hold `x`, least significant first.
#[verifier::opaque]
pub open spec fn u64_le(x: u64) -> Seq<u8> {
    u32_le((x % 0x1_0000_0000) as u32) + u32_le((x / 0x1_0000_0000) as u32)
}

/// What reading one byte of `b` at `pos` gives: the byte and the position
/// behind it.
pub open spec fn spec_read_u8(b: Seq<u8>, pos: usize, field: Field) -> Result<(u8, usize), Error> {
    if pos < b.len() {
        Ok((b[pos as int], (pos + 1) as usize))
    } else {
        Err(Error::UnexpectedEof { field, offset: pos })
    }
}

/// What reading a 16-bit integer of `b` at `pos` gives.
pub open spec fn spec_read_u16(b: Seq<u8>, pos: usize, field: Field) -> Result<(u16, usize), Error> {
    if pos + 2 <= b.len() {
        Ok((le_u16(b, pos as int), (pos + 2) as usize))
    } else {
        Err(Error::UnexpectedEof { field, offset: pos })
    }
}

/// What reading a 32-bit integer of `b` at `pos` gives.
pub open spec fn spec_read_u32(b: Seq<u8>, pos: usize, field: Field) -> Result<(u32, usize), Error> {
    if pos + 4 <= b.len() {
        Ok((le_u32(b, pos as int), (pos + 4) as usize))
    } else {
        Err(Error::UnexpectedEof { field, offset: pos })
    }
}

/// What reading a signed 32-bit integer of `b` at `pos` gives.
pub open spec fn spec_read_i32(b: Seq<u8>, pos: usize, field: Field) -> Result<(i32, usize), Error> {
    if pos + 4 <= b.len() {
        Ok((as_signed(le_u32(b, pos as int)), (pos + 4) as usize))
    } else {
        Err(Error::UnexpectedEof { field, offset: pos })
    }
}

/// What reading a 64-bit integer of `b` at `pos` gives.
pub open spec fn spec_read_u64(b: Seq<u8>, pos: usize, field: Field) -> Result<(u64, usize), Error> {
    if pos + 8 <= b.len() {
        Ok((le_u64(b, pos as int), (pos + 8) as usize))
    } else {
        Err(Error::UnexpectedEof { field, offset: pos })
    }
}

/// What reading `n` bytes of `b` at `pos` gives.
pub open spec fn spec_read_bytes(b: Seq<u8>, pos: usize, n: u64, field: Field) -> Result<
    (Seq<u8>, usize),
    Error,
> {
    if pos + n <= b.len() {
        Ok((b.subrange(pos as int, pos + n), (pos + n) as usize))
    } else {
        Err(Error::UnexpectedEof { field, offset: pos })
    }
}

/// A decoding result with the decoded value taken by its view.
pub open spec fn decoded<T: View>(r: Result<(T, usize), Error>) -> Result<(T::V, usize), Error> {
    match r {
        Ok((t, next)) => Ok((t@, next)),
        Err(e) => Err(e),
    }
}

/// Whether `n` bytes are there at `pos`; if not, the error that names
/// `field`.
pub open spec fn spec_need(b: Seq<u8>, pos: usize, n: nat, field: Field) -> Result<(), Error> {
    if pos + n <= b.len() {
        Ok(())
    } else {
        Err(Error::UnexpectedEof { field, offset: pos })
    }
}

/// Tests that `n` bytes are there at `pos`.
pub fn need(bytes: &[u8], pos: usize, n: usize, field: Field) -> (r: Result<(), Error>)
    ensures
        r == spec_need(bytes@, pos, n as nat, field),
        r is Ok ==> pos + n <= usize::MAX,
{
    if pos <= bytes.len() && n <= bytes.len() - pos {
        Ok(())
    } else {
        Err(Error::UnexpectedEof { field, offset: pos })
    }
}

/// The 16-bit integer at `at`.
pub fn get_u16(bytes: &[u8], at: usize) -> (x: u16)
    requires
        at + 2 <= bytes@.len(),
    ensures
        x == le_u16(bytes@, at as int),
{
    let b0: u16 = bytes[at] as u16;
    let b1: u16 = bytes[at + 1] as u16;
    b0 + 0x100 * b1
}

/// The 32-bit integer at `at`.
pub fn get_u32(bytes: &[u8], at: usize) -> (x: u32)
    requires
        at + 4 <= bytes@.len(),
    ensures
        x == le_u32(bytes@, at as int),
{
    let b0: u32 = bytes[at] as u32;
    let b1: u32 = bytes[at + 1] as u32;
    let b2: u32 = bytes[at + 2] as u32;
    let b3: u32 = bytes[at + 3] as u32;
    b0 + 0x100 * b1 + 0x1_0000 * b2 + 0x100_0000 * b3
}

/// The signed 32-bit integer at `at`.
pub fn get_i32(bytes: &[u8], at: usize) -> (x: i32)
    requires
        at + 4 <= bytes@.len(),
    ensures
        x == as_signed(le_u32(bytes@, at as int)),
{
    let x: u32 = get_u32(bytes, at);
    if x < 0x8000_0000 {
        x as i32
    } else {
        (x - 0x8000_0000) as i32 + i32::MIN
    }
}

/// The 64-bit integer at `at`.
pub fn get_u64(bytes: &[u8], at: usize) -> (x: u64)
    requires
        at + 8 <= bytes@.len(),
    ensures
        x == le_u64(bytes@, at as int),
{
    assert(bytes@.len() == bytes.len());
    let lo: u32 = get_u32(bytes, at);
    let hi: u32 = get_u32(bytes, at + 4);
    lo as u64 + 0x1_0000_0000 * (hi as u64)
}

/// Reads one byte.
pub fn read_u8(bytes: &[u8], pos: usize, field: Field) -> (r: Result<(u8, usize), Error>)
    ensures
        r == spec_read_u8(bytes@, pos, field),
{
    if pos < bytes.len() {
        Ok((bytes[pos], pos + 1))
    } else {
        Err(Error::UnexpectedEof { field, offset: pos })
    }
}

/// Reads a 16-bit integer, least significant byte first.
pub fn read_u16(bytes: &[u8], pos: usize, field: Field) -> (r: Result<(u16, usize), Error>)
    ensures
        r == spec_read_u16(bytes@, pos, field),
{
    if pos <= bytes.len() && bytes.len() - pos >= 2 {
        Ok((get_u16(bytes, pos), pos + 2))
    } else {
        Err(Error::UnexpectedEof { field, offset: pos })
    }
}

/// Reads a 32-bit integer, least significant byte first.
pub fn read_u32(bytes: &[u8], pos: usize, field: Field) -> (r: Result<(u32, usize), Error>)
    ensures
        r == spec_read_u32(bytes@, pos, field),
{
    if pos <= bytes.len() && bytes.len() - pos >= 4 {
        Ok((get_u32(bytes, pos), pos + 4))
    } else {
        Err(Error::UnexpectedEof { field, offset: pos })
    }
}

/// Reads a signed 32-bit integer in two's complement, least significant byte
/// first.
pub fn read_i32(bytes: &[u8], pos: usize, field: Field) -> (r: Result<(i32, usize), Error>)
    ensures
        r == spec_read_i32(bytes@, pos, field),
{
    if pos <= bytes.len() && bytes.len() - pos >= 4 {
        Ok((get_i32(bytes, pos), pos + 4))
    } else {
        Err(Error::UnexpectedEof { field, offset: pos })
    }
}

/// Reads a 64-bit integer, least significant byte first.
pub fn read_u64(bytes: &[u8], pos: usize, field: Field) -> (r: Result<(u64, usize), Error>)
    ensures
        r == spec_read_u64(bytes@, pos, field),
{
    if pos <= bytes.len() && bytes.len() - pos >= 8 {
        Ok((get_u64(bytes, pos), pos + 8))
    } else {
        Err(Error::UnexpectedEof { field, offset: pos })
    }
}

/// Reads `n` bytes.
pub fn read_bytes(bytes: &[u8], pos: usize, n: u64, field: Field) -> (r: Result<
    (Vec<u8>, usize),
    Error,
>)
    ensures
        decoded(r) == spec_read_bytes(bytes@, pos, n, field),
{
    if pos <= bytes.len() && n <= (bytes.len() - pos) as u64 {
        let end: usize = pos + n as usize;
        Ok((slice_to_vec(slice_subrange(bytes, pos, end)), end))
    } else {
        Err(Error::UnexpectedEof { field, offset: pos })
    }
}

/// Appends the two bytes of `x`, least significant first.
pub fn write_u16(out: &mut Vec<u8>, x: u16)
    ensures
        final(out)@ == old(out)@ + u16_le(x),
{
    out.push((x % 0x100) as u8);
    out.push((x / 0x100) as u8);
    proof {
        reveal(u16_le);
    }
    assert(out@ =~= old(out)@ + u16_le(x));
}

/// Appends the four bytes of `x`, least significant first.
pub fn write_u32(out: &mut Vec<u8>, x: u32)
    ensures
        final(out)@ == old(out)@ + u32_le(x),
{
    out.push((x % 0x100) as u8);
    out.push((x / 0x100 % 0x100) as u8);
    out.push((x / 0x1_0000 % 0x100) as u8);
    out.push((x / 0x100_0000) as u8);
    proof {
        reveal(u32_le);
    }
    assert(out@ =~= old(out)@ + u32_le(x));
}

/// Appends the four bytes of `x` in two's complement, least significant
/// first.
pub fn write_i32(out: &mut Vec<u8>, x: i32)
    ensures
        final(out)@ == old(out)@ + u32_le(as_unsigned(x)),
{
    let u: u32 = if x >= 0 {
        x as u32
    } else {
        (x - i32::MIN) as u32 + 0x8000_0000
    };
    write_u32(out, u);
}

/// Appends the eight bytes of `x`, least significant first.
pub fn write_u64(out: &mut Vec<u8>, x: u64)
    ensures
        final(out)@ == old(out)@ + u64_le(x),
{
    write_u32(out, (x % 0x1_0000_0000) as u32);
    write_u32(out, (x / 0x1_0000_0000) as u32);
    proof {
        reveal(u64_le);
    }
    assert(out@ =~= old(out)@ + u64_le(x));
}

/// Appends `bytes`.
pub fn write_bytes(out: &mut Vec<u8>, bytes: &[u8])
    ensures
        final(out)@ == old(out)@ + bytes@,
{
    out.extend_from_slice(bytes);
}

/// Writing the 16-bit integer that was read gives the bytes it was read from.
pub proof fn lemma_u16_written(b: Seq<u8>, at: int)
    requires
        0 <= at,
        at + 2 <= b.len(),
    ensures
        u16_le(le_u16(b, at)) == b.subrange(at, at + 2),
{
    let b0 = b[at] as int;
    let b1 = b[at + 1] as int;
    let x = le_u16(b, at) as int;
    assert(x == 0x100 * b1 + b0);
    assert(x % 0x100 == b0);
    assert(x / 0x100 == b1);
    reveal(u16_le);
    assert(u16_le(le_u16(b, at)) =~= b.subrange(at, at + 2));
}

/// Writing the 32-bit integer that was read gives the bytes it was read from.
pub proof fn lemma_u32_written(b: Seq<u8>, at: int)
    requires
        0 <= at,
        at + 4 <= b.len(),
    ensures
        u32_le(le_u32(b, at)) == b.subrange(at, at + 4),
{
    let b0 = b[at] as int;
    let b1 = b[at + 1] as int;
    let b2 = b[at + 2] as int;
    let b3 = b[at + 3] as int;
    let x = le_u32(b, at) as int;
    let r1 = b1 + 0x100 * b2 + 0x1_0000 * b3;
    let r2 = b2 + 0x100 * b3;
    assert(x == 0x100 * r1 + b0);
    assert(x % 0x100 == b0 && x / 0x100 == r1);
    assert(r1 == 0x100 * r2 + b1);
    assert(r1 % 0x100 == b1 && r1 / 0x100 == r2);
    assert(x / 0x1_0000 == r2);
    assert(r2 % 0x100 == b2 && r2 / 0x100 == b3);
    assert(x / 0x100_0000 == b3);
    reveal(u32_le);
    let w = u32_le(le_u32(b, at));
    assert(w.len() == 4);
    assert(w[0] == b[at] && w[1] == b[at + 1] && w[2] == b[at + 2] && w[3] == b[at + 3]);
    assert(w =~= b.subrange(at, at + 4));
}

/// Writing the signed integer that was read gives the bytes it was read from.
pub proof fn lemma_i32_written(b: Seq<u8>, at: int)
    requires
        0 <= at,
        at + 4 <= b.len(),
    ensures
        u32_le(as_unsigned(as_signed(le_u32(b, at)))) == b.subrange(at, at + 4),
{
    lemma_u32_written(b, at);
}

/// Writing the 64-bit integer that was read gives the bytes it was read from.
pub proof fn lemma_u64_written(b: Seq<u8>, at: int)
    requires
        0 <= at,
        at + 8 <= b.len(),
    ensures
        u64_le(le_u64(b, at)) == b.subrange(at, at + 8),
{
    let lo = le_u32(b, at);
    let hi = le_u32(b, at + 4);
    let x = le_u64(b, at);
    assert(x == lo + 0x1_0000_0000 * hi);
    assert((x % 0x1_0000_0000) as u32 == lo);
    assert((x / 0x1_0000_0000) as u32 == hi);
    reveal(u64_le);
    lemma_u32_written(b, at);
    lemma_u32_written(b, at + 4);
    assert(b.subrange(at, at + 4) + b.subrange(at + 4, at + 8) =~= b.subrange(at, at + 8));
}

/// Reading what was written gives the integer back.
pub proof fn lemma_u32_read(x: u32)
    ensures
        le_u32(u32_le(x), 0) == x,
        u32_le(x).len() == 4,
{
    reveal(u32_le);
}

/// What decoding `n` items, one behind the other from `pos` on, gives: the
/// items in order and the position behind the last, or the error of the first
/// item that fails. `item` decodes one item at a position.
pub open spec fn spec_repeat<T>(
    item: spec_fn(usize) -> Result<(T, usize), Error>,
    pos: usize,
    n: nat,
) -> Result<(Seq<T>, usize), Error>
    decreases n,
{
    if n == 0 {
        Ok((Seq::empty(), pos))
    } else {
        match spec_repeat(item, pos, (n - 1) as nat) {
            Err(e) => Err(e),
            Ok((items, mid)) => match item(mid) {
                Err(e) => Err(e),
                Ok((t, next)) => Ok((items.push(t), next)),
            },
        }
    }
}

/// The encodings of `items`, one behind the other.
pub open spec fn spec_concat<T>(items: Seq<T>, enc: spec_fn(T) -> Seq<u8>) -> Seq<u8>
    decreases items.len(),
{
    if items.len() == 0 {
        Seq::empty()
    } else {
        spec_concat(items.drop_last(), enc) + enc(items.last())
    }
}

/// Whether every item that `item` decodes from `b` lies within `b`, and `enc`
/// of it gives the bytes it was decoded from.
pub open spec fn writes_back<T>(
    b: Seq<u8>,
    item: spec_fn(usize) -> Result<(T, usize), Error>,
    enc: spec_fn(T) -> Seq<u8>,
) -> bool {
    forall|p: usize|
        p <= b.len() ==> (#[trigger] item(p) matches Ok((t, q)) ==> p <= q <= b.len() && enc(t)
            == b.subrange(p as int, q as int))
}

/// Once an item has failed, asking for more items gives the same error.
pub proof fn lemma_repeat_error<T>(
    item: spec_fn(usize) -> Result<(T, usize), Error>,
    pos: usize,
    k: nat,
    n: nat,
)
    requires
        k <= n,
        spec_repeat(item, pos, k) is Err,
    ensures
        spec_repeat(item, pos, n) == spec_repeat(item, pos, k),
    decreases n,
{
    if k < n {
        lemma_repeat_error(item, pos, k, (n - 1) as nat);
    }
}

/// `n` decoded items are `n` items.
pub proof fn lemma_repeat_len<T>(
    item: spec_fn(usize) -> Result<(T, usize), Error>,
    pos: usize,
    n: nat,
)
    ensures
        spec_repeat(item, pos, n) matches Ok((items, next)) ==> items.len() == n,
    decreases n,
{
    if n > 0 {
        lemma_repeat_len(item, pos, (n - 1) as nat);
    }
}

/// Where each item writes back to the bytes it came from, so do `n` of them
/// in a row.
pub proof fn lemma_repeat_written<T>(
    b: Seq<u8>,
    item: spec_fn(usize) -> Result<(T, usize), Error>,
    enc: spec_fn(T) -> Seq<u8>,
    pos: usize,
    n: nat,
)
    requires
        pos <= b.len(),
        writes_back(b, item, enc),
    ensures
        spec_repeat(item, pos, n) matches Ok((items, next)) ==> pos <= next <= b.len()
            && spec_concat(items, enc) == b.subrange(pos as int, next as int),
    decreases n,
{
    if n == 0 {
        assert(b.subrange(pos as int, pos as int) =~= Seq::<u8>::empty());
    } else {
        lemma_repeat_written(b, item, enc, pos, (n - 1) as nat);
        match spec_repeat(item, pos, (n - 1) as nat) {
            Err(e) => {},
            Ok((items, mid)) => {
                match item(mid) {
                    Err(e) => {},
                    Ok((t, next)) => {
                        assert(items.push(t).drop_last() =~= items);
                        assert(b.subrange(pos as int, mid as int) + b.subrange(
                            mid as int,
                            next as int,
                        ) =~= b.subrange(pos as int, next as int));
                    },
                }
            },
        }
    }
}

/// One byte of `b` as a stretch of it.
pub proof fn lemma_byte(b: Seq<u8>, i: int)
    requires
        0 <= i < b.len(),
    ensures
        seq![b[i]] == b.subrange(i, i + 1),
{
    assert(seq![b[i]] =~= b.subrange(i, i + 1));
}

/// Two stretches of `b` that follow each other make up the stretch over both.
pub proof fn lemma_join(b: Seq<u8>, i: int, j: int, k: int)
    requires
        0 <= i <= j <= k <= b.len(),
    ensures
        b.subrange(i, j) + b.subrange(j, k) == b.subrange(i, k),
{
    assert(b.subrange(i, j) + b.subrange(j, k) =~= b.subrange(i, k));
}

/// The encodings of one item more are those of the others and then its own.
pub proof fn lemma_concat_push<T>(items: Seq<T>, t: T, enc: spec_fn(T) -> Seq<u8>)
    ensures
        spec_concat(items.push(t), enc) == spec_concat(items, enc) + enc(t),
{
    assert(items.push(t).drop_last() =~= items);
}

/// The views of the items of `s`, in order.
pub open spec fn views<T: View>(s: Seq<T>) -> Seq<T::V> {
    Seq::new(s.len(), |i: int| s[i]@)
}

/// The views of one item more are those of the others and then its own.
pub proof fn lemma_views_push<T: View>(s: Seq<T>, t: T)
    ensures
        views(s.push(t)) == views(s).push(t@),
{
    assert(views(s.push(t)) =~= views(s).push(t@));
}

/// No items have no views.
pub proof fn lemma_views_empty<T: View>()
    ensures
        views(Seq::<T>::empty()) == Seq::<T::V>::empty(),
{
    assert(views(Seq::<T>::empty()) =~= Seq::<T::V>::empty());
}

/// What reading a byte string at `pos` gives that is stored behind its
/// length in four bytes: the string and the position behind it.
pub open spec fn spec_read_block32(b: Seq<u8>, pos: usize, field: Field) -> Result<
    (Seq<u8>, usize),
    Error,
> {
    if pos + 4 > b.len() {
        Err(Error::UnexpectedEof { field, offset: pos })
    } else {
        spec_read_bytes(b, (pos + 4) as usize, le_u32(b, pos as int) as u64, field)
    }
}

/// What reading a byte string at `pos` gives that is stored behind its
/// length in eight bytes.
pub open spec fn spec_read_block64(b: Seq<u8>, pos: usize, field: Field) -> Result<
    (Seq<u8>, usize),
    Error,
> {
    if pos + 8 > b.len() {
        Err(Error::UnexpectedEof { field, offset: pos })
    } else {
        spec_read_bytes(b, (pos + 8) as usize, le_u64(b, pos as int), field)
    }
}

/// A byte string behind its length in four bytes.
pub open spec fn block32(bytes: Seq<u8>) -> Seq<u8> {
    u32_le(bytes.len() as u32) + bytes
}

/// A byte string behind its length in eight bytes.
pub open spec fn block64(bytes: Seq<u8>) -> Seq<u8> {
    u64_le(bytes.len() as u64) + bytes
}

/// Reads a byte string that is stored behind its length in four bytes.
pub fn read_block32(bytes: &[u8], pos: usize, field: Field) -> (r: Result<(Vec<u8>, usize), Error>)
    ensures
        decoded(r) == spec_read_block32(bytes@, pos, field),
{
    need(bytes, pos, 4, field)?;
    let n = get_u32(bytes, pos);
    read_bytes(bytes, pos + 4, n as u64, field)
}

/// Reads a byte string that is stored behind its length in eight bytes.
pub fn read_block64(bytes: &[u8], pos: usize, field: Field) -> (r: Result<(Vec<u8>, usize), Error>)
    ensures
        decoded(r) == spec_read_block64(bytes@, pos, field),
{
    need(bytes, pos, 8, field)?;
    let n = get_u64(bytes, pos);
    read_bytes(bytes, pos + 8, n, field)
}

/// Appends `bytes` behind their length in four bytes.
pub fn write_block32(out: &mut Vec<u8>, bytes: &[u8])
    requires
        bytes@.len() <= u32::MAX,
    ensures
        final(out)@ == old(out)@ + block32(bytes@),
{
    write_u32(out, bytes.len() as u32);
    write_bytes(out, bytes);
    assert(out@ =~= old(out)@ + block32(bytes@));
}

/// Appends `bytes` behind their length in eight bytes.
pub fn write_block64(out: &mut Vec<u8>, bytes: &[u8])
    ensures
        final(out)@ == old(out)@ + block64(bytes@),
{
    write_u64(out, bytes.len() as u64);
    write_bytes(out, bytes);
    assert(out@ =~= old(out)@ + block64(bytes@));
}

/// Writing the byte string that was read, behind its length, gives the
/// bytes it was read from.
pub proof fn lemma_block32_written(b: Seq<u8>, pos: usize, field: Field)
    requires
        b.len() <= usize::MAX,
        spec_read_block32(b, pos, field) is Ok,
    ensures
        ({
            let (bytes, next) = spec_read_block32(b, pos, field)->Ok_0;
            &&& pos <= next <= b.len()
            &&& bytes.len() <= u32::MAX
            &&& block32(bytes) == b.subrange(pos as int, next as int)
        }),
{
    let (bytes, next) = spec_read_block32(b, pos, field)->Ok_0;
    lemma_u32_written(b, pos as int);
    lemma_join(b, pos as int, pos + 4, next as int);
}

/// Writing the byte string that was read, behind its length, gives the
/// bytes it was read from.
pub proof fn lemma_block64_written(b: Seq<u8>, pos: usize, field: Field)
    requires
        b.len() <= usize::MAX,
        spec_read_block64(b, pos, field) is Ok,
    ensures
        ({
            let (bytes, next) = spec_read_block64(b, pos, field)->Ok_0;
            &&& pos <= next <= b.len()
            &&& block64(bytes) == b.subrange(pos as int, next as int)
        }),
{
    let (bytes, next) = spec_read_block64(b, pos, field)->Ok_0;
    lemma_u64_written(b, pos as int);
    lemma_join(b, pos as int, pos + 8, next as int);
}

/// The text that `bytes` hold in UTF-8, or the error that names `field`
/// where they hold none.
pub open spec fn spec_text(bytes: Seq<u8>, field: Field) -> Result<Seq<char>, Error> {
    if utf8::valid_utf8(bytes) {
        Ok(utf8::decode_utf8(bytes))
    } else {
        Err(Error::InvalidText { field })
    }
}

/// `String::from_utf8`: the string whose bytes are `bytes`, where those are
/// UTF-8, and an error, here `None`, where they are not.
#[verifier::external_body]
fn string_from_utf8(bytes: Vec<u8>) -> (r: Option<String>)
    ensures
        r is Some <==> utf8::valid_utf8(bytes@),
        r matches Some(s) ==> s@ == utf8::decode_utf8(bytes@),
{
    String::from_utf8(bytes).ok()
}

/// The text that `bytes` hold in UTF-8.
pub fn text(bytes: Vec<u8>, field: Field) -> (r: Result<String, Error>)
    ensures
        match r {
            Ok(s) => spec_text(bytes@, field) == Ok::<Seq<char>, Error>(s@),
            Err(e) => spec_text(bytes@, field) == Err::<Seq<char>, Error>(e),
        },
{
    match string_from_utf8(bytes) {
        Some(s) => Ok(s),
        None => Err(Error::InvalidText { field }),
    }
}

/// The bytes of a text that was read are the bytes it was read from.
pub proof fn lemma_text_written(bytes: Seq<u8>, field: Field)
    requires
        spec_text(bytes, field) is Ok,
    ensures
        utf8::encode_utf8(spec_text(bytes, field)->Ok_0) == bytes,
{
    utf8::decode_utf8_encode_utf8(bytes);
}

/// Writing the byte that was read gives the byte it was read from.
pub proof fn lemma_read_u8_written(b: Seq<u8>, pos: usize, field: Field)
    requires
        b.len() <= usize::MAX,
        spec_read_u8(b, pos, field) is Ok,
    ensures
        ({
            let (x, next) = spec_read_u8(b, pos, field)->Ok_0;
            next == pos + 1 && next <= b.len() && seq![x] == b.subrange(pos as int, next as int)
        }),
{
    lemma_byte(b, pos as int);
}

/// Writing the integer that was read gives the bytes it was read from.
pub proof fn lemma_read_u32_written(b: Seq<u8>, pos: usize, field: Field)
    requires
        b.len() <= usize::MAX,
        spec_read_u32(b, pos, field) is Ok,
    ensures
        ({
            let (x, next) = spec_read_u32(b, pos, field)->Ok_0;
            next == pos + 4 && next <= b.len() && u32_le(x) == b.subrange(pos as int, next as int)
        }),
{
    lemma_u32_written(b, pos as int);
}

/// Writing the integer that was read gives the bytes it was read from.
pub proof fn lemma_read_u64_written(b: Seq<u8>, pos: usize, field: Field)
    requires
        b.len() <= usize::MAX,
        spec_read_u64(b, pos, field) is Ok,
    ensures
        ({
            let (x, next) = spec_read_u64(b, pos, field)->Ok_0;
            next == pos + 8 && next <= b.len() && u64_le(x) == b.subrange(pos as int, next as int)
        }),
{
    lemma_u64_written(b, pos as int);
}

/// Nothing is the stretch from a position to itself.
pub proof fn lemma_nothing(b: Seq<u8>, i: int)
    requires
        0 <= i <= b.len(),
    ensures
        Seq::<u8>::empty() == b.subrange(i, i),
{
    assert(Seq::<u8>::empty() =~= b.subrange(i, i));
}

/// The bytes of a field that is stored only where `present` holds.
pub open spec fn opt(present: bool, bytes: Seq<u8>) -> Seq<u8> {
    if present {
        bytes
    } else {
        Seq::empty()
    }
}

/// What reading a byte gives that is stored only where `present` holds, and
/// is 0 otherwise.
pub open spec fn spec_read_u8_if(present: bool, b: Seq<u8>, pos: usize, field: Field) -> Result<
    (u8, usize),
    Error,
> {
    if present {
        spec_read_u8(b, pos, field)
    } else {
        Ok((0u8, pos))
    }
}

/// What reading a 32-bit integer gives that is stored only where `present`
/// holds, and is `absent` otherwise.
pub open spec fn spec_read_u32_if(
    present: bool,
    b: Seq<u8>,
    pos: usize,
    field: Field,
    absent: u32,
) -> Result<(u32, usize), Error> {
    if present {
        spec_read_u32(b, pos, field)
    } else {
        Ok((absent, pos))
    }
}

/// What reading a byte string behind its length in four bytes gives that is
/// stored only where `present` holds, and is empty otherwise.
pub open spec fn spec_read_block32_if(present: bool, b: Seq<u8>, pos: usize, field: Field) -> Result<
    (Seq<u8>, usize),
    Error,
> {
    if present {
        spec_read_block32(b, pos, field)
    } else {
        Ok((Seq::empty(), pos))
    }
}

/// What reading a byte string behind its length in eight bytes gives that is
/// stored only where `present` holds, and is empty otherwise.
pub open spec fn spec_read_block64_if(present: bool, b: Seq<u8>, pos: usize, field: Field) -> Result<
    (Seq<u8>, usize),
    Error,
> {
    if present {
        spec_read_block64(b, pos, field)
    } else {
        Ok((Seq::empty(), pos))
    }
}

/// Reads a byte that is stored only where `present` holds.
pub fn read_u8_if(present: bool, bytes: &[u8], pos: usize, field: Field) -> (r: Result<
    (u8, usize),
    Error,
>)
    ensures
        r == spec_read_u8_if(present, bytes@, pos, field),
{
    if present {
        read_u8(bytes, pos, field)
    } else {
        Ok((0, pos))
    }
}

/// Reads a 32-bit integer that is stored only where `present` holds.
pub fn read_u32_if(present: bool, bytes: &[u8], pos: usize, field: Field, absent: u32) -> (r:
    Result<(u32, usize), Error>)
    ensures
        r == spec_read_u32_if(present, bytes@, pos, field, absent),
{
    if present {
        read_u32(bytes, pos, field)
    } else {
        Ok((absent, pos))
    }
}

/// Reads a byte string behind its length in four bytes that is stored only
/// where `present` holds.
pub fn read_block32_if(present: bool, bytes: &[u8], pos: usize, field: Field) -> (r: Result<
    (Vec<u8>, usize),
    Error,
>)
    ensures
        decoded(r) == spec_read_block32_if(present, bytes@, pos, field),
{
    if present {
        read_block32(bytes, pos, field)
    } else {
        Ok((Vec::new(), pos))
    }
}

/// Reads a byte string behind its length in eight bytes that is stored only
/// where `present` holds.
pub fn read_block64_if(present: bool, bytes: &[u8], pos: usize, field: Field) -> (r: Result<
    (Vec<u8>, usize),
    Error,
>)
    ensures
        decoded(r) == spec_read_block64_if(present, bytes@, pos, field),
{
    if present {
        read_block64(bytes, pos, field)
    } else {
        Ok((Vec::new(), pos))
    }
}

/// Writing the byte that was read, where it is stored, gives the bytes it
/// was read from.
pub proof fn lemma_read_u8_if_written(present: bool, b: Seq<u8>, pos: usize, field: Field)
    requires
        pos <= b.len() <= usize::MAX,
        spec_read_u8_if(present, b, pos, field) is Ok,
    ensures
        ({
            let (x, next) = spec_read_u8_if(present, b, pos, field)->Ok_0;
            pos <= next <= b.len() && opt(present, seq![x]) == b.subrange(pos as int, next as int)
        }),
{
    if present {
        lemma_read_u8_written(b, pos, field);
    } else {
        lemma_nothing(b, pos as int);
    }
}

/// Writing the integer that was read, where it is stored, gives the bytes
/// it was read from.
pub proof fn lemma_read_u32_if_written(
    present: bool,
    b: Seq<u8>,
    pos: usize,
    field: Field,
    absent: u32,
)
    requires
        pos <= b.len() <= usize::MAX,
        spec_read_u32_if(present, b, pos, field, absent) is Ok,
    ensures
        ({
            let (x, next) = spec_read_u32_if(present, b, pos, field, absent)->Ok_0;
            pos <= next <= b.len() && opt(present, u32_le(x)) == b.subrange(
                pos as int,
                next as int,
            )
        }),
{
    if present {
        lemma_read_u32_written(b, pos, field);
    } else {
        lemma_nothing(b, pos as int);
    }
}

/// Writing the byte string that was read, where it is stored, gives the
/// bytes it was read from.
pub proof fn lemma_block32_if_written(present: bool, b: Seq<u8>, pos: usize, field: Field)
    requires
        pos <= b.len() <= usize::MAX,
        spec_read_block32_if(present, b, pos, field) is Ok,
    ensures
        ({
            let (bytes, next) = spec_read_block32_if(present, b, pos, field)->Ok_0;
            &&& pos <= next <= b.len()
            &&& bytes.len() <= u32::MAX
            &&& opt(present, block32(bytes)) == b.subrange(pos as int, next as int)
        }),
{
    if present {
        lemma_block32_written(b, pos, field);
    } else {
        lemma_nothing(b, pos as int);
    }
}

/// Writing the byte string that was read, where it is stored, gives the
/// bytes it was read from.
pub proof fn lemma_block64_if_written(present: bool, b: Seq<u8>, pos: usize, field: Field)
    requires
        pos <= b.len() <= usize::MAX,
        spec_read_block64_if(present, b, pos, field) is Ok,
    ensures
        ({
            let (bytes, next) = spec_read_block64_if(present, b, pos, field)->Ok_0;
            pos <= next <= b.len() && opt(present, block64(bytes)) == b.subrange(
                pos as int,
                next as int,
            )
        }),
{
    if present {
        lemma_block64_written(b, pos, field);
    } else {
        lemma_nothing(b, pos as int);
    }
}

/// Appends the byte `x` where `present` holds.
pub fn write_u8_if(present: bool, out: &mut Vec<u8>, x: u8)
    ensures
        final(out)@ == old(out)@ + opt(present, seq![x]),
{
    if present {
        out.push(x);
    }
    assert(out@ =~= old(out)@ + opt(present, seq![x]));
}

/// Appends the four bytes of `x` where `present` holds.
pub fn write_u32_if(present: bool, out: &mut Vec<u8>, x: u32)
    ensures
        final(out)@ == old(out)@ + opt(present, u32_le(x)),
{
    if present {
        write_u32(out, x);
    }
    assert(out@ =~= old(out)@ + opt(present, u32_le(x)));
}

/// Appends `bytes` behind their length in four bytes where `present` holds.
pub fn write_block32_if(present: bool, out: &mut Vec<u8>, bytes: &[u8])
    requires
        bytes@.len() <= u32::MAX,
    ensures
        final(out)@ == old(out)@ + opt(present, block32(bytes@)),
{
    if present {
        write_block32(out, bytes);
    }
    assert(out@ =~= old(out)@ + opt(present, block32(bytes@)));
}

/// Appends `bytes` behind their length in eight bytes where `present` holds.
pub fn write_block64_if(present: bool, out: &mut Vec<u8>, bytes: &[u8])
    ensures
        final(out)@ == old(out)@ + opt(present, block64(bytes@)),
{
    if present {
        write_block64(out, bytes);
    }
    assert(out@ =~= old(out)@ + opt(present, block64(bytes@)));
}

/// Appends the byte `x`.
pub fn write_u8(out: &mut Vec<u8>, x: u8)
    ensures
        final(out)@ == old(out)@ + seq![x],
{
    out.push(x);
    assert(out@ =~= old(out)@ + seq![x]);
}

/// Whether `ok` holds of every item that `item` decodes.
pub open spec fn yields<T>(
    item: spec_fn(usize) -> Result<(T, usize), Error>,
    ok: spec_fn(T) -> bool,
) -> bool {
    forall|p: usize| (#[trigger] item(p)) matches Ok((t, q)) ==> ok(t)
}

/// Whether `ok` holds of every one of `items`.
pub open spec fn all<T>(items: Seq<T>, ok: spec_fn(T) -> bool) -> bool {
    forall|i: int| 0 <= i < items.len() ==> ok(#[trigger] items[i])
}

/// What holds of every decoded item holds of each of `n` decoded in a row.
pub proof fn lemma_repeat_yields<T>(
    item: spec_fn(usize) -> Result<(T, usize), Error>,
    ok: spec_fn(T) -> bool,
    pos: usize,
    n: nat,
)
    requires
        yields(item, ok),
    ensures
        spec_repeat(item, pos, n) matches Ok((items, next)) ==> all(items, ok),
    decreases n,
{
    if n > 0 {
        lemma_repeat_yields(item, ok, pos, (n - 1) as nat);
    }
}

/// Eight stretches appended one by one are the eight together, appended.
pub proof fn lemma_group8(
    start: Seq<u8>,
    a: Seq<u8>,
    b: Seq<u8>,
    c: Seq<u8>,
    d: Seq<u8>,
    e: Seq<u8>,
    f: Seq<u8>,
    g: Seq<u8>,
    h: Seq<u8>,
)
    ensures
        start + a + b + c + d + e + f + g + h == start + (a + b + c + d + e + f + g + h),
{
    assert(start + a + b + c + d + e + f + g + h =~= start + (a + b + c + d + e + f + g + h));
}

/// Nine stretches appended one by one are the nine together, appended.
pub proof fn lemma_group9(
    start: Seq<u8>,
    a: Seq<u8>,
    b: Seq<u8>,
    c: Seq<u8>,
    d: Seq<u8>,
    e: Seq<u8>,
    f: Seq<u8>,
    g: Seq<u8>,
    h: Seq<u8>,
    i: Seq<u8>,
)
    ensures
        start + a + b + c + d + e + f + g + h + i == start + (a + b + c + d + e + f + g + h + i),
{
    assert(start + a + b + c + d + e + f + g + h + i =~= start + (a + b + c + d + e + f + g + h
        + i));
}

/// Four stretches one behind the other, grouped from the front or from the
/// back, are the same bytes.
pub proof fn lemma_regroup4(a: Seq<u8>, b: Seq<u8>, c: Seq<u8>, d: Seq<u8>)
    ensures
        a + b + c + d == a + (b + (c + d)),
        a + b + c + d == (a + b) + (c + d),
{
    assert(a + b + c + d =~= a + (b + (c + d)));
    assert(a + b + c + d =~= (a + b) + (c + d));
}

/// Six stretches appended one by one are the six together, appended.
pub proof fn lemma_group6(
    start: Seq<u8>,
    a: Seq<u8>,
    b: Seq<u8>,
    c: Seq<u8>,
    d: Seq<u8>,
    e: Seq<u8>,
    f: Seq<u8>,
)
    ensures
        start + a + b + c + d + e + f == start + (a + b + c + d + e + f),
{
    assert(start + a + b + c + d + e + f =~= start + (a + b + c + d + e + f));
}

/// Four stretches appended one by one are the four together, appended.
pub proof fn lemma_group4(start: Seq<u8>, a: Seq<u8>, b: Seq<u8>, c: Seq<u8>, d: Seq<u8>)
    ensures
        start + a + b + c + d == start + (a + b + c + d),
{
    assert(start + a + b + c + d =~= start + (a + b + c + d));
}

/// Where the four bytes of `x` stand in `b` at `at`, reading there gives
/// `x`.
pub proof fn lemma_u32_read_at(b: Seq<u8>, at: int, x: u32)
    requires
        0 <= at,
        at + 4 <= b.len(),
        b.subrange(at, at + 4) == u32_le(x),
    ensures
        le_u32(b, at) == x,
{
    lemma_u32_read(x);
    let w = b.subrange(at, at + 4);
    assert(w[0] == b[at] && w[1] == b[at + 1] && w[2] == b[at + 2] && w[3] == b[at + 3]);
}

} // verus!
