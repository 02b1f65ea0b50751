//! The stored form of the list that names the enumerations of a schema.

use crate::error::{Error, Field};
use crate::storage::wire;
use vstd::prelude::*;
use vstd::utf8;

verus! {

/// One entry of the list that names the enumerations of a schema: the name
/// of an enumeration and the path that it is stored under.
#[derive(Debug, PartialEq, Eq)]
pub struct EnumerationEntry {
    pub name: String,
    pub path: String,
}

/// What an entry of the enumeration list holds.
pub ghost struct EnumerationEntryView {
    pub name: Seq<char>,
    pub path: Seq<char>,
}

impl View for EnumerationEntry {
    type V = EnumerationEntryView;

    open spec fn view(&self) -> EnumerationEntryView {
        EnumerationEntryView { name: self.name@, path: self.path@ }
    }
}

impl EnumerationEntryView {
    /// The bytes that store the entry.
    pub open spec fn spec_encode(self) -> Seq<u8> {
        wire::block32(utf8::encode_utf8(self.name)) + wire::block32(utf8::encode_utf8(self.path))
    }

    /// Encoding an entry, as a function.
    pub open spec fn encoder() -> spec_fn(EnumerationEntryView) -> Seq<u8> {
        |e: EnumerationEntryView| e.spec_encode()
    }

    /// Whether the entry can be stored: the lengths of its texts fit the
    /// four bytes each is stored in.
    pub open spec fn storable(self) -> bool {
        utf8::encode_utf8(self.name).len() <= u32::MAX && utf8::encode_utf8(self.path).len()
            <= u32::MAX
    }

    /// Whether an entry can be stored, as a function.
    pub open spec fn is_storable() -> spec_fn(EnumerationEntryView) -> bool {
        |e: EnumerationEntryView| e.storable()
    }
}

impl EnumerationEntry {
    /// What decoding an entry at `pos` gives: the entry and the position
    /// behind it; the end of input at the text that does not fit; the error
    /// of a name or a path that is no text.
    pub open spec fn spec_decode(b: Seq<u8>, pos: usize) -> Result<
        (EnumerationEntryView, usize),
        Error,
    > {
        match wire::spec_read_block32(b, pos, Field::EnumerationName) {
            Err(e) => Err(e),
            Ok((raw_name, p1)) => match wire::spec_text(raw_name, Field::EnumerationName) {
                Err(e) => Err(e),
                Ok(name) => match wire::spec_read_block32(b, p1, Field::EnumerationPath) {
                    Err(e) => Err(e),
                    Ok((raw_path, next)) => match wire::spec_text(raw_path, Field::EnumerationPath) {
                        Err(e) => Err(e),
                        Ok(path) => Ok((EnumerationEntryView { name, path }, next)),
                    },
                },
            },
        }
    }

    /// Decoding an entry of `b`, as a function of the position.
    pub open spec fn decoder(b: Seq<u8>) -> spec_fn(usize) -> Result<
        (EnumerationEntryView, usize),
        Error,
    > {
        |pos: usize| Self::spec_decode(b, pos)
    }

    /// Decodes the entry at `pos`.
    pub fn decode(bytes: &[u8], pos: usize) -> (r: Result<(EnumerationEntry, usize), Error>)
        ensures
            wire::decoded(r) == Self::spec_decode(bytes@, pos),
    {
        let (raw_name, p1) = wire::read_block32(bytes, pos, Field::EnumerationName)?;
        let name = wire::text(raw_name, Field::EnumerationName)?;
        let (raw_path, next) = wire::read_block32(bytes, p1, Field::EnumerationPath)?;
        let path = wire::text(raw_path, Field::EnumerationPath)?;
        Ok((EnumerationEntry { name, path }, next))
    }

    /// Appends the bytes that store the entry.
    pub fn encode(&self, out: &mut Vec<u8>)
        requires
            self@.storable(),
        ensures
            final(out)@ == old(out)@ + self@.spec_encode(),
    {
        wire::write_block32(out, self.name.as_str().as_bytes());
        wire::write_block32(out, self.path.as_str().as_bytes());
        assert(out@ =~= old(out)@ + self@.spec_encode());
    }

    /// Encoding a decoded entry gives the bytes it was decoded from.
    pub proof fn lemma_written(b: Seq<u8>, pos: usize)
        requires
            b.len() <= usize::MAX,
            Self::spec_decode(b, pos) is Ok,
        ensures
            ({
                let (entry, next) = Self::spec_decode(b, pos)->Ok_0;
                &&& pos <= next <= b.len()
                &&& entry.storable()
                &&& entry.spec_encode() == b.subrange(pos as int, next as int)
            }),
    {
        let (raw_name, p1) = wire::spec_read_block32(b, pos, Field::EnumerationName)->Ok_0;
        let (raw_path, next) = wire::spec_read_block32(b, p1, Field::EnumerationPath)->Ok_0;
        wire::lemma_block32_written(b, pos, Field::EnumerationName);
        wire::lemma_text_written(raw_name, Field::EnumerationName);
        wire::lemma_block32_written(b, p1, Field::EnumerationPath);
        wire::lemma_text_written(raw_path, Field::EnumerationPath);
        wire::lemma_join(b, pos as int, p1 as int, next as int);
    }

    /// Every decoded entry can be stored.
    pub proof fn lemma_yields_storable(b: Seq<u8>)
        requires
            b.len() <= usize::MAX,
        ensures
            wire::yields(Self::decoder(b), EnumerationEntryView::is_storable()),
    {
        assert forall|p: usize| (#[trigger] Self::decoder(b)(p)) matches Ok((t, q))
            ==> EnumerationEntryView::is_storable()(t) by {
            if Self::spec_decode(b, p) is Ok {
                Self::lemma_written(b, p);
            }
        }
    }

    /// Every decoded entry writes back to the bytes it came from.
    pub proof fn lemma_writes_back(b: Seq<u8>)
        requires
            b.len() <= usize::MAX,
        ensures
            wire::writes_back(b, Self::decoder(b), EnumerationEntryView::encoder()),
    {
        assert forall|p: usize| p <= b.len() implies (#[trigger] Self::decoder(b)(p) matches Ok(
            (t, q),
        ) ==> p <= q <= b.len() && EnumerationEntryView::encoder()(t) == b.subrange(
            p as int,
            q as int,
        )) by {
            if Self::spec_decode(b, p) is Ok {
                Self::lemma_written(b, p);
            }
        }
    }
}

} // verus!
