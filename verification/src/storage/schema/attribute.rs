//! The stored form of an attribute.

use crate::array::DataOrder;
use crate::datatype::DataType;
use crate::error::{Error, Field};
use crate::storage::filter::{FilterList, FilterListView};
use crate::storage::wire;
use vstd::prelude::*;
use vstd::utf8;

verus! {

/// An attribute as it is stored.
#[derive(Debug, PartialEq, Eq)]
pub struct Attribute {
    pub name: String,
    pub data_type: DataType,
    pub cell_val_num: u32,
    pub filters: FilterList,
    pub fill_value: Vec<u8>,
    pub nullable: u8,
    pub fill_value_validity: u8,
    pub data_order: DataOrder,
    pub enumeration_name: Vec<u8>,
}

/// What a stored attribute holds.
pub ghost struct AttributeView {
    pub name: Seq<char>,
    pub data_type: DataType,
    pub cell_val_num: u32,
    pub filters: FilterListView,
    pub fill_value: Seq<u8>,
    pub nullable: u8,
    pub fill_value_validity: u8,
    pub data_order: DataOrder,
    pub enumeration_name: Seq<u8>,
}

impl View for Attribute {
    type V = AttributeView;

    open spec fn view(&self) -> AttributeView {
        AttributeView {
            name: self.name@,
            data_type: self.data_type,
            cell_val_num: self.cell_val_num,
            filters: self.filters@,
            fill_value: self.fill_value@,
            nullable: self.nullable,
            fill_value_validity: self.fill_value_validity,
            data_order: self.data_order,
            enumeration_name: self.enumeration_name@,
        }
    }
}

impl AttributeView {
    /// The bytes that store the attribute in format `version`: the fill
    /// value from version 6 on, the two bytes on null values from version 7
    /// on, the order from version 17 on, the name of the enumeration from
    /// version 20 on.
    pub open spec fn spec_encode(self, version: u32) -> Seq<u8> {
        wire::block32(utf8::encode_utf8(self.name)) + seq![self.data_type.code()] + wire::u32_le(
            self.cell_val_num,
        ) + self.filters.spec_encode() + wire::opt(version >= 6, wire::block64(self.fill_value))
            + wire::opt(version >= 7, seq![self.nullable]) + wire::opt(
            version >= 7,
            seq![self.fill_value_validity],
        ) + wire::opt(version >= 17, seq![self.data_order.code()]) + wire::opt(
            version >= 20,
            wire::block32(self.enumeration_name),
        )
    }

    /// Encoding an attribute in format `version`, as a function.
    pub open spec fn encoder(version: u32) -> spec_fn(AttributeView) -> Seq<u8> {
        |a: AttributeView| a.spec_encode(version)
    }

    /// Whether an attribute can be stored, as a function.
    pub open spec fn is_storable() -> spec_fn(AttributeView) -> bool {
        |a: AttributeView| a.storable()
    }

    /// Whether the attribute can be stored: the lengths of its texts and the
    /// number of its filters fit the four bytes each is stored in.
    pub open spec fn storable(self) -> bool {
        &&& utf8::encode_utf8(self.name).len() <= u32::MAX
        &&& self.filters.filters.len() <= u32::MAX
        &&& self.enumeration_name.len() <= u32::MAX
    }
}

impl Attribute {
    /// What decoding the order of an attribute at `pos` gives, which is
    /// stored from version 17 on and is `Unordered` before.
    pub open spec fn spec_decode_order(b: Seq<u8>, pos: usize, version: u32) -> Result<
        (DataOrder, usize),
        Error,
    > {
        if version < 17 {
            Ok((DataOrder::Unordered, pos))
        } else {
            match wire::spec_read_u8(b, pos, Field::DataOrder) {
                Err(e) => Err(e),
                Ok((raw, next)) => if DataOrder::of_code(raw) == DataOrder::Invalid {
                    Err(Error::InvalidEnumValue { field: Field::DataOrder, raw })
                } else {
                    Ok((DataOrder::of_code(raw), next))
                },
            }
        }
    }

    /// What decoding the fields of an attribute behind its filters gives;
    /// `head` holds the fields up to the filters.
    pub open spec fn spec_decode_rest(b: Seq<u8>, pos: usize, version: u32, head: AttributeView)
        -> Result<(AttributeView, usize), Error> {
        match wire::spec_read_block64_if(version >= 6, b, pos, Field::FillValue) {
            Err(e) => Err(e),
            Ok((fill_value, p1)) => match wire::spec_read_u8_if(
                version >= 7,
                b,
                p1,
                Field::Nullable,
            ) {
                Err(e) => Err(e),
                Ok((nullable, p2)) => match wire::spec_read_u8_if(
                    version >= 7,
                    b,
                    p2,
                    Field::FillValueValidity,
                ) {
                    Err(e) => Err(e),
                    Ok((fill_value_validity, p3)) => match Self::spec_decode_order(b, p3, version) {
                        Err(e) => Err(e),
                        Ok((data_order, p4)) => match wire::spec_read_block32_if(
                            version >= 20,
                            b,
                            p4,
                            Field::EnumerationName,
                        ) {
                            Err(e) => Err(e),
                            Ok((enumeration_name, next)) => Ok(
                                (
                                    AttributeView {
                                        fill_value,
                                        nullable,
                                        fill_value_validity,
                                        data_order,
                                        enumeration_name,
                                        ..head
                                    },
                                    next,
                                ),
                            ),
                        },
                    },
                },
            }
        }
    }

    /// What decoding an attribute behind its name gives.
    pub open spec fn spec_decode_typed(b: Seq<u8>, pos: usize, version: u32, name: Seq<char>)
        -> Result<(AttributeView, usize), Error> {
        if pos + 5 > b.len() {
            Err(Error::UnexpectedEof { field: Field::Attribute, offset: pos })
        } else if DataType::of_code(b[pos as int]) == DataType::Invalid {
            Err(Error::InvalidEnumValue { field: Field::DataType, raw: b[pos as int] })
        } else {
            match FilterList::spec_decode(b, (pos + 5) as usize, version) {
                Err(e) => Err(e),
                Ok((filters, next)) => Self::spec_decode_rest(
                    b,
                    next,
                    version,
                    AttributeView {
                        name,
                        data_type: DataType::of_code(b[pos as int]),
                        cell_val_num: wire::le_u32(b, pos + 1),
                        filters,
                        fill_value: Seq::empty(),
                        nullable: 0,
                        fill_value_validity: 0,
                        data_order: DataOrder::Unordered,
                        enumeration_name: Seq::empty(),
                    },
                ),
            }
        }
    }

    /// What decoding an attribute at `pos` gives, as it was written in
    /// format `version`: the attribute and the position behind it; the end
    /// of input at the field that does not fit; the error of a name that is
    /// no text; the byte of its type or of its order, where that names none;
    /// the error of its filters.
    pub open spec fn spec_decode(b: Seq<u8>, pos: usize, version: u32) -> Result<
        (AttributeView, usize),
        Error,
    > {
        match wire::spec_read_block32(b, pos, Field::Name) {
            Err(e) => Err(e),
            Ok((raw_name, next)) => match wire::spec_text(raw_name, Field::Name) {
                Err(e) => Err(e),
                Ok(name) => Self::spec_decode_typed(b, next, version, name),
            },
        }
    }

    /// Decoding an attribute of `b`, as a function of the position.
    pub open spec fn decoder(b: Seq<u8>, version: u32) -> spec_fn(usize) -> Result<
        (AttributeView, usize),
        Error,
    > {
        |pos: usize| Self::spec_decode(b, pos, version)
    }

    /// Decodes the order of an attribute at `pos`.
    fn decode_order(bytes: &[u8], pos: usize, version: u32) -> (r: Result<(DataOrder, usize), Error>)
        ensures
            r == Self::spec_decode_order(bytes@, pos, version),
    {
        if version < 17 {
            return Ok((DataOrder::Unordered, pos));
        }
        let (raw, next) = wire::read_u8(bytes, pos, Field::DataOrder)?;
        let data_order = DataOrder::from(raw);
        if data_order == DataOrder::Invalid {
            return Err(Error::InvalidEnumValue { field: Field::DataOrder, raw });
        }
        Ok((data_order, next))
    }

    /// Decodes the attribute at `pos`, as it was written in format
    /// `version`.
    pub fn decode(bytes: &[u8], pos: usize, version: u32) -> (r: Result<(Attribute, usize), Error>)
        ensures
            wire::decoded(r) == Self::spec_decode(bytes@, pos, version),
    {
        let (raw_name, p0) = wire::read_block32(bytes, pos, Field::Name)?;
        let name = wire::text(raw_name, Field::Name)?;
        wire::need(bytes, p0, 5, Field::Attribute)?;
        let data_type = DataType::from(bytes[p0]);
        if data_type == DataType::Invalid {
            return Err(Error::InvalidEnumValue { field: Field::DataType, raw: bytes[p0] });
        }
        let cell_val_num = wire::get_u32(bytes, p0 + 1);
        let (filters, p1) = FilterList::decode(bytes, p0 + 5, version)?;
        let (fill_value, p2) = wire::read_block64_if(version >= 6, bytes, p1, Field::FillValue)?;
        let (nullable, p3) = wire::read_u8_if(version >= 7, bytes, p2, Field::Nullable)?;
        let (fill_value_validity, p4) = wire::read_u8_if(
            version >= 7,
            bytes,
            p3,
            Field::FillValueValidity,
        )?;
        let (data_order, p5) = Self::decode_order(bytes, p4, version)?;
        let (enumeration_name, next) = wire::read_block32_if(
            version >= 20,
            bytes,
            p5,
            Field::EnumerationName,
        )?;
        Ok(
            (
                Attribute {
                    name,
                    data_type,
                    cell_val_num,
                    filters,
                    fill_value,
                    nullable,
                    fill_value_validity,
                    data_order,
                    enumeration_name,
                },
                next,
            ),
        )
    }

    /// Appends the bytes that store the attribute in format `version`.
    pub fn encode(&self, out: &mut Vec<u8>, version: u32)
        requires
            self@.storable(),
        ensures
            final(out)@ == old(out)@ + self@.spec_encode(version),
    {
        let ghost start = out@;
        let ghost name = wire::block32(utf8::encode_utf8(self.name@));
        let ghost kind = seq![self.data_type.code()];
        let ghost count = wire::u32_le(self.cell_val_num);
        let ghost filters = self.filters@.spec_encode();
        let ghost fill = wire::opt(version >= 6, wire::block64(self.fill_value@));
        let ghost nullable = wire::opt(version >= 7, seq![self.nullable]);
        let ghost validity = wire::opt(version >= 7, seq![self.fill_value_validity]);
        let ghost order = wire::opt(version >= 17, seq![self.data_order.code()]);
        let ghost enumeration = wire::opt(version >= 20, wire::block32(self.enumeration_name@));
        wire::write_block32(out, self.name.as_str().as_bytes());
        wire::write_u8(out, self.data_type.to_u8());
        wire::write_u32(out, self.cell_val_num);
        self.filters.encode(out);
        wire::write_block64_if(version >= 6, out, self.fill_value.as_slice());
        wire::write_u8_if(version >= 7, out, self.nullable);
        wire::write_u8_if(version >= 7, out, self.fill_value_validity);
        wire::write_u8_if(version >= 17, out, self.data_order.to_u8());
        wire::write_block32_if(version >= 20, out, self.enumeration_name.as_slice());
        proof {
            wire::lemma_group9(
                start,
                name,
                kind,
                count,
                filters,
                fill,
                nullable,
                validity,
                order,
                enumeration,
            );
        }
    }

    /// Encoding a decoded attribute gives the bytes it was decoded from.
    pub proof fn lemma_written(b: Seq<u8>, pos: usize, version: u32)
        requires
            b.len() <= usize::MAX,
            Self::spec_decode(b, pos, version) is Ok,
        ensures
            ({
                let (attribute, next) = Self::spec_decode(b, pos, version)->Ok_0;
                &&& pos <= next <= b.len()
                &&& attribute.storable()
                &&& attribute.spec_encode(version) == b.subrange(pos as int, next as int)
            }),
    {
        let (attribute, next) = Self::spec_decode(b, pos, version)->Ok_0;
        let at = pos as int;
        let (raw_name, p0) = wire::spec_read_block32(b, pos, Field::Name)->Ok_0;
        wire::lemma_block32_written(b, pos, Field::Name);
        wire::lemma_text_written(raw_name, Field::Name);
        DataType::code_of_code(b[p0 as int]);
        wire::lemma_byte(b, p0 as int);
        wire::lemma_u32_written(b, p0 + 1);
        let start = (p0 + 5) as usize;
        let (filters, p1) = FilterList::spec_decode(b, start, version)->Ok_0;
        FilterList::lemma_written(b, start, version);
        let (fill_value, p2) = wire::spec_read_block64_if(version >= 6, b, p1, Field::FillValue)->Ok_0;
        wire::lemma_block64_if_written(version >= 6, b, p1, Field::FillValue);
        let (nullable, p3) = wire::spec_read_u8_if(version >= 7, b, p2, Field::Nullable)->Ok_0;
        wire::lemma_read_u8_if_written(version >= 7, b, p2, Field::Nullable);
        let (validity, p4) = wire::spec_read_u8_if(
            version >= 7,
            b,
            p3,
            Field::FillValueValidity,
        )->Ok_0;
        wire::lemma_read_u8_if_written(version >= 7, b, p3, Field::FillValueValidity);
        let (data_order, p5) = Self::spec_decode_order(b, p4, version)->Ok_0;
        if version >= 17 {
            wire::lemma_read_u8_written(b, p4, Field::DataOrder);
            DataOrder::code_of_code(b[p4 as int]);
        } else {
            wire::lemma_nothing(b, p4 as int);
        }
        wire::lemma_block32_if_written(version >= 20, b, p5, Field::EnumerationName);
        wire::lemma_join(b, at, p0 as int, p0 + 1);
        wire::lemma_join(b, at, p0 + 1, p0 + 5);
        wire::lemma_join(b, at, p0 + 5, p1 as int);
        wire::lemma_join(b, at, p1 as int, p2 as int);
        wire::lemma_join(b, at, p2 as int, p3 as int);
        wire::lemma_join(b, at, p3 as int, p4 as int);
        wire::lemma_join(b, at, p4 as int, p5 as int);
        wire::lemma_join(b, at, p5 as int, next as int);
    }

    /// Every decoded attribute can be stored.
    pub proof fn lemma_yields_storable(b: Seq<u8>, version: u32)
        requires
            b.len() <= usize::MAX,
        ensures
            wire::yields(Self::decoder(b, version), AttributeView::is_storable()),
    {
        assert forall|p: usize| (#[trigger] Self::decoder(b, version)(p)) matches Ok((t, q))
            ==> AttributeView::is_storable()(t) by {
            if Self::spec_decode(b, p, version) is Ok {
                Self::lemma_written(b, p, version);
            }
        }
    }

    /// Every decoded attribute writes back to the bytes it came from.
    pub proof fn lemma_writes_back(b: Seq<u8>, version: u32)
        requires
            b.len() <= usize::MAX,
        ensures
            wire::writes_back(b, Self::decoder(b, version), AttributeView::encoder(version)),
    {
        assert forall|p: usize| p <= b.len() implies (#[trigger] Self::decoder(b, version)(
            p,
        ) matches Ok((t, q)) ==> p <= q <= b.len() && AttributeView::encoder(version)(t)
            == b.subrange(p as int, q as int)) by {
            if Self::spec_decode(b, p, version) is Ok {
                Self::lemma_written(b, p, version);
            }
        }
    }
}

impl AttributeView {
    /// Whether the type and the order of the attribute and the kinds of its
    /// filters are known ones.
    pub open spec fn known(self) -> bool {
        &&& self.data_type != DataType::Invalid
        &&& self.data_order != DataOrder::Invalid
        &&& self.filters.known()
    }

    /// Whether the enumerated fields of an attribute are known, as a
    /// function.
    pub open spec fn is_known() -> spec_fn(AttributeView) -> bool {
        |a: AttributeView| a.known()
    }
}

} // verus!
