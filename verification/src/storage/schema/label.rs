//! The stored form of a dimension label.

use crate::array::DataOrder;
use crate::datatype::DataType;
use crate::error::{Error, Field};
use crate::storage::wire;
use vstd::prelude::*;

verus! {

/// A dimension label as it is stored.
#[derive(Debug, PartialEq, Eq)]
pub struct DimensionLabel {
    pub dimension_id: u32,
    pub name: Vec<u8>,
    pub relative_uri: u8,
    pub uri: Vec<u8>,
    pub attribute_name: Vec<u8>,
    pub data_order: DataOrder,
    pub data_type: DataType,
    pub cell_val_num: u32,
    pub is_external: u8,
}

/// What a stored dimension label holds.
pub ghost struct DimensionLabelView {
    pub dimension_id: u32,
    pub name: Seq<u8>,
    pub relative_uri: u8,
    pub uri: Seq<u8>,
    pub attribute_name: Seq<u8>,
    pub data_order: DataOrder,
    pub data_type: DataType,
    pub cell_val_num: u32,
    pub is_external: u8,
}

impl View for DimensionLabel {
    type V = DimensionLabelView;

    open spec fn view(&self) -> DimensionLabelView {
        DimensionLabelView {
            dimension_id: self.dimension_id,
            name: self.name@,
            relative_uri: self.relative_uri,
            uri: self.uri@,
            attribute_name: self.attribute_name@,
            data_order: self.data_order,
            data_type: self.data_type,
            cell_val_num: self.cell_val_num,
            is_external: self.is_external,
        }
    }
}

impl DimensionLabelView {
    /// The bytes that store the label.
    pub open spec fn spec_encode(self) -> Seq<u8> {
        wire::u32_le(self.dimension_id) + wire::block32(self.name) + seq![self.relative_uri]
            + wire::block64(self.uri) + wire::block32(self.attribute_name) + seq![
            self.data_order.code(),
            self.data_type.code(),
        ] + wire::u32_le(self.cell_val_num) + seq![self.is_external]
    }

    /// Encoding a label, as a function.
    pub open spec fn encoder() -> spec_fn(DimensionLabelView) -> Seq<u8> {
        |l: DimensionLabelView| l.spec_encode()
    }

    /// Whether a label can be stored, as a function.
    pub open spec fn is_storable() -> spec_fn(DimensionLabelView) -> bool {
        |l: DimensionLabelView| l.storable()
    }

    /// Whether the label can be stored: the lengths of its texts fit the
    /// four bytes each is stored in.
    pub open spec fn storable(self) -> bool {
        self.name.len() <= u32::MAX && self.attribute_name.len() <= u32::MAX
    }
}

impl DimensionLabel {
    /// What decoding the seven bytes at the end of a label gives, which hold
    /// the order, the type, the number of values per cell and the mark of an
    /// external label; `head` holds the fields before them.
    pub open spec fn spec_decode_tail(b: Seq<u8>, pos: usize, head: DimensionLabelView) -> Result<
        (DimensionLabelView, usize),
        Error,
    > {
        if pos + 7 > b.len() {
            Err(Error::UnexpectedEof { field: Field::DimensionLabel, offset: pos })
        } else if DataOrder::of_code(b[pos as int]) == DataOrder::Invalid {
            Err(Error::InvalidEnumValue { field: Field::DataOrder, raw: b[pos as int] })
        } else if DataType::of_code(b[pos + 1]) == DataType::Invalid {
            Err(Error::InvalidEnumValue { field: Field::DataType, raw: b[pos + 1] })
        } else {
            Ok(
                (
                    DimensionLabelView {
                        data_order: DataOrder::of_code(b[pos as int]),
                        data_type: DataType::of_code(b[pos + 1]),
                        cell_val_num: wire::le_u32(b, pos + 2),
                        is_external: b[pos + 6],
                        ..head
                    },
                    (pos + 7) as usize,
                ),
            )
        }
    }

    /// What decoding a label at `pos` gives: the label and the position
    /// behind it; the end of input at the field that does not fit; the byte
    /// of its order or of its type, where that names none.
    pub open spec fn spec_decode(b: Seq<u8>, pos: usize) -> Result<(DimensionLabelView, usize), Error> {
        match wire::spec_read_u32(b, pos, Field::DimensionIndex) {
            Err(e) => Err(e),
            Ok((dimension_id, p1)) => match wire::spec_read_block32(b, p1, Field::Name) {
                Err(e) => Err(e),
                Ok((name, p2)) => match wire::spec_read_u8(b, p2, Field::RelativeUri) {
                    Err(e) => Err(e),
                    Ok((relative_uri, p3)) => match wire::spec_read_block64(b, p3, Field::Uri) {
                        Err(e) => Err(e),
                        Ok((uri, p4)) => match wire::spec_read_block32(
                            b,
                            p4,
                            Field::AttributeName,
                        ) {
                            Err(e) => Err(e),
                            Ok((attribute_name, p5)) => Self::spec_decode_tail(
                                b,
                                p5,
                                DimensionLabelView {
                                    dimension_id,
                                    name,
                                    relative_uri,
                                    uri,
                                    attribute_name,
                                    data_order: DataOrder::Unordered,
                                    data_type: DataType::Int32,
                                    cell_val_num: 0,
                                    is_external: 0,
                                },
                            ),
                        },
                    },
                },
            },
        }
    }

    /// Decoding a label of `b`, as a function of the position.
    pub open spec fn decoder(b: Seq<u8>) -> spec_fn(usize) -> Result<
        (DimensionLabelView, usize),
        Error,
    > {
        |pos: usize| Self::spec_decode(b, pos)
    }

    /// Decodes the dimension label at `pos`.
    pub fn decode(bytes: &[u8], pos: usize) -> (r: Result<(DimensionLabel, usize), Error>)
        ensures
            wire::decoded(r) == Self::spec_decode(bytes@, pos),
    {
        let (dimension_id, p1) = wire::read_u32(bytes, pos, Field::DimensionIndex)?;
        let (name, p2) = wire::read_block32(bytes, p1, Field::Name)?;
        let (relative_uri, p3) = wire::read_u8(bytes, p2, Field::RelativeUri)?;
        let (uri, p4) = wire::read_block64(bytes, p3, Field::Uri)?;
        let (attribute_name, p5) = wire::read_block32(bytes, p4, Field::AttributeName)?;
        wire::need(bytes, p5, 7, Field::DimensionLabel)?;
        let data_order = DataOrder::from(bytes[p5]);
        if data_order == DataOrder::Invalid {
            return Err(Error::InvalidEnumValue { field: Field::DataOrder, raw: bytes[p5] });
        }
        let data_type = DataType::from(bytes[p5 + 1]);
        if data_type == DataType::Invalid {
            return Err(Error::InvalidEnumValue { field: Field::DataType, raw: bytes[p5 + 1] });
        }
        let cell_val_num = wire::get_u32(bytes, p5 + 2);
        let is_external = bytes[p5 + 6];
        Ok(
            (
                DimensionLabel {
                    dimension_id,
                    name,
                    relative_uri,
                    uri,
                    attribute_name,
                    data_order,
                    data_type,
                    cell_val_num,
                    is_external,
                },
                p5 + 7,
            ),
        )
    }

    /// Appends the bytes that store the label.
    pub fn encode(&self, out: &mut Vec<u8>)
        requires
            self@.storable(),
        ensures
            final(out)@ == old(out)@ + self@.spec_encode(),
    {
        wire::write_u32(out, self.dimension_id);
        wire::write_block32(out, self.name.as_slice());
        out.push(self.relative_uri);
        wire::write_block64(out, self.uri.as_slice());
        wire::write_block32(out, self.attribute_name.as_slice());
        out.push(self.data_order.to_u8());
        out.push(self.data_type.to_u8());
        wire::write_u32(out, self.cell_val_num);
        out.push(self.is_external);
        assert(out@ =~= old(out)@ + self@.spec_encode());
    }

    /// Encoding a decoded label gives the bytes it was decoded from.
    pub proof fn lemma_written(b: Seq<u8>, pos: usize)
        requires
            b.len() <= usize::MAX,
            Self::spec_decode(b, pos) is Ok,
        ensures
            ({
                let (label, next) = Self::spec_decode(b, pos)->Ok_0;
                &&& pos <= next <= b.len()
                &&& label.storable()
                &&& label.spec_encode() == b.subrange(pos as int, next as int)
            }),
    {
        let (label, next) = Self::spec_decode(b, pos)->Ok_0;
        let at = pos as int;
        let p1 = wire::spec_read_u32(b, pos, Field::DimensionIndex)->Ok_0.1;
        let p2 = wire::spec_read_block32(b, p1, Field::Name)->Ok_0.1;
        let p3 = wire::spec_read_u8(b, p2, Field::RelativeUri)->Ok_0.1;
        let p4 = wire::spec_read_block64(b, p3, Field::Uri)->Ok_0.1;
        let p5 = wire::spec_read_block32(b, p4, Field::AttributeName)->Ok_0.1;
        wire::lemma_read_u32_written(b, pos, Field::DimensionIndex);
        wire::lemma_block32_written(b, p1, Field::Name);
        wire::lemma_read_u8_written(b, p2, Field::RelativeUri);
        wire::lemma_block64_written(b, p3, Field::Uri);
        wire::lemma_block32_written(b, p4, Field::AttributeName);
        DataOrder::code_of_code(b[p5 as int]);
        DataType::code_of_code(b[p5 + 1]);
        assert(seq![b[p5 as int], b[p5 + 1]] =~= b.subrange(p5 as int, p5 + 2));
        wire::lemma_u32_written(b, p5 + 2);
        wire::lemma_byte(b, p5 + 6);
        wire::lemma_join(b, at, p1 as int, p2 as int);
        wire::lemma_join(b, at, p2 as int, p3 as int);
        wire::lemma_join(b, at, p3 as int, p4 as int);
        wire::lemma_join(b, at, p4 as int, p5 as int);
        wire::lemma_join(b, at, p5 as int, p5 + 2);
        wire::lemma_join(b, at, p5 + 2, p5 + 6);
        wire::lemma_join(b, at, p5 + 6, p5 + 7);
    }

    /// Every decoded label can be stored.
    pub proof fn lemma_yields_storable(b: Seq<u8>)
        requires
            b.len() <= usize::MAX,
        ensures
            wire::yields(Self::decoder(b), DimensionLabelView::is_storable()),
    {
        assert forall|p: usize| (#[trigger] Self::decoder(b)(p)) matches Ok((t, q))
            ==> DimensionLabelView::is_storable()(t) by {
            if Self::spec_decode(b, p) is Ok {
                Self::lemma_written(b, p);
            }
        }
    }

    /// Every decoded label writes back to the bytes it came from.
    pub proof fn lemma_writes_back(b: Seq<u8>)
        requires
            b.len() <= usize::MAX,
        ensures
            wire::writes_back(b, Self::decoder(b), DimensionLabelView::encoder()),
    {
        assert forall|p: usize| p <= b.len() implies (#[trigger] Self::decoder(b)(p) matches Ok(
            (t, q),
        ) ==> p <= q <= b.len() && DimensionLabelView::encoder()(t) == b.subrange(
            p as int,
            q as int,
        )) by {
            if Self::spec_decode(b, p) is Ok {
                Self::lemma_written(b, p);
            }
        }
    }
}

impl DimensionLabelView {
    /// Whether the order and the type of the label are known ones.
    pub open spec fn known(self) -> bool {
        self.data_order != DataOrder::Invalid && self.data_type != DataType::Invalid
    }

    /// Whether the enumerated fields of a label are known, as a function.
    pub open spec fn is_known() -> spec_fn(DimensionLabelView) -> bool {
        |l: DimensionLabelView| l.known()
    }
}

} // verus!
