//! The stored form of an array schema.
//!
//! Which fields are stored depends on the format version that the schema
//! starts with; a field that is not stored has a fixed value or one taken
//! from the fields around it.

use crate::array::{ArrayType, DataOrder, Layout};
use crate::datatype::DataType;
use crate::error::{Error, Field};
use crate::storage::filter::{FilterList, FilterListView};
pub use crate::storage::schema::attribute::{Attribute, AttributeView};
pub use crate::storage::schema::dimension::{Dimension, DimensionView, Domain, DomainView};
pub use crate::storage::schema::enumeration::{EnumerationEntry, EnumerationEntryView};
pub use crate::storage::schema::label::{DimensionLabel, DimensionLabelView};
use crate::storage::tile;
use crate::storage::wire;
use crate::storage::CURRENT_FORMAT_VERSION;
use vstd::prelude::*;

pub mod attribute;
pub mod dimension;
pub mod enumeration;
pub mod label;

verus! {

/// The number of values per cell that says that a cell holds any number of
/// them.
pub const CELL_VAR_SIZE: u32 = u32::MAX;

/// The number of values per cell that a dimension has from its type alone:
/// any number for text, one otherwise.
pub fn cell_val_size(dtype: DataType) -> (n: u32)
    ensures
        n == spec_cell_val_size(dtype),
{
    if dtype.is_string_type() {
        CELL_VAR_SIZE
    } else {
        1
    }
}

/// The number of values per cell that a dimension has from its type alone.
pub open spec fn spec_cell_val_size(dtype: DataType) -> u32 {
    if dtype.is_string() {
        u32::MAX
    } else {
        1
    }
}

/// An array schema as it is stored.
#[derive(Debug, PartialEq, Eq)]
pub struct ArraySchema {
    pub version: u32,
    pub allows_dups: u8,
    pub array_type: ArrayType,
    pub tile_order: Layout,
    pub cell_order: Layout,
    pub capacity: u64,
    pub coords_filters: FilterList,
    pub cell_var_filters: FilterList,
    pub cell_validity_filters: FilterList,
    pub domain: Domain,
    pub attributes: Vec<Attribute>,
    pub dimension_labels: Vec<DimensionLabel>,
    pub enumeration_map: Vec<EnumerationEntry>,
}

/// What a stored array schema holds.
pub ghost struct ArraySchemaView {
    pub version: u32,
    pub allows_dups: u8,
    pub array_type: ArrayType,
    pub tile_order: Layout,
    pub cell_order: Layout,
    pub capacity: u64,
    pub coords_filters: FilterListView,
    pub cell_var_filters: FilterListView,
    pub cell_validity_filters: FilterListView,
    pub domain: DomainView,
    pub attributes: Seq<AttributeView>,
    pub dimension_labels: Seq<DimensionLabelView>,
    pub enumeration_map: Seq<EnumerationEntryView>,
}

impl View for ArraySchema {
    type V = ArraySchemaView;

    open spec fn view(&self) -> ArraySchemaView {
        ArraySchemaView {
            version: self.version,
            allows_dups: self.allows_dups,
            array_type: self.array_type,
            tile_order: self.tile_order,
            cell_order: self.cell_order,
            capacity: self.capacity,
            coords_filters: self.coords_filters@,
            cell_var_filters: self.cell_var_filters@,
            cell_validity_filters: self.cell_validity_filters@,
            domain: self.domain@,
            attributes: wire::views(self.attributes@),
            dimension_labels: wire::views(self.dimension_labels@),
            enumeration_map: wire::views(self.enumeration_map@),
        }
    }
}

impl ArraySchemaView {
    /// A schema of format `version` with nothing in it.
    pub open spec fn blank(version: u32) -> ArraySchemaView {
        ArraySchemaView {
            version,
            allows_dups: 0,
            array_type: ArrayType::Dense,
            tile_order: Layout::RowMajor,
            cell_order: Layout::RowMajor,
            capacity: 0,
            coords_filters: FilterListView { max_chunk_size: 0, filters: Seq::empty() },
            cell_var_filters: FilterListView { max_chunk_size: 0, filters: Seq::empty() },
            cell_validity_filters: FilterListView { max_chunk_size: 0, filters: Seq::empty() },
            domain: DomainView { data_type: DataType::Int32, dimensions: Seq::empty() },
            attributes: Seq::empty(),
            dimension_labels: Seq::empty(),
            enumeration_map: Seq::empty(),
        }
    }

    /// The bytes that store the head of the schema: its version, from
    /// version 5 on the byte on duplicates, the kind of array, the two
    /// orders and the capacity.
    pub open spec fn spec_encode_head(self) -> Seq<u8> {
        wire::u32_le(self.version) + self.spec_encode_flags()
    }

    /// The bytes that store the head of the schema behind its version.
    pub open spec fn spec_encode_flags(self) -> Seq<u8> {
        wire::opt(self.version >= 5, seq![self.allows_dups]) + seq![
            self.array_type.code(),
            self.tile_order.code(),
            self.cell_order.code(),
        ] + wire::u64_le(self.capacity)
    }

    /// The bytes that store the filters and the domain of the schema: the
    /// filters of the coordinates, those of the cells of variable size, from
    /// version 7 on those of the validity of cells, and the domain.
    pub open spec fn spec_encode_filters(self) -> Seq<u8> {
        self.coords_filters.spec_encode() + self.cell_var_filters.spec_encode() + wire::opt(
            self.version >= 7,
            self.cell_validity_filters.spec_encode(),
        ) + self.domain.spec_encode(self.version)
    }

    /// The bytes that store the lists of the schema, each behind the number
    /// of its items: the attributes, from version 18 on the dimension
    /// labels, from version 20 on the names of the enumerations.
    pub open spec fn spec_encode_lists(self) -> Seq<u8> {
        wire::u32_le(self.attributes.len() as u32) + wire::spec_concat(
            self.attributes,
            AttributeView::encoder(self.version),
        ) + wire::opt(self.version >= 18, wire::u32_le(self.dimension_labels.len() as u32))
            + wire::spec_concat(self.dimension_labels, DimensionLabelView::encoder()) + wire::opt(
            self.version >= 20,
            wire::u32_le(self.enumeration_map.len() as u32),
        ) + wire::spec_concat(self.enumeration_map, EnumerationEntryView::encoder())
    }

    /// The bytes that store the schema, in the format of its version.
    pub open spec fn spec_encode(self) -> Seq<u8> {
        self.spec_encode_head() + self.spec_encode_filters() + self.spec_encode_lists()
    }

    /// Whether the schema can be stored: every number of items and every
    /// length of a text fits the four bytes it is stored in.
    pub open spec fn storable(self) -> bool {
        &&& self.coords_filters.filters.len() <= u32::MAX
        &&& self.cell_var_filters.filters.len() <= u32::MAX
        &&& self.cell_validity_filters.filters.len() <= u32::MAX
        &&& self.domain.storable()
        &&& self.attributes.len() <= u32::MAX
        &&& wire::all(self.attributes, AttributeView::is_storable())
        &&& self.dimension_labels.len() <= u32::MAX
        &&& wire::all(self.dimension_labels, DimensionLabelView::is_storable())
        &&& self.enumeration_map.len() <= u32::MAX
        &&& wire::all(self.enumeration_map, EnumerationEntryView::is_storable())
    }

    /// Whether the schema is one that decoding can give: its version is one
    /// that this library reads, no enumerated field is `Invalid`, and the
    /// fields that its version does not store have the values they then
    /// have.
    pub open spec fn valid(self) -> bool {
        &&& self.version <= CURRENT_FORMAT_VERSION
        &&& self.array_type != ArrayType::Invalid
        &&& self.tile_order != Layout::Invalid
        &&& self.cell_order != Layout::Invalid
        &&& self.version < 5 ==> self.allows_dups == 0
        &&& self.version < 7 ==> self.cell_validity_filters == (FilterListView {
            max_chunk_size: 0,
            filters: Seq::empty(),
        })
        &&& self.version < 18 ==> self.dimension_labels.len() == 0
        &&& self.version < 20 ==> self.enumeration_map.len() == 0
    }
}

impl ArraySchema {
    /// What decoding the lists of a schema at `pos` gives; `head` holds the
    /// fields before them.
    pub open spec fn spec_decode_lists(b: Seq<u8>, pos: usize, head: ArraySchemaView) -> Result<
        (ArraySchemaView, usize),
        Error,
    > {
        match wire::spec_read_u32(b, pos, Field::Count) {
            Err(e) => Err(e),
            Ok((n_attributes, p1)) => match wire::spec_repeat(
                Attribute::decoder(b, head.version),
                p1,
                n_attributes as nat,
            ) {
                Err(e) => Err(e),
                Ok((attributes, p2)) => match wire::spec_read_u32_if(
                    head.version >= 18,
                    b,
                    p2,
                    Field::Count,
                    0,
                ) {
                    Err(e) => Err(e),
                    Ok((n_labels, p3)) => match wire::spec_repeat(
                        DimensionLabel::decoder(b),
                        p3,
                        n_labels as nat,
                    ) {
                        Err(e) => Err(e),
                        Ok((dimension_labels, p4)) => match wire::spec_read_u32_if(
                            head.version >= 20,
                            b,
                            p4,
                            Field::Count,
                            0,
                        ) {
                            Err(e) => Err(e),
                            Ok((n_entries, p5)) => match wire::spec_repeat(
                                EnumerationEntry::decoder(b),
                                p5,
                                n_entries as nat,
                            ) {
                                Err(e) => Err(e),
                                Ok((enumeration_map, next)) => Ok(
                                    (
                                        ArraySchemaView {
                                            attributes,
                                            dimension_labels,
                                            enumeration_map,
                                            ..head
                                        },
                                        next,
                                    ),
                                ),
                            },
                        },
                    },
                },
            },
        }
    }

    /// What decoding the validity filters of a schema at `pos` gives, which
    /// are stored from version 7 on and are none before.
    pub open spec fn spec_decode_validity(b: Seq<u8>, pos: usize, version: u32) -> Result<
        (FilterListView, usize),
        Error,
    > {
        if version >= 7 {
            FilterList::spec_decode(b, pos, version)
        } else {
            Ok((FilterListView { max_chunk_size: 0, filters: Seq::empty() }, pos))
        }
    }

    /// What decoding the filters, the domain and the lists of a schema at
    /// `pos` gives; `head` holds the fields before them.
    pub open spec fn spec_decode_filters(b: Seq<u8>, pos: usize, head: ArraySchemaView) -> Result<
        (ArraySchemaView, usize),
        Error,
    > {
        match FilterList::spec_decode(b, pos, head.version) {
            Err(e) => Err(e),
            Ok((coords_filters, p1)) => match FilterList::spec_decode(b, p1, head.version) {
                Err(e) => Err(e),
                Ok((cell_var_filters, p2)) => match Self::spec_decode_validity(
                    b,
                    p2,
                    head.version,
                ) {
                    Err(e) => Err(e),
                    Ok((cell_validity_filters, p3)) => match Domain::spec_decode(
                        b,
                        p3,
                        head.version,
                        coords_filters,
                    ) {
                        Err(e) => Err(e),
                        Ok((domain, p4)) => Self::spec_decode_lists(
                            b,
                            p4,
                            ArraySchemaView {
                                coords_filters,
                                cell_var_filters,
                                cell_validity_filters,
                                domain,
                                ..head
                            },
                        ),
                    },
                },
            },
        }
    }

    /// What decoding a schema of format `version` behind its version gives.
    pub open spec fn spec_decode_versioned(b: Seq<u8>, pos: usize, version: u32) -> Result<
        (ArraySchemaView, usize),
        Error,
    > {
        match wire::spec_read_u8_if(version >= 5, b, pos, Field::AllowsDups) {
            Err(e) => Err(e),
            Ok((allows_dups, p1)) => if p1 + 11 > b.len() {
                Err(Error::UnexpectedEof { field: Field::SchemaHeader, offset: p1 })
            } else if ArrayType::of_code(b[p1 as int]) == ArrayType::Invalid {
                Err(Error::InvalidEnumValue { field: Field::ArrayType, raw: b[p1 as int] })
            } else if Layout::of_code(b[p1 + 1]) == Layout::Invalid {
                Err(Error::InvalidEnumValue { field: Field::TileOrder, raw: b[p1 + 1] })
            } else if Layout::of_code(b[p1 + 2]) == Layout::Invalid {
                Err(Error::InvalidEnumValue { field: Field::CellOrder, raw: b[p1 + 2] })
            } else {
                Self::spec_decode_filters(
                    b,
                    (p1 + 11) as usize,
                    ArraySchemaView {
                        allows_dups,
                        array_type: ArrayType::of_code(b[p1 as int]),
                        tile_order: Layout::of_code(b[p1 + 1]),
                        cell_order: Layout::of_code(b[p1 + 2]),
                        capacity: wire::le_u64(b, p1 + 3),
                        ..ArraySchemaView::blank(version)
                    },
                )
            },
        }
    }

    /// What decoding a schema at `pos` gives: the schema and the position
    /// behind it. The version comes first and decides which fields follow;
    /// one that is newer than this library reads is an error. Else the
    /// error is the end of input at the field that does not fit, the byte of
    /// an enumerated field that names no variant, or a name or a path that
    /// is no text.
    pub open spec fn spec_decode(b: Seq<u8>, pos: usize) -> Result<(ArraySchemaView, usize), Error> {
        match wire::spec_read_u32(b, pos, Field::Version) {
            Err(e) => Err(e),
            Ok((version, next)) => if version > CURRENT_FORMAT_VERSION {
                Err(Error::UnsupportedVersion { version })
            } else {
                Self::spec_decode_versioned(b, next, version)
            },
        }
    }

    /// Decodes `n` attributes from `start` on.
    fn decode_attributes(bytes: &[u8], start: usize, n: u32, version: u32) -> (r: Result<(Vec<Attribute>, usize), Error>)
        ensures
            match r {
                Ok((items, next)) => wire::spec_repeat(
                    Attribute::decoder(bytes@, version),
                    start,
                    n as nat,
                ) == Ok::<(Seq<AttributeView>, usize), Error>((wire::views(items@), next)),
                Err(e) => wire::spec_repeat(Attribute::decoder(bytes@, version), start, n as nat)
                    == Err::<(Seq<AttributeView>, usize), Error>(e),
            },
    {
        let ghost item = Attribute::decoder(bytes@, version);
        let mut items: Vec<Attribute> = Vec::new();
        let mut at: usize = start;
        let mut i: u32 = 0;
        proof {
            wire::lemma_views_empty::<Attribute>();
        }
        while i < n
            invariant
                i <= n,
                item == Attribute::decoder(bytes@, version),
                wire::spec_repeat(item, start, i as nat) == Ok::<(Seq<AttributeView>, usize), Error>(
                    (wire::views(items@), at),
                ),
            decreases n - i,
        {
            match Attribute::decode(bytes, at, version) {
                Ok((t, next)) => {
                    proof {
                        wire::lemma_views_push(items@, t);
                        assert(item(at) == Ok::<(AttributeView, usize), Error>((t@, next)));
                    }
                    items.push(t);
                    at = next;
                },
                Err(e) => {
                    proof {
                        assert(item(at) == Err::<(AttributeView, usize), Error>(e));
                        assert(wire::spec_repeat(item, start, (i + 1) as nat) == Err::<
                            (Seq<AttributeView>, usize),
                            Error,
                        >(e));
                        wire::lemma_repeat_error(item, start, (i + 1) as nat, n as nat);
                    }
                    return Err(e);
                },
            }
            i += 1;
        }
        Ok((items, at))
    }

    /// Decodes `n` dimension labels from `start` on.
    fn decode_labels(bytes: &[u8], start: usize, n: u32) -> (r: Result<(Vec<DimensionLabel>, usize), Error>)
        ensures
            match r {
                Ok((items, next)) => wire::spec_repeat(
                    DimensionLabel::decoder(bytes@),
                    start,
                    n as nat,
                ) == Ok::<(Seq<DimensionLabelView>, usize), Error>((wire::views(items@), next)),
                Err(e) => wire::spec_repeat(DimensionLabel::decoder(bytes@), start, n as nat)
                    == Err::<(Seq<DimensionLabelView>, usize), Error>(e),
            },
    {
        let ghost item = DimensionLabel::decoder(bytes@);
        let mut items: Vec<DimensionLabel> = Vec::new();
        let mut at: usize = start;
        let mut i: u32 = 0;
        proof {
            wire::lemma_views_empty::<DimensionLabel>();
        }
        while i < n
            invariant
                i <= n,
                item == DimensionLabel::decoder(bytes@),
                wire::spec_repeat(item, start, i as nat) == Ok::<(Seq<DimensionLabelView>, usize), Error>(
                    (wire::views(items@), at),
                ),
            decreases n - i,
        {
            match DimensionLabel::decode(bytes, at) {
                Ok((t, next)) => {
                    proof {
                        wire::lemma_views_push(items@, t);
                        assert(item(at) == Ok::<(DimensionLabelView, usize), Error>((t@, next)));
                    }
                    items.push(t);
                    at = next;
                },
                Err(e) => {
                    proof {
                        assert(item(at) == Err::<(DimensionLabelView, usize), Error>(e));
                        assert(wire::spec_repeat(item, start, (i + 1) as nat) == Err::<
                            (Seq<DimensionLabelView>, usize),
                            Error,
                        >(e));
                        wire::lemma_repeat_error(item, start, (i + 1) as nat, n as nat);
                    }
                    return Err(e);
                },
            }
            i += 1;
        }
        Ok((items, at))
    }

    /// Decodes `n` entries of the enumeration list from `start` on.
    fn decode_entries(bytes: &[u8], start: usize, n: u32) -> (r: Result<(Vec<EnumerationEntry>, usize), Error>)
        ensures
            match r {
                Ok((items, next)) => wire::spec_repeat(
                    EnumerationEntry::decoder(bytes@),
                    start,
                    n as nat,
                ) == Ok::<(Seq<EnumerationEntryView>, usize), Error>((wire::views(items@), next)),
                Err(e) => wire::spec_repeat(EnumerationEntry::decoder(bytes@), start, n as nat)
                    == Err::<(Seq<EnumerationEntryView>, usize), Error>(e),
            },
    {
        let ghost item = EnumerationEntry::decoder(bytes@);
        let mut items: Vec<EnumerationEntry> = Vec::new();
        let mut at: usize = start;
        let mut i: u32 = 0;
        proof {
            wire::lemma_views_empty::<EnumerationEntry>();
        }
        while i < n
            invariant
                i <= n,
                item == EnumerationEntry::decoder(bytes@),
                wire::spec_repeat(item, start, i as nat) == Ok::<(Seq<EnumerationEntryView>, usize), Error>(
                    (wire::views(items@), at),
                ),
            decreases n - i,
        {
            match EnumerationEntry::decode(bytes, at) {
                Ok((t, next)) => {
                    proof {
                        wire::lemma_views_push(items@, t);
                        assert(item(at) == Ok::<(EnumerationEntryView, usize), Error>((t@, next)));
                    }
                    items.push(t);
                    at = next;
                },
                Err(e) => {
                    proof {
                        assert(item(at) == Err::<(EnumerationEntryView, usize), Error>(e));
                        assert(wire::spec_repeat(item, start, (i + 1) as nat) == Err::<
                            (Seq<EnumerationEntryView>, usize),
                            Error,
                        >(e));
                        wire::lemma_repeat_error(item, start, (i + 1) as nat, n as nat);
                    }
                    return Err(e);
                },
            }
            i += 1;
        }
        Ok((items, at))
    }

    /// Appends the bytes that store the attributes, one behind the other.
    fn encode_attributes(items: &Vec<Attribute>, out: &mut Vec<u8>, version: u32)
        requires
            wire::all(wire::views(items@), AttributeView::is_storable()),
        ensures
            final(out)@ == old(out)@ + wire::spec_concat(wire::views(items@), AttributeView::encoder(version)),
    {
        let ghost head = out@;
        let ghost all = wire::views(items@);
        let ghost enc = AttributeView::encoder(version);
        let mut i: usize = 0;
        assert(all.take(0) =~= Seq::<AttributeView>::empty());
        assert(out@ =~= head + wire::spec_concat(all.take(0), enc));
        while i < items.len()
            invariant
                i <= items@.len(),
                all == wire::views(items@),
                enc == AttributeView::encoder(version),
                wire::all(all, AttributeView::is_storable()),
                out@ == head + wire::spec_concat(all.take(i as int), enc),
            decreases items@.len() - i,
        {
            assert(all[i as int] == items@[i as int]@);
            assert(AttributeView::is_storable()(all[i as int]));
            items[i].encode(out, version);
            proof {
                wire::lemma_concat_push(all.take(i as int), all[i as int], enc);
                assert(all.take(i as int).push(all[i as int]) =~= all.take(i + 1));
                assert(out@ =~= head + wire::spec_concat(all.take(i + 1), enc));
            }
            i += 1;
        }
        assert(all.take(i as int) =~= all);
    }

    /// Appends the bytes that store the dimension labels, one behind the other.
    fn encode_labels(items: &Vec<DimensionLabel>, out: &mut Vec<u8>)
        requires
            wire::all(wire::views(items@), DimensionLabelView::is_storable()),
        ensures
            final(out)@ == old(out)@ + wire::spec_concat(wire::views(items@), DimensionLabelView::encoder()),
    {
        let ghost head = out@;
        let ghost all = wire::views(items@);
        let ghost enc = DimensionLabelView::encoder();
        let mut i: usize = 0;
        assert(all.take(0) =~= Seq::<DimensionLabelView>::empty());
        assert(out@ =~= head + wire::spec_concat(all.take(0), enc));
        while i < items.len()
            invariant
                i <= items@.len(),
                all == wire::views(items@),
                enc == DimensionLabelView::encoder(),
                wire::all(all, DimensionLabelView::is_storable()),
                out@ == head + wire::spec_concat(all.take(i as int), enc),
            decreases items@.len() - i,
        {
            assert(all[i as int] == items@[i as int]@);
            assert(DimensionLabelView::is_storable()(all[i as int]));
            items[i].encode(out);
            proof {
                wire::lemma_concat_push(all.take(i as int), all[i as int], enc);
                assert(all.take(i as int).push(all[i as int]) =~= all.take(i + 1));
                assert(out@ =~= head + wire::spec_concat(all.take(i + 1), enc));
            }
            i += 1;
        }
        assert(all.take(i as int) =~= all);
    }

    /// Appends the bytes that store the entries of the enumeration list, one behind the other.
    fn encode_entries(items: &Vec<EnumerationEntry>, out: &mut Vec<u8>)
        requires
            wire::all(wire::views(items@), EnumerationEntryView::is_storable()),
        ensures
            final(out)@ == old(out)@ + wire::spec_concat(wire::views(items@), EnumerationEntryView::encoder()),
    {
        let ghost head = out@;
        let ghost all = wire::views(items@);
        let ghost enc = EnumerationEntryView::encoder();
        let mut i: usize = 0;
        assert(all.take(0) =~= Seq::<EnumerationEntryView>::empty());
        assert(out@ =~= head + wire::spec_concat(all.take(0), enc));
        while i < items.len()
            invariant
                i <= items@.len(),
                all == wire::views(items@),
                enc == EnumerationEntryView::encoder(),
                wire::all(all, EnumerationEntryView::is_storable()),
                out@ == head + wire::spec_concat(all.take(i as int), enc),
            decreases items@.len() - i,
        {
            assert(all[i as int] == items@[i as int]@);
            assert(EnumerationEntryView::is_storable()(all[i as int]));
            items[i].encode(out);
            proof {
                wire::lemma_concat_push(all.take(i as int), all[i as int], enc);
                assert(all.take(i as int).push(all[i as int]) =~= all.take(i + 1));
                assert(out@ =~= head + wire::spec_concat(all.take(i + 1), enc));
            }
            i += 1;
        }
        assert(all.take(i as int) =~= all);
    }

    /// Decodes the schema at `pos`.
    pub fn decode_at(bytes: &[u8], pos: usize) -> (r: Result<(ArraySchema, usize), Error>)
        ensures
            wire::decoded(r) == Self::spec_decode(bytes@, pos),
    {
        let (version, p0) = wire::read_u32(bytes, pos, Field::Version)?;
        if version > CURRENT_FORMAT_VERSION {
            return Err(Error::UnsupportedVersion { version });
        }
        let (allows_dups, p1) = wire::read_u8_if(version >= 5, bytes, p0, Field::AllowsDups)?;
        wire::need(bytes, p1, 11, Field::SchemaHeader)?;
        let array_type = ArrayType::from(bytes[p1]);
        if array_type == ArrayType::Invalid {
            return Err(Error::InvalidEnumValue { field: Field::ArrayType, raw: bytes[p1] });
        }
        let tile_order = Layout::from(bytes[p1 + 1]);
        if tile_order == Layout::Invalid {
            return Err(Error::InvalidEnumValue { field: Field::TileOrder, raw: bytes[p1 + 1] });
        }
        let cell_order = Layout::from(bytes[p1 + 2]);
        if cell_order == Layout::Invalid {
            return Err(Error::InvalidEnumValue { field: Field::CellOrder, raw: bytes[p1 + 2] });
        }
        let capacity = wire::get_u64(bytes, p1 + 3);
        let (coords_filters, p2) = FilterList::decode(bytes, p1 + 11, version)?;
        let (cell_var_filters, p3) = FilterList::decode(bytes, p2, version)?;
        let (cell_validity_filters, p4) = if version >= 7 {
            FilterList::decode(bytes, p3, version)?
        } else {
            (FilterList::default(), p3)
        };
        let (domain, p5) = Domain::decode(bytes, p4, version, &coords_filters)?;
        let (n_attributes, p6) = wire::read_u32(bytes, p5, Field::Count)?;
        let (attributes, p7) = Self::decode_attributes(bytes, p6, n_attributes, version)?;
        let (n_labels, p8) = wire::read_u32_if(version >= 18, bytes, p7, Field::Count, 0)?;
        let (dimension_labels, p9) = Self::decode_labels(bytes, p8, n_labels)?;
        let (n_entries, p10) = wire::read_u32_if(version >= 20, bytes, p9, Field::Count, 0)?;
        let (enumeration_map, next) = Self::decode_entries(bytes, p10, n_entries)?;
        Ok(
            (
                ArraySchema {
                    version,
                    allows_dups,
                    array_type,
                    tile_order,
                    cell_order,
                    capacity,
                    coords_filters,
                    cell_var_filters,
                    cell_validity_filters,
                    domain,
                    attributes,
                    dimension_labels,
                    enumeration_map,
                },
                next,
            ),
        )
    }
}

impl ArraySchema {
    /// Decodes the schema that `bytes` start with.
    pub fn decode(bytes: &[u8]) -> (r: Result<ArraySchema, Error>)
        ensures
            match r {
                Ok(schema) => Self::spec_decode(bytes@, 0) matches Ok((decoded, next)) && decoded
                    == schema@ && schema@.valid() && schema@.known() && schema@.storable(),
                Err(e) => Self::spec_decode(bytes@, 0) == Err::<(ArraySchemaView, usize), Error>(
                    e,
                ),
            },
    {
        let (schema, next) = Self::decode_at(bytes, 0)?;
        proof {
            assert(bytes@.len() == bytes.len());
            Self::lemma_written(bytes@, 0);
            Self::lemma_known(bytes@, 0);
        }
        Ok(schema)
    }

    /// What loading a schema from the stored object `object` gives: the
    /// schema that the bytes of the generic tile at the start of `object`
    /// decode to, or the error of reading the tile or of decoding them.
    pub open spec fn spec_load(object: Seq<u8>) -> Result<ArraySchemaView, Error> {
        match tile::spec_read_generic_tile(object, 0) {
            Err(e) => Err(e),
            Ok(data) => match Self::spec_decode(data, 0) {
                Err(e) => Err(e),
                Ok((schema, next)) => Ok(schema),
            },
        }
    }

    /// Loads the schema that the stored object `object` holds as a generic
    /// tile.
    pub fn load(object: &[u8]) -> (r: Result<ArraySchema, Error>)
        ensures
            match r {
                Ok(schema) => Self::spec_load(object@) == Ok::<ArraySchemaView, Error>(schema@)
                    && schema@.valid() && schema@.known() && schema@.storable(),
                Err(e) => Self::spec_load(object@) == Err::<ArraySchemaView, Error>(e),
            },
    {
        let data = tile::read_generic_tile(object, 0)?;
        Self::decode(data.as_slice())
    }

    /// Appends the bytes that store the head of the schema.
    fn encode_head(&self, out: &mut Vec<u8>)
        ensures
            final(out)@ == old(out)@ + self@.spec_encode_head(),
    {
        wire::write_u32(out, self.version);
        let ghost start = out@;
        wire::write_u8_if(self.version >= 5, out, self.allows_dups);
        let ghost before = out@;
        out.push(self.array_type.to_u8());
        out.push(self.tile_order.to_u8());
        out.push(self.cell_order.to_u8());
        assert(out@ =~= before + seq![
            self.array_type.code(),
            self.tile_order.code(),
            self.cell_order.code(),
        ]);
        wire::write_u64(out, self.capacity);
        assert(out@ =~= start + self@.spec_encode_flags());
        assert(out@ =~= old(out)@ + self@.spec_encode_head());
    }

    /// Appends the bytes that store the filters and the domain of the
    /// schema.
    fn encode_filters(&self, out: &mut Vec<u8>)
        requires
            self@.storable(),
        ensures
            final(out)@ == old(out)@ + self@.spec_encode_filters(),
    {
        let ghost start = out@;
        let ghost view = self@;
        self.coords_filters.encode(out);
        self.cell_var_filters.encode(out);
        let ghost before = out@;
        if self.version >= 7 {
            self.cell_validity_filters.encode(out);
        }
        assert(out@ =~= before + wire::opt(
            view.version >= 7,
            view.cell_validity_filters.spec_encode(),
        ));
        self.domain.encode(out, self.version);
        proof {
            wire::lemma_group4(
                start,
                view.coords_filters.spec_encode(),
                view.cell_var_filters.spec_encode(),
                wire::opt(view.version >= 7, view.cell_validity_filters.spec_encode()),
                view.domain.spec_encode(view.version),
            );
        }
    }

    /// Appends the bytes that store the lists of the schema.
    fn encode_lists(&self, out: &mut Vec<u8>)
        requires
            self@.storable(),
        ensures
            final(out)@ == old(out)@ + self@.spec_encode_lists(),
    {
        let ghost start = out@;
        let ghost view = self@;
        wire::write_u32(out, self.attributes.len() as u32);
        Self::encode_attributes(&self.attributes, out, self.version);
        wire::write_u32_if(self.version >= 18, out, self.dimension_labels.len() as u32);
        Self::encode_labels(&self.dimension_labels, out);
        wire::write_u32_if(self.version >= 20, out, self.enumeration_map.len() as u32);
        Self::encode_entries(&self.enumeration_map, out);
        proof {
            wire::lemma_group6(
                start,
                wire::u32_le(view.attributes.len() as u32),
                wire::spec_concat(view.attributes, AttributeView::encoder(view.version)),
                wire::opt(view.version >= 18, wire::u32_le(view.dimension_labels.len() as u32)),
                wire::spec_concat(view.dimension_labels, DimensionLabelView::encoder()),
                wire::opt(view.version >= 20, wire::u32_le(view.enumeration_map.len() as u32)),
                wire::spec_concat(view.enumeration_map, EnumerationEntryView::encoder()),
            );
        }
    }

    /// The bytes that store the schema, in the format of its version.
    pub fn encode(&self) -> (bytes: Vec<u8>)
        requires
            self@.storable(),
        ensures
            bytes@ == self@.spec_encode(),
    {
        let mut out: Vec<u8> = Vec::new();
        self.encode_head(&mut out);
        self.encode_filters(&mut out);
        self.encode_lists(&mut out);
        assert(out@ =~= self@.spec_encode());
        out
    }

    /// Encoding the decoded lists of a schema gives the bytes they were
    /// decoded from.
    pub proof fn lemma_lists_written(b: Seq<u8>, pos: usize, head: ArraySchemaView)
        requires
            pos <= b.len() <= usize::MAX,
            Self::spec_decode_lists(b, pos, head) is Ok,
        ensures
            ({
                let (schema, next) = Self::spec_decode_lists(b, pos, head)->Ok_0;
                &&& pos <= next <= b.len()
                &&& schema == (ArraySchemaView {
                    attributes: schema.attributes,
                    dimension_labels: schema.dimension_labels,
                    enumeration_map: schema.enumeration_map,
                    ..head
                })
                &&& schema.attributes.len() <= u32::MAX
                &&& wire::all(schema.attributes, AttributeView::is_storable())
                &&& schema.dimension_labels.len() <= u32::MAX
                &&& wire::all(schema.dimension_labels, DimensionLabelView::is_storable())
                &&& schema.enumeration_map.len() <= u32::MAX
                &&& wire::all(schema.enumeration_map, EnumerationEntryView::is_storable())
                &&& head.version < 18 ==> schema.dimension_labels.len() == 0
                &&& head.version < 20 ==> schema.enumeration_map.len() == 0
                &&& schema.spec_encode_lists() == b.subrange(pos as int, next as int)
            }),
    {
        let version = head.version;
        let at = pos as int;
        let (schema, next) = Self::spec_decode_lists(b, pos, head)->Ok_0;
        let (n_attributes, p1) = wire::spec_read_u32(b, pos, Field::Count)->Ok_0;
        wire::lemma_read_u32_written(b, pos, Field::Count);
        let attribute = Attribute::decoder(b, version);
        let (attributes, p2) = wire::spec_repeat(attribute, p1, n_attributes as nat)->Ok_0;
        Attribute::lemma_writes_back(b, version);
        Attribute::lemma_yields_storable(b, version);
        wire::lemma_repeat_written(
            b,
            attribute,
            AttributeView::encoder(version),
            p1,
            n_attributes as nat,
        );
        wire::lemma_repeat_len(attribute, p1, n_attributes as nat);
        wire::lemma_repeat_yields(attribute, AttributeView::is_storable(), p1, n_attributes as nat);
        let (n_labels, p3) = wire::spec_read_u32_if(version >= 18, b, p2, Field::Count, 0)->Ok_0;
        wire::lemma_read_u32_if_written(version >= 18, b, p2, Field::Count, 0);
        let label = DimensionLabel::decoder(b);
        let (labels, p4) = wire::spec_repeat(label, p3, n_labels as nat)->Ok_0;
        DimensionLabel::lemma_writes_back(b);
        DimensionLabel::lemma_yields_storable(b);
        wire::lemma_repeat_written(b, label, DimensionLabelView::encoder(), p3, n_labels as nat);
        wire::lemma_repeat_len(label, p3, n_labels as nat);
        wire::lemma_repeat_yields(label, DimensionLabelView::is_storable(), p3, n_labels as nat);
        let (n_entries, p5) = wire::spec_read_u32_if(version >= 20, b, p4, Field::Count, 0)->Ok_0;
        wire::lemma_read_u32_if_written(version >= 20, b, p4, Field::Count, 0);
        let entry = EnumerationEntry::decoder(b);
        EnumerationEntry::lemma_writes_back(b);
        EnumerationEntry::lemma_yields_storable(b);
        wire::lemma_repeat_written(b, entry, EnumerationEntryView::encoder(), p5, n_entries as nat);
        wire::lemma_repeat_len(entry, p5, n_entries as nat);
        wire::lemma_repeat_yields(entry, EnumerationEntryView::is_storable(), p5, n_entries as nat);
        wire::lemma_join(b, at, p1 as int, p2 as int);
        wire::lemma_join(b, at, p2 as int, p3 as int);
        wire::lemma_join(b, at, p3 as int, p4 as int);
        wire::lemma_join(b, at, p4 as int, p5 as int);
        wire::lemma_join(b, at, p5 as int, next as int);
    }

    /// Encoding the decoded filters, domain and lists of a schema gives the
    /// bytes they were decoded from.
    pub proof fn lemma_filters_written(b: Seq<u8>, pos: usize, head: ArraySchemaView)
        requires
            pos <= b.len() <= usize::MAX,
            Self::spec_decode_filters(b, pos, head) is Ok,
        ensures
            ({
                let (schema, next) = Self::spec_decode_filters(b, pos, head)->Ok_0;
                &&& pos <= next <= b.len()
                &&& schema.version == head.version
                &&& schema.allows_dups == head.allows_dups
                &&& schema.array_type == head.array_type
                &&& schema.tile_order == head.tile_order
                &&& schema.cell_order == head.cell_order
                &&& schema.capacity == head.capacity
                &&& schema.storable()
                &&& head.version < 7 ==> schema.cell_validity_filters == (FilterListView {
                    max_chunk_size: 0,
                    filters: Seq::empty(),
                })
                &&& head.version < 18 ==> schema.dimension_labels.len() == 0
                &&& head.version < 20 ==> schema.enumeration_map.len() == 0
                &&& schema.spec_encode_filters() + schema.spec_encode_lists() == b.subrange(
                    pos as int,
                    next as int,
                )
            }),
    {
        let version = head.version;
        let at = pos as int;
        let (schema, next) = Self::spec_decode_filters(b, pos, head)->Ok_0;
        let (coords, p1) = FilterList::spec_decode(b, pos, version)->Ok_0;
        FilterList::lemma_written(b, pos, version);
        let (cell_var, p2) = FilterList::spec_decode(b, p1, version)->Ok_0;
        FilterList::lemma_written(b, p1, version);
        let (validity, p3) = Self::spec_decode_validity(b, p2, version)->Ok_0;
        if version >= 7 {
            FilterList::lemma_written(b, p2, version);
        } else {
            wire::lemma_nothing(b, p2 as int);
        }
        let (domain, p4) = Domain::spec_decode(b, p3, version, coords)->Ok_0;
        Domain::lemma_written(b, p3, version, coords);
        let middle = ArraySchemaView {
            coords_filters: coords,
            cell_var_filters: cell_var,
            cell_validity_filters: validity,
            domain,
            ..head
        };
        Self::lemma_lists_written(b, p4, middle);
        wire::lemma_join(b, at, p1 as int, p2 as int);
        wire::lemma_join(b, at, p2 as int, p3 as int);
        wire::lemma_join(b, at, p3 as int, p4 as int);
        wire::lemma_join(b, at, p4 as int, next as int);
    }

    /// The head of a schema behind its version, as decoding reads it at
    /// `pos`, writes back to the bytes it was read from.
    pub proof fn lemma_flags_written(b: Seq<u8>, pos: usize, version: u32)
        requires
            pos <= b.len() <= usize::MAX,
            wire::spec_read_u8_if(version >= 5, b, pos, Field::AllowsDups) matches Ok((flag, p1))
                && p1 + 11 <= b.len(),
        ensures
            ({
                let (allows_dups, p1) = wire::spec_read_u8_if(
                    version >= 5,
                    b,
                    pos,
                    Field::AllowsDups,
                )->Ok_0;
                let head = ArraySchemaView {
                    allows_dups,
                    array_type: ArrayType::of_code(b[p1 as int]),
                    tile_order: Layout::of_code(b[p1 + 1]),
                    cell_order: Layout::of_code(b[p1 + 2]),
                    capacity: wire::le_u64(b, p1 + 3),
                    ..ArraySchemaView::blank(version)
                };
                &&& pos <= p1
                &&& version < 5 ==> allows_dups == 0
                &&& (head.array_type != ArrayType::Invalid && head.tile_order != Layout::Invalid
                    && head.cell_order != Layout::Invalid) ==> head.spec_encode_flags()
                    == b.subrange(pos as int, p1 + 11)
            }),
    {
        let at = pos as int;
        let (allows_dups, p1) = wire::spec_read_u8_if(version >= 5, b, pos, Field::AllowsDups)->Ok_0;
        wire::lemma_read_u8_if_written(version >= 5, b, pos, Field::AllowsDups);
        ArrayType::code_of_code(b[p1 as int]);
        Layout::code_of_code(b[p1 + 1]);
        Layout::code_of_code(b[p1 + 2]);
        assert(seq![b[p1 as int], b[p1 + 1], b[p1 + 2]] =~= b.subrange(p1 as int, p1 + 3));
        wire::lemma_u64_written(b, p1 + 3);
        wire::lemma_join(b, at, p1 as int, p1 + 3);
        wire::lemma_join(b, at, p1 + 3, p1 + 11);
    }

    /// Encoding what was decoded of a schema behind its version gives the
    /// bytes that it was decoded from.
    pub proof fn lemma_versioned_written(b: Seq<u8>, pos: usize, version: u32)
        requires
            pos <= b.len() <= usize::MAX,
            version <= CURRENT_FORMAT_VERSION,
            Self::spec_decode_versioned(b, pos, version) is Ok,
        ensures
            ({
                let (schema, next) = Self::spec_decode_versioned(b, pos, version)->Ok_0;
                &&& pos <= next <= b.len()
                &&& schema.version == version
                &&& schema.valid()
                &&& schema.storable()
                &&& schema.spec_encode_flags() + (schema.spec_encode_filters()
                    + schema.spec_encode_lists()) == b.subrange(pos as int, next as int)
            }),
    {
        let at = pos as int;
        let (schema, next) = Self::spec_decode_versioned(b, pos, version)->Ok_0;
        let (allows_dups, p1) = wire::spec_read_u8_if(version >= 5, b, pos, Field::AllowsDups)->Ok_0;
        let head = ArraySchemaView {
            allows_dups,
            array_type: ArrayType::of_code(b[p1 as int]),
            tile_order: Layout::of_code(b[p1 + 1]),
            cell_order: Layout::of_code(b[p1 + 2]),
            capacity: wire::le_u64(b, p1 + 3),
            ..ArraySchemaView::blank(version)
        };
        Self::lemma_flags_written(b, pos, version);
        Self::lemma_filters_written(b, (p1 + 11) as usize, head);
        assert(schema.spec_encode_flags() == head.spec_encode_flags());
        wire::lemma_join(b, at, p1 + 11, next as int);
    }

    /// Decoding a schema and encoding it again gives the bytes that it was
    /// decoded from, whatever its format version. The decoded schema is
    /// valid, and it can be stored.
    pub proof fn lemma_written(b: Seq<u8>, pos: usize)
        requires
            b.len() <= usize::MAX,
            Self::spec_decode(b, pos) is Ok,
        ensures
            ({
                let (schema, next) = Self::spec_decode(b, pos)->Ok_0;
                &&& pos <= next <= b.len()
                &&& schema.valid()
                &&& schema.storable()
                &&& schema.spec_encode() == b.subrange(pos as int, next as int)
            }),
    {
        let (schema, next) = Self::spec_decode(b, pos)->Ok_0;
        let (version, p0) = wire::spec_read_u32(b, pos, Field::Version)->Ok_0;
        wire::lemma_read_u32_written(b, pos, Field::Version);
        Self::lemma_versioned_written(b, p0, version);
        wire::lemma_join(b, pos as int, p0 as int, next as int);
        wire::lemma_regroup4(
            wire::u32_le(version),
            schema.spec_encode_flags(),
            schema.spec_encode_filters(),
            schema.spec_encode_lists(),
        );
    }
}

impl ArraySchemaView {
    /// Whether every enumerated field of the schema, down to the kinds of
    /// the filters of its dimensions and attributes, holds a known variant.
    pub open spec fn known(self) -> bool {
        &&& self.array_type != ArrayType::Invalid
        &&& self.tile_order != Layout::Invalid
        &&& self.cell_order != Layout::Invalid
        &&& self.coords_filters.known()
        &&& self.cell_var_filters.known()
        &&& self.cell_validity_filters.known()
        &&& self.domain.data_type != DataType::Invalid
        &&& wire::all(self.domain.dimensions, DimensionView::is_known())
        &&& wire::all(self.attributes, AttributeView::is_known())
        &&& wire::all(self.dimension_labels, DimensionLabelView::is_known())
    }
}

impl ArraySchema {
    /// No decoded dimension label holds an enumerated value that is not
    /// known.
    pub proof fn lemma_labels_known(b: Seq<u8>)
        ensures
            wire::yields(DimensionLabel::decoder(b), DimensionLabelView::is_known()),
    {
        assert forall|p: usize| (#[trigger] DimensionLabel::decoder(b)(p)) matches Ok((t, q))
            ==> DimensionLabelView::is_known()(t) by {}
    }

    /// No decoded attribute holds an enumerated value that is not known.
    pub proof fn lemma_attributes_known(b: Seq<u8>, version: u32)
        ensures
            wire::yields(Attribute::decoder(b, version), AttributeView::is_known()),
    {
        assert forall|p: usize| (#[trigger] Attribute::decoder(b, version)(p)) matches Ok((t, q))
            ==> AttributeView::is_known()(t) by {
            if Attribute::spec_decode(b, p, version) is Ok {
                let (raw_name, p0) = wire::spec_read_block32(b, p, Field::Name)->Ok_0;
                FilterList::lemma_known(b, (p0 + 5) as usize, version);
            }
        }
    }

    /// No decoded dimension holds an enumerated value that is not known,
    /// where the type and the filters that it may take from the schema hold
    /// none.
    pub proof fn lemma_dimensions_known(
        b: Seq<u8>,
        version: u32,
        dtype: DataType,
        coords: FilterListView,
    )
        requires
            dtype != DataType::Invalid,
            coords.known(),
        ensures
            wire::yields(Dimension::decoder(b, version, dtype, coords), DimensionView::is_known()),
    {
        assert forall|p: usize| (#[trigger] Dimension::decoder(b, version, dtype, coords)(
            p,
        )) matches Ok((t, q)) ==> DimensionView::is_known()(t) by {
            if Dimension::spec_decode(b, p, version, dtype, coords) is Ok {
                let (name, p0) = wire::spec_read_block32(b, p, Field::Name)->Ok_0;
                if version >= 5 {
                    FilterList::lemma_known(b, (p0 + 5) as usize, version);
                }
            }
        }
    }

    /// A decoded schema holds a known variant in every enumerated field: a
    /// byte that names no variant is rejected, wherever it stands.
    pub proof fn lemma_known(b: Seq<u8>, pos: usize)
        ensures
            Self::spec_decode(b, pos) matches Ok((schema, next)) ==> schema.known(),
    {
        if Self::spec_decode(b, pos) is Ok {
            let (version, p0) = wire::spec_read_u32(b, pos, Field::Version)->Ok_0;
            let (allows_dups, p1) = wire::spec_read_u8_if(
                version >= 5,
                b,
                p0,
                Field::AllowsDups,
            )->Ok_0;
            let start = (p1 + 11) as usize;
            let (coords, p2) = FilterList::spec_decode(b, start, version)->Ok_0;
            FilterList::lemma_known(b, start, version);
            let (cell_var, p3) = FilterList::spec_decode(b, p2, version)->Ok_0;
            FilterList::lemma_known(b, p2, version);
            let (validity, p4) = Self::spec_decode_validity(b, p3, version)->Ok_0;
            if version >= 7 {
                FilterList::lemma_known(b, p3, version);
            }
            let (data_type, p5) = Domain::spec_decode_type(b, p4, version)->Ok_0;
            let (n, p6) = wire::spec_read_u32(b, p5, Field::Count)->Ok_0;
            Self::lemma_dimensions_known(b, version, data_type, coords);
            wire::lemma_repeat_yields(
                Dimension::decoder(b, version, data_type, coords),
                DimensionView::is_known(),
                p6,
                n as nat,
            );
            let (domain, p7) = Domain::spec_decode(b, p4, version, coords)->Ok_0;
            let (n_attributes, p8) = wire::spec_read_u32(b, p7, Field::Count)->Ok_0;
            Self::lemma_attributes_known(b, version);
            wire::lemma_repeat_yields(
                Attribute::decoder(b, version),
                AttributeView::is_known(),
                p8,
                n_attributes as nat,
            );
            let (attributes, p9) = wire::spec_repeat(
                Attribute::decoder(b, version),
                p8,
                n_attributes as nat,
            )->Ok_0;
            let (n_labels, p10) = wire::spec_read_u32_if(
                version >= 18,
                b,
                p9,
                Field::Count,
                0,
            )->Ok_0;
            Self::lemma_labels_known(b);
            wire::lemma_repeat_yields(
                DimensionLabel::decoder(b),
                DimensionLabelView::is_known(),
                p10,
                n_labels as nat,
            );
        }
    }
}

} // verus!
