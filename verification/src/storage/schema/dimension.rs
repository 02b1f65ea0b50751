//! The stored form of a domain and of its dimensions.

use crate::datatype::DataType;
use crate::error::{Error, Field};
use crate::storage::filter::{FilterList, FilterListView};
use crate::storage::schema;
use crate::storage::schema::cell_val_size;
use crate::storage::wire;
use vstd::prelude::*;

verus! {

/// A dimension as it is stored.
#[derive(Debug, PartialEq, Eq)]
pub struct Dimension {
    pub name: Vec<u8>,
    pub data_type: DataType,
    pub cell_val_num: u32,
    pub coords_filters: FilterList,
    pub range: Vec<u8>,
    pub null_tile_extent: u8,
    pub tile_extent: Vec<u8>,
}

/// What a stored dimension holds.
pub ghost struct DimensionView {
    pub name: Seq<u8>,
    pub data_type: DataType,
    pub cell_val_num: u32,
    pub coords_filters: FilterListView,
    pub range: Seq<u8>,
    pub null_tile_extent: u8,
    pub tile_extent: Seq<u8>,
}

impl View for Dimension {
    type V = DimensionView;

    open spec fn view(&self) -> DimensionView {
        DimensionView {
            name: self.name@,
            data_type: self.data_type,
            cell_val_num: self.cell_val_num,
            coords_filters: self.coords_filters@,
            range: self.range@,
            null_tile_extent: self.null_tile_extent,
            tile_extent: self.tile_extent@,
        }
    }
}

impl DimensionView {
    /// The bytes that store the dimension in format `version`. Its type, its
    /// number of values per cell, its filters and the length of its range
    /// are stored from version 5 on; before, they follow from the domain.
    pub open spec fn spec_encode(self, version: u32) -> Seq<u8> {
        wire::block32(self.name) + wire::opt(version >= 5, seq![self.data_type.code()]) + wire::opt(
            version >= 5,
            wire::u32_le(self.cell_val_num),
        ) + wire::opt(version >= 5, self.coords_filters.spec_encode()) + wire::opt(
            version >= 5,
            wire::u64_le(self.range.len() as u64),
        ) + self.range + seq![self.null_tile_extent] + self.tile_extent
    }

    /// Encoding a dimension in format `version`, as a function.
    pub open spec fn encoder(version: u32) -> spec_fn(DimensionView) -> Seq<u8> {
        |d: DimensionView| d.spec_encode(version)
    }

    /// Whether the dimension can be stored: the length of its name and the
    /// number of its filters fit the four bytes each is stored in.
    pub open spec fn storable(self) -> bool {
        self.name.len() <= u32::MAX && self.coords_filters.filters.len() <= u32::MAX
    }

    /// Whether a dimension can be stored, as a function.
    pub open spec fn is_storable() -> spec_fn(DimensionView) -> bool {
        |d: DimensionView| d.storable()
    }
}

impl Dimension {
    /// What decoding the end of a dimension gives: its range of
    /// `range_size` bytes, the byte that says whether it has no tile extent
    /// and, where that is 0, the extent, which is one value of its type.
    /// `head` holds the fields before them.
    pub open spec fn spec_decode_extent(
        b: Seq<u8>,
        pos: usize,
        range_size: u64,
        head: DimensionView,
    ) -> Result<(DimensionView, usize), Error> {
        match wire::spec_read_bytes(b, pos, range_size, Field::Range) {
            Err(e) => Err(e),
            Ok((range, p1)) => match wire::spec_read_u8(b, p1, Field::NullTileExtent) {
                Err(e) => Err(e),
                Ok((null_tile_extent, p2)) => match wire::spec_read_bytes(
                    b,
                    p2,
                    if null_tile_extent == 0 {
                        head.data_type.width() as u64
                    } else {
                        0
                    },
                    Field::TileExtent,
                ) {
                    Err(e) => Err(e),
                    Ok((tile_extent, next)) => Ok(
                        (DimensionView { range, null_tile_extent, tile_extent, ..head }, next),
                    ),
                },
            },
        }
    }

    /// What decoding a dimension behind its name gives, where its own type,
    /// number of values per cell, filters and range length are stored.
    pub open spec fn spec_decode_own(b: Seq<u8>, pos: usize, version: u32, name: Seq<u8>) -> Result<
        (DimensionView, usize),
        Error,
    > {
        if pos + 5 > b.len() {
            Err(Error::UnexpectedEof { field: Field::Dimension, offset: pos })
        } else if DataType::of_code(b[pos as int]) == DataType::Invalid {
            Err(Error::InvalidEnumValue { field: Field::DataType, raw: b[pos as int] })
        } else {
            match FilterList::spec_decode(b, (pos + 5) as usize, version) {
                Err(e) => Err(e),
                Ok((coords_filters, p1)) => match wire::spec_read_u64(b, p1, Field::Range) {
                    Err(e) => Err(e),
                    Ok((range_size, p2)) => Self::spec_decode_extent(
                        b,
                        p2,
                        range_size,
                        DimensionView {
                            name,
                            data_type: DataType::of_code(b[pos as int]),
                            cell_val_num: wire::le_u32(b, pos + 1),
                            coords_filters,
                            range: Seq::empty(),
                            null_tile_extent: 0,
                            tile_extent: Seq::empty(),
                        },
                    ),
                },
            }
        }
    }

    /// What decoding a dimension at `pos` gives, as it was written in format
    /// `version` in a domain of type `dtype` under the coordinate filters
    /// `coords`. From version 5 on the dimension states its own type, number
    /// of values per cell, filters and range length. Before, it has the
    /// domain's type, the number of values that goes with that type, the
    /// coordinate filters of the schema, and a range of two values.
    pub open spec fn spec_decode(
        b: Seq<u8>,
        pos: usize,
        version: u32,
        dtype: DataType,
        coords: FilterListView,
    ) -> Result<(DimensionView, usize), Error> {
        match wire::spec_read_block32(b, pos, Field::Name) {
            Err(e) => Err(e),
            Ok((name, next)) => if version >= 5 {
                Self::spec_decode_own(b, next, version, name)
            } else {
                Self::spec_decode_extent(
                    b,
                    next,
                    (2 * dtype.width()) as u64,
                    DimensionView {
                        name,
                        data_type: dtype,
                        cell_val_num: schema::spec_cell_val_size(dtype),
                        coords_filters: coords,
                        range: Seq::empty(),
                        null_tile_extent: 0,
                        tile_extent: Seq::empty(),
                    },
                )
            },
        }
    }

    /// Decoding a dimension of `b`, as a function of the position.
    pub open spec fn decoder(b: Seq<u8>, version: u32, dtype: DataType, coords: FilterListView)
        -> spec_fn(usize) -> Result<(DimensionView, usize), Error> {
        |pos: usize| Self::spec_decode(b, pos, version, dtype, coords)
    }

    /// Decodes the dimension at `pos`, as it was written in format `version`
    /// in a domain of type `dtype` under the coordinate filters `coords`.
    pub fn decode(
        bytes: &[u8],
        pos: usize,
        version: u32,
        dtype: DataType,
        coords: &FilterList,
    ) -> (r: Result<(Dimension, usize), Error>)
        ensures
            wire::decoded(r) == Self::spec_decode(bytes@, pos, version, dtype, coords@),
    {
        let (name, p0) = wire::read_block32(bytes, pos, Field::Name)?;
        let data_type: DataType;
        let cell_val_num: u32;
        let coords_filters: FilterList;
        let range_size: u64;
        let p1: usize;
        if version >= 5 {
            wire::need(bytes, p0, 5, Field::Dimension)?;
            data_type = DataType::from(bytes[p0]);
            if data_type == DataType::Invalid {
                return Err(Error::InvalidEnumValue { field: Field::DataType, raw: bytes[p0] });
            }
            cell_val_num = wire::get_u32(bytes, p0 + 1);
            let (filters, mid) = FilterList::decode(bytes, p0 + 5, version)?;
            coords_filters = filters;
            let (size, behind) = wire::read_u64(bytes, mid, Field::Range)?;
            range_size = size;
            p1 = behind;
        } else {
            data_type = dtype;
            cell_val_num = cell_val_size(dtype);
            coords_filters = coords.clone();
            range_size = 2 * (dtype.size() as u64);
            p1 = p0;
        }
        let (range, p2) = wire::read_bytes(bytes, p1, range_size, Field::Range)?;
        let (null_tile_extent, p3) = wire::read_u8(bytes, p2, Field::NullTileExtent)?;
        let extent_size: u64 = if null_tile_extent == 0 {
            data_type.size() as u64
        } else {
            0
        };
        let (tile_extent, next) = wire::read_bytes(bytes, p3, extent_size, Field::TileExtent)?;
        Ok(
            (
                Dimension {
                    name,
                    data_type,
                    cell_val_num,
                    coords_filters,
                    range,
                    null_tile_extent,
                    tile_extent,
                },
                next,
            ),
        )
    }

    /// Appends the bytes that store the dimension in format `version`.
    pub fn encode(&self, out: &mut Vec<u8>, version: u32)
        requires
            self@.storable(),
        ensures
            final(out)@ == old(out)@ + self@.spec_encode(version),
    {
        let ghost start = out@;
        let ghost name = wire::block32(self.name@);
        let ghost kind = wire::opt(version >= 5, seq![self.data_type.code()]);
        let ghost count = wire::opt(version >= 5, wire::u32_le(self.cell_val_num));
        let ghost filters = wire::opt(version >= 5, self.coords_filters@.spec_encode());
        let ghost size = wire::opt(version >= 5, wire::u64_le(self.range@.len() as u64));
        let ghost flag = seq![self.null_tile_extent];
        wire::write_block32(out, self.name.as_slice());
        wire::write_u8_if(version >= 5, out, self.data_type.to_u8());
        wire::write_u32_if(version >= 5, out, self.cell_val_num);
        let ghost before = out@;
        if version >= 5 {
            self.coords_filters.encode(out);
            wire::write_u64(out, self.range.len() as u64);
        }
        assert(out@ =~= before + filters + size);
        wire::write_bytes(out, self.range.as_slice());
        wire::write_u8(out, self.null_tile_extent);
        wire::write_bytes(out, self.tile_extent.as_slice());
        proof {
            wire::lemma_group8(
                start,
                name,
                kind,
                count,
                filters,
                size,
                self.range@,
                flag,
                self.tile_extent@,
            );
        }
    }

    /// Encoding a decoded dimension gives the bytes it was decoded from.
    pub proof fn lemma_written(
        b: Seq<u8>,
        pos: usize,
        version: u32,
        dtype: DataType,
        coords: FilterListView,
    )
        requires
            b.len() <= usize::MAX,
            coords.filters.len() <= u32::MAX,
            Self::spec_decode(b, pos, version, dtype, coords) is Ok,
        ensures
            ({
                let (dimension, next) = Self::spec_decode(b, pos, version, dtype, coords)->Ok_0;
                &&& pos <= next <= b.len()
                &&& dimension.storable()
                &&& dimension.spec_encode(version) == b.subrange(pos as int, next as int)
            }),
    {
        let (dimension, next) = Self::spec_decode(b, pos, version, dtype, coords)->Ok_0;
        let at = pos as int;
        let (name, p0) = wire::spec_read_block32(b, pos, Field::Name)->Ok_0;
        wire::lemma_block32_written(b, pos, Field::Name);
        let p1: usize = if version >= 5 {
            let mid = FilterList::spec_decode(b, (p0 + 5) as usize, version)->Ok_0.1;
            DataType::code_of_code(b[p0 as int]);
            wire::lemma_byte(b, p0 as int);
            wire::lemma_u32_written(b, p0 + 1);
            FilterList::lemma_written(b, (p0 + 5) as usize, version);
            wire::lemma_read_u64_written(b, mid, Field::Range);
            wire::lemma_join(b, at, p0 as int, p0 + 1);
            wire::lemma_join(b, at, p0 + 1, p0 + 5);
            wire::lemma_join(b, at, p0 + 5, mid as int);
            wire::lemma_join(b, at, mid as int, mid + 8);
            (mid + 8) as usize
        } else {
            wire::lemma_nothing(b, p0 as int);
            assert(b.subrange(at, p0 as int) + Seq::<u8>::empty() =~= b.subrange(at, p0 as int));
            p0
        };
        let p2 = (p1 + dimension.range.len()) as usize;
        wire::lemma_read_u8_written(b, p2, Field::NullTileExtent);
        wire::lemma_join(b, at, p1 as int, p2 as int);
        wire::lemma_join(b, at, p2 as int, p2 + 1);
        wire::lemma_join(b, at, p2 + 1, next as int);
    }
}

impl Dimension {
    /// Every decoded dimension can be stored.
    pub proof fn lemma_yields_storable(
        b: Seq<u8>,
        version: u32,
        dtype: DataType,
        coords: FilterListView,
    )
        requires
            b.len() <= usize::MAX,
            coords.filters.len() <= u32::MAX,
        ensures
            wire::yields(Self::decoder(b, version, dtype, coords), DimensionView::is_storable()),
    {
        assert forall|p: usize| (#[trigger] Self::decoder(b, version, dtype, coords)(
            p,
        )) matches Ok((t, q)) ==> DimensionView::is_storable()(t) by {
            if Self::spec_decode(b, p, version, dtype, coords) is Ok {
                Self::lemma_written(b, p, version, dtype, coords);
            }
        }
    }

    /// Every decoded dimension writes back to the bytes it came from.
    pub proof fn lemma_writes_back(
        b: Seq<u8>,
        version: u32,
        dtype: DataType,
        coords: FilterListView,
    )
        requires
            b.len() <= usize::MAX,
            coords.filters.len() <= u32::MAX,
        ensures
            wire::writes_back(
                b,
                Self::decoder(b, version, dtype, coords),
                DimensionView::encoder(version),
            ),
    {
        assert forall|p: usize| p <= b.len() implies (#[trigger] Self::decoder(
            b,
            version,
            dtype,
            coords,
        )(p) matches Ok((t, q)) ==> p <= q <= b.len() && DimensionView::encoder(version)(t)
            == b.subrange(p as int, q as int)) by {
            if Self::spec_decode(b, p, version, dtype, coords) is Ok {
                Self::lemma_written(b, p, version, dtype, coords);
            }
        }
    }
}

/// The domain of an array as it is stored: its dimensions, and the type that
/// they share in the formats before version 5.
#[derive(Debug, PartialEq, Eq)]
pub struct Domain {
    pub data_type: DataType,
    pub dimensions: Vec<Dimension>,
}

/// What a stored domain holds.
pub ghost struct DomainView {
    pub data_type: DataType,
    pub dimensions: Seq<DimensionView>,
}

impl View for Domain {
    type V = DomainView;

    open spec fn view(&self) -> DomainView {
        DomainView { data_type: self.data_type, dimensions: wire::views(self.dimensions@) }
    }
}

impl DomainView {
    /// The bytes that store the domain in format `version`: its type before
    /// version 5, the number of its dimensions, and the dimensions.
    pub open spec fn spec_encode(self, version: u32) -> Seq<u8> {
        wire::opt(version < 5, seq![self.data_type.code()]) + wire::u32_le(
            self.dimensions.len() as u32,
        ) + wire::spec_concat(self.dimensions, DimensionView::encoder(version))
    }

    /// Whether the domain can be stored: the number of its dimensions fits
    /// four bytes, and each dimension can be stored.
    pub open spec fn storable(self) -> bool {
        self.dimensions.len() <= u32::MAX && wire::all(
            self.dimensions,
            DimensionView::is_storable(),
        )
    }
}

impl Domain {
    /// What decoding the type of a domain at `pos` gives, which is stored
    /// before version 5 and is `Int32` from then on.
    pub open spec fn spec_decode_type(b: Seq<u8>, pos: usize, version: u32) -> Result<
        (DataType, usize),
        Error,
    > {
        if version >= 5 {
            Ok((DataType::Int32, pos))
        } else {
            match wire::spec_read_u8(b, pos, Field::DataType) {
                Err(e) => Err(e),
                Ok((raw, next)) => if DataType::of_code(raw) == DataType::Invalid {
                    Err(Error::InvalidEnumValue { field: Field::DataType, raw })
                } else {
                    Ok((DataType::of_code(raw), next))
                },
            }
        }
    }

    /// What decoding a domain at `pos` gives, as it was written in format
    /// `version` under the coordinate filters `coords`: the domain and the
    /// position behind it, or the error of its type, of the count or of the
    /// first dimension that fails.
    pub open spec fn spec_decode(b: Seq<u8>, pos: usize, version: u32, coords: FilterListView)
        -> Result<(DomainView, usize), Error> {
        match Self::spec_decode_type(b, pos, version) {
            Err(e) => Err(e),
            Ok((data_type, p1)) => match wire::spec_read_u32(b, p1, Field::Count) {
                Err(e) => Err(e),
                Ok((n, p2)) => match wire::spec_repeat(
                    Dimension::decoder(b, version, data_type, coords),
                    p2,
                    n as nat,
                ) {
                    Err(e) => Err(e),
                    Ok((dimensions, next)) => Ok((DomainView { data_type, dimensions }, next)),
                },
            },
        }
    }

    /// Decodes the type of a domain at `pos`.
    fn decode_type(bytes: &[u8], pos: usize, version: u32) -> (r: Result<(DataType, usize), Error>)
        ensures
            r == Self::spec_decode_type(bytes@, pos, version),
    {
        if version >= 5 {
            return Ok((DataType::Int32, pos));
        }
        let (raw, next) = wire::read_u8(bytes, pos, Field::DataType)?;
        let data_type = DataType::from(raw);
        if data_type == DataType::Invalid {
            return Err(Error::InvalidEnumValue { field: Field::DataType, raw });
        }
        Ok((data_type, next))
    }

    /// Decodes the domain at `pos`, as it was written in format `version`
    /// under the coordinate filters `coords`.
    pub fn decode(bytes: &[u8], pos: usize, version: u32, coords: &FilterList) -> (r: Result<
        (Domain, usize),
        Error,
    >)
        ensures
            wire::decoded(r) == Self::spec_decode(bytes@, pos, version, coords@),
    {
        let (data_type, p1) = Self::decode_type(bytes, pos, version)?;
        let (n, start) = wire::read_u32(bytes, p1, Field::Count)?;
        let (dimensions, next) = Self::decode_dimensions(bytes, start, n, version, data_type, coords)?;
        Ok((Domain { data_type, dimensions }, next))
    }

    /// Decodes `n` dimensions from `start` on.
    fn decode_dimensions(
        bytes: &[u8],
        start: usize,
        n: u32,
        version: u32,
        data_type: DataType,
        coords: &FilterList,
    ) -> (r: Result<(Vec<Dimension>, usize), Error>)
        ensures
            match r {
                Ok((dimensions, next)) => wire::spec_repeat(
                    Dimension::decoder(bytes@, version, data_type, coords@),
                    start,
                    n as nat,
                ) == Ok::<(Seq<DimensionView>, usize), Error>((wire::views(dimensions@), next)),
                Err(e) => wire::spec_repeat(
                    Dimension::decoder(bytes@, version, data_type, coords@),
                    start,
                    n as nat,
                ) == Err::<(Seq<DimensionView>, usize), Error>(e),
            },
    {
        let ghost item = Dimension::decoder(bytes@, version, data_type, coords@);
        let mut dimensions: Vec<Dimension> = Vec::new();
        let mut at: usize = start;
        let mut i: u32 = 0;
        proof {
            wire::lemma_views_empty::<Dimension>();
        }
        while i < n
            invariant
                i <= n,
                item == Dimension::decoder(bytes@, version, data_type, coords@),
                wire::spec_repeat(item, start, i as nat) == Ok::<
                    (Seq<DimensionView>, usize),
                    Error,
                >((wire::views(dimensions@), at)),
            decreases n - i,
        {
            match Dimension::decode(bytes, at, version, data_type, coords) {
                Ok((d, next)) => {
                    proof {
                        wire::lemma_views_push(dimensions@, d);
                        assert(item(at) == Ok::<(DimensionView, usize), Error>((d@, next)));
                    }
                    dimensions.push(d);
                    at = next;
                },
                Err(e) => {
                    proof {
                        assert(item(at) == Err::<(DimensionView, usize), Error>(e));
                        assert(wire::spec_repeat(item, start, (i + 1) as nat) == Err::<
                            (Seq<DimensionView>, usize),
                            Error,
                        >(e));
                        wire::lemma_repeat_error(item, start, (i + 1) as nat, n as nat);
                    }
                    return Err(e);
                },
            }
            i += 1;
        }
        Ok((dimensions, at))
    }

    /// Appends the bytes that store the domain in format `version`.
    pub fn encode(&self, out: &mut Vec<u8>, version: u32)
        requires
            self@.storable(),
        ensures
            final(out)@ == old(out)@ + self@.spec_encode(version),
    {
        wire::write_u8_if(version < 5, out, self.data_type.to_u8());
        wire::write_u32(out, self.dimensions.len() as u32);
        let ghost head = out@;
        let ghost all = wire::views(self.dimensions@);
        let ghost enc = DimensionView::encoder(version);
        let mut i: usize = 0;
        assert(all.take(0) =~= Seq::<DimensionView>::empty());
        assert(out@ =~= head + wire::spec_concat(all.take(0), enc));
        while i < self.dimensions.len()
            invariant
                i <= self.dimensions@.len(),
                all == wire::views(self.dimensions@),
                enc == DimensionView::encoder(version),
                self@.storable(),
                out@ == head + wire::spec_concat(all.take(i as int), enc),
            decreases self.dimensions@.len() - i,
        {
            assert(all[i as int] == self.dimensions@[i as int]@);
            assert(DimensionView::is_storable()(all[i as int]));
            self.dimensions[i].encode(out, version);
            proof {
                wire::lemma_concat_push(all.take(i as int), all[i as int], enc);
                assert(all.take(i as int).push(all[i as int]) =~= all.take(i + 1));
                assert(out@ =~= head + wire::spec_concat(all.take(i + 1), enc));
            }
            i += 1;
        }
        assert(all.take(i as int) =~= all);
        assert(out@ =~= old(out)@ + self@.spec_encode(version));
    }

    /// Encoding a decoded domain gives the bytes it was decoded from.
    pub proof fn lemma_written(b: Seq<u8>, pos: usize, version: u32, coords: FilterListView)
        requires
            pos <= b.len() <= usize::MAX,
            coords.filters.len() <= u32::MAX,
            Self::spec_decode(b, pos, version, coords) is Ok,
        ensures
            ({
                let (domain, next) = Self::spec_decode(b, pos, version, coords)->Ok_0;
                &&& pos <= next <= b.len()
                &&& domain.storable()
                &&& domain.spec_encode(version) == b.subrange(pos as int, next as int)
            }),
    {
        let (domain, next) = Self::spec_decode(b, pos, version, coords)->Ok_0;
        let at = pos as int;
        let (data_type, p1) = Self::spec_decode_type(b, pos, version)->Ok_0;
        if version < 5 {
            wire::lemma_read_u8_written(b, pos, Field::DataType);
            DataType::code_of_code(b[at]);
        } else {
            wire::lemma_nothing(b, at);
        }
        let (n, p2) = wire::spec_read_u32(b, p1, Field::Count)->Ok_0;
        wire::lemma_read_u32_written(b, p1, Field::Count);
        let item = Dimension::decoder(b, version, data_type, coords);
        Dimension::lemma_writes_back(b, version, data_type, coords);
        Dimension::lemma_yields_storable(b, version, data_type, coords);
        wire::lemma_repeat_written(b, item, DimensionView::encoder(version), p2, n as nat);
        wire::lemma_repeat_len(item, p2, n as nat);
        wire::lemma_repeat_yields(item, DimensionView::is_storable(), p2, n as nat);
        wire::lemma_join(b, at, p1 as int, p2 as int);
        wire::lemma_join(b, at, p2 as int, next as int);
    }
}

impl DimensionView {
    /// Whether the type of the dimension and the kinds of its filters are
    /// known ones.
    pub open spec fn known(self) -> bool {
        self.data_type != DataType::Invalid && self.coords_filters.known()
    }

    /// Whether the enumerated fields of a dimension are known, as a
    /// function.
    pub open spec fn is_known() -> spec_fn(DimensionView) -> bool {
        |d: DimensionView| d.known()
    }
}

} // verus!
