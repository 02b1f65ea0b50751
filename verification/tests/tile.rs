use tdbtk::error::{Error, Field};
use tdbtk::filters::empty::EmptyFilter;
use tdbtk::filters::{Filter, FilterChain, FilterType};
use tdbtk::storage::filter::FilterConfig;
use tdbtk::storage::tile::{
    read_generic_tile, Chunk, ChunkView, ChunkedData, GenericTileHeader, GENERIC_TILE_HEADER_SIZE,
};

fn le32(x: u32) -> Vec<u8> {
    x.to_le_bytes().to_vec()
}

fn le64(x: u64) -> Vec<u8> {
    x.to_le_bytes().to_vec()
}

fn hello_tile() -> Vec<u8> {
    let mut pipeline = Vec::new();
    pipeline.extend(le32(65536));
    pipeline.extend(le32(1));
    pipeline.push(0);
    pipeline.extend(le32(0));
    let mut payload = Vec::new();
    payload.extend(le64(1));
    payload.extend(le32(13));
    payload.extend(le32(13));
    payload.extend(le32(0));
    payload.extend(b"Hello, world!");
    let mut tile = Vec::new();
    tile.extend(le32(1));
    tile.extend(le64(payload.len() as u64));
    tile.extend(le64(13));
    tile.push(6);
    tile.extend(le64(1));
    tile.push(0);
    tile.extend(le32(pipeline.len() as u32));
    tile.extend(pipeline);
    tile.extend(payload);
    tile
}

#[test]
fn single_empty_filter_tile_decodes_to_its_bytes() {
    let tile = hello_tile();
    let data = read_generic_tile(&tile, 0).unwrap();
    assert_eq!(data, b"Hello, world!".to_vec());
}

#[test]
fn tile_is_read_at_its_offset() {
    let mut stored = vec![0xaau8; 7];
    stored.extend(hello_tile());
    let data = read_generic_tile(&stored, 7).unwrap();
    assert_eq!(data, b"Hello, world!".to_vec());
}

struct Marker {
    tag: u8,
}

impl Filter for Marker {
    fn kind(&self) -> FilterType {
        unreachable!()
    }

    fn unfiltered(&self, _: ChunkView, _: ChunkView) -> Option<(ChunkView, ChunkView)> {
        unreachable!()
    }

    fn filter_type(&self) -> FilterType {
        FilterType::NoFilter
    }

    fn unfilter(&self, input: &mut Chunk, output: &mut Chunk) -> Result<(), Error> {
        output.original_size = input.original_size;
        output.metadata = input.metadata.clone();
        output.data = input.data.clone();
        output.data.push(self.tag);
        Ok(())
    }
}

#[test]
fn two_stage_chain_undoes_the_last_filter_first() {
    let b = FilterChain { filter: Box::new(Marker { tag: b'B' }), next: None };
    let a = FilterChain { filter: Box::new(Marker { tag: b'A' }), next: Some(Box::new(b)) };
    let mut input = Chunk { original_size: 1, metadata: Vec::new(), data: vec![b'x'] };
    let mut output = Chunk::default();
    a.unfilter(&mut input, &mut output).unwrap();
    assert_eq!(output.data, b"xBA".to_vec());
}

#[test]
fn header_fields_are_read_at_their_offsets() {
    let tile = hello_tile();
    let (header, next) = GenericTileHeader::decode(&tile, 0).unwrap();
    assert_eq!(next, 34);
    assert_eq!(GENERIC_TILE_HEADER_SIZE, 34);
    assert_eq!(
        header,
        GenericTileHeader {
            version: 1,
            persisted_size: 33,
            tile_size: 13,
            datatype: 6,
            cell_size: 1,
            encryption_type: 0,
            filter_pipeline_size: 13,
        }
    );
    let mut out = Vec::new();
    header.encode(&mut out);
    assert_eq!(out, tile[..34].to_vec());
}

#[test]
fn short_header_is_an_end_of_input() {
    let tile = hello_tile();
    assert_eq!(
        GenericTileHeader::decode(&tile[..33], 0),
        Err(Error::UnexpectedEof { field: Field::TileHeader, offset: 0 })
    );
    assert_eq!(
        read_generic_tile(&tile[..33], 0),
        Err(Error::UnexpectedEof { field: Field::TileHeader, offset: 0 })
    );
    assert_eq!(
        read_generic_tile(&tile, tile.len() + 5),
        Err(Error::UnexpectedEof { field: Field::TileHeader, offset: tile.len() + 5 })
    );
}

#[test]
fn truncated_tile_parts_are_ends_of_input() {
    let tile = hello_tile();
    assert_eq!(
        read_generic_tile(&tile[..40], 0),
        Err(Error::UnexpectedEof { field: Field::FilterPipeline, offset: 34 })
    );
    assert_eq!(
        read_generic_tile(&tile[..tile.len() - 1], 0),
        Err(Error::UnexpectedEof { field: Field::Payload, offset: 47 })
    );
}

#[test]
fn payload_that_states_more_than_it_holds_is_an_end_of_input() {
    let mut tile = hello_tile();
    // The chunk states 14 bytes of data, the payload holds 13.
    tile[47 + 8 + 4] = 14;
    assert_eq!(
        read_generic_tile(&tile, 0),
        Err(Error::UnexpectedEof { field: Field::Data, offset: 20 })
    );
}

fn tile_with_pipeline(filters: &[u8], count: u32) -> Vec<u8> {
    let mut pipeline = Vec::new();
    pipeline.extend(le32(65536));
    pipeline.extend(le32(count));
    pipeline.extend(filters);
    let mut payload = Vec::new();
    payload.extend(le64(0));
    let mut tile = Vec::new();
    tile.extend(le32(21));
    tile.extend(le64(payload.len() as u64));
    tile.extend(le64(0));
    tile.push(6);
    tile.extend(le64(1));
    tile.push(0);
    tile.extend(le32(pipeline.len() as u32));
    tile.extend(pipeline);
    tile.extend(payload);
    tile
}

#[test]
fn empty_pipeline_is_rejected_when_the_chain_is_made() {
    let tile = tile_with_pipeline(&[], 0);
    assert_eq!(read_generic_tile(&tile, 0), Err(Error::EmptyPipeline));
}

#[test]
fn unsupported_filter_is_rejected_when_the_chain_is_made() {
    let tile = tile_with_pipeline(&[5u8, 0, 0, 0, 0, 5, 1, 0, 0, 0], 1);
    assert_eq!(
        read_generic_tile(&tile, 0),
        Err(Error::UnsupportedFilter { kind: FilterType::BZip2 })
    );
}

#[test]
fn tile_without_chunks_decodes_to_nothing() {
    let tile = tile_with_pipeline(&[0u8, 0, 0, 0, 0], 1);
    assert_eq!(read_generic_tile(&tile, 0), Ok(Vec::new()));
}

#[test]
fn chunks_are_decoded_in_order() {
    let mut payload = Vec::new();
    payload.extend(le64(2));
    payload.extend(le32(5));
    payload.extend(le32(3));
    payload.extend(le32(2));
    payload.extend(b"mmddd");
    payload.extend(le32(0));
    payload.extend(le32(0));
    payload.extend(le32(0));
    payload.push(0xff);
    let (chunked, next) = ChunkedData::decode(&payload, 0).unwrap();
    assert_eq!(next, payload.len() - 1);
    assert_eq!(chunked.num_chunks, 2);
    assert_eq!(
        chunked.chunks,
        vec![
            Chunk { original_size: 5, metadata: b"mm".to_vec(), data: b"ddd".to_vec() },
            Chunk { original_size: 0, metadata: Vec::new(), data: Vec::new() },
        ]
    );
    let mut out = Vec::new();
    chunked.encode(&mut out);
    assert_eq!(out, payload[..next].to_vec());
}

#[test]
fn truncated_chunks_are_ends_of_input() {
    let mut payload = Vec::new();
    payload.extend(le64(2));
    payload.extend(le32(5));
    payload.extend(le32(3));
    payload.extend(le32(2));
    payload.extend(b"mmddd");
    assert_eq!(
        ChunkedData::decode(&payload[..7], 0).unwrap_err(),
        Error::UnexpectedEof { field: Field::Count, offset: 0 }
    );
    assert_eq!(
        ChunkedData::decode(&payload[..19], 0).unwrap_err(),
        Error::UnexpectedEof { field: Field::ChunkHeader, offset: 8 }
    );
    assert_eq!(
        ChunkedData::decode(&payload[..21], 0).unwrap_err(),
        Error::UnexpectedEof { field: Field::Metadata, offset: 20 }
    );
    assert_eq!(
        ChunkedData::decode(&payload[..24], 0).unwrap_err(),
        Error::UnexpectedEof { field: Field::Data, offset: 22 }
    );
    assert_eq!(
        ChunkedData::decode(&payload, 0).unwrap_err(),
        Error::UnexpectedEof { field: Field::ChunkHeader, offset: 25 }
    );
}

#[test]
fn new_chunked_data_holds_empty_chunks() {
    let chunked = ChunkedData::new(3);
    assert_eq!(chunked.num_chunks, 3);
    assert_eq!(chunked.chunks.len(), 3);
    for chunk in chunked.chunks.iter() {
        assert_eq!(*chunk, Chunk::default());
        assert_eq!(chunk.original_size, 0);
        assert!(chunk.metadata.is_empty() && chunk.data.is_empty());
    }
    assert!(ChunkedData::new(0).chunks.is_empty());
}

#[test]
fn slices_are_cut_to_the_original_size() {
    let chain = FilterChain::try_from(&tdbtk::storage::filter::FilterList {
        max_chunk_size: 0,
        filters: vec![tdbtk::storage::filter::Filter {
            filter_type: FilterType::NoFilter,
            metadata_len: 0,
            config: tdbtk::storage::filter::FilterConfig::NoConfig,
        }],
    })
    .unwrap();
    let mut chunked = ChunkedData {
        num_chunks: 2,
        chunks: vec![
            Chunk { original_size: 3, metadata: Vec::new(), data: b"abcPAD".to_vec() },
            Chunk { original_size: 2, metadata: b"m".to_vec(), data: b"de".to_vec() },
        ],
    };
    assert_eq!(chain.unfilter_chunks(&mut chunked), Ok(b"abcde".to_vec()));
    assert_eq!(chunked.chunks.len(), 2);
    assert_eq!(chunked.num_chunks, 2);
}

#[test]
fn chunk_with_too_little_data_fails_with_its_index() {
    let chain = FilterChain { filter: Box::new(tdbtk::filters::empty::EmptyFilter {}), next: None };
    let mut chunked = ChunkedData {
        num_chunks: 2,
        chunks: vec![
            Chunk { original_size: 1, metadata: Vec::new(), data: b"a".to_vec() },
            Chunk { original_size: 4, metadata: Vec::new(), data: b"abc".to_vec() },
        ],
    };
    assert_eq!(
        chain.unfilter_chunks(&mut chunked),
        Err(Error::FilterFailure { kind: FilterType::NoFilter, chunk_index: 1 })
    );
}

struct Failing;

impl Filter for Failing {
    fn kind(&self) -> FilterType {
        unreachable!()
    }

    fn unfiltered(&self, _: ChunkView, _: ChunkView) -> Option<(ChunkView, ChunkView)> {
        unreachable!()
    }

    fn filter_type(&self) -> FilterType {
        FilterType::Xor
    }

    fn unfilter(&self, _: &mut Chunk, _: &mut Chunk) -> Result<(), Error> {
        Err(Error::FilterFailure { kind: FilterType::Xor, chunk_index: 0 })
    }
}

#[test]
fn failure_of_a_filter_stops_the_chain() {
    let inner = FilterChain { filter: Box::new(Failing), next: None };
    let outer = FilterChain { filter: Box::new(Marker { tag: b'A' }), next: Some(Box::new(inner)) };
    let mut input = Chunk { original_size: 1, metadata: Vec::new(), data: vec![b'x'] };
    let mut output = Chunk::default();
    assert_eq!(
        outer.unfilter(&mut input, &mut output),
        Err(Error::FilterFailure { kind: FilterType::Xor, chunk_index: 0 })
    );
    assert!(output.data.is_empty());
}

#[test]
fn empty_filter_hands_the_input_over() {
    let filter = EmptyFilter::from_config(&FilterConfig::NoConfig).unwrap();
    assert_eq!(filter.filter_type(), FilterType::NoFilter);
    let mut input = Chunk { original_size: 2, metadata: b"m".to_vec(), data: b"dd".to_vec() };
    let mut output = Chunk { original_size: 9, metadata: Vec::new(), data: b"old".to_vec() };
    filter.unfilter(&mut input, &mut output).unwrap();
    assert_eq!(output, Chunk { original_size: 2, metadata: b"m".to_vec(), data: b"dd".to_vec() });
    assert_eq!(input, Chunk { original_size: 9, metadata: Vec::new(), data: b"old".to_vec() });
    assert!(matches!(
        EmptyFilter::from_config(&FilterConfig::PositiveDelta { max_window_size: 1 }),
        Err(Error::InvalidFilterConfig { kind: FilterType::NoFilter })
    ));
}
