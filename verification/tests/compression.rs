use tdbtk::error::Error;
use tdbtk::filters::compression::{decompress, Decompressor};
use tdbtk::filters::gzip::GZipFilter;
use tdbtk::filters::lz4::LZ4Filter;
use tdbtk::filters::zstd::ZstdFilter;
use tdbtk::filters::{Filter, FilterChain, FilterType};
use tdbtk::storage::filter::{Filter as StoredFilter, FilterConfig, FilterList};
use tdbtk::storage::tile::{
    Chunk, ChunkedData, CompressionChunkInfo, CompressionChunks,
};

/// "Decompresses" by repeating the input until the output is full, and
/// fails on an empty input.
struct Repeat;

impl Decompressor for Repeat {
    fn decompressed(&self, _: vstd::seq::Seq<u8>, _: vstd::prelude::nat) -> Option<vstd::seq::Seq<u8>> {
        unreachable!()
    }

    fn decompress(&self, input: &[u8], output: &mut Vec<u8>) -> Result<(), Error> {
        if input.is_empty() {
            return Err(Error::FilterFailure { kind: FilterType::Rle, chunk_index: 0 });
        }
        for i in 0..output.len() {
            output[i] = input[i % input.len()];
        }
        Ok(())
    }
}

fn framing(metadata_parts: &[(u32, u32)], data_parts: &[(u32, u32)]) -> Vec<u8> {
    let mut bytes = Vec::new();
    bytes.extend((metadata_parts.len() as u32).to_le_bytes());
    bytes.extend((data_parts.len() as u32).to_le_bytes());
    for (uncompressed, compressed) in metadata_parts.iter().chain(data_parts.iter()) {
        bytes.extend(uncompressed.to_le_bytes());
        bytes.extend(compressed.to_le_bytes());
    }
    bytes
}

#[test]
fn one_cursor_runs_through_metadata_parts_and_data_parts() {
    let mut input = Chunk {
        original_size: 6,
        metadata: framing(&[(4, 2)], &[(6, 3)]),
        data: b"abXYZ".to_vec(),
    };
    let mut output = Chunk { original_size: 77, metadata: b"old".to_vec(), data: b"older".to_vec() };
    decompress(&Repeat, FilterType::Rle, &mut input, &mut output).unwrap();
    assert_eq!(output.metadata, b"abab".to_vec());
    assert_eq!(output.data, b"XYZXYZ".to_vec());
    assert_eq!(output.original_size, 77);
    assert_eq!(input.data, b"abXYZ".to_vec());
    assert_eq!(input.original_size, 6);
}

#[test]
fn several_parts_are_put_one_behind_the_other() {
    let mut input = Chunk {
        original_size: 0,
        metadata: framing(&[(1, 1), (2, 1)], &[(3, 2), (0, 0), (2, 1)]),
        data: b"mnpqr".to_vec(),
    };
    input.data.extend(b"trailing");
    let mut output = Chunk::default();
    // The part of no bytes is an empty input, which this primitive rejects.
    assert_eq!(
        decompress(&Repeat, FilterType::Rle, &mut input, &mut output),
        Err(Error::FilterFailure { kind: FilterType::Rle, chunk_index: 0 })
    );
    input.metadata = framing(&[(1, 1), (2, 1)], &[(3, 2), (2, 1)]);
    decompress(&Repeat, FilterType::Rle, &mut input, &mut output).unwrap();
    assert_eq!(output.metadata, b"mnn".to_vec());
    assert_eq!(output.data, b"pqprr".to_vec());
}

#[test]
fn part_that_reaches_past_the_data_fails() {
    let mut input = Chunk {
        original_size: 0,
        metadata: framing(&[], &[(4, 3)]),
        data: b"ab".to_vec(),
    };
    let mut output = Chunk::default();
    assert_eq!(
        decompress(&Repeat, FilterType::Zstd, &mut input, &mut output),
        Err(Error::FilterFailure { kind: FilterType::Zstd, chunk_index: 0 })
    );
}

#[test]
fn metadata_without_framing_fails() {
    let mut input = Chunk { original_size: 0, metadata: vec![1, 0, 0], data: Vec::new() };
    let mut output = Chunk::default();
    assert_eq!(
        decompress(&Repeat, FilterType::GZip, &mut input, &mut output),
        Err(Error::FilterFailure { kind: FilterType::GZip, chunk_index: 0 })
    );
    input.metadata = framing(&[(1, 1)], &[]);
    input.metadata.truncate(12);
    assert_eq!(
        decompress(&Repeat, FilterType::GZip, &mut input, &mut output),
        Err(Error::FilterFailure { kind: FilterType::GZip, chunk_index: 0 })
    );
}

#[test]
fn framing_is_decoded_and_encoded() {
    let bytes = framing(&[(4, 2)], &[(6, 3), (1, 1)]);
    let (parts, next) = CompressionChunks::decode(&bytes, 0).unwrap();
    assert_eq!(next, bytes.len());
    assert_eq!(
        parts.metadata_parts,
        vec![CompressionChunkInfo { uncompressed_size: 4, compressed_size: 2 }]
    );
    assert_eq!(
        parts.data_parts,
        vec![
            CompressionChunkInfo { uncompressed_size: 6, compressed_size: 3 },
            CompressionChunkInfo { uncompressed_size: 1, compressed_size: 1 },
        ]
    );
    let mut out = Vec::new();
    parts.encode(&mut out);
    assert_eq!(out, bytes);
}

fn compression_config(kind: FilterType, level: i32) -> FilterConfig {
    FilterConfig::Compression { compressor_type: kind, compression_level: level, reinterpret_type: None }
}

fn compressed_chunk(payload: &[u8], split: usize, compress: &dyn Fn(&[u8]) -> Vec<u8>) -> Chunk {
    let first = compress(&payload[..split]);
    let second = compress(&payload[split..]);
    let meta = compress(b"side");
    let mut data = meta.clone();
    data.extend(&first);
    data.extend(&second);
    Chunk {
        original_size: payload.len() as u32,
        metadata: framing(
            &[(4, meta.len() as u32)],
            &[(split as u32, first.len() as u32), ((payload.len() - split) as u32, second.len() as u32)],
        ),
        data,
    }
}

fn zstd_compress(input: &[u8]) -> Vec<u8> {
    let mut out = vec![0u8; zstd_safe::compress_bound(input.len())];
    let n = zstd_safe::compress(&mut out[..], input, 3).unwrap();
    out.truncate(n);
    out
}

fn single(kind: FilterType, level: i32) -> FilterList {
    FilterList {
        max_chunk_size: 65536,
        filters: vec![StoredFilter { filter_type: kind, metadata_len: 0, config: compression_config(kind, level) }],
    }
}

const TEXT: &[u8] = b"The quick brown fox jumps over the lazy dog. The quick brown fox again.";

#[test]
fn gzip_chunk_is_inflated() {
    let chain = FilterChain::try_from(&single(FilterType::GZip, 6)).unwrap();
    let compress = |b: &[u8]| miniz_oxide::deflate::compress_to_vec_zlib(b, 6);
    let mut input = compressed_chunk(TEXT, 20, &compress);
    let mut output = Chunk::default();
    chain.unfilter(&mut input, &mut output).unwrap();
    assert_eq!(output.data, TEXT.to_vec());
    assert_eq!(output.metadata, b"side".to_vec());
    let mut chunked = ChunkedData { num_chunks: 1, chunks: vec![compressed_chunk(TEXT, 1, &compress)] };
    assert_eq!(chain.unfilter_chunks(&mut chunked), Ok(TEXT.to_vec()));
}

#[test]
fn zstd_chunk_is_decompressed() {
    let chain = FilterChain::try_from(&single(FilterType::Zstd, 3)).unwrap();
    let mut chunked = ChunkedData {
        num_chunks: 2,
        chunks: vec![compressed_chunk(TEXT, 30, &zstd_compress), compressed_chunk(b"tail", 2, &zstd_compress)],
    };
    let mut expected = TEXT.to_vec();
    expected.extend(b"tail");
    assert_eq!(chain.unfilter_chunks(&mut chunked), Ok(expected));
}

#[test]
fn lz4_chunk_is_decompressed() {
    let chain = FilterChain::try_from(&single(FilterType::LZ4, 1)).unwrap();
    let compress = |b: &[u8]| lz4_flex::block::compress(b);
    let mut chunked = ChunkedData { num_chunks: 1, chunks: vec![compressed_chunk(TEXT, 40, &compress)] };
    assert_eq!(chain.unfilter_chunks(&mut chunked), Ok(TEXT.to_vec()));
}

#[test]
fn part_of_another_size_than_stated_fails() {
    let filter = GZipFilter::new(6);
    let stream = miniz_oxide::deflate::compress_to_vec_zlib(b"Hello", 6);
    let mut exact = vec![0u8; 5];
    assert_eq!(filter.decompress(&stream, &mut exact), Ok(()));
    assert_eq!(exact, b"Hello".to_vec());
    let mut larger = vec![0u8; 6];
    assert_eq!(
        filter.decompress(&stream, &mut larger),
        Err(Error::FilterFailure { kind: FilterType::GZip, chunk_index: 0 })
    );
    let mut smaller = vec![0u8; 4];
    assert_eq!(
        filter.decompress(&stream, &mut smaller),
        Err(Error::FilterFailure { kind: FilterType::GZip, chunk_index: 0 })
    );
    let zstd = ZstdFilter::new(3);
    let frame = zstd_compress(b"Hello");
    let mut exact = vec![0u8; 5];
    assert_eq!(zstd.decompress(&frame, &mut exact), Ok(()));
    assert_eq!(exact, b"Hello".to_vec());
    let mut larger = vec![0u8; 9];
    assert!(zstd.decompress(&frame, &mut larger).is_err());
    let mut smaller = vec![0u8; 2];
    assert!(zstd.decompress(&frame, &mut smaller).is_err());
    let lz4 = LZ4Filter::new(0);
    let block = lz4_flex::block::compress(b"Hello");
    let mut exact = vec![0u8; 5];
    assert_eq!(lz4.decompress(&block, &mut exact), Ok(()));
    assert_eq!(exact, b"Hello".to_vec());
    let mut larger = vec![0u8; 9];
    assert_eq!(
        lz4.decompress(&block, &mut larger),
        Err(Error::FilterFailure { kind: FilterType::LZ4, chunk_index: 0 })
    );
}

#[test]
fn damaged_stream_fails_with_kind_and_chunk_index() {
    let chain = FilterChain::try_from(&single(FilterType::GZip, 6)).unwrap();
    let compress = |b: &[u8]| miniz_oxide::deflate::compress_to_vec_zlib(b, 6);
    let good = compressed_chunk(TEXT, 20, &compress);
    let mut bad = compressed_chunk(TEXT, 20, &compress);
    let last = bad.data.len() - 1;
    bad.data[last] ^= 0x55;
    bad.data[0] = 0;
    let mut chunked = ChunkedData { num_chunks: 2, chunks: vec![good, bad] };
    assert_eq!(
        chain.unfilter_chunks(&mut chunked),
        Err(Error::FilterFailure { kind: FilterType::GZip, chunk_index: 1 })
    );
}

#[test]
fn two_compression_filters_are_undone_last_first() {
    let list = FilterList {
        max_chunk_size: 65536,
        filters: vec![
            StoredFilter { filter_type: FilterType::GZip, metadata_len: 0, config: compression_config(FilterType::GZip, 6) },
            StoredFilter { filter_type: FilterType::Zstd, metadata_len: 0, config: compression_config(FilterType::Zstd, 3) },
        ],
    };
    let chain = FilterChain::try_from(&list).unwrap();
    // Written: gzip first, then zstd on what gzip made.
    let gzip = |b: &[u8]| miniz_oxide::deflate::compress_to_vec_zlib(b, 6);
    let inner = compressed_chunk(TEXT, 20, &gzip);
    let inner_meta = zstd_compress(&inner.metadata);
    let inner_data = zstd_compress(&inner.data);
    let mut data = inner_meta.clone();
    data.extend(&inner_data);
    let stored = Chunk {
        original_size: TEXT.len() as u32,
        metadata: framing(
            &[(inner.metadata.len() as u32, inner_meta.len() as u32)],
            &[(inner.data.len() as u32, inner_data.len() as u32)],
        ),
        data,
    };
    let mut chunked = ChunkedData { num_chunks: 1, chunks: vec![stored] };
    assert_eq!(chain.unfilter_chunks(&mut chunked), Ok(TEXT.to_vec()));
}

#[test]
fn configs_are_checked_against_the_kind() {
    assert_eq!(GZipFilter::from_config(&compression_config(FilterType::GZip, 9)).unwrap().level, 9);
    assert_eq!(GZipFilter::from_config(&compression_config(FilterType::GZip, 0)).unwrap().level, 0);
    assert_eq!(GZipFilter::from_config(&compression_config(FilterType::GZip, -1)).unwrap().level, 255);
    assert_eq!(GZipFilter::from_config(&compression_config(FilterType::GZip, -256)).unwrap().level, 0);
    assert_eq!(
        GZipFilter::from_config(&compression_config(FilterType::GZip, i32::MIN)).unwrap().level,
        0
    );
    assert!(matches!(
        GZipFilter::from_config(&compression_config(FilterType::GZip, 10)),
        Err(Error::InvalidFilterConfig { kind: FilterType::GZip })
    ));
    assert!(matches!(
        GZipFilter::from_config(&compression_config(FilterType::Zstd, 3)),
        Err(Error::InvalidFilterConfig { kind: FilterType::GZip })
    ));
    assert!(matches!(
        GZipFilter::from_config(&FilterConfig::NoConfig),
        Err(Error::InvalidFilterConfig { kind: FilterType::GZip })
    ));
    assert_eq!(ZstdFilter::from_config(&compression_config(FilterType::Zstd, 1)).unwrap().level, 1);
    assert_eq!(ZstdFilter::from_config(&compression_config(FilterType::Zstd, 22)).unwrap().level, 22);
    assert_eq!(ZstdFilter::from_config(&compression_config(FilterType::Zstd, 23)).unwrap().level, 3);
    assert_eq!(ZstdFilter::from_config(&compression_config(FilterType::Zstd, 0)).unwrap().level, 3);
    assert_eq!(ZstdFilter::from_config(&compression_config(FilterType::Zstd, -5)).unwrap().level, 3);
    assert!(matches!(
        ZstdFilter::from_config(&compression_config(FilterType::LZ4, 3)),
        Err(Error::InvalidFilterConfig { kind: FilterType::Zstd })
    ));
    assert_eq!(LZ4Filter::from_config(&compression_config(FilterType::LZ4, -7)).unwrap().level, -7);
    assert!(matches!(
        LZ4Filter::from_config(&FilterConfig::BitWidthReduction { max_window_size: 1 }),
        Err(Error::InvalidFilterConfig { kind: FilterType::LZ4 })
    ));
    assert_eq!(GZipFilter::new(4).filter_type(), FilterType::GZip);
    assert_eq!(ZstdFilter::new(4).filter_type(), FilterType::Zstd);
    assert_eq!(LZ4Filter::new(4).filter_type(), FilterType::LZ4);
}

#[test]
fn chain_fails_with_the_error_of_the_last_filter_that_cannot_be_made() {
    let list = FilterList {
        max_chunk_size: 1,
        filters: vec![
            StoredFilter { filter_type: FilterType::Rle, metadata_len: 0, config: compression_config(FilterType::Rle, 1) },
            StoredFilter { filter_type: FilterType::NoFilter, metadata_len: 0, config: FilterConfig::NoConfig },
            StoredFilter { filter_type: FilterType::GZip, metadata_len: 0, config: compression_config(FilterType::GZip, 11) },
        ],
    };
    assert!(matches!(
        FilterChain::try_from(&list),
        Err(Error::InvalidFilterConfig { kind: FilterType::GZip })
    ));
    let mut fixed = list.clone();
    fixed.filters[2].config = compression_config(FilterType::GZip, 1);
    assert!(matches!(
        FilterChain::try_from(&fixed),
        Err(Error::UnsupportedFilter { kind: FilterType::Rle })
    ));
    assert!(matches!(
        FilterChain::try_from(&FilterList::default()),
        Err(Error::EmptyPipeline)
    ));
    assert!(matches!(
        FilterChain::link(&fixed.filters[0], None),
        Err(Error::UnsupportedFilter { kind: FilterType::Rle })
    ));
    let link = FilterChain::link(&fixed.filters[1], None).unwrap();
    assert_eq!(link.filter.filter_type(), FilterType::NoFilter);
    assert!(link.next.is_none());
}
