use tdbtk::filters::compression::Decompressor;
use tdbtk::filters::compressors::gzip::GZIPCompressor;
use tdbtk::filters::compressors::Compressor;
use tdbtk::filters::gzip::GZipFilter;

#[test]
fn basic_decompression() {
    let data = "Hello, world!";

    let compressor = GZIPCompressor::default();
    let compressed = compressor.compress(data.as_bytes());
    let decompressed = compressor
        .decompress(&compressed)
        .unwrap_or_else(|err| panic!("Failed to compress gzip data: {:?}", err));
    assert_eq!(decompressed, data.as_bytes());
}

#[test]
fn non_default_level() {
    let data = "Hello, world!";

    let compressor = GZIPCompressor::new(0);
    let compressed = compressor.compress(data.as_bytes());
    let decompressed = compressor.decompress(&compressed).unwrap_or_else(|err| {
        panic!("Failed to decompress gzip data: {:?}", err);
    });
    assert_eq!(decompressed, data.as_bytes());
}

#[test]
fn gzip_basic_decompression() {
    let data = "Hello, World!";

    let filter = GZipFilter::new(6);
    let mut unfiltered = data.as_bytes().to_vec();
    let mut filtered = Vec::new();

    filter.compress(&unfiltered, &mut filtered).unwrap_or_else(|err| {
        panic!("Failed to gzip compress buffer: {:?}", err);
    });

    assert!(!filtered.is_empty());
    assert_ne!(filtered, data.as_bytes().to_vec());

    unfiltered.clear();
    assert!(unfiltered.is_empty());
    assert_ne!(unfiltered, data.as_bytes().to_vec());

    // Resize our output buffer to accept the decompressed data.
    unfiltered.resize(data.len(), 0);

    filter.decompress(&filtered, &mut unfiltered).unwrap_or_else(|err| {
        panic!("Failed to gzip decompress buffer: {:?}", err);
    });

    assert_eq!(unfiltered, data.as_bytes().to_vec());
}

#[test]
fn gzip_non_default_level() {
    let data = "Hello, World!";

    let filter = GZipFilter::new(6);
    let mut unfiltered = data.as_bytes().to_vec();
    let mut filtered = Vec::new();

    filter.compress(&unfiltered, &mut filtered).unwrap_or_else(|err| {
        panic!("Failed to gzip compress buffer: {:?}", err);
    });

    assert!(!filtered.is_empty());
    assert_ne!(filtered, data.as_bytes().to_vec());

    unfiltered.clear();
    assert!(unfiltered.is_empty());
    assert_ne!(unfiltered, data.as_bytes().to_vec());

    // Resize our output buffer to accept the decompressed data.
    unfiltered.resize(data.len(), 0);

    filter.decompress(&filtered, &mut unfiltered).unwrap_or_else(|err| {
        panic!("Failed to gzip decompress buffer: {:?}", err);
    });

    assert_eq!(unfiltered, data.as_bytes().to_vec());
}

#[test]
fn compressor_levels_are_kept() {
    assert_eq!(GZIPCompressor::default().level, 6);
    assert_eq!(GZIPCompressor::new(9).level, 9);
    assert_eq!(GZipFilter::new(3).level, 3);
}

#[test]
fn compressed_stream_is_the_one_of_the_outside_compressor() {
    let data = b"aaaaaaaaaaaaaaaaaaaaaaaaaaaaaaaaaaaaaaaaaaaa";
    for level in [0u8, 1, 6, 9] {
        let expected = miniz_oxide::deflate::compress_to_vec_zlib(data, level);
        assert_eq!(GZIPCompressor::new(level).compress(data), expected);
        let mut out = b"old".to_vec();
        GZipFilter::new(level).compress(data, &mut out).unwrap();
        assert_eq!(out, expected);
    }
}

#[test]
fn damaged_stream_is_rejected_by_the_compressor() {
    let compressor = GZIPCompressor::default();
    assert!(compressor.decompress(b"not a zlib stream").is_err());
    let mut stream = compressor.compress(b"Hello, world!");
    stream.truncate(stream.len() - 3);
    assert!(compressor.decompress(&stream).is_err());
    assert_eq!(compressor.decompress(&compressor.compress(b"")), Ok(Vec::new()));
}
