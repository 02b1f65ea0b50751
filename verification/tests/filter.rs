use tdbtk::error::{Error, Field};
use tdbtk::filters::FilterType;
use tdbtk::storage::filter::{
    has_reinterpret_type, is_bit_width_reduction_filter, is_compression_filter,
    is_no_config_filter, is_positive_delta_filter, is_scale_float_filter, is_webp_filter, Filter,
    FilterConfig, FilterList,
};

fn all_kinds() -> Vec<FilterType> {
    (0u8..=19).map(FilterType::from).collect()
}

#[test]
fn each_kind_has_one_config_shape() {
    let compression = [
        FilterType::GZip,
        FilterType::Zstd,
        FilterType::LZ4,
        FilterType::Rle,
        FilterType::BZip2,
        FilterType::Delta,
        FilterType::DoubleDelta,
        FilterType::Dictionary,
    ];
    for kind in all_kinds() {
        let shapes = [
            is_compression_filter(kind),
            is_bit_width_reduction_filter(kind),
            is_positive_delta_filter(kind),
            is_scale_float_filter(kind),
            is_webp_filter(kind),
            is_no_config_filter(kind),
        ];
        assert_eq!(shapes.iter().filter(|s| **s).count(), 1);
        assert_eq!(is_compression_filter(kind), compression.contains(&kind));
    }
    assert!(is_bit_width_reduction_filter(FilterType::BitWidthReduction));
    assert!(is_positive_delta_filter(FilterType::PositiveDelta));
    assert!(is_scale_float_filter(FilterType::ScaleFloat));
    assert!(is_webp_filter(FilterType::WebP));
    assert!(is_no_config_filter(FilterType::NoFilter));
    assert!(is_no_config_filter(FilterType::BitShuffle));
    assert!(is_no_config_filter(FilterType::Invalid));
}

#[test]
fn reinterpret_type_depends_on_version_and_kind() {
    assert!(!has_reinterpret_type(18, FilterType::Delta));
    assert!(has_reinterpret_type(19, FilterType::Delta));
    assert!(has_reinterpret_type(21, FilterType::Delta));
    assert!(!has_reinterpret_type(19, FilterType::DoubleDelta));
    assert!(has_reinterpret_type(20, FilterType::DoubleDelta));
    assert!(!has_reinterpret_type(21, FilterType::GZip));
    assert!(!has_reinterpret_type(u32::MAX, FilterType::Zstd));
}

#[test]
fn compression_config_is_decoded() {
    let bytes = [1u8, 6, 0, 0, 0, 0x99];
    assert_eq!(
        FilterConfig::decode(&bytes, 0, 21, FilterType::GZip),
        Ok((
            FilterConfig::Compression {
                compressor_type: FilterType::GZip,
                compression_level: 6,
                reinterpret_type: None
            },
            5
        ))
    );
    let negative = [2u8, 0xff, 0xff, 0xff, 0xff];
    assert_eq!(
        FilterConfig::decode(&negative, 0, 1, FilterType::Zstd),
        Ok((
            FilterConfig::Compression {
                compressor_type: FilterType::Zstd,
                compression_level: -1,
                reinterpret_type: None
            },
            5
        ))
    );
}

#[test]
fn reinterpret_type_is_read_where_the_version_stores_it() {
    let bytes = [19u8, 3, 0, 0, 0, 9];
    assert_eq!(
        FilterConfig::decode(&bytes, 0, 19, FilterType::Delta),
        Ok((
            FilterConfig::Compression {
                compressor_type: FilterType::Delta,
                compression_level: 3,
                reinterpret_type: Some(9)
            },
            6
        ))
    );
    assert_eq!(
        FilterConfig::decode(&bytes, 0, 18, FilterType::Delta),
        Ok((
            FilterConfig::Compression {
                compressor_type: FilterType::Delta,
                compression_level: 3,
                reinterpret_type: None
            },
            5
        ))
    );
    assert_eq!(
        FilterConfig::decode(&bytes[..5], 0, 19, FilterType::Delta),
        Err(Error::UnexpectedEof { field: Field::FilterConfig, offset: 0 })
    );
    let double = [6u8, 3, 0, 0, 0, 7];
    assert_eq!(
        FilterConfig::decode(&double, 0, 19, FilterType::DoubleDelta).unwrap().1,
        5
    );
    assert_eq!(
        FilterConfig::decode(&double, 0, 20, FilterType::DoubleDelta),
        Ok((
            FilterConfig::Compression {
                compressor_type: FilterType::DoubleDelta,
                compression_level: 3,
                reinterpret_type: Some(7)
            },
            6
        ))
    );
}

#[test]
fn other_config_shapes_are_decoded() {
    let window = [0x10u8, 0x27, 0, 0];
    assert_eq!(
        FilterConfig::decode(&window, 0, 21, FilterType::BitWidthReduction),
        Ok((FilterConfig::BitWidthReduction { max_window_size: 10000 }, 4))
    );
    assert_eq!(
        FilterConfig::decode(&window, 0, 21, FilterType::PositiveDelta),
        Ok((FilterConfig::PositiveDelta { max_window_size: 10000 }, 4))
    );
    let mut scale = Vec::new();
    scale.extend(1.5f64.to_le_bytes());
    scale.extend((-2.0f64).to_le_bytes());
    scale.extend(8u64.to_le_bytes());
    assert_eq!(
        FilterConfig::decode(&scale, 0, 21, FilterType::ScaleFloat),
        Ok((
            FilterConfig::ScaleFloat {
                scale_bits: 1.5f64.to_bits(),
                offset_bits: (-2.0f64).to_bits(),
                byte_width: 8
            },
            24
        ))
    );
    let mut webp = Vec::new();
    webp.extend(75.0f32.to_le_bytes());
    webp.extend([2u8, 1]);
    webp.extend(480u16.to_le_bytes());
    webp.extend(640u16.to_le_bytes());
    assert_eq!(
        FilterConfig::decode(&webp, 0, 21, FilterType::WebP),
        Ok((
            FilterConfig::WebP {
                quality_bits: 75.0f32.to_bits(),
                format: 2,
                lossless: 1,
                y_extent: 480,
                x_extent: 640
            },
            10
        ))
    );
    assert_eq!(
        FilterConfig::decode(&[], 0, 21, FilterType::ByteShuffle),
        Ok((FilterConfig::NoConfig, 0))
    );
    assert_eq!(
        FilterConfig::decode(&webp[..9], 0, 21, FilterType::WebP),
        Err(Error::UnexpectedEof { field: Field::FilterConfig, offset: 0 })
    );
}

#[test]
fn unknown_compressor_byte_is_rejected() {
    let bytes = [20u8, 6, 0, 0, 0];
    assert_eq!(
        FilterConfig::decode(&bytes, 0, 21, FilterType::GZip),
        Err(Error::InvalidEnumValue { field: Field::CompressorKind, raw: 20 })
    );
}

#[test]
fn filter_is_decoded_with_its_config() {
    let bytes = [0xaau8, 2, 5, 0, 0, 0, 2, 3, 0, 0, 0];
    assert_eq!(
        Filter::decode(&bytes, 1, 21),
        Ok((
            Filter {
                filter_type: FilterType::Zstd,
                metadata_len: 5,
                config: FilterConfig::Compression {
                    compressor_type: FilterType::Zstd,
                    compression_level: 3,
                    reinterpret_type: None
                }
            },
            11
        ))
    );
    let filter = Filter::decode(&bytes, 1, 21).unwrap().0;
    assert_eq!(filter.filter_type(), FilterType::Zstd);
    assert_eq!(*filter.config(), filter.config);
}

#[test]
fn unknown_filter_byte_is_rejected() {
    let bytes = [200u8, 0, 0, 0, 0];
    assert_eq!(
        Filter::decode(&bytes, 0, 21),
        Err(Error::InvalidEnumValue { field: Field::FilterKind, raw: 200 })
    );
    assert_eq!(
        Filter::decode(&bytes[..4], 0, 21),
        Err(Error::UnexpectedEof { field: Field::FilterHeader, offset: 0 })
    );
    assert_eq!(
        Filter::decode(&[1u8, 0, 0, 0, 0, 1], 0, 21),
        Err(Error::UnexpectedEof { field: Field::FilterConfig, offset: 5 })
    );
}

fn pipeline_bytes() -> Vec<u8> {
    let mut bytes = Vec::new();
    bytes.extend(65536u32.to_le_bytes());
    bytes.extend(3u32.to_le_bytes());
    bytes.extend([9u8, 0, 0, 0, 0]);
    bytes.extend([1u8, 4, 0, 0, 0, 1, 9, 0, 0, 0]);
    bytes.extend([7u8, 0, 0, 0, 0, 0x00, 0x01, 0, 0]);
    bytes
}

#[test]
fn pipeline_is_decoded_in_order() {
    let bytes = pipeline_bytes();
    let (list, next) = FilterList::decode(&bytes, 0, 21).unwrap();
    assert_eq!(next, bytes.len());
    assert_eq!(list.max_chunk_size, 65536);
    assert_eq!(list.filters().len(), 3);
    assert_eq!(list.filters[0].filter_type, FilterType::ByteShuffle);
    assert_eq!(list.filters[0].config, FilterConfig::NoConfig);
    assert_eq!(list.filters[1].filter_type, FilterType::GZip);
    assert_eq!(list.filters[1].metadata_len, 4);
    assert_eq!(
        list.filters[2].config,
        FilterConfig::BitWidthReduction { max_window_size: 256 }
    );
    assert_eq!(list.clone(), list);
}

#[test]
fn pipeline_without_filters_is_decoded() {
    let bytes = [0u8, 0, 1, 0, 0, 0, 0, 0, 0xff];
    let (list, next) = FilterList::decode(&bytes, 0, 1).unwrap();
    assert_eq!(next, 8);
    assert_eq!(list.max_chunk_size, 65536);
    assert!(list.filters.is_empty());
    assert_eq!(FilterList::default().max_chunk_size, 0);
    assert!(FilterList::default().filters.is_empty());
}

#[test]
fn truncated_pipeline_is_an_end_of_input() {
    let bytes = pipeline_bytes();
    assert_eq!(
        FilterList::decode(&bytes[..7], 0, 21),
        Err(Error::UnexpectedEof { field: Field::PipelineHeader, offset: 0 })
    );
    assert_eq!(
        FilterList::decode(&bytes[..bytes.len() - 1], 0, 21),
        Err(Error::UnexpectedEof { field: Field::FilterConfig, offset: 28 })
    );
    assert_eq!(
        FilterList::decode(&bytes[..13], 0, 21),
        Err(Error::UnexpectedEof { field: Field::FilterHeader, offset: 13 })
    );
}

#[test]
fn pipeline_encodes_to_the_bytes_it_was_decoded_from() {
    let mut bytes = pipeline_bytes();
    bytes.extend([1u8, 2, 3]);
    let (list, next) = FilterList::decode(&bytes, 0, 21).unwrap();
    let mut out = Vec::new();
    list.encode(&mut out);
    assert_eq!(out, bytes[..next].to_vec());
}

#[test]
fn every_config_shape_encodes_to_the_bytes_it_was_decoded_from() {
    let mut bytes = Vec::new();
    bytes.extend(7u32.to_le_bytes());
    bytes.extend(6u32.to_le_bytes());
    bytes.extend([19u8, 0, 0, 0, 0, 19, 0xfe, 0xff, 0xff, 0xff, 3]);
    bytes.extend([10u8, 1, 0, 0, 0, 5, 0, 0, 0]);
    bytes.extend([15u8, 2, 0, 0, 0]);
    bytes.extend(0.25f64.to_le_bytes());
    bytes.extend(10.0f64.to_le_bytes());
    bytes.extend(4u64.to_le_bytes());
    bytes.extend([18u8, 3, 0, 0, 0]);
    bytes.extend(50.0f32.to_le_bytes());
    bytes.extend([1u8, 0, 8, 0, 16, 0]);
    bytes.extend([0u8, 0, 0, 0, 0]);
    bytes.extend([3u8, 9, 0, 0, 0, 3, 1, 0, 0, 0]);
    for version in [19u32, 20, 21] {
        let (list, next) = FilterList::decode(&bytes, 0, version).unwrap();
        assert_eq!(next, bytes.len());
        assert_eq!(list.filters.len(), 6);
        let mut out = Vec::new();
        list.encode(&mut out);
        assert_eq!(out, bytes);
    }
}
