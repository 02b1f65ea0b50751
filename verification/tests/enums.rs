use tdbtk::array::{ArrayType, DataOrder, Layout};
use tdbtk::datatype::DataType;
use tdbtk::filters::FilterType;
use tdbtk::storage::schema::{cell_val_size, CELL_VAR_SIZE};
use tdbtk::storage::CURRENT_FORMAT_VERSION;

#[test]
fn data_type_bytes_name_their_types() {
    assert_eq!(DataType::from(0u8), DataType::Int32);
    assert_eq!(DataType::from(1u8), DataType::Int64);
    assert_eq!(DataType::from(4u8), DataType::Char);
    assert_eq!(DataType::from(11u8), DataType::StringAscii);
    assert_eq!(DataType::from(16u8), DataType::StringUcs4);
    assert_eq!(DataType::from(17u8), DataType::Any);
    assert_eq!(DataType::from(18u8), DataType::DatetimeYear);
    assert_eq!(DataType::from(30u8), DataType::DatetimeASec);
    assert_eq!(DataType::from(31u8), DataType::TimeHour);
    assert_eq!(DataType::from(39u8), DataType::TimeASec);
    assert_eq!(DataType::from(40u8), DataType::Blob);
    assert_eq!(DataType::from(41u8), DataType::Bool);
}

#[test]
fn data_type_bytes_out_of_range_are_invalid() {
    for b in 42u8..=255 {
        assert_eq!(DataType::from(b), DataType::Invalid);
    }
}

#[test]
fn data_type_codes_round_trip() {
    for b in 0u8..=41 {
        let t = DataType::from(b);
        assert_ne!(t, DataType::Invalid);
        assert_eq!(t.to_u8(), b);
    }
    assert_eq!(DataType::Invalid.to_u8(), 255);
}

#[test]
fn data_type_widths() {
    assert_eq!(DataType::Int32.size(), 4);
    assert_eq!(DataType::Int64.size(), 8);
    assert_eq!(DataType::Float32.size(), 4);
    assert_eq!(DataType::Float64.size(), 8);
    assert_eq!(DataType::Char.size(), 4);
    assert_eq!(DataType::Int8.size(), 1);
    assert_eq!(DataType::Uint8.size(), 1);
    assert_eq!(DataType::Int16.size(), 2);
    assert_eq!(DataType::Uint16.size(), 2);
    assert_eq!(DataType::Uint32.size(), 4);
    assert_eq!(DataType::Uint64.size(), 8);
    assert_eq!(DataType::StringAscii.size(), 4);
    assert_eq!(DataType::StringUtf8.size(), 1);
    assert_eq!(DataType::StringUtf16.size(), 2);
    assert_eq!(DataType::StringUtf32.size(), 4);
    assert_eq!(DataType::StringUcs2.size(), 2);
    assert_eq!(DataType::StringUcs4.size(), 4);
    assert_eq!(DataType::Any.size(), 1);
    assert_eq!(DataType::DatetimeYear.size(), 8);
    assert_eq!(DataType::TimeASec.size(), 8);
    assert_eq!(DataType::Blob.size(), 1);
    assert_eq!(DataType::Bool.size(), 1);
    assert_eq!(DataType::Invalid.size(), 0);
}

#[test]
fn only_the_six_text_types_are_string_types() {
    for b in 0u8..=255 {
        let t = DataType::from(b);
        assert_eq!(t.is_string_type(), (11..=16).contains(&b));
    }
}

#[test]
fn cell_val_size_is_variable_for_text_only() {
    assert_eq!(CELL_VAR_SIZE, u32::MAX);
    assert_eq!(cell_val_size(DataType::StringUtf8), u32::MAX);
    assert_eq!(cell_val_size(DataType::StringAscii), u32::MAX);
    assert_eq!(cell_val_size(DataType::Int32), 1);
    assert_eq!(cell_val_size(DataType::Char), 1);
    assert_eq!(cell_val_size(DataType::Invalid), 1);
}

#[test]
fn array_type_bytes() {
    assert_eq!(ArrayType::from(0u8), ArrayType::Dense);
    assert_eq!(ArrayType::from(1u8), ArrayType::Sparse);
    for b in 2u8..=255 {
        assert_eq!(ArrayType::from(b), ArrayType::Invalid);
    }
    assert_eq!(ArrayType::Dense.to_u8(), 0);
    assert_eq!(ArrayType::Sparse.to_u8(), 1);
    assert_eq!(ArrayType::Invalid.to_u8(), 255);
}

#[test]
fn layout_bytes() {
    assert_eq!(Layout::from(0u8), Layout::RowMajor);
    assert_eq!(Layout::from(1u8), Layout::ColMajor);
    assert_eq!(Layout::from(2u8), Layout::GlobalOrder);
    assert_eq!(Layout::from(3u8), Layout::Unordered);
    assert_eq!(Layout::from(4u8), Layout::Hilbert);
    for b in 5u8..=255 {
        assert_eq!(Layout::from(b), Layout::Invalid);
    }
    for b in 0u8..=4 {
        assert_eq!(Layout::from(b).to_u8(), b);
    }
}

#[test]
fn data_order_bytes() {
    assert_eq!(DataOrder::from(0u8), DataOrder::Unordered);
    assert_eq!(DataOrder::from(1u8), DataOrder::Increasing);
    assert_eq!(DataOrder::from(2u8), DataOrder::Decreasing);
    for b in 3u8..=255 {
        assert_eq!(DataOrder::from(b), DataOrder::Invalid);
    }
    for b in 0u8..=2 {
        assert_eq!(DataOrder::from(b).to_u8(), b);
    }
}

#[test]
fn filter_type_bytes() {
    let kinds = [
        FilterType::NoFilter,
        FilterType::GZip,
        FilterType::Zstd,
        FilterType::LZ4,
        FilterType::Rle,
        FilterType::BZip2,
        FilterType::DoubleDelta,
        FilterType::BitWidthReduction,
        FilterType::BitShuffle,
        FilterType::ByteShuffle,
        FilterType::PositiveDelta,
        FilterType::Encryption,
        FilterType::ChecksumMD5,
        FilterType::ChecksumSHA256,
        FilterType::Dictionary,
        FilterType::ScaleFloat,
        FilterType::Xor,
        FilterType::Deprecated,
        FilterType::WebP,
        FilterType::Delta,
    ];
    for (b, kind) in kinds.iter().enumerate() {
        assert_eq!(FilterType::from(b as u8), *kind);
        assert_eq!(kind.to_u8(), b as u8);
    }
    for b in 20u8..=255 {
        assert_eq!(FilterType::from(b), FilterType::Invalid);
    }
    assert_eq!(FilterType::Invalid.to_u8(), 255);
}

#[test]
fn current_format_version_is_21() {
    assert_eq!(CURRENT_FORMAT_VERSION, 21);
}
