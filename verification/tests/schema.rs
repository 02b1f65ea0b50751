use tdbtk::array::{ArrayType, DataOrder, Layout};
use tdbtk::datatype::DataType;
use tdbtk::error::{Error, Field};
use tdbtk::filters::FilterType;
use tdbtk::storage::filter::{FilterConfig, FilterList};
use tdbtk::storage::schema::{
    ArraySchema, Attribute, Dimension, DimensionLabel, Domain, EnumerationEntry,
};

fn block32(bytes: &[u8]) -> Vec<u8> {
    let mut out = (bytes.len() as u32).to_le_bytes().to_vec();
    out.extend(bytes);
    out
}

fn block64(bytes: &[u8]) -> Vec<u8> {
    let mut out = (bytes.len() as u64).to_le_bytes().to_vec();
    out.extend(bytes);
    out
}

fn no_filters() -> Vec<u8> {
    let mut out = 65536u32.to_le_bytes().to_vec();
    out.extend(0u32.to_le_bytes());
    out
}

fn gzip_filters() -> Vec<u8> {
    let mut out = 1024u32.to_le_bytes().to_vec();
    out.extend(1u32.to_le_bytes());
    out.extend([1u8, 0, 0, 0, 0, 1, 5, 0, 0, 0]);
    out
}

fn zstd_filters() -> Vec<u8> {
    let mut out = 2048u32.to_le_bytes().to_vec();
    out.extend(1u32.to_le_bytes());
    out.extend([2u8, 0, 0, 0, 0, 2, 3, 0, 0, 0]);
    out
}

/// A schema of two dimensions and two attributes, as format `version`
/// stores it.
fn schema_bytes(version: u32) -> Vec<u8> {
    let mut b = version.to_le_bytes().to_vec();
    if version >= 5 {
        b.push(1);
    }
    b.extend([1u8, 0, 2]);
    b.extend(10000u64.to_le_bytes());
    b.extend(gzip_filters());
    b.extend(no_filters());
    if version >= 7 {
        b.extend(zstd_filters());
    }
    // The domain.
    if version < 5 {
        b.push(9);
    }
    b.extend(2u32.to_le_bytes());
    for name in ["rows", "cols"] {
        b.extend(block32(name.as_bytes()));
        if version >= 5 {
            b.push(7);
            b.extend(1u32.to_le_bytes());
            b.extend(zstd_filters());
            b.extend(4u64.to_le_bytes());
            b.extend([1u8, 0, 100, 0]);
            b.push(0);
            b.extend([10u8, 0]);
        } else {
            b.extend([1u8, 0, 0, 0, 100, 0, 0, 0]);
            b.push(0);
            b.extend([10u8, 0, 0, 0]);
        }
    }
    // The attributes.
    b.extend(2u32.to_le_bytes());
    for (name, dtype) in [("a", 3u8), ("text", 12u8)] {
        b.extend(block32(name.as_bytes()));
        b.push(dtype);
        b.extend(if dtype == 12 { u32::MAX } else { 1 }.to_le_bytes());
        b.extend(no_filters());
        if version >= 6 {
            b.extend(block64(&[0xab, 0xcd]));
        }
        if version >= 7 {
            b.extend([1u8, 0]);
        }
        if version >= 17 {
            b.push(1);
        }
        if version >= 20 {
            b.extend(block32(b"colors"));
        }
    }
    if version >= 18 {
        b.extend(1u32.to_le_bytes());
        b.extend(3u32.to_le_bytes());
        b.extend(block32(b"label"));
        b.push(1);
        b.extend(block64(b"__labels/l0"));
        b.extend(block32(b"values"));
        b.extend([2u8, 1]);
        b.extend(1u32.to_le_bytes());
        b.push(0);
    }
    if version >= 20 {
        b.extend(2u32.to_le_bytes());
        b.extend(block32(b"colors"));
        b.extend(block32(b"__enumerations/e0"));
        b.extend(block32(b"sizes"));
        b.extend(block32(b"__enumerations/e1"));
    }
    b
}

#[test]
fn newest_version_is_decoded_field_by_field() {
    let bytes = schema_bytes(21);
    let (schema, next) = ArraySchema::decode_at(&bytes, 0).unwrap();
    assert_eq!(next, bytes.len());
    assert_eq!(schema.version, 21);
    assert_eq!(schema.allows_dups, 1);
    assert_eq!(schema.array_type, ArrayType::Sparse);
    assert_eq!(schema.tile_order, Layout::RowMajor);
    assert_eq!(schema.cell_order, Layout::GlobalOrder);
    assert_eq!(schema.capacity, 10000);
    assert_eq!(schema.coords_filters.max_chunk_size, 1024);
    assert_eq!(schema.coords_filters.filters.len(), 1);
    assert_eq!(schema.coords_filters.filters[0].filter_type, FilterType::GZip);
    assert!(schema.cell_var_filters.filters.is_empty());
    assert_eq!(schema.cell_validity_filters.filters[0].filter_type, FilterType::Zstd);
    assert_eq!(schema.domain.data_type, DataType::Int32);
    assert_eq!(schema.domain.dimensions.len(), 2);
    let rows = &schema.domain.dimensions[0];
    assert_eq!(rows.name, b"rows".to_vec());
    assert_eq!(rows.data_type, DataType::Int16);
    assert_eq!(rows.cell_val_num, 1);
    assert_eq!(rows.coords_filters.filters[0].filter_type, FilterType::Zstd);
    assert_eq!(rows.range, vec![1, 0, 100, 0]);
    assert_eq!(rows.null_tile_extent, 0);
    assert_eq!(rows.tile_extent, vec![10, 0]);
    assert_eq!(schema.domain.dimensions[1].name, b"cols".to_vec());
    assert_eq!(schema.attributes.len(), 2);
    let a = &schema.attributes[0];
    assert_eq!(a.name, "a");
    assert_eq!(a.data_type, DataType::Float64);
    assert_eq!(a.cell_val_num, 1);
    assert!(a.filters.filters.is_empty());
    assert_eq!(a.fill_value, vec![0xab, 0xcd]);
    assert_eq!(a.nullable, 1);
    assert_eq!(a.fill_value_validity, 0);
    assert_eq!(a.data_order, DataOrder::Increasing);
    assert_eq!(a.enumeration_name, b"colors".to_vec());
    assert_eq!(schema.attributes[1].name, "text");
    assert_eq!(schema.attributes[1].data_type, DataType::StringUtf8);
    assert_eq!(schema.attributes[1].cell_val_num, u32::MAX);
    assert_eq!(
        schema.dimension_labels,
        vec![DimensionLabel {
            dimension_id: 3,
            name: b"label".to_vec(),
            relative_uri: 1,
            uri: b"__labels/l0".to_vec(),
            attribute_name: b"values".to_vec(),
            data_order: DataOrder::Decreasing,
            data_type: DataType::Int64,
            cell_val_num: 1,
            is_external: 0,
        }]
    );
    assert_eq!(
        schema.enumeration_map,
        vec![
            EnumerationEntry { name: "colors".to_string(), path: "__enumerations/e0".to_string() },
            EnumerationEntry { name: "sizes".to_string(), path: "__enumerations/e1".to_string() },
        ]
    );
}

#[test]
fn version_4_dimensions_take_type_and_filters_from_the_schema() {
    let bytes = schema_bytes(4);
    let schema = ArraySchema::decode(&bytes).unwrap();
    assert_eq!(schema.version, 4);
    assert_eq!(schema.allows_dups, 0);
    assert_eq!(schema.domain.data_type, DataType::Uint32);
    assert!(schema.cell_validity_filters.filters.is_empty());
    assert_eq!(schema.cell_validity_filters, FilterList::default());
    for dimension in schema.domain.dimensions.iter() {
        assert_eq!(dimension.data_type, DataType::Uint32);
        assert_eq!(dimension.cell_val_num, 1);
        assert_eq!(dimension.coords_filters, schema.coords_filters);
        assert_eq!(dimension.range, vec![1, 0, 0, 0, 100, 0, 0, 0]);
        assert_eq!(dimension.tile_extent, vec![10, 0, 0, 0]);
    }
    let a = &schema.attributes[0];
    assert!(a.fill_value.is_empty());
    assert_eq!(a.nullable, 0);
    assert_eq!(a.fill_value_validity, 0);
    assert_eq!(a.data_order, DataOrder::Unordered);
    assert!(a.enumeration_name.is_empty());
    assert!(schema.dimension_labels.is_empty());
    assert!(schema.enumeration_map.is_empty());
}

#[test]
fn version_4_text_dimension_has_variable_cell_val_num() {
    let mut b = 4u32.to_le_bytes().to_vec();
    b.extend([0u8, 0, 0]);
    b.extend(1u64.to_le_bytes());
    b.extend(no_filters());
    b.extend(no_filters());
    b.push(12);
    b.extend(1u32.to_le_bytes());
    b.extend(block32(b"d"));
    b.extend([b'a', b'z']);
    b.push(1);
    b.extend(0u32.to_le_bytes());
    let schema = ArraySchema::decode(&b).unwrap();
    let d = &schema.domain.dimensions[0];
    assert_eq!(d.data_type, DataType::StringUtf8);
    assert_eq!(d.cell_val_num, u32::MAX);
    assert_eq!(d.range, b"az".to_vec());
    assert_eq!(d.null_tile_extent, 1);
    assert!(d.tile_extent.is_empty());
}

#[test]
fn validity_filters_are_stored_from_version_7_on() {
    let six = schema_bytes(6);
    let seven = schema_bytes(7);
    let schema6 = ArraySchema::decode(&six).unwrap();
    let schema7 = ArraySchema::decode(&seven).unwrap();
    assert!(schema6.cell_validity_filters.filters.is_empty());
    assert_eq!(schema7.cell_validity_filters.filters.len(), 1);
    assert_eq!(schema7.cell_validity_filters.max_chunk_size, 2048);
    // The two nullable bytes of each attribute come with the same version.
    assert_eq!(seven.len(), six.len() + zstd_filters().len() + 2 * 2);
    assert_eq!(schema6.attributes[0].fill_value, vec![0xab, 0xcd]);
    assert_eq!(schema6.attributes[0].nullable, 0);
    assert_eq!(schema7.attributes[0].nullable, 1);
}

#[test]
fn version_22_is_rejected() {
    let bytes = schema_bytes(22);
    assert_eq!(ArraySchema::decode(&bytes), Err(Error::UnsupportedVersion { version: 22 }));
    assert_eq!(
        ArraySchema::decode(&22u32.to_le_bytes()),
        Err(Error::UnsupportedVersion { version: 22 })
    );
    assert_eq!(
        ArraySchema::decode(&u32::MAX.to_le_bytes()),
        Err(Error::UnsupportedVersion { version: u32::MAX })
    );
    assert!(ArraySchema::decode(&schema_bytes(21)).is_ok());
}

#[test]
fn every_version_encodes_to_the_bytes_it_was_decoded_from() {
    for version in 1u32..=21 {
        let mut bytes = schema_bytes(version);
        let len = bytes.len();
        bytes.extend([0xde, 0xad]);
        let (schema, next) = ArraySchema::decode_at(&bytes, 0).unwrap();
        assert_eq!(next, len);
        assert_eq!(schema.encode(), bytes[..len].to_vec());
    }
}

#[test]
fn schema_is_decoded_at_a_position() {
    let mut bytes = vec![0u8; 5];
    bytes.extend(schema_bytes(12));
    let (schema, next) = ArraySchema::decode_at(&bytes, 5).unwrap();
    assert_eq!(next, bytes.len());
    assert_eq!(schema.version, 12);
    assert_eq!(schema, ArraySchema::decode(&bytes[5..]).unwrap());
}

#[test]
fn unknown_enum_bytes_are_rejected_with_field_and_byte() {
    let good = schema_bytes(21);
    let mut bytes = good.clone();
    bytes[5] = 2;
    assert_eq!(
        ArraySchema::decode(&bytes),
        Err(Error::InvalidEnumValue { field: Field::ArrayType, raw: 2 })
    );
    bytes[5] = 255;
    assert_eq!(
        ArraySchema::decode(&bytes),
        Err(Error::InvalidEnumValue { field: Field::ArrayType, raw: 255 })
    );
    let mut bytes = good.clone();
    bytes[6] = 5;
    assert_eq!(
        ArraySchema::decode(&bytes),
        Err(Error::InvalidEnumValue { field: Field::TileOrder, raw: 5 })
    );
    let mut bytes = good.clone();
    bytes[7] = 77;
    assert_eq!(
        ArraySchema::decode(&bytes),
        Err(Error::InvalidEnumValue { field: Field::CellOrder, raw: 77 })
    );
    let mut old = schema_bytes(4);
    old[4] = 9;
    assert_eq!(
        ArraySchema::decode(&old),
        Err(Error::InvalidEnumValue { field: Field::ArrayType, raw: 9 })
    );
}

#[test]
fn unknown_type_and_order_bytes_are_rejected() {
    let mut attribute = block32(b"a");
    attribute.push(42);
    attribute.extend(1u32.to_le_bytes());
    attribute.extend(no_filters());
    assert_eq!(
        Attribute::decode(&attribute, 0, 3),
        Err(Error::InvalidEnumValue { field: Field::DataType, raw: 42 })
    );
    attribute[5] = 0;
    assert!(Attribute::decode(&attribute, 0, 3).is_ok());
    let mut ordered = attribute.clone();
    ordered.extend(block64(&[]));
    ordered.extend([0u8, 0, 3]);
    assert_eq!(
        Attribute::decode(&ordered, 0, 17),
        Err(Error::InvalidEnumValue { field: Field::DataOrder, raw: 3 })
    );
    assert_eq!(Attribute::decode(&ordered, 0, 16).unwrap().1, ordered.len() - 1);
    let mut dimension = block32(b"d");
    dimension.push(99);
    dimension.extend(1u32.to_le_bytes());
    assert_eq!(
        Dimension::decode(&dimension, 0, 5, DataType::Int32, &FilterList::default()),
        Err(Error::InvalidEnumValue { field: Field::DataType, raw: 99 })
    );
    assert_eq!(
        Domain::decode(&[200u8, 0, 0, 0, 0], 0, 4, &FilterList::default()),
        Err(Error::InvalidEnumValue { field: Field::DataType, raw: 200 })
    );
    let mut label = 0u32.to_le_bytes().to_vec();
    label.extend(block32(b"l"));
    label.push(0);
    label.extend(block64(b"u"));
    label.extend(block32(b"a"));
    label.extend([0u8, 50, 1, 0, 0, 0, 0]);
    assert_eq!(
        DimensionLabel::decode(&label, 0),
        Err(Error::InvalidEnumValue { field: Field::DataType, raw: 50 })
    );
    let at = label.len() - 7;
    label[at] = 4;
    assert_eq!(
        DimensionLabel::decode(&label, 0),
        Err(Error::InvalidEnumValue { field: Field::DataOrder, raw: 4 })
    );
}

#[test]
fn unknown_filter_byte_inside_a_schema_is_rejected() {
    let mut bytes = schema_bytes(21);
    // The kind of the one coordinate filter.
    bytes[16 + 8] = 20;
    assert_eq!(
        ArraySchema::decode(&bytes),
        Err(Error::InvalidEnumValue { field: Field::FilterKind, raw: 20 })
    );
}

#[test]
fn truncated_schema_is_an_end_of_input_at_every_length() {
    for version in [1u32, 4, 5, 6, 7, 17, 18, 20, 21] {
        let bytes = schema_bytes(version);
        for len in 0..bytes.len() {
            match ArraySchema::decode(&bytes[..len]) {
                Err(Error::UnexpectedEof { offset, .. }) => assert!(offset <= len),
                other => panic!("version {} cut to {}: {:?}", version, len, other),
            }
        }
    }
}

#[test]
fn ends_of_input_name_the_field() {
    let bytes = schema_bytes(21);
    assert_eq!(
        ArraySchema::decode(&bytes[..3]),
        Err(Error::UnexpectedEof { field: Field::Version, offset: 0 })
    );
    assert_eq!(
        ArraySchema::decode(&bytes[..4]),
        Err(Error::UnexpectedEof { field: Field::AllowsDups, offset: 4 })
    );
    assert_eq!(
        ArraySchema::decode(&bytes[..15]),
        Err(Error::UnexpectedEof { field: Field::SchemaHeader, offset: 5 })
    );
    assert_eq!(
        ArraySchema::decode(&bytes[..16]),
        Err(Error::UnexpectedEof { field: Field::PipelineHeader, offset: 16 })
    );
    assert_eq!(
        ArraySchema::decode(&bytes[..bytes.len() - 1]),
        Err(Error::UnexpectedEof { field: Field::EnumerationPath, offset: bytes.len() - 17 })
    );
}

#[test]
fn names_that_are_no_text_are_rejected() {
    let mut attribute = block32(&[0xff, 0xff]);
    attribute.push(0);
    attribute.extend(1u32.to_le_bytes());
    attribute.extend(no_filters());
    assert_eq!(
        Attribute::decode(&attribute, 0, 1),
        Err(Error::InvalidText { field: Field::Name })
    );
    let mut entry = block32(b"ok");
    entry.extend(block32(&[0xc0]));
    assert_eq!(
        EnumerationEntry::decode(&entry, 0),
        Err(Error::InvalidText { field: Field::EnumerationPath })
    );
    let mut entry = block32(&[0x80]);
    entry.extend(block32(b"ok"));
    assert_eq!(
        EnumerationEntry::decode(&entry, 0),
        Err(Error::InvalidText { field: Field::EnumerationName })
    );
    let mut bytes = schema_bytes(21);
    let at = bytes.len() - 17 - 4 - 5;
    assert_eq!(&bytes[at..at + 5], b"sizes");
    bytes[at] = 0xfe;
    assert_eq!(
        ArraySchema::decode(&bytes),
        Err(Error::InvalidText { field: Field::EnumerationName })
    );
}

#[test]
fn reinterpret_type_inside_a_schema_follows_the_version() {
    fn with_delta(version: u32, reinterpret: bool) -> Vec<u8> {
        let mut b = version.to_le_bytes().to_vec();
        b.push(0);
        b.extend([0u8, 0, 0]);
        b.extend(1u64.to_le_bytes());
        b.extend(1u32.to_le_bytes());
        b.extend(1u32.to_le_bytes());
        b.extend([19u8, 0, 0, 0, 0, 19, 1, 0, 0, 0]);
        if reinterpret {
            b.push(5);
        }
        // No filters for cells of variable size and for validity, no
        // dimensions, no attributes.
        b.extend(0u32.to_le_bytes());
        b.extend(0u32.to_le_bytes());
        b.extend(0u32.to_le_bytes());
        b.extend(0u32.to_le_bytes());
        b.extend(0u32.to_le_bytes());
        b.extend(0u32.to_le_bytes());
        if version >= 18 {
            b.extend(0u32.to_le_bytes());
        }
        if version >= 20 {
            b.extend(0u32.to_le_bytes());
        }
        b
    }
    let old = ArraySchema::decode(&with_delta(18, false)).unwrap();
    assert_eq!(
        old.coords_filters.filters[0].config,
        FilterConfig::Compression {
            compressor_type: FilterType::Delta,
            compression_level: 1,
            reinterpret_type: None
        }
    );
    let new = ArraySchema::decode(&with_delta(19, true)).unwrap();
    assert_eq!(
        new.coords_filters.filters[0].config,
        FilterConfig::Compression {
            compressor_type: FilterType::Delta,
            compression_level: 1,
            reinterpret_type: Some(5)
        }
    );
    assert_eq!(new.encode(), with_delta(19, true));
    assert_eq!(old.encode(), with_delta(18, false));
}

fn tile_of(data: &[u8]) -> Vec<u8> {
    let mut pipeline = 65536u32.to_le_bytes().to_vec();
    pipeline.extend(1u32.to_le_bytes());
    pipeline.extend([0u8, 0, 0, 0, 0]);
    let mut payload = 1u64.to_le_bytes().to_vec();
    payload.extend((data.len() as u32).to_le_bytes());
    payload.extend((data.len() as u32).to_le_bytes());
    payload.extend(0u32.to_le_bytes());
    payload.extend(data);
    let mut tile = 21u32.to_le_bytes().to_vec();
    tile.extend((payload.len() as u64).to_le_bytes());
    tile.extend((data.len() as u64).to_le_bytes());
    tile.push(6);
    tile.extend(1u64.to_le_bytes());
    tile.push(0);
    tile.extend((pipeline.len() as u32).to_le_bytes());
    tile.extend(pipeline);
    tile.extend(payload);
    tile
}

#[test]
fn schema_is_loaded_from_a_stored_tile() {
    let bytes = schema_bytes(21);
    let schema = ArraySchema::load(&tile_of(&bytes)).unwrap();
    assert_eq!(schema, ArraySchema::decode(&bytes).unwrap());
    assert_eq!(
        ArraySchema::load(&tile_of(&schema_bytes(22))),
        Err(Error::UnsupportedVersion { version: 22 })
    );
    assert_eq!(
        ArraySchema::load(&tile_of(&bytes)[..40]),
        Err(Error::UnexpectedEof { field: Field::FilterPipeline, offset: 34 })
    );
    assert_eq!(
        ArraySchema::load(&[]),
        Err(Error::UnexpectedEof { field: Field::TileHeader, offset: 0 })
    );
}
