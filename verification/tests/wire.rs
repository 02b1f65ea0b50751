use tdbtk::error::{Error, Field};
use tdbtk::storage::wire;

#[test]
fn integers_are_read_least_significant_byte_first() {
    let bytes = [0x01u8, 0x02, 0x03, 0x04, 0x05, 0x06, 0x07, 0x08, 0x09];
    assert_eq!(wire::read_u8(&bytes, 8, Field::Count), Ok((0x09, 9)));
    assert_eq!(wire::read_u16(&bytes, 0, Field::Count), Ok((0x0201, 2)));
    assert_eq!(wire::read_u32(&bytes, 1, Field::Count), Ok((0x05040302, 5)));
    assert_eq!(wire::read_u64(&bytes, 1, Field::Count), Ok((0x0908070605040302, 9)));
    assert_eq!(wire::get_u16(&bytes, 7), 0x0908);
    assert_eq!(wire::get_u32(&bytes, 0), 0x04030201);
    assert_eq!(wire::get_u64(&bytes, 0), 0x0807060504030201);
}

#[test]
fn signed_integers_are_read_in_twos_complement() {
    assert_eq!(wire::read_i32(&[0xff, 0xff, 0xff, 0xff], 0, Field::Count), Ok((-1, 4)));
    assert_eq!(wire::read_i32(&[0x00, 0x00, 0x00, 0x80], 0, Field::Count), Ok((i32::MIN, 4)));
    assert_eq!(wire::read_i32(&[0xff, 0xff, 0xff, 0x7f], 0, Field::Count), Ok((i32::MAX, 4)));
    assert_eq!(wire::read_i32(&[0x06, 0x00, 0x00, 0x00], 0, Field::Count), Ok((6, 4)));
    assert_eq!(wire::get_i32(&[0xfe, 0xff, 0xff, 0xff], 0), -2);
}

#[test]
fn reading_past_the_end_names_field_and_offset() {
    let bytes = [1u8, 2, 3];
    assert_eq!(
        wire::read_u32(&bytes, 0, Field::SchemaHeader),
        Err(Error::UnexpectedEof { field: Field::SchemaHeader, offset: 0 })
    );
    assert_eq!(
        wire::read_u8(&bytes, 3, Field::Version),
        Err(Error::UnexpectedEof { field: Field::Version, offset: 3 })
    );
    assert_eq!(
        wire::read_u16(&bytes, 2, Field::Version),
        Err(Error::UnexpectedEof { field: Field::Version, offset: 2 })
    );
    assert_eq!(
        wire::read_u64(&bytes, 9, Field::Version),
        Err(Error::UnexpectedEof { field: Field::Version, offset: 9 })
    );
    assert_eq!(
        wire::read_bytes(&bytes, 1, 3, Field::Name),
        Err(Error::UnexpectedEof { field: Field::Name, offset: 1 })
    );
    assert_eq!(
        wire::read_bytes(&bytes, 1, u64::MAX, Field::Name),
        Err(Error::UnexpectedEof { field: Field::Name, offset: 1 })
    );
    assert_eq!(
        wire::need(&bytes, 2, 2, Field::Name),
        Err(Error::UnexpectedEof { field: Field::Name, offset: 2 })
    );
    assert_eq!(wire::need(&bytes, 3, 0, Field::Name), Ok(()));
}

#[test]
fn bytes_and_blocks_are_read_whole() {
    let bytes = [9u8, 2, 0, 0, 0, b'h', b'i', 7];
    assert_eq!(wire::read_bytes(&bytes, 5, 2, Field::Name), Ok((b"hi".to_vec(), 7)));
    assert_eq!(wire::read_bytes(&bytes, 8, 0, Field::Name), Ok((Vec::new(), 8)));
    assert_eq!(wire::read_block32(&bytes, 1, Field::Name), Ok((b"hi".to_vec(), 7)));
    let long = [1u8, 0, 0, 0, 0, 0, 0, 0, b'x'];
    assert_eq!(wire::read_block64(&long, 0, Field::Uri), Ok((b"x".to_vec(), 9)));
    assert_eq!(
        wire::read_block32(&bytes, 4, Field::Name),
        Err(Error::UnexpectedEof { field: Field::Name, offset: 8 })
    );
    assert_eq!(
        wire::read_block32(&bytes, 6, Field::Name),
        Err(Error::UnexpectedEof { field: Field::Name, offset: 6 })
    );
}

#[test]
fn fields_that_are_not_stored_take_no_bytes() {
    let bytes = [5u8, 1, 0, 0, 0, b'z'];
    assert_eq!(wire::read_u8_if(true, &bytes, 0, Field::Nullable), Ok((5, 1)));
    assert_eq!(wire::read_u8_if(false, &bytes, 0, Field::Nullable), Ok((0, 0)));
    assert_eq!(wire::read_u32_if(true, &bytes, 1, Field::Count, 9), Ok((1, 5)));
    assert_eq!(wire::read_u32_if(false, &bytes, 1, Field::Count, 9), Ok((9, 1)));
    assert_eq!(wire::read_block32_if(true, &bytes, 1, Field::Name), Ok((b"z".to_vec(), 6)));
    assert_eq!(wire::read_block32_if(false, &bytes, 1, Field::Name), Ok((Vec::new(), 1)));
    assert_eq!(wire::read_block64_if(false, &bytes, 6, Field::Name), Ok((Vec::new(), 6)));
}

#[test]
fn integers_are_written_as_they_are_read() {
    let mut out = vec![0xeeu8];
    wire::write_u8(&mut out, 7);
    wire::write_u16(&mut out, 0x0201);
    wire::write_u32(&mut out, 0x06050403);
    wire::write_u64(&mut out, 0x0e0d0c0b0a090807);
    wire::write_i32(&mut out, -2);
    assert_eq!(
        out,
        vec![
            0xee, 7, 1, 2, 3, 4, 5, 6, 7, 8, 9, 10, 11, 12, 13, 14, 0xfe, 0xff, 0xff, 0xff
        ]
    );
    assert_eq!(wire::read_i32(&out, 16, Field::Count), Ok((-2, 20)));
    let mut edge = Vec::new();
    wire::write_i32(&mut edge, i32::MIN);
    wire::write_i32(&mut edge, i32::MAX);
    assert_eq!(edge, vec![0, 0, 0, 0x80, 0xff, 0xff, 0xff, 0x7f]);
}

#[test]
fn blocks_are_written_behind_their_length() {
    let mut out = Vec::new();
    wire::write_block32(&mut out, b"ab");
    wire::write_block64(&mut out, b"c");
    wire::write_bytes(&mut out, b"d");
    wire::write_u8_if(false, &mut out, 1);
    wire::write_u8_if(true, &mut out, 2);
    wire::write_u32_if(false, &mut out, 3);
    wire::write_u32_if(true, &mut out, 4);
    wire::write_block32_if(false, &mut out, b"e");
    wire::write_block32_if(true, &mut out, b"f");
    wire::write_block64_if(false, &mut out, b"g");
    wire::write_block64_if(true, &mut out, b"h");
    assert_eq!(
        out,
        vec![
            2, 0, 0, 0, b'a', b'b', 1, 0, 0, 0, 0, 0, 0, 0, b'c', b'd', 2, 4, 0, 0, 0, 1, 0, 0, 0,
            b'f', 1, 0, 0, 0, 0, 0, 0, 0, b'h'
        ]
    );
}

#[test]
fn text_is_taken_only_from_utf8() {
    assert_eq!(wire::text(b"attr".to_vec(), Field::Name), Ok("attr".to_string()));
    assert_eq!(wire::text("h\u{e9}".as_bytes().to_vec(), Field::Name), Ok("h\u{e9}".to_string()));
    assert_eq!(wire::text(Vec::new(), Field::Name), Ok(String::new()));
    assert_eq!(
        wire::text(vec![0xff, 0xfe], Field::EnumerationPath),
        Err(Error::InvalidText { field: Field::EnumerationPath })
    );
    assert_eq!(
        wire::text(vec![b'a', 0xc3], Field::Name),
        Err(Error::InvalidText { field: Field::Name })
    );
}
