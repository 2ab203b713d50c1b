use abxml::chunks::{Chunk, ChunkHeader, TableTypeSpecDecoder, TypeSpec, TypeSpecWrapper};
use abxml::errors::{DecodeError, EncodeError};
use abxml::model::owned::{assemble_chunk, TableTypeSpecBuf};
use abxml::wire::Cursor;

/// A type specification chunk of the type 4 with 1541 flags.
fn example_type_spec() -> Vec<u8> {
    let mut raw = vec![0x02, 0x02, 0x10, 0x00, 0x24, 0x18, 0x00, 0x00];
    raw.extend_from_slice(&[0x04, 0x00, 0x00, 0x00]);
    raw.extend_from_slice(&[0x05, 0x06, 0x00, 0x00]);
    for index in 0..1541u32 {
        let flag: u32 = match index {
            0 => 0x4000_0004,
            25 => 0,
            1540 => 6,
            other => 0x4000_0000 | (other % 7),
        };
        raw.extend_from_slice(&flag.to_le_bytes());
    }
    raw
}

#[test]
fn it_can_decode_a_type_spec() {
    let raw = example_type_spec();
    let header = ChunkHeader::new(0, 16, raw.len() as u32, 0x202);
    let wrapper = TypeSpecWrapper::new(&raw, header);

    assert_eq!(4, wrapper.get_id().unwrap());
    assert_eq!(1541, wrapper.get_amount().unwrap());

    assert_eq!(0x40000004, wrapper.get_flag(0).unwrap());
    assert_eq!(0, wrapper.get_flag(25).unwrap());
    assert_eq!(6, wrapper.get_flag(1540).unwrap());

    let errored_flag = wrapper.get_flag(1541);
    assert!(errored_flag.is_err());
    assert_eq!(
        "Invalid flag on index 1541 out of 1541",
        errored_flag.err().unwrap().to_string()
    );
}

#[test]
fn identity() {
    let raw = example_type_spec();
    let header = ChunkHeader::new(0, 16, raw.len() as u32, 0x202);
    let wrapper = TypeSpecWrapper::new(&raw, header);

    let owned = wrapper.to_owned().unwrap();
    let new_raw = owned.to_vec().unwrap();

    assert_eq!(&new_raw, &raw);
}

#[test]
fn example_type_spec_has_the_stated_size() {
    let raw = example_type_spec();
    assert_eq!(raw.len(), 16 + 1541 * 4);
    assert_eq!(raw.len(), 0x1824);
}

#[test]
fn every_flag_below_the_amount_is_there_and_no_other() {
    let raw = example_type_spec();
    let header = ChunkHeader::new(0, 16, raw.len() as u32, 0x202);
    let wrapper = TypeSpecWrapper::new(&raw, header);
    for index in 0..1541u32 {
        assert!(wrapper.get_flag(index).is_ok(), "flag {}", index);
    }
    for index in [1541u32, 1542, 10_000, u32::MAX] {
        assert_eq!(
            wrapper.get_flag(index),
            Err(DecodeError::FlagIndexOutOfBounds { index, amount: 1541 })
        );
    }
}

#[test]
fn flag_error_names_index_and_amount() {
    let error = DecodeError::FlagIndexOutOfBounds { index: 7, amount: 3 };
    assert_eq!(error.to_string(), "Invalid flag on index 7 out of 3");
    let error = DecodeError::FlagIndexOutOfBounds { index: 0, amount: 0 };
    assert_eq!(error.to_string(), "Invalid flag on index 0 out of 0");
    let error = DecodeError::FlagIndexOutOfBounds { index: u32::MAX, amount: 4_000_000_000 };
    assert_eq!(error.to_string(), "Invalid flag on index 4294967295 out of 4000000000");
}

#[test]
fn type_spec_inside_a_longer_buffer_is_read_at_its_offset() {
    let mut raw = vec![0xAA; 5];
    let mut owned = TableTypeSpecBuf::new(0x0102);
    owned.push_flag(0xDEAD_BEEF);
    owned.push_flag(1);
    let chunk = owned.to_vec().unwrap();
    raw.extend_from_slice(&chunk);
    raw.extend_from_slice(&[0xBB; 3]);

    let header = ChunkHeader::new(5, 16, chunk.len() as u32, 0x202);
    let wrapper = TypeSpecWrapper::new(&raw, header);
    assert_eq!(wrapper.get_id(), Ok(0x0102));
    assert_eq!(wrapper.get_amount(), Ok(2));
    assert_eq!(wrapper.get_flag(0), Ok(0xDEAD_BEEF));
    assert_eq!(wrapper.get_flag(1), Ok(1));
    assert_eq!(wrapper.to_owned().unwrap().to_vec().unwrap(), chunk);
}

#[test]
fn written_type_spec_has_the_exact_bytes() {
    let mut owned = TableTypeSpecBuf::new(4);
    owned.push_flag(0x4000_0004);
    owned.push_flag(6);
    assert_eq!(
        owned.to_vec().unwrap(),
        vec![
            0x02, 0x02, 0x10, 0x00, 0x18, 0x00, 0x00, 0x00, // prologue
            0x04, 0x00, 0x00, 0x00, // id
            0x02, 0x00, 0x00, 0x00, // amount
            0x04, 0x00, 0x00, 0x40, // flag 0
            0x06, 0x00, 0x00, 0x00, // flag 1
        ]
    );
}

#[test]
fn empty_type_spec_round_trips() {
    let owned = TableTypeSpecBuf::new(9);
    let raw = owned.to_vec().unwrap();
    assert_eq!(raw.len(), 16);
    let header = ChunkHeader::new(0, 16, 16, 0x202);
    let wrapper = TypeSpecWrapper::new(&raw, header);
    assert_eq!(wrapper.get_amount(), Ok(0));
    assert_eq!(wrapper.get_flag(0), Err(DecodeError::FlagIndexOutOfBounds { index: 0, amount: 0 }));
    let again = wrapper.to_owned().unwrap();
    assert_eq!(again.get_id(), 9);
    assert_eq!(again.get_amount(), 0);
    assert_eq!(again.to_vec().unwrap(), raw);
}

#[test]
fn owned_type_spec_accessors() {
    let mut owned = TableTypeSpecBuf::new(3);
    owned.push_flag(10);
    owned.push_flag(20);
    assert_eq!(owned.get_id(), 3);
    assert_eq!(owned.get_amount(), 2);
    assert_eq!(owned.get_flag(0), Some(10));
    assert_eq!(owned.get_flag(1), Some(20));
    assert_eq!(owned.get_flag(2), None);
    assert_eq!(owned.get_token(), 0x202);
    assert_eq!(owned.get_header().unwrap(), vec![3, 0, 0, 0, 2, 0, 0, 0]);
    assert_eq!(owned.get_body_data(), vec![10, 0, 0, 0, 20, 0, 0, 0]);
}

#[test]
fn narrowed_id_is_the_low_byte() {
    let mut raw = example_type_spec();
    raw[8] = 0x04;
    raw[9] = 0x56;
    raw[10] = 0x34;
    raw[11] = 0x12;
    let header = ChunkHeader::new(0, 16, raw.len() as u32, 0x202);
    let wrapper = TypeSpecWrapper::new(&raw, header);
    assert_eq!(wrapper.get_id(), Ok(0x1234_5604));
    let spec = TypeSpec::new(wrapper);
    assert_eq!(spec.get_id(), Ok(4));
    assert_eq!(spec.get_amount(), Ok(1541));
    assert_eq!(spec.get_flag(1540), Ok(6));
    assert_eq!(
        spec.get_flag(1541),
        Err(DecodeError::FlagIndexOutOfBounds { index: 1541, amount: 1541 })
    );
    // The owned form keeps the low 16 bits of the raw field.
    assert_eq!(wrapper.to_owned().unwrap().get_id(), 0x5604);
}

#[test]
fn truncated_type_spec_reports_truncated_reads() {
    let raw = example_type_spec();
    let header = ChunkHeader::new(0, 16, raw.len() as u32, 0x202);

    let short = &raw[..10];
    let wrapper = TypeSpecWrapper::new(short, header);
    assert_eq!(wrapper.get_id(), Err(DecodeError::TruncatedRead));
    assert_eq!(wrapper.get_amount(), Err(DecodeError::TruncatedRead));
    assert_eq!(wrapper.get_flag(0), Err(DecodeError::TruncatedRead));
    assert!(matches!(wrapper.to_owned(), Err(DecodeError::TruncatedRead)));

    let short = &raw[..16 + 4 * 100 + 3];
    let wrapper = TypeSpecWrapper::new(short, header);
    assert_eq!(wrapper.get_id(), Ok(4));
    assert_eq!(wrapper.get_amount(), Ok(1541));
    assert!(wrapper.get_flag(99).is_ok());
    assert_eq!(wrapper.get_flag(100), Err(DecodeError::TruncatedRead));
    assert!(matches!(wrapper.to_owned(), Err(DecodeError::TruncatedRead)));
    // An index at or behind the amount is out of bounds before it is truncated.
    assert_eq!(
        wrapper.get_flag(1541),
        Err(DecodeError::FlagIndexOutOfBounds { index: 1541, amount: 1541 })
    );
}

#[test]
fn header_at_the_far_end_of_the_address_space_is_a_truncated_read() {
    let raw = example_type_spec();
    let header = ChunkHeader::new(u64::MAX - 3, 16, raw.len() as u32, 0x202);
    let wrapper = TypeSpecWrapper::new(&raw, header);
    assert_eq!(wrapper.get_id(), Err(DecodeError::TruncatedRead));
    assert_eq!(wrapper.get_amount(), Err(DecodeError::TruncatedRead));
}

#[test]
fn type_spec_decoder_hands_out_a_view_and_leaves_the_cursor() {
    let raw = example_type_spec();
    let header = ChunkHeader::new(0, 16, raw.len() as u32, 0x202);
    let mut cursor = Cursor::new(&raw);
    cursor.set_position(8);
    let chunk = TableTypeSpecDecoder::decode(&mut cursor, &header).unwrap();
    assert_eq!(cursor.position(), 8);
    match chunk {
        Chunk::TableTypeSpec(view) => {
            assert_eq!(view.get_id(), Ok(4));
            assert_eq!(view.get_amount(), Ok(1541));
        }
        _ => panic!("expected a type specification"),
    }
}

#[test]
fn chunk_with_a_header_too_long_for_its_field_is_refused() {
    let header = vec![0u8; 70_000];
    let body = Vec::new();
    assert_eq!(assemble_chunk(0x202, &header, &body), Err(EncodeError::ChunkTooLarge));
    assert_eq!(EncodeError::ChunkTooLarge.to_string(), "Chunk too large");
}

#[test]
fn assembled_chunk_has_prologue_header_and_body() {
    let header = vec![1u8, 2, 3, 4];
    let body = vec![9u8, 8];
    assert_eq!(
        assemble_chunk(0x0102, &header, &body).unwrap(),
        vec![0x02, 0x01, 12, 0, 14, 0, 0, 0, 1, 2, 3, 4, 9, 8]
    );
}
