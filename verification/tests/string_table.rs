use abxml::chunks::{
    Chunk, ChunkHeader, CountingStringTable, StringTableDecoder, StringTableWrapper,
};
use abxml::errors::{DecodeError, EncodeError};
use abxml::model::owned::{Encoding, StringTableBuf};
use abxml::model::StringTable;
use abxml::wire::Cursor;

/// A string pool chunk with the given flags, offsets and string data, and no styles.
fn pool(flags: u32, offsets: &[u32], data: &[u8]) -> Vec<u8> {
    let strings_start = 28 + 4 * offsets.len() as u32;
    let chunk_size = strings_start + data.len() as u32;
    let mut raw = vec![0x01, 0x00, 0x1C, 0x00];
    raw.extend_from_slice(&chunk_size.to_le_bytes());
    raw.extend_from_slice(&(offsets.len() as u32).to_le_bytes());
    raw.extend_from_slice(&0u32.to_le_bytes());
    raw.extend_from_slice(&flags.to_le_bytes());
    raw.extend_from_slice(&strings_start.to_le_bytes());
    raw.extend_from_slice(&0u32.to_le_bytes());
    for offset in offsets {
        raw.extend_from_slice(&offset.to_le_bytes());
    }
    raw.extend_from_slice(data);
    raw
}

fn view(raw: &[u8]) -> StringTableWrapper<'_> {
    StringTableWrapper::new(raw, ChunkHeader::new(0, 28, raw.len() as u32, 0x0001))
}

fn owned_pool(encoding: Encoding, strings: &[&str]) -> StringTableBuf {
    let mut owned = StringTableBuf::default();
    owned.set_encoding(encoding);
    for text in strings {
        owned.add_string(text.to_string());
    }
    owned
}

#[test]
fn utf8_pool_with_one_string() {
    let raw = pool(0x100, &[0], &[0x03, 0x03, b'a', b'b', b'c', 0x00]);
    let wrapper = view(&raw);
    assert_eq!(wrapper.get_flags() & 0x100, 0x100);
    assert_eq!(wrapper.get_strings_len(), 1);
    assert_eq!(wrapper.get_styles_len(), 0);
    assert_eq!(*wrapper.get_string(0).unwrap(), "abc");
    assert_eq!(
        wrapper.get_string(1).err(),
        Some(DecodeError::StringIndexOutOfBounds { index: 1, count: 1 })
    );
    assert_eq!(
        DecodeError::StringIndexOutOfBounds { index: 1, count: 1 }.to_string(),
        "Index out of bounds"
    );
}

#[test]
fn utf16_pool_with_one_string() {
    let raw = pool(0, &[0], &[0x03, 0x00, b'x', 0, b'y', 0, b'z', 0, 0, 0]);
    let wrapper = view(&raw);
    assert_eq!(wrapper.get_flags() & 0x100, 0);
    assert_eq!(*wrapper.get_string(0).unwrap(), "xyz");
    assert_eq!(
        wrapper.get_string(1).err(),
        Some(DecodeError::StringIndexOutOfBounds { index: 1, count: 1 })
    );
}

#[test]
fn other_flag_bits_do_not_select_utf8() {
    let raw = pool(0xFFFF_FEFF, &[0], &[0x01, 0x00, b'q', 0, 0, 0]);
    assert_eq!(*view(&raw).get_string(0).unwrap(), "q");
    let raw = pool(0x0000_0101, &[0], &[0x01, 0x01, b'q', 0]);
    assert_eq!(*view(&raw).get_string(0).unwrap(), "q");
}

#[test]
fn strings_are_found_through_the_offset_table() {
    // The entries lie in the data in another order than their indices.
    let data = [
        0x02, 0x02, b'h', b'i', 0x00, // offset 0
        0x00, 0x00, 0x00, // offset 5: the empty string
        0x03, 0x03, b'a', b'b', b'c', 0x00, // offset 8
    ];
    let raw = pool(0x100, &[8, 0, 5, 0], &data);
    let wrapper = view(&raw);
    assert_eq!(wrapper.get_strings_len(), 4);
    assert_eq!(*wrapper.get_string(0).unwrap(), "abc");
    assert_eq!(*wrapper.get_string(1).unwrap(), "hi");
    assert_eq!(*wrapper.get_string(2).unwrap(), "");
    assert_eq!(*wrapper.get_string(3).unwrap(), "hi");
}

#[test]
fn utf8_lengths_are_skipped_and_the_terminator_ends_the_string() {
    // Both lengths say 1, the text runs up to the zero byte all the same.
    let raw = pool(0x100, &[0], &[0x01, 0x01, b'l', b'o', b'n', b'g', 0x00]);
    assert_eq!(*view(&raw).get_string(0).unwrap(), "long");
    // A length that starts with the mark takes two bytes.
    let raw = pool(0x100, &[0], &[0x80, 0x07, 0x80, 0x09, b'o', b'k', 0x00]);
    assert_eq!(*view(&raw).get_string(0).unwrap(), "ok");
    let raw = pool(0x100, &[0], &[0x02, 0x80, 0x02, b'o', b'k', 0x00]);
    assert_eq!(*view(&raw).get_string(0).unwrap(), "ok");
    // Any other first byte is a length of one byte, also with its high bit set.
    let raw = pool(0x100, &[0], &[0x81, 0x02, b'o', b'k', 0x00]);
    assert_eq!(*view(&raw).get_string(0).unwrap(), "ok");
}

#[test]
fn utf8_text_with_longer_characters_is_decoded() {
    // "é€😀": two, three and four bytes.
    let data = [0x03, 0x09, 0xC3, 0xA9, 0xE2, 0x82, 0xAC, 0xF0, 0x9F, 0x98, 0x80, 0x00];
    let raw = pool(0x100, &[0], &data);
    assert_eq!(*view(&raw).get_string(0).unwrap(), "\u{e9}\u{20ac}\u{1f600}");
}

#[test]
fn utf16_text_with_a_surrogate_pair_is_decoded() {
    // "€😀": one code unit, then a pair.
    let data = [0x03, 0x00, 0xAC, 0x20, 0x3D, 0xD8, 0x00, 0xDE, 0x00, 0x00];
    let raw = pool(0, &[0], &data);
    assert_eq!(*view(&raw).get_string(0).unwrap(), "\u{20ac}\u{1f600}");
}

#[test]
fn invalid_utf8_is_an_encoding_failure() {
    for bad in [
        vec![0xFFu8],
        vec![0xC3],             // a sequence that does not end
        vec![b'a', 0x80, b'b'], // a continuation byte alone, in the middle
        vec![0xC0, 0xAF],       // overlong
        vec![0xED, 0xA0, 0x80], // a surrogate
        vec![0xF4, 0x90, 0x80, 0x80], // behind the last code point
    ] {
        let mut data = vec![0x01, bad.len() as u8];
        data.extend_from_slice(&bad);
        data.push(0);
        let raw = pool(0x100, &[0], &data);
        assert_eq!(
            view(&raw).get_string(0).err(),
            Some(DecodeError::InvalidEncoding { encoding: Encoding::Utf8 }),
            "{:?}",
            bad
        );
    }
    assert_eq!(
        DecodeError::InvalidEncoding { encoding: Encoding::Utf8 }.to_string(),
        "Error decoding UTF8 string"
    );
}

#[test]
fn invalid_utf16_is_an_encoding_failure() {
    for bad in [
        vec![0x00u8, 0xDC],             // a low surrogate alone
        vec![0x3D, 0xD8],               // a high surrogate at the end
        vec![0x3D, 0xD8, b'a', 0x00],   // a high surrogate before no low one
        vec![b'a', 0x00, 0x00, 0xDE, b'b', 0x00],
    ] {
        let mut data = vec![(bad.len() / 2) as u8, 0x00];
        data.extend_from_slice(&bad);
        data.extend_from_slice(&[0, 0]);
        let raw = pool(0, &[0], &data);
        assert_eq!(
            view(&raw).get_string(0).err(),
            Some(DecodeError::InvalidEncoding { encoding: Encoding::Utf16 }),
            "{:?}",
            bad
        );
    }
    assert_eq!(
        DecodeError::InvalidEncoding { encoding: Encoding::Utf16 }.to_string(),
        "Error decoding UTF16 string"
    );
}

#[test]
fn utf16_length_behind_the_buffer_is_a_range_failure() {
    let raw = pool(0, &[0], &[0x04, 0x00, b'x', 0, b'y', 0, b'z', 0]);
    assert_eq!(view(&raw).get_string(0).err(), Some(DecodeError::InvalidRange));
    let raw = pool(0, &[0], &[0xFF, 0xFF, b'x', 0]);
    assert_eq!(view(&raw).get_string(0).err(), Some(DecodeError::InvalidRange));
    assert_eq!(DecodeError::InvalidRange.to_string(), "Sub-slice out of raw_data range");
}

#[test]
fn utf16_length_is_both_bytes() {
    let mut data = vec![0x00, 0x01];
    for _ in 0..256 {
        data.extend_from_slice(&[b'w', 0]);
    }
    data.extend_from_slice(&[0, 0]);
    let raw = pool(0, &[0], &data);
    assert_eq!(*view(&raw).get_string(0).unwrap(), "w".repeat(256));
}

#[test]
fn missing_pieces_are_truncated_reads() {
    // No terminator before the end of the buffer.
    let raw = pool(0x100, &[0], &[0x03, 0x03, b'a', b'b', b'c']);
    assert_eq!(view(&raw).get_string(0).err(), Some(DecodeError::TruncatedRead));
    // The entry starts at the end of the buffer.
    let raw = pool(0x100, &[0], &[]);
    assert_eq!(view(&raw).get_string(0).err(), Some(DecodeError::TruncatedRead));
    // Only the first length is there.
    let raw = pool(0x100, &[0], &[0x03]);
    assert_eq!(view(&raw).get_string(0).err(), Some(DecodeError::TruncatedRead));
    // The second byte of a long length is missing.
    let raw = pool(0x100, &[0], &[0x80]);
    assert_eq!(view(&raw).get_string(0).err(), Some(DecodeError::TruncatedRead));
    // The offset points far behind the buffer.
    let raw = pool(0x100, &[0xFFFF_FFF0], &[0x00, 0x00, 0x00]);
    assert_eq!(view(&raw).get_string(0).err(), Some(DecodeError::TruncatedRead));
    // Half a UTF-16 length.
    let raw = pool(0, &[0], &[0x01]);
    assert_eq!(view(&raw).get_string(0).err(), Some(DecodeError::TruncatedRead));
    // The table of offsets is cut off.
    let full = pool(0x100, &[0, 3], &[0x00, 0x00, 0x00, 0x00, 0x00, 0x00]);
    let cut = &full[..30];
    let wrapper = view(cut);
    assert_eq!(wrapper.get_strings_len(), 2);
    assert_eq!(wrapper.get_string(0).err(), Some(DecodeError::TruncatedRead));
    assert_eq!(DecodeError::TruncatedRead.to_string(), "Unexpected end of data");
}

#[test]
fn counts_and_flags_that_are_not_there_read_as_zero() {
    let raw = pool(0x100, &[0], &[0x00, 0x00, 0x00]);
    let cut = &raw[..6];
    let wrapper = view(cut);
    assert_eq!(wrapper.get_strings_len(), 0);
    assert_eq!(wrapper.get_styles_len(), 0);
    assert_eq!(wrapper.get_flags(), 0);
    assert_eq!(
        wrapper.get_string(0).err(),
        Some(DecodeError::StringIndexOutOfBounds { index: 0, count: 0 })
    );
    let owned = wrapper.to_owned().unwrap();
    assert_eq!(owned.get_strings_len(), 0);
    assert_eq!(owned.get_encoding(), Encoding::Utf16);
}

#[test]
fn style_count_is_read() {
    let mut raw = pool(0x100, &[0], &[0x00, 0x00, 0x00]);
    raw[12] = 7;
    assert_eq!(view(&raw).get_styles_len(), 7);
}

#[test]
fn pool_inside_a_longer_buffer_is_read_at_its_offset() {
    let chunk = pool(0x100, &[0, 6], &[0x03, 0x03, b'a', b'b', b'c', 0, 0x01, 0x01, b'd', 0]);
    let mut raw = vec![0x55u8; 13];
    raw.extend_from_slice(&chunk);
    raw.extend_from_slice(&[0x66; 4]);
    let wrapper = StringTableWrapper::new(&raw, ChunkHeader::new(13, 28, chunk.len() as u32, 1));
    assert_eq!(wrapper.get_strings_len(), 2);
    assert_eq!(*wrapper.get_string(0).unwrap(), "abc");
    assert_eq!(*wrapper.get_string(1).unwrap(), "d");
}

#[test]
fn to_owned_copies_encoding_and_strings_in_order() {
    let raw = pool(0x100, &[0, 6], &[0x03, 0x03, b'a', b'b', b'c', 0, 0x01, 0x01, b'd', 0]);
    let owned = view(&raw).to_owned().unwrap();
    assert_eq!(owned.get_encoding(), Encoding::Utf8);
    assert_eq!(owned.get_strings_len(), 2);
    assert_eq!(owned.get_string(0), Some("abc"));
    assert_eq!(owned.get_string(1), Some("d"));
    assert_eq!(owned.get_string(2), None);

    let raw = pool(0, &[0], &[0x03, 0x00, b'x', 0, b'y', 0, b'z', 0, 0, 0]);
    let owned = view(&raw).to_owned().unwrap();
    assert_eq!(owned.get_encoding(), Encoding::Utf16);
    assert_eq!(owned.get_string(0), Some("xyz"));
}

#[test]
fn to_owned_fails_with_the_first_string_that_does_not_decode() {
    let data = [
        0x01, 0x01, b'a', 0x00, // fine
        0x01, 0x01, 0xFF, 0x00, // not UTF-8
    ];
    let raw = pool(0x100, &[0, 4, 100], &data);
    assert_eq!(
        view(&raw).to_owned().err(),
        Some(DecodeError::InvalidEncoding { encoding: Encoding::Utf8 })
    );
    let raw = pool(0x100, &[0, 100, 4], &data);
    assert_eq!(view(&raw).to_owned().err(), Some(DecodeError::TruncatedRead));
}

#[test]
fn written_utf8_pool_has_the_exact_bytes() {
    let owned = owned_pool(Encoding::Utf8, &["abc", "\u{e9}"]);
    assert_eq!(
        owned.to_vec().unwrap(),
        vec![
            0x01, 0x00, 0x1C, 0x00, 0x30, 0x00, 0x00, 0x00, // prologue
            0x02, 0x00, 0x00, 0x00, // strings
            0x00, 0x00, 0x00, 0x00, // styles
            0x00, 0x01, 0x00, 0x00, // flags
            0x24, 0x00, 0x00, 0x00, // start of the string data
            0x00, 0x00, 0x00, 0x00, // start of the style data
            0x00, 0x00, 0x00, 0x00, // offset 0
            0x06, 0x00, 0x00, 0x00, // offset 1
            0x03, 0x03, b'a', b'b', b'c', 0x00, // "abc"
            0x01, 0x02, 0xC3, 0xA9, 0x00, // "é"
            0x00, // padding
        ]
    );
}

#[test]
fn written_utf16_pool_has_the_exact_bytes() {
    let owned = owned_pool(Encoding::Utf16, &["xyz", "\u{1f600}"]);
    assert_eq!(
        owned.to_vec().unwrap(),
        vec![
            0x01, 0x00, 0x1C, 0x00, 0x38, 0x00, 0x00, 0x00, // prologue
            0x02, 0x00, 0x00, 0x00, // strings
            0x00, 0x00, 0x00, 0x00, // styles
            0x00, 0x00, 0x00, 0x00, // flags
            0x24, 0x00, 0x00, 0x00, // start of the string data
            0x00, 0x00, 0x00, 0x00, // start of the style data
            0x00, 0x00, 0x00, 0x00, // offset 0
            0x0A, 0x00, 0x00, 0x00, // offset 1
            0x03, 0x00, b'x', 0, b'y', 0, b'z', 0, 0x00, 0x00, // "xyz"
            0x02, 0x00, 0x3D, 0xD8, 0x00, 0xDE, 0x00, 0x00, // the pair
            0x00, 0x00, // padding
        ]
    );
}

#[test]
fn empty_pool_is_the_bare_header() {
    let owned = StringTableBuf::default();
    assert_eq!(owned.get_encoding(), Encoding::Utf8);
    assert_eq!(owned.get_token(), 0x0001);
    let raw = owned.to_vec().unwrap();
    assert_eq!(
        raw,
        vec![
            0x01, 0x00, 0x1C, 0x00, 0x1C, 0x00, 0x00, 0x00, 0, 0, 0, 0, 0, 0, 0, 0, 0x00, 0x01,
            0, 0, 0x1C, 0, 0, 0, 0, 0, 0, 0
        ]
    );
    assert_eq!(owned.get_body_data().unwrap(), Vec::<u8>::new());
    assert_eq!(owned.get_header().unwrap().len(), 20);
}

fn assert_round_trip(encoding: Encoding, strings: &[&str]) {
    let owned = owned_pool(encoding, strings);
    let raw = owned.to_vec().unwrap();
    assert_eq!(raw.len() % 4, 0);
    let wrapper = view(&raw);
    assert_eq!(wrapper.get_strings_len() as usize, strings.len());
    for (index, text) in strings.iter().enumerate() {
        assert_eq!(*wrapper.get_string(index as u32).unwrap(), *text);
    }
    let again = wrapper.to_owned().unwrap();
    assert_eq!(again.get_encoding(), encoding);
    assert_eq!(again.get_strings_len(), strings.len());
    assert_eq!(again.to_vec().unwrap(), raw);
}

#[test]
fn utf8_pools_round_trip() {
    assert_round_trip(Encoding::Utf8, &[]);
    assert_round_trip(Encoding::Utf8, &[""]);
    assert_round_trip(Encoding::Utf8, &["abc"]);
    assert_round_trip(Encoding::Utf8, &["a", "", "bc", "\u{e9}\u{20ac}\u{1f600}", "a"]);
    let at_the_mark = "m".repeat(0x80);
    let below_the_mark = "m".repeat(0x7F);
    let longest = "m".repeat(0xFF);
    let wide = "\u{20ac}".repeat(85);
    assert_round_trip(Encoding::Utf8, &[&at_the_mark, &below_the_mark, &longest, &wide, "z"]);
}

#[test]
fn utf16_pools_round_trip() {
    assert_round_trip(Encoding::Utf16, &[]);
    assert_round_trip(Encoding::Utf16, &[""]);
    assert_round_trip(Encoding::Utf16, &["xyz"]);
    assert_round_trip(Encoding::Utf16, &["a", "", "bc", "\u{e9}\u{20ac}\u{1f600}", "a\0b"]);
    let pairs = "\u{1f600}".repeat(0x3FFF);
    let longest = "w".repeat(0x7FFF);
    assert_round_trip(Encoding::Utf16, &[&pairs, &longest, "z"]);
}

#[test]
fn strings_that_no_entry_can_hold_are_refused() {
    let too_long = "m".repeat(0x100);
    let owned = owned_pool(Encoding::Utf8, &["fine", &too_long, "a\0b"]);
    assert_eq!(owned.to_vec(), Err(EncodeError::StringTooLong { index: 1 }));
    assert_eq!(owned.get_body_data(), Err(EncodeError::StringTooLong { index: 1 }));

    let owned = owned_pool(Encoding::Utf8, &["fine", "a\0b", &too_long]);
    assert_eq!(owned.to_vec(), Err(EncodeError::EmbeddedNul { index: 1 }));

    // 86 characters of three bytes each: few characters, too many bytes.
    let wide = "\u{20ac}".repeat(86);
    let owned = owned_pool(Encoding::Utf8, &[&wide]);
    assert_eq!(owned.to_vec(), Err(EncodeError::StringTooLong { index: 0 }));

    let units = "w".repeat(0x8000);
    let owned = owned_pool(Encoding::Utf16, &["fine", "a\0b", &units]);
    assert_eq!(owned.to_vec(), Err(EncodeError::StringTooLong { index: 2 }));
    let pairs = "\u{1f600}".repeat(0x4000);
    let owned = owned_pool(Encoding::Utf16, &[&pairs]);
    assert_eq!(owned.to_vec(), Err(EncodeError::StringTooLong { index: 0 }));

    assert_eq!(
        EncodeError::StringTooLong { index: 12 }.to_string(),
        "String too long on index 12"
    );
    assert_eq!(
        EncodeError::EmbeddedNul { index: 3 }.to_string(),
        "NUL character in string on index 3"
    );
}

#[test]
fn string_pool_decoder_hands_out_a_view_and_leaves_the_cursor() {
    let raw = pool(0x100, &[0], &[0x03, 0x03, b'a', b'b', b'c', 0x00]);
    let header = ChunkHeader::new(0, 28, raw.len() as u32, 1);
    let mut cursor = Cursor::new(&raw);
    cursor.set_position(8);
    let chunk = StringTableDecoder::decode(&mut cursor, &header).unwrap();
    assert_eq!(cursor.position(), 8);
    match chunk {
        Chunk::StringTable(view) => assert_eq!(*view.get_string(0).unwrap(), "abc"),
        _ => panic!("expected a string pool"),
    }
}

#[test]
fn pool_is_listed_line_by_line() {
    let data = [
        0x01, 0x01, b'a', 0x00, // fine
        0x01, 0x01, 0xFF, 0x00, // not UTF-8
        0x02, 0x02, b'o', b'k', 0x00,
    ];
    let raw = pool(0x100, &[0, 4, 8], &data);
    assert_eq!(view(&raw).to_string(), "0 - a\n1 - <UNKOWN>\n2 - ok\n");
    let raw = pool(0x100, &[], &[]);
    assert_eq!(view(&raw).to_string(), "");
    let many: Vec<&str> = (0..12).map(|_| "s").collect();
    let raw = owned_pool(Encoding::Utf16, &many).to_vec().unwrap();
    let listed = view(&raw).to_string();
    assert!(listed.starts_with("0 - s\n1 - s\n"));
    assert!(listed.ends_with("10 - s\n11 - s\n"));
}

#[test]
fn counting_table_counts_each_request() {
    let raw = owned_pool(Encoding::Utf8, &["a", "b", "c", "d"]).to_vec().unwrap();
    let mut table = CountingStringTable::new(view(&raw));
    assert_eq!(table.get_strings_len(), 4);
    assert_eq!(table.get_styles_len(), 0);
    assert_eq!(table.sorted_counters(), vec![0, 0, 0, 0]);
    assert_eq!(table.display_stats(), "Sorted: [0, 0, 0, 0]");

    for _ in 0..12 {
        assert_eq!(*table.get_string(2).unwrap(), "c");
    }
    assert_eq!(*table.get_string(0).unwrap(), "a");
    assert_eq!(*table.get_string(3).unwrap(), "d");
    assert_eq!(*table.get_string(3).unwrap(), "d");
    assert_eq!(table.sorted_counters(), vec![0, 1, 2, 12]);
    assert_eq!(table.display_stats(), "Sorted: [0, 1, 2, 12]");
}

#[test]
fn counting_table_of_an_empty_pool() {
    let raw = owned_pool(Encoding::Utf8, &[]).to_vec().unwrap();
    let table = CountingStringTable::new(view(&raw));
    assert_eq!(table.get_strings_len(), 0);
    assert_eq!(table.sorted_counters(), Vec::<u32>::new());
    assert_eq!(table.display_stats(), "Sorted: []");
}

#[test]
fn counting_table_counts_requests_that_fail() {
    let raw = pool(0x100, &[0], &[0x01, 0x01, 0xFF, 0x00]);
    let mut table = CountingStringTable::new(view(&raw));
    assert_eq!(
        table.get_string(0).err(),
        Some(DecodeError::InvalidEncoding { encoding: Encoding::Utf8 })
    );
    assert_eq!(table.display_stats(), "Sorted: [1]");
}
