//! The view of a string pool chunk: a table of offsets, then the strings
//! themselves, each behind its length and in one of two encodings.
//!
//! The lengths are read in a simple form. In UTF-8 only the width of each of
//! the two lengths is read (one byte, or two where the first is the mark
//! `0x80`), and the text ends at the first zero byte, whatever the lengths
//! say. In UTF-16 the length is a plain 16-bit number of code units. The
//! extended lengths of the format, where a high bit announces more bits of
//! the length, are not decoded: a UTF-8 length from 256 on and a UTF-16
//! length from `0x8000` on are not read as the format means them.

use std::rc::Rc;
use vstd::prelude::*;
use vstd::slice::slice_subrange;
use vstd::string::StringExecFns;
use vstd::utf8::{
    decode_utf8, encode_utf8, encode_utf8_decode_utf8, encode_utf8_valid_utf8, valid_utf8,
};

use crate::chunks::chunk_header::ChunkHeader;
use crate::chunks::{Chunk, TOKEN_STRING_TABLE};
use crate::errors::{append_decimal, decimal, DecodeError};
use crate::model::owned::string_table::{
    entries_bytes, entry_bytes, entry_representable, padding_len, utf8_length_bytes,
};
use crate::model::owned::{
    lemma_chunk_prologue, lemma_concat_parts, lemma_field_in_buffer, lemma_part_in_buffer,
    written_at, Encoding, StringTableBuf, StringTableModel,
};
use crate::model::StringTable;
use crate::text::{
    decode_utf16, encode_utf16, le_units, lemma_units_bytes_read_back, lemma_utf16_read_back,
    lemma_utf8_zero_bytes, utf16le_bytes, utf16le_raw_decode, utf8_raw_decode, valid_utf16,
};
use crate::wire::{
    in_bounds, le_u16, le_u32, lemma_buffer_len, lemma_u16_bytes_read_back,
    lemma_u32_bytes_read_back, lemma_u32_seq_bytes, read_u32_from, read_u32_spec, u16_le_bytes,
    u32_seq_le_bytes, Cursor,
};

verus! {

/// Where the number of strings stands, in bytes from the start of the chunk.
pub const STRING_COUNT_OFFSET: u64 = 8;

/// Where the number of styles stands.
pub const STYLE_COUNT_OFFSET: u64 = 12;

/// Where the flags stand.
pub const FLAGS_OFFSET: u64 = 16;

/// Where the start of the string data stands, itself counted from the start
/// of the chunk.
pub const STRINGS_START_OFFSET: u64 = 20;

/// Where the table of string offsets starts: one `u32` for each string,
/// counted from the start of the string data.
pub const OFFSET_TABLE_OFFSET: u64 = 28;

/// The flag that says that the pool stores UTF-8. Without it the pool stores
/// UTF-16.
pub const UTF8_FLAG: u32 = 0x0000_0100;

/// The first byte of a UTF-8 length that takes two bytes.
pub const LONG_LENGTH_MARK: u8 = 0x80;

/// The `u32` at `at`, and zero where the buffer does not hold it.
pub open spec fn field_or_zero(data: Seq<u8>, at: int) -> u32 {
    match read_u32_spec(data, at) {
        Ok(value) => value,
        Err(_) => 0,
    }
}

/// How many bytes a UTF-8 length takes that starts with `first`: the mark
/// says that a second byte follows. Only the width of a length is read; the
/// string ends at its terminator.
pub open spec fn length_width(first: u8) -> int {
    if first == LONG_LENGTH_MARK {
        2
    } else {
        1
    }
}

/// The place of the first zero byte at or behind `from`, and the length of
/// `data` where there is none.
pub open spec fn nul_place(data: Seq<u8>, from: int) -> int
    decreases data.len() - from,
{
    if from < 0 || from >= data.len() {
        data.len() as int
    } else if data[from] == 0 {
        from
    } else {
        nul_place(data, from + 1)
    }
}

/// The UTF-8 entry at `offset`: two lengths, each of one byte or of two, then
/// the text up to the first zero byte. Lengths or a terminator that the buffer
/// does not hold are a truncated read; text that is not well-formed UTF-8 is
/// an encoding failure.
pub open spec fn parse_utf8_spec(data: Seq<u8>, offset: int) -> Result<Seq<char>, DecodeError> {
    if !in_bounds(data.len(), offset, 1) {
        Err(DecodeError::TruncatedRead)
    } else {
        let second = offset + length_width(data[offset]);
        if !in_bounds(data.len(), second, 1) {
            Err(DecodeError::TruncatedRead)
        } else {
            let start = second + length_width(data[second]);
            let end = nul_place(data, start);
            if start > data.len() || end >= data.len() {
                Err(DecodeError::TruncatedRead)
            } else if !valid_utf8(data.subrange(start, end)) {
                Err(DecodeError::InvalidEncoding { encoding: Encoding::Utf8 })
            } else {
                Ok(decode_utf8(data.subrange(start, end)))
            }
        }
    }
}

/// The UTF-16 entry at `offset`: the number of code units as a little-endian
/// `u16`, then that many code units. A length that the buffer does not hold
/// is a truncated read; code units that it does not hold are a range failure;
/// code units that are not well-formed UTF-16 are an encoding failure.
pub open spec fn parse_utf16_spec(data: Seq<u8>, offset: int) -> Result<Seq<char>, DecodeError> {
    if !in_bounds(data.len(), offset, 2) {
        Err(DecodeError::TruncatedRead)
    } else {
        let start = offset + 2;
        let end = start + 2 * le_u16(data, offset);
        if end > data.len() {
            Err(DecodeError::InvalidRange)
        } else if !valid_utf16(le_units(data.subrange(start, end))) {
            Err(DecodeError::InvalidEncoding { encoding: Encoding::Utf16 })
        } else {
            Ok(decode_utf16(le_units(data.subrange(start, end))))
        }
    }
}

/// The entry at `offset` of a pool that stores UTF-8 or UTF-16.
pub open spec fn parse_string_spec(data: Seq<u8>, offset: int, utf8: bool) -> Result<
    Seq<char>,
    DecodeError,
> {
    if utf8 {
        parse_utf8_spec(data, offset)
    } else {
        parse_utf16_spec(data, offset)
    }
}

/// The line that lists the string at `index`: the index, the string, and a
/// placeholder for a string that does not decode.
pub open spec fn listed_line(index: nat, entry: Result<Seq<char>, DecodeError>) -> Seq<char> {
    decimal(index) + " - "@ + match entry {
        Ok(text) => text,
        Err(_) => "<UNKOWN>"@,
    } + "\n"@
}

/// Bytes that are not zero from `from` up to `to` do not hold the first zero
/// byte behind `from`.
pub proof fn lemma_nul_place_skips(data: Seq<u8>, from: int, to: int)
    requires
        0 <= from <= to <= data.len(),
        forall|k: int| from <= k < to ==> data[k] != 0,
    ensures
        nul_place(data, from) == nul_place(data, to),
    decreases to - from,
{
    if from < to {
        lemma_nul_place_skips(data, from + 1, to);
    }
}

/// The decoder of string pool chunks.
pub struct StringTableDecoder;

impl StringTableDecoder {
    /// The string pool that `header` announces, as a view over the cursor's
    /// buffer. The cursor stays where it is.
    pub fn decode<'a>(cursor: &mut Cursor<'a>, header: &ChunkHeader) -> (r: Result<
        Chunk<'a>,
        DecodeError,
    >)
        ensures
            *final(cursor) == *old(cursor),
            r matches Ok(Chunk::StringTable(view)) && view.buffer() == old(cursor).buffer()
                && view.header() == *header,
    {
        let view = StringTableWrapper::new(cursor.get_ref(), *header);
        Ok(Chunk::StringTable(view))
    }
}

/// A string pool that decodes its strings from a borrowed buffer, each time
/// that one is asked for.
#[derive(Debug, Clone, Copy)]
pub struct StringTableWrapper<'a> {
    raw_data: &'a [u8],
    header: ChunkHeader,
}

impl<'a> StringTableWrapper<'a> {
    /// The buffer that the view reads.
    pub closed spec fn buffer(&self) -> &'a [u8] {
        self.raw_data
    }

    /// The bytes of that buffer.
    pub open spec fn bytes(&self) -> Seq<u8> {
        self.buffer()@
    }

    /// The header of the chunk that the view reads.
    pub closed spec fn header(&self) -> ChunkHeader {
        self.header
    }

    /// The flags of the pool, and zero where the buffer does not hold them.
    pub open spec fn flags_spec(&self) -> u32 {
        field_or_zero(self.bytes(), self.header().absolute_spec(FLAGS_OFFSET as int))
    }

    /// Whether the pool stores UTF-8.
    pub open spec fn is_utf8_spec(&self) -> bool {
        self.flags_spec() & UTF8_FLAG == UTF8_FLAG
    }

    /// The encoding that the flags select.
    pub open spec fn encoding_spec(&self) -> Encoding {
        if self.is_utf8_spec() {
            Encoding::Utf8
        } else {
            Encoding::Utf16
        }
    }

    /// Where the entry of the string at `idx` starts in the buffer: the start
    /// of the chunk, the start of the string data, and the string's offset,
    /// added up.
    pub open spec fn string_position_spec(&self, idx: u32) -> Result<int, DecodeError> {
        let strings_start = read_u32_spec(
            self.bytes(),
            self.header().absolute_spec(STRINGS_START_OFFSET as int),
        );
        let entry = read_u32_spec(
            self.bytes(),
            self.header().absolute_spec(OFFSET_TABLE_OFFSET + 4 * idx),
        );
        match (strings_start, entry) {
            (Ok(strings_start), Ok(entry)) => Ok(
                self.header().absolute_spec(strings_start + entry),
            ),
            _ => Err(DecodeError::TruncatedRead),
        }
    }

    /// Whether `r` is what the owned form of this pool is: the strings in
    /// order with the pool's encoding where every string decodes, else the
    /// failure of the first string that does not.
    pub open spec fn owned_matches(&self, r: Result<StringTableModel, DecodeError>) -> bool {
        let count = self.strings_len_spec();
        match r {
            Ok(model) => {
                &&& model.encoding == self.encoding_spec()
                &&& model.strings.len() == count
                &&& forall|i: u32|
                    i < count ==> #[trigger] self.string_spec(i) == Ok::<Seq<char>, DecodeError>(
                        model.strings[i as int],
                    )
            },
            Err(e) => exists|i: u32|
                {
                    &&& i < count
                    &&& #[trigger] self.string_spec(i) == Err::<Seq<char>, DecodeError>(e)
                    &&& forall|j: u32| j < i ==> (#[trigger] self.string_spec(j)) is Ok
                },
        }
    }

    /// The list of the first `count` strings: one line for each, see
    /// [`listed_line`].
    pub open spec fn listing(&self, count: nat) -> Seq<char>
        decreases count,
    {
        if count == 0 {
            Seq::empty()
        } else {
            self.listing((count - 1) as nat) + listed_line(
                (count - 1) as nat,
                self.string_spec((count - 1) as u32),
            )
        }
    }

    /// A view over the chunk of `header` in `raw_data`.
    pub fn new(raw_data: &'a [u8], header: ChunkHeader) -> (view: Self)
        ensures
            view.buffer() == raw_data,
            view.header() == header,
    {
        StringTableWrapper { raw_data, header }
    }

    /// Lists the pool: one line for each string, with its index.
    pub fn to_string(&self) -> (text: String)
        ensures
            text@ == self.listing(self.strings_len_spec() as nat),
    {
        let amount = self.get_strings_len();
        let mut text = String::new();
        let mut i: u32 = 0;
        while i < amount
            invariant
                i <= amount,
                text@ == self.listing(i as nat),
            decreases amount - i,
        {
            let ghost before = text@;
            append_decimal(&mut text, i as u64);
            text.append(" - ");
            match self.get_string(i) {
                Ok(current_string) => text.append(current_string.as_str()),
                Err(_) => text.append("<UNKOWN>"),
            }
            text.append("\n");
            assert(text@ =~= before + listed_line(i as nat, self.string_spec(i)));
            i = i + 1;
        }
        text
    }

    /// The flags of the pool, and zero where the buffer does not hold them.
    pub fn get_flags(&self) -> (flags: u32)
        ensures
            flags == self.flags_spec(),
    {
        match read_u32_from(self.raw_data, self.header.get_offset(), FLAGS_OFFSET) {
            Ok(flags) => flags,
            Err(_) => 0,
        }
    }

    /// Copies the pool out of the buffer: its encoding, and every string in
    /// order. The first string that does not decode ends the copy with its
    /// failure.
    pub fn to_owned(self) -> (r: Result<StringTableBuf, DecodeError>)
        ensures
            match r {
                Ok(owned) => self.owned_matches(Ok(owned@)),
                Err(e) => self.owned_matches(Err(e)),
            },
    {
        let mut owned = StringTableBuf::default();
        if !self.is_utf8() {
            owned.set_encoding(Encoding::Utf16);
        }
        let count = self.get_strings_len();
        let mut i: u32 = 0;
        while i < count
            invariant
                i <= count == self.strings_len_spec(),
                owned@.encoding == self.encoding_spec(),
                owned@.strings.len() == i,
                forall|k: u32|
                    k < i ==> #[trigger] self.string_spec(k) == Ok::<Seq<char>, DecodeError>(
                        owned@.strings[k as int],
                    ),
            decreases count - i,
        {
            let text = match self.get_string(i) {
                Ok(text) => text,
                Err(e) => {
                    return Err(e);
                },
            };
            owned.add_string((*text).clone());
            i = i + 1;
        }
        Ok(owned)
    }

    /// Where the entry of the string at `idx` starts in the buffer. A place
    /// that no `u64` can hold lies behind the end of every buffer, and is
    /// reported as the truncated read that decoding there would be.
    fn get_string_position(&self, idx: u32) -> (r: Result<u64, DecodeError>)
        ensures
            match self.string_position_spec(idx) {
                Ok(place) => r == if place <= u64::MAX {
                    Ok::<u64, DecodeError>(place as u64)
                } else {
                    Err(DecodeError::TruncatedRead)
                },
                Err(e) => r == Err::<u64, DecodeError>(e),
            },
    {
        let base = self.header.get_offset();
        let strings_start = read_u32_from(self.raw_data, base, STRINGS_START_OFFSET)?;
        let entry_offset: u64 = OFFSET_TABLE_OFFSET + 4 * (idx as u64);
        let entry = read_u32_from(self.raw_data, base, entry_offset)?;
        match base.checked_add(strings_start as u64 + entry as u64) {
            Some(place) => Ok(place),
            None => Err(DecodeError::TruncatedRead),
        }
    }

    /// Decodes the entry that starts at `offset` in the buffer.
    fn parse_string(&self, offset: u64) -> (r: Result<String, DecodeError>)
        ensures
            match r {
                Ok(text) => parse_string_spec(self.bytes(), offset as int, self.is_utf8_spec())
                    == Ok::<Seq<char>, DecodeError>(text@),
                Err(e) => parse_string_spec(self.bytes(), offset as int, self.is_utf8_spec())
                    == Err::<Seq<char>, DecodeError>(e),
            },
    {
        let ghost data = self.bytes();
        let len: usize = self.raw_data.len();
        proof {
            lemma_buffer_len(self.raw_data);
        }
        let mut cursor = Cursor::new(self.raw_data);
        cursor.set_position(offset);

        if self.is_utf8() {
            // Two lengths, of which only the width is read.
            let mut text_start: u64 = offset;
            let first = cursor.read_u8()?;
            if first == LONG_LENGTH_MARK {
                cursor.read_u8()?;
                text_start = text_start + 2;
            } else {
                text_start = text_start + 1;
            }
            let ghost second = text_start as int;

            let first = cursor.read_u8()?;
            if first == LONG_LENGTH_MARK {
                cursor.read_u8()?;
                text_start = text_start + 2;
            } else {
                text_start = text_start + 1;
            }

            // The text runs up to the first zero byte.
            let mut length: u64 = 0;
            loop
                invariant_except_break
                    cursor.buffer() == self.raw_data,
                    cursor.place() == text_start + length,
                    forall|k: int| text_start <= k < text_start + length ==> data[k] != 0,
                invariant
                    data == self.bytes(),
                    len == data.len(),
                    self.is_utf8_spec(),
                    in_bounds(data.len(), offset as int, 1),
                    second == offset + length_width(data[offset as int]),
                    in_bounds(data.len(), second, 1),
                    text_start == second + length_width(data[second]),
                    text_start + length <= len,
                ensures
                    text_start + length < len,
                    nul_place(data, text_start as int) == text_start + length,
                decreases len - (text_start + length),
            {
                let byte = match cursor.read_u8() {
                    Ok(byte) => byte,
                    Err(e) => {
                        proof {
                            lemma_nul_place_skips(data, text_start as int, text_start + length);
                        }
                        return Err(e);
                    },
                };
                if byte != 0 {
                    length = length + 1;
                } else {
                    proof {
                        lemma_nul_place_skips(data, text_start as int, text_start + length);
                    }
                    break ;
                }
            }

            let text_end: u64 = text_start + length;
            let subslice = slice_subrange(self.raw_data, text_start as usize, text_end as usize);
            match utf8_raw_decode(subslice) {
                Some(text) => Ok(text),
                None => Err(DecodeError::InvalidEncoding { encoding: Encoding::Utf8 }),
            }
        } else {
            let low = cursor.read_u8()? as u32;
            let high = cursor.read_u8()? as u32;
            let units: u32 = high * 0x100 + low;

            let text_start: u64 = offset + 2;
            let span: u64 = (units as u64) * 2;
            if span > len as u64 - text_start {
                return Err(DecodeError::InvalidRange);
            }
            let text_end: u64 = text_start + span;
            let subslice = slice_subrange(self.raw_data, text_start as usize, text_end as usize);
            match utf16le_raw_decode(subslice) {
                Some(text) => Ok(text),
                None => Err(DecodeError::InvalidEncoding { encoding: Encoding::Utf16 }),
            }
        }
    }

    /// Whether the pool stores UTF-8.
    fn is_utf8(&self) -> (utf8: bool)
        ensures
            utf8 == self.is_utf8_spec(),
    {
        (self.get_flags() & UTF8_FLAG) == UTF8_FLAG
    }
}

impl<'a> StringTable for StringTableWrapper<'a> {
    /// The number of strings that the chunk declares, and zero where the
    /// buffer does not hold it.
    open spec fn strings_len_spec(&self) -> u32 {
        field_or_zero(self.bytes(), self.header().absolute_spec(STRING_COUNT_OFFSET as int))
    }

    /// The number of styles that the chunk declares, and zero where the
    /// buffer does not hold it.
    open spec fn styles_len_spec(&self) -> u32 {
        field_or_zero(self.bytes(), self.header().absolute_spec(STYLE_COUNT_OFFSET as int))
    }

    /// The string at `idx`: an index at or behind the number of strings is
    /// out of bounds; else the entry is looked up in the offset table and
    /// decoded in the pool's encoding.
    open spec fn string_spec(&self, idx: u32) -> Result<Seq<char>, DecodeError> {
        if idx >= self.strings_len_spec() {
            Err(DecodeError::StringIndexOutOfBounds { index: idx, count: self.strings_len_spec() })
        } else {
            match self.string_position_spec(idx) {
                Ok(place) => parse_string_spec(self.bytes(), place, self.is_utf8_spec()),
                Err(e) => Err(e),
            }
        }
    }

    fn get_strings_len(&self) -> (len: u32) {
        match read_u32_from(self.raw_data, self.header.get_offset(), STRING_COUNT_OFFSET) {
            Ok(len) => len,
            Err(_) => 0,
        }
    }

    fn get_styles_len(&self) -> (len: u32) {
        match read_u32_from(self.raw_data, self.header.get_offset(), STYLE_COUNT_OFFSET) {
            Ok(len) => len,
            Err(_) => 0,
        }
    }

    fn get_string(&self, idx: u32) -> (r: Result<Rc<String>, DecodeError>) {
        let count = self.get_strings_len();
        if idx >= count {
            return Err(DecodeError::StringIndexOutOfBounds { index: idx, count });
        }
        proof {
            lemma_buffer_len(self.raw_data);
        }
        let position = self.get_string_position(idx)?;
        let string = self.parse_string(position)?;
        Ok(Rc::new(string))
    }
}

/// `sort` of `std` on a vector of numbers: afterwards the same numbers stand
/// in ascending order.
#[verifier::external_body]
fn sort_counts(counts: &mut Vec<u32>)
    ensures
        final(counts)@.to_multiset() == old(counts)@.to_multiset(),
        forall|i: int, j: int|
            0 <= i <= j < final(counts)@.len() ==> final(counts)@[i] <= final(counts)@[j],
{
    counts.sort();
}

/// `numbers` as a list in brackets, with a comma and a blank between them.
pub open spec fn bracketed(numbers: Seq<u32>) -> Seq<char> {
    "["@ + comma_separated(numbers) + "]"@
}

/// `numbers` in decimal, with a comma and a blank between them.
pub open spec fn comma_separated(numbers: Seq<u32>) -> Seq<char>
    decreases numbers.len(),
{
    if numbers.len() == 0 {
        Seq::empty()
    } else if numbers.len() == 1 {
        decimal(numbers[0] as nat)
    } else {
        comma_separated(numbers.drop_last()) + ", "@ + decimal(numbers.last() as nat)
    }
}

/// A string table that counts how often each of its strings is asked for.
pub struct CountingStringTable<S: StringTable> {
    inner: S,
    counters: Vec<u32>,
}

impl<S: StringTable> CountingStringTable<S> {
    /// The table whose strings are counted.
    pub closed spec fn inner(&self) -> S {
        self.inner
    }

    /// How often each string was asked for, by index.
    pub closed spec fn counts(&self) -> Seq<u32> {
        self.counters@
    }

    /// A counting table around `inner`, with one counter at zero for each of
    /// its strings.
    pub fn new(inner: S) -> (table: Self)
        ensures
            table.inner() == inner,
            table.counts() == Seq::new(inner.strings_len_spec() as nat, |i: int| 0u32),
    {
        let str_amount = inner.get_strings_len();
        let counters = vec![0u32; str_amount as usize];
        assert(counters@ =~= Seq::new(inner.strings_len_spec() as nat, |i: int| 0u32));
        CountingStringTable { inner, counters }
    }

    /// The number of strings of the inner table.
    pub fn get_strings_len(&self) -> (len: u32)
        ensures
            len == self.inner().strings_len_spec(),
    {
        self.inner.get_strings_len()
    }

    /// The number of styles of the inner table.
    pub fn get_styles_len(&self) -> (len: u32)
        ensures
            len == self.inner().styles_len_spec(),
    {
        self.inner.get_styles_len()
    }

    /// Counts one more request for the string at `idx` and hands out what the
    /// inner table gives for it. There must be a counter for `idx`, and room
    /// in it.
    pub fn get_string(&mut self, idx: u32) -> (r: Result<Rc<String>, DecodeError>)
        requires
            idx < old(self).counts().len(),
            old(self).counts()[idx as int] < u32::MAX,
        ensures
            final(self).inner() == old(self).inner(),
            final(self).counts() == old(self).counts().update(
                idx as int,
                (old(self).counts()[idx as int] + 1) as u32,
            ),
            match r {
                Ok(text) => old(self).inner().string_spec(idx) == Ok::<Seq<char>, DecodeError>(
                    text@,
                ),
                Err(e) => old(self).inner().string_spec(idx) == Err::<Seq<char>, DecodeError>(e),
            },
    {
        let count = self.counters[idx as usize];
        self.counters.set(idx as usize, count + 1);
        self.inner.get_string(idx)
    }

    /// The counters in ascending order.
    pub fn sorted_counters(&self) -> (sorted: Vec<u32>)
        ensures
            sorted@.to_multiset() == self.counts().to_multiset(),
            forall|i: int, j: int| 0 <= i <= j < sorted@.len() ==> sorted@[i] <= sorted@[j],
    {
        let mut new_counters: Vec<u32> = Vec::new();
        let mut i: usize = 0;
        while i < self.counters.len()
            invariant
                i <= self.counters@.len(),
                new_counters@ == self.counters@.subrange(0, i as int),
            decreases self.counters@.len() - i,
        {
            new_counters.push(self.counters[i]);
            i = i + 1;
        }
        assert(new_counters@ =~= self.counters@);
        sort_counts(&mut new_counters);
        new_counters
    }

    /// The counters in ascending order, as a line of text.
    pub fn display_stats(&self) -> (text: String)
        ensures
            exists|sorted: Seq<u32>|
                {
                    &&& sorted.to_multiset() == self.counts().to_multiset()
                    &&& forall|i: int, j: int|
                        0 <= i <= j < sorted.len() ==> sorted[i] <= sorted[j]
                    &&& text@ == "Sorted: "@ + bracketed(sorted)
                },
    {
        let new_counters = self.sorted_counters();
        let mut text = "Sorted: [".to_owned();
        let ghost head = text@;
        let mut i: usize = 0;
        while i < new_counters.len()
            invariant
                i <= new_counters@.len(),
                text@ == head + comma_separated(new_counters@.subrange(0, i as int)),
            decreases new_counters@.len() - i,
        {
            let ghost before = new_counters@.subrange(0, i as int);
            let ghost after = new_counters@.subrange(0, i + 1);
            assert(after.drop_last() == before);
            if i > 0 {
                text.append(", ");
            }
            append_decimal(&mut text, new_counters[i] as u64);
            assert(text@ =~= head + comma_separated(after));
            i = i + 1;
        }
        assert(new_counters@.subrange(0, i as int) == new_counters@);
        text.append("]");
        proof {
            reveal_strlit("Sorted: [");
            reveal_strlit("Sorted: ");
            reveal_strlit("[");
            assert(text@ =~= "Sorted: "@ + bracketed(new_counters@));
        }
        text
    }
}

} // verus!

verus! {

/// Whether the bytes of `data` from `start` on are the chunk that the string
/// pool `model` is written as.
pub open spec fn holds_string_pool(data: Seq<u8>, start: int, model: StringTableModel) -> bool {
    model.encodable() && written_at(data, start, model.bytes())
}

/// Each entry lies in the string data at its offset.
pub proof fn lemma_entry_in_data(encoding: Encoding, strings: Seq<Seq<char>>, index: int)
    requires
        0 <= index < strings.len(),
    ensures
        ({
            let data = entries_bytes(encoding, strings);
            let offset = entries_bytes(encoding, strings.take(index)).len() as int;
            let entry = entry_bytes(encoding, strings[index]);
            offset + entry.len() <= data.len() && data.subrange(offset, offset + entry.len())
                == entry
        }),
    decreases strings.len(),
{
    let data = entries_bytes(encoding, strings);
    let front = strings.drop_last();
    if index == strings.len() - 1 {
        assert(strings.take(index) == front);
        let offset = entries_bytes(encoding, front).len() as int;
        let entry = entry_bytes(encoding, strings[index]);
        assert(data.subrange(offset, offset + entry.len()) =~= entry);
    } else {
        lemma_entry_in_data(encoding, front, index);
        assert(front.take(index) == strings.take(index));
        assert(front[index] == strings[index]);
        let offset = entries_bytes(encoding, strings.take(index)).len() as int;
        let entry = entry_bytes(encoding, strings[index]);
        assert(data.subrange(offset, offset + entry.len()) =~= entries_bytes(
            encoding,
            front,
        ).subrange(offset, offset + entry.len()));
    }
}

/// The shape of a UTF-8 entry: the two lengths, each as wide as its first
/// byte says, the bytes of the text without a zero among them, a zero byte.
pub proof fn lemma_utf8_entry_shape(text: Seq<char>)
    requires
        entry_representable(Encoding::Utf8, text),
    ensures
        ({
            let entry = entry_bytes(Encoding::Utf8, text);
            let payload = encode_utf8(text);
            let first = length_width(entry[0]);
            let second = length_width(entry[first]);
            &&& 1 <= first <= 2
            &&& 1 <= second <= 2
            &&& entry.len() == first + second + payload.len() + 1
            &&& entry.subrange(first + second, first + second + payload.len()) == payload
            &&& entry[first + second + payload.len()] == 0
            &&& forall|k: int| 0 <= k < payload.len() ==> payload[k] != 0
        }),
{
    let entry = entry_bytes(Encoding::Utf8, text);
    let payload = encode_utf8(text);
    let chars_len = utf8_length_bytes(text.len() as int);
    let bytes_len = utf8_length_bytes(payload.len() as int);
    assert(entry[0] == chars_len[0]);
    assert(length_width(entry[0]) == chars_len.len());
    assert(entry[chars_len.len() as int] == bytes_len[0]);
    assert(length_width(entry[chars_len.len() as int]) == bytes_len.len());
    let first = chars_len.len() as int;
    let second = bytes_len.len() as int;
    assert(entry.subrange(first + second, first + second + payload.len()) =~= payload);
    lemma_utf8_zero_bytes(text);
    assert forall|k: int| 0 <= k < payload.len() implies payload[k] != 0 by {
        assert(payload.contains(payload[k]));
    }
}

/// A UTF-8 entry that holds a text is decoded to that text, wherever in a
/// buffer the entry lies.
pub proof fn lemma_utf8_entry_read_back(data: Seq<u8>, place: int, text: Seq<char>)
    requires
        entry_representable(Encoding::Utf8, text),
        0 <= place,
        place + entry_bytes(Encoding::Utf8, text).len() <= data.len(),
        data.subrange(place, place + entry_bytes(Encoding::Utf8, text).len()) == entry_bytes(
            Encoding::Utf8,
            text,
        ),
    ensures
        parse_utf8_spec(data, place) == Ok::<Seq<char>, DecodeError>(text),
{
    let entry = entry_bytes(Encoding::Utf8, text);
    let payload = encode_utf8(text);
    lemma_utf8_entry_shape(text);
    let first = length_width(entry[0]);
    let second = length_width(entry[first]);
    lemma_part_in_buffer(data, place, entry, 0, 1);
    lemma_part_in_buffer(data, place, entry, first, first + 1);
    let start = place + first + second;
    let end = start + payload.len();
    lemma_part_in_buffer(
        data,
        place,
        entry,
        first + second,
        first + second + payload.len() as int,
    );
    lemma_part_in_buffer(
        data,
        place,
        entry,
        first + second + payload.len() as int,
        entry.len() as int,
    );
    assert(data.subrange(start, end) == payload);
    assert(data[end] == 0);
    assert forall|k: int| start <= k < end implies data[k] != 0 by {
        assert(data.subrange(start, end)[k - start] == data[k]);
    }
    lemma_nul_place_skips(data, start, end);
    assert(nul_place(data, start) == end);
    encode_utf8_valid_utf8(text);
    encode_utf8_decode_utf8(text);
}

/// A UTF-16 entry that holds a text is decoded to that text, wherever in a
/// buffer the entry lies.
pub proof fn lemma_utf16_entry_read_back(data: Seq<u8>, place: int, text: Seq<char>)
    requires
        entry_representable(Encoding::Utf16, text),
        0 <= place,
        place + entry_bytes(Encoding::Utf16, text).len() <= data.len(),
        data.subrange(place, place + entry_bytes(Encoding::Utf16, text).len()) == entry_bytes(
            Encoding::Utf16,
            text,
        ),
    ensures
        parse_utf16_spec(data, place) == Ok::<Seq<char>, DecodeError>(text),
{
    let entry = entry_bytes(Encoding::Utf16, text);
    let units = encode_utf16(text);
    let payload = utf16le_bytes(text);
    let length = u16_le_bytes(units.len() as u16);
    lemma_units_bytes_read_back(units);
    lemma_utf16_read_back(text);
    lemma_u16_bytes_read_back(units.len() as u16);
    assert(entry.len() == 2 + payload.len() + 2);
    assert(entry.subrange(0, 2) =~= length);
    assert(entry.subrange(2, 2 + payload.len() as int) =~= payload);
    lemma_part_in_buffer(data, place, entry, 0, 2);
    lemma_part_in_buffer(data, place, entry, 2, 2 + payload.len() as int);
    assert(data.subrange(place, place + 2) == length);
    assert(data[place] == length[0]) by {
        assert(data.subrange(place, place + 2)[0] == data[place]);
    }
    assert(data[place + 1] == length[1]) by {
        assert(data.subrange(place, place + 2)[1] == data[place + 1]);
    }
    assert(le_u16(data, place) == le_u16(length, 0));
    assert(le_u16(data, place) == units.len());
    assert(data.subrange(place + 2, place + 2 + 2 * units.len()) == payload);
}

/// An entry that holds a text is decoded to that text, in either encoding.
pub proof fn lemma_entry_read_back(data: Seq<u8>, place: int, encoding: Encoding, text: Seq<char>)
    requires
        entry_representable(encoding, text),
        0 <= place,
        place + entry_bytes(encoding, text).len() <= data.len(),
        data.subrange(place, place + entry_bytes(encoding, text).len()) == entry_bytes(
            encoding,
            text,
        ),
    ensures
        parse_string_spec(data, place, encoding == Encoding::Utf8) == Ok::<
            Seq<char>,
            DecodeError,
        >(text),
{
    match encoding {
        Encoding::Utf8 => lemma_utf8_entry_read_back(data, place, text),
        Encoding::Utf16 => lemma_utf16_entry_read_back(data, place, text),
    }
}

/// The chunk that a string pool is written as: 28 bytes of header, four
/// bytes for each string's offset, then the string data. Its own first bytes
/// say so.
pub proof fn lemma_string_pool_layout(model: StringTableModel)
    requires
        model.encodable(),
    ensures
        model.bytes().len() == model.chunk_len(),
        model.prologue() == (ChunkHeader {
            start_offset: 0,
            header_size: 28,
            chunk_size: model.chunk_len() as u32,
            token: TOKEN_STRING_TABLE,
        }),
        model.prologue().well_formed(),
        ChunkHeader::read_spec(model.bytes(), 0, model.bytes().len() as int) == Ok::<
            ChunkHeader,
            DecodeError,
        >(model.prologue()),
{
    lemma_u32_seq_bytes(model.offsets());
    lemma_chunk_prologue(TOKEN_STRING_TABLE, model.header_bytes(), model.body_bytes());
}

/// The fields of the header, as the written chunk holds them.
pub proof fn lemma_written_header(model: StringTableModel)
    requires
        model.encodable(),
    ensures
        28 <= model.bytes().len(),
        le_u32(model.bytes(), 8) == model.strings.len(),
        le_u32(model.bytes(), 12) == 0,
        le_u32(model.bytes(), 16) == model.flags(),
        le_u32(model.bytes(), 20) == model.strings_start(),
{
    let header = model.header_bytes();
    let whole = model.bytes();
    lemma_u32_seq_bytes(model.offsets());
    assert(header.len() == 20);
    lemma_chunk_prologue(TOKEN_STRING_TABLE, header, model.body_bytes());
    lemma_u32_bytes_read_back(model.strings.len() as u32);
    lemma_u32_bytes_read_back(0);
    lemma_u32_bytes_read_back(model.flags());
    lemma_u32_bytes_read_back(model.strings_start() as u32);
    assert(whole.subrange(8, 28) == header);
    lemma_field_in_buffer(whole, 8, header, 0);
    lemma_field_in_buffer(whole, 8, header, 4);
    lemma_field_in_buffer(whole, 8, header, 8);
    lemma_field_in_buffer(whole, 8, header, 12);
    assert(le_u32(header, 0) == model.strings.len());
    assert(le_u32(header, 4) == 0);
    assert(le_u32(header, 8) == model.flags());
    assert(le_u32(header, 12) == model.strings_start());
}

/// The fields of the header of a written string pool, as a view over the
/// chunk reads them.
pub proof fn lemma_string_pool_fields(view: StringTableWrapper, model: StringTableModel)
    requires
        holds_string_pool(view.bytes(), view.header().start_offset as int, model),
    ensures
        view.strings_len_spec() == model.strings.len(),
        view.styles_len_spec() == 0,
        view.flags_spec() == model.flags(),
        view.encoding_spec() == model.encoding,
{
    let data = view.bytes();
    let start = view.header().start_offset as int;
    lemma_written_header(model);
    lemma_field_in_buffer(data, start, model.bytes(), 8);
    lemma_field_in_buffer(data, start, model.bytes(), 12);
    lemma_field_in_buffer(data, start, model.bytes(), 16);
    assert(0x100u32 & 0x100u32 == 0x100u32) by (bit_vector);
    assert(0u32 & 0x100u32 == 0u32) by (bit_vector);
}

/// The parts of the chunk that a string pool is written as, and where they
/// lie in it: the table of offsets behind the first 28 bytes, and the string
/// data behind the table.
pub proof fn lemma_written_parts(model: StringTableModel)
    requires
        model.encodable(),
    ensures
        ({
            let table = u32_seq_le_bytes(model.offsets());
            let data = model.data_bytes();
            let entries = entries_bytes(model.encoding, model.strings);
            &&& table.len() == 4 * model.strings.len()
            &&& model.bytes().len() == 28 + table.len() + data.len()
            &&& model.bytes().subrange(28, 28 + table.len() as int) == table
            &&& model.bytes().subrange(
                28 + table.len() as int,
                28 + table.len() + data.len() as int,
            ) == data
            &&& entries.len() <= data.len()
            &&& data.subrange(0, entries.len() as int) == entries
        }),
{
    let body = model.body_bytes();
    let table = u32_seq_le_bytes(model.offsets());
    let data = model.data_bytes();
    let entries = entries_bytes(model.encoding, model.strings);
    let padding = Seq::new(padding_len(entries.len() as int) as nat, |i: int| 0u8);
    lemma_u32_seq_bytes(model.offsets());
    assert(model.header_bytes().len() == 20);
    lemma_chunk_prologue(TOKEN_STRING_TABLE, model.header_bytes(), body);
    lemma_concat_parts(table, data);
    lemma_concat_parts(entries, padding);
    let whole = model.bytes();
    assert(whole.subrange(28, 28 + body.len() as int) == body);
    lemma_part_in_buffer(whole, 28, body, 0, table.len() as int);
    lemma_part_in_buffer(whole, 28, body, table.len() as int, body.len() as int);
}

/// The offset of the entry of the string at `index`, as the written chunk
/// holds it in its table of offsets.
pub proof fn lemma_written_offset(model: StringTableModel, index: int)
    requires
        model.encodable(),
        0 <= index < model.strings.len(),
    ensures
        28 + 4 * index + 4 <= model.bytes().len(),
        le_u32(model.bytes(), 28 + 4 * index) == model.entry_offset(index),
        0 <= model.entry_offset(index) <= u32::MAX,
{
    let table = u32_seq_le_bytes(model.offsets());
    lemma_written_parts(model);
    lemma_u32_seq_bytes(model.offsets());
    lemma_entry_in_data(model.encoding, model.strings, index);
    lemma_field_in_buffer(model.bytes(), 28, table, 4 * index);
    assert(model.offsets()[index] == model.entry_offset(index) as u32);
}

/// The entry of the string at `index`, as the written chunk holds it in its
/// string data.
pub proof fn lemma_written_entry(model: StringTableModel, index: int)
    requires
        model.encodable(),
        0 <= index < model.strings.len(),
    ensures
        ({
            let from = model.strings_start() + model.entry_offset(index);
            let entry = entry_bytes(model.encoding, model.strings[index]);
            &&& 0 <= model.entry_offset(index)
            &&& from + entry.len() <= model.bytes().len()
            &&& model.bytes().subrange(from, from + entry.len()) == entry
        }),
{
    let data = model.data_bytes();
    let entries = entries_bytes(model.encoding, model.strings);
    let offset = model.entry_offset(index);
    let entry = entry_bytes(model.encoding, model.strings[index]);
    let to = offset + entry.len() as int;
    lemma_written_parts(model);
    lemma_entry_in_data(model.encoding, model.strings, index);
    lemma_part_in_buffer(data, 0, entries, offset, to);
    lemma_part_in_buffer(model.bytes(), model.strings_start(), data, offset, to);
}

/// The place of the entry of the string at `index` in a written string pool,
/// as a view over the chunk looks it up.
#[verifier::rlimit(50)]
pub proof fn lemma_string_pool_position(
    view: StringTableWrapper,
    model: StringTableModel,
    index: u32,
)
    requires
        holds_string_pool(view.bytes(), view.header().start_offset as int, model),
        index < model.strings.len(),
    ensures
        view.string_position_spec(index) == Ok::<int, DecodeError>(
            view.header().start_offset + model.strings_start() + model.entry_offset(
                index as int,
            ),
        ),
{
    let data = view.bytes();
    let whole = model.bytes();
    let start = view.header().start_offset as int;
    let i = index as int;
    lemma_written_header(model);
    lemma_written_offset(model, i);
    lemma_field_in_buffer(data, start, whole, 20);
    lemma_field_in_buffer(data, start, whole, 28 + 4 * i);
}

/// The entry of the string at `index` of a written string pool lies in the
/// buffer of a view over the chunk, at its place.
#[verifier::rlimit(50)]
pub proof fn lemma_string_pool_entry(view: StringTableWrapper, model: StringTableModel, index: u32)
    requires
        holds_string_pool(view.bytes(), view.header().start_offset as int, model),
        index < model.strings.len(),
    ensures
        ({
            let place = view.header().start_offset + model.strings_start() + model.entry_offset(
                index as int,
            );
            let entry = entry_bytes(model.encoding, model.strings[index as int]);
            &&& 0 <= place
            &&& place + entry.len() <= view.bytes().len()
            &&& view.bytes().subrange(place, place + entry.len()) == entry
        }),
{
    let start = view.header().start_offset as int;
    let i = index as int;
    let from = model.strings_start() + model.entry_offset(i);
    let entry = entry_bytes(model.encoding, model.strings[i]);
    lemma_written_entry(model, i);
    lemma_part_in_buffer(view.bytes(), start, model.bytes(), from, from + entry.len() as int);
}

/// Reading what was written gives back what was written: a view over the
/// chunk of a string pool has that pool's number of strings and encoding,
/// decodes each string, and has the pool as its owned form, wherever in a
/// buffer the chunk lies.
pub proof fn lemma_string_pool_read_back(view: StringTableWrapper, model: StringTableModel)
    requires
        holds_string_pool(view.bytes(), view.header().start_offset as int, model),
    ensures
        view.strings_len_spec() == model.strings.len(),
        view.styles_len_spec() == 0,
        view.encoding_spec() == model.encoding,
        forall|i: u32|
            i < model.strings.len() ==> #[trigger] view.string_spec(i) == Ok::<
                Seq<char>,
                DecodeError,
            >(model.strings[i as int]),
        view.owned_matches(Ok(model)),
{
    lemma_string_pool_fields(view, model);
    assert forall|i: u32| i < model.strings.len() implies #[trigger] view.string_spec(i) == Ok::<
        Seq<char>,
        DecodeError,
    >(model.strings[i as int]) by {
        lemma_string_pool_position(view, model, i);
        lemma_string_pool_entry(view, model, i);
        let place = view.header().start_offset + model.strings_start() + model.entry_offset(
            i as int,
        );
        lemma_entry_read_back(view.bytes(), place, model.encoding, model.strings[i as int]);
    }
}

/// Writing back what was read gives the bytes that were read: where a view
/// lies over the chunk that some string pool is written as, its owned form
/// is that pool and no failure, and is written as the same chunk, byte for
/// byte.
pub proof fn lemma_string_pool_round_trip(
    view: StringTableWrapper,
    model: StringTableModel,
    outcome: Result<StringTableModel, DecodeError>,
)
    requires
        holds_string_pool(view.bytes(), view.header().start_offset as int, model),
        view.owned_matches(outcome),
    ensures
        outcome == Ok::<StringTableModel, DecodeError>(model),
        outcome->Ok_0.encodable(),
        written_at(view.bytes(), view.header().start_offset as int, outcome->Ok_0.bytes()),
{
    lemma_string_pool_read_back(view, model);
    lemma_string_pool_layout(model);
    match outcome {
        Ok(other) => {
            assert forall|i: int| 0 <= i < model.strings.len() implies other.strings[i]
                == model.strings[i] by {
                assert(view.string_spec(i as u32) == Ok::<Seq<char>, DecodeError>(
                    other.strings[i],
                ));
            }
            assert(other.strings =~= model.strings);
        },
        Err(e) => {
            let i = choose|i: u32|
                i < view.strings_len_spec() && #[trigger] view.string_spec(i) == Err::<
                    Seq<char>,
                    DecodeError,
                >(e);
            assert(view.string_spec(i) is Ok);
        },
    }
}

} // verus!
