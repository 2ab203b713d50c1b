//! The owned form of a string pool.
//!
//! A pool is written so that the view reads back what was written, and so
//! that every length means in the format what it says. The view reads
//! lengths in a simple form, which agrees with the format up to 255 for a
//! UTF-8 length and up to `0x7FFF` for a UTF-16 length. So an entry holds
//! UTF-8 text of up to 255 bytes without a NUL character, or UTF-16 text of
//! up to `0x7FFF` code units. A pool with a string that no entry can hold is
//! not written.

use vstd::prelude::*;
use vstd::string::StrSliceExecFns;
use vstd::utf8::encode_utf8;

use crate::chunks::chunk_header::ChunkHeader;
use crate::chunks::TOKEN_STRING_TABLE;
use crate::errors::EncodeError;
use crate::model::owned::{assemble_chunk, chunk_bytes, chunk_prologue, Encoding};
use crate::text::{encode_utf16, lemma_utf8_zero_bytes, utf16le_bytes, utf16le_raw_encode};
use crate::wire::{
    lemma_u32_seq_bytes, push_u16, push_u32, u16_le_bytes, u32_le_bytes, u32_seq_le_bytes,
};

verus! {

/// The greatest length that a UTF-8 entry can state: a length of two bytes
/// starts with the mark and holds the length in its second byte.
pub const MAX_UTF8_LENGTH: usize = 0xFF;

/// The greatest number of code units that a UTF-16 entry can state: from
/// `0x8000` on the format means a length of four bytes.
pub const MAX_UTF16_LENGTH: usize = 0x7FFF;

/// The bytes that state a length in a UTF-8 entry: the length itself below
/// the mark, else the mark and then the length.
pub open spec fn utf8_length_bytes(length: int) -> Seq<u8> {
    if length < 0x80 {
        seq![length as u8]
    } else {
        seq![0x80u8, length as u8]
    }
}

/// Whether `text` is longer than an entry of the encoding can state.
pub open spec fn entry_too_long(encoding: Encoding, text: Seq<char>) -> bool {
    match encoding {
        Encoding::Utf8 => text.len() > MAX_UTF8_LENGTH || encode_utf8(text).len()
            > MAX_UTF8_LENGTH,
        Encoding::Utf16 => encode_utf16(text).len() > MAX_UTF16_LENGTH,
    }
}

/// Whether `text` holds a NUL character where the encoding ends an entry at
/// the first zero byte.
pub open spec fn entry_has_nul(encoding: Encoding, text: Seq<char>) -> bool {
    encoding == Encoding::Utf8 && text.contains('\0')
}

/// Whether an entry of the encoding can hold `text` so that it is read back.
pub open spec fn entry_representable(encoding: Encoding, text: Seq<char>) -> bool {
    !entry_too_long(encoding, text) && !entry_has_nul(encoding, text)
}

/// The entry that holds `text`. In UTF-8: the number of characters, the
/// number of bytes, the bytes, a zero byte. In UTF-16: the number of code
/// units, the code units, a zero code unit.
pub open spec fn entry_bytes(encoding: Encoding, text: Seq<char>) -> Seq<u8> {
    match encoding {
        Encoding::Utf8 => utf8_length_bytes(text.len() as int) + utf8_length_bytes(
            encode_utf8(text).len() as int,
        ) + encode_utf8(text) + seq![0u8],
        Encoding::Utf16 => u16_le_bytes(encode_utf16(text).len() as u16) + utf16le_bytes(text)
            + seq![0u8, 0u8],
    }
}

/// The entries of `strings` one behind the other.
pub open spec fn entries_bytes(encoding: Encoding, strings: Seq<Seq<char>>) -> Seq<u8>
    decreases strings.len(),
{
    if strings.len() == 0 {
        Seq::empty()
    } else {
        entries_bytes(encoding, strings.drop_last()) + entry_bytes(encoding, strings.last())
    }
}

/// How many zero bytes follow `length` bytes of string data to end it on a
/// multiple of four.
pub open spec fn padding_len(length: int) -> int {
    (4 - length % 4) % 4
}

/// What a string pool says: its strings in the order of their indices, and
/// the encoding in which it stores them.
pub struct StringTableModel {
    pub encoding: Encoding,
    pub strings: Seq<Seq<char>>,
}

impl StringTableModel {
    /// The flags of the pool: the UTF-8 flag or none.
    pub open spec fn flags(self) -> u32 {
        match self.encoding {
            Encoding::Utf8 => 0x100,
            Encoding::Utf16 => 0,
        }
    }

    /// Whether every string can be held by an entry.
    pub open spec fn representable(self) -> bool {
        forall|i: int|
            0 <= i < self.strings.len() ==> entry_representable(
                self.encoding,
                #[trigger] self.strings[i],
            )
    }

    /// Where the entry of the string at `index` starts, counted from the
    /// start of the string data.
    pub open spec fn entry_offset(self, index: int) -> int {
        entries_bytes(self.encoding, self.strings.take(index)).len() as int
    }

    /// The table of offsets: where each entry starts.
    pub open spec fn offsets(self) -> Seq<u32> {
        Seq::new(self.strings.len(), |i: int| self.entry_offset(i) as u32)
    }

    /// The string data: the entries, and zero bytes up to a multiple of four.
    pub open spec fn data_bytes(self) -> Seq<u8> {
        let entries = entries_bytes(self.encoding, self.strings);
        entries + Seq::new(padding_len(entries.len() as int) as nat, |i: int| 0u8)
    }

    /// Where the string data starts, counted from the start of the chunk.
    pub open spec fn strings_start(self) -> int {
        28 + 4 * (self.strings.len() as int)
    }

    /// The header fields behind the prologue: the number of strings, no
    /// styles, the flags, the start of the string data, no style data.
    pub open spec fn header_bytes(self) -> Seq<u8> {
        u32_le_bytes(self.strings.len() as u32) + u32_le_bytes(0) + u32_le_bytes(self.flags())
            + u32_le_bytes(self.strings_start() as u32) + u32_le_bytes(0)
    }

    /// The body: the table of offsets, then the string data.
    pub open spec fn body_bytes(self) -> Seq<u8> {
        u32_seq_le_bytes(self.offsets()) + self.data_bytes()
    }

    /// The length of the whole chunk.
    pub open spec fn chunk_len(self) -> int {
        self.strings_start() + self.data_bytes().len()
    }

    /// Whether the pool can be written: every string fits an entry, and the
    /// size of the chunk fits its field.
    pub open spec fn encodable(self) -> bool {
        self.representable() && self.chunk_len() <= u32::MAX
    }

    /// The prologue of the chunk that this pool is written as.
    pub open spec fn prologue(self) -> ChunkHeader {
        chunk_prologue(TOKEN_STRING_TABLE, self.header_bytes(), self.body_bytes())
    }

    /// The chunk that this pool is written as.
    pub open spec fn bytes(self) -> Seq<u8> {
        chunk_bytes(TOKEN_STRING_TABLE, self.header_bytes(), self.body_bytes())
    }

    /// Whether `e` is the failure of writing this pool: the first string that
    /// no entry can hold, named by its index, with length before NUL; and
    /// where there is none, a chunk too large.
    pub open spec fn fails_with(self, e: EncodeError) -> bool {
        match e {
            EncodeError::StringTooLong { index } => {
                &&& index < self.strings.len()
                &&& self.take(index as int).representable()
                &&& entry_too_long(self.encoding, self.strings[index as int])
            },
            EncodeError::EmbeddedNul { index } => {
                &&& index < self.strings.len()
                &&& self.take(index as int).representable()
                &&& !entry_too_long(self.encoding, self.strings[index as int])
                &&& entry_has_nul(self.encoding, self.strings[index as int])
            },
            EncodeError::ChunkTooLarge => self.representable() && self.chunk_len() > u32::MAX,
        }
    }

    /// The pool of the first `count` strings.
    pub open spec fn take(self, count: int) -> StringTableModel {
        StringTableModel { encoding: self.encoding, strings: self.strings.take(count) }
    }
}

/// Appends the bytes that state `length` in a UTF-8 entry.
fn push_utf8_length(out: &mut Vec<u8>, length: usize)
    requires
        length <= MAX_UTF8_LENGTH,
    ensures
        final(out)@ == old(out)@ + utf8_length_bytes(length as int),
{
    if length < 0x80 {
        out.push(length as u8);
    } else {
        out.push(0x80);
        out.push(length as u8);
    }
    assert(out@ =~= old(out)@ + utf8_length_bytes(length as int));
}

/// Appends all of `bytes`.
fn push_bytes(out: &mut Vec<u8>, bytes: &[u8])
    ensures
        final(out)@ == old(out)@ + bytes@,
{
    let mut i: usize = 0;
    while i < bytes.len()
        invariant
            i <= bytes@.len(),
            out@ == old(out)@ + bytes@.subrange(0, i as int),
        decreases bytes@.len() - i,
    {
        out.push(bytes[i]);
        i = i + 1;
    }
    assert(bytes@.subrange(0, i as int) == bytes@);
}

/// Whether one of `bytes` is zero.
fn holds_zero(bytes: &[u8]) -> (found: bool)
    ensures
        found == bytes@.contains(0u8),
{
    let mut i: usize = 0;
    while i < bytes.len()
        invariant
            i <= bytes@.len(),
            forall|k: int| 0 <= k < i ==> bytes@[k] != 0,
        decreases bytes@.len() - i,
    {
        if bytes[i] == 0 {
            return true;
        }
        i = i + 1;
    }
    false
}

/// Appends the entry that holds `text`, the string at `index`, or says why
/// no entry can hold it. Nothing is appended then.
fn push_entry(out: &mut Vec<u8>, encoding: Encoding, text: &str, index: usize) -> (r: Result<
    (),
    EncodeError,
>)
    ensures
        match r {
            Ok(()) => entry_representable(encoding, text@) && final(out)@ == old(out)@
                + entry_bytes(encoding, text@),
            Err(e) => final(out)@ == old(out)@ && if entry_too_long(encoding, text@) {
                e == (EncodeError::StringTooLong { index })
            } else {
                entry_has_nul(encoding, text@) && e == (EncodeError::EmbeddedNul { index })
            },
        },
{
    match encoding {
        Encoding::Utf8 => {
            let bytes = text.as_bytes();
            let chars: usize = text.unicode_len();
            if chars > MAX_UTF8_LENGTH || bytes.len() > MAX_UTF8_LENGTH {
                return Err(EncodeError::StringTooLong { index });
            }
            proof {
                lemma_utf8_zero_bytes(text@);
            }
            if holds_zero(bytes) {
                return Err(EncodeError::EmbeddedNul { index });
            }
            push_utf8_length(out, chars);
            push_utf8_length(out, bytes.len());
            push_bytes(out, bytes);
            out.push(0);
            assert(out@ =~= old(out)@ + entry_bytes(encoding, text@));
            Ok(())
        },
        Encoding::Utf16 => {
            let bytes = utf16le_raw_encode(text);
            let units: usize = bytes.len() / 2;
            if units > MAX_UTF16_LENGTH {
                return Err(EncodeError::StringTooLong { index });
            }
            push_u16(out, units as u16);
            push_bytes(out, bytes.as_slice());
            out.push(0);
            out.push(0);
            assert(out@ =~= old(out)@ + entry_bytes(encoding, text@));
            Ok(())
        },
    }
}

/// A string pool that owns its strings. The place of a string is its index,
/// by which the rest of a resource container refers to it.
#[derive(Debug)]
pub struct StringTableBuf {
    strings: Vec<String>,
    encoding: Encoding,
}

impl View for StringTableBuf {
    type V = StringTableModel;

    closed spec fn view(&self) -> StringTableModel {
        StringTableModel {
            encoding: self.encoding,
            strings: Seq::new(self.strings@.len(), |i: int| self.strings@[i]@),
        }
    }
}

impl Default for StringTableBuf {
    /// An empty pool that stores UTF-8.
    fn default() -> (buf: Self)
        ensures
            buf@ == (StringTableModel { encoding: Encoding::Utf8, strings: Seq::empty() }),
    {
        let buf = StringTableBuf { strings: Vec::new(), encoding: Encoding::Utf8 };
        assert(buf@.strings =~= Seq::empty());
        buf
    }
}

impl StringTableBuf {
    /// Makes the pool store its strings in `encoding`.
    pub fn set_encoding(&mut self, encoding: Encoding)
        ensures
            final(self)@ == (StringTableModel { encoding, strings: old(self)@.strings }),
    {
        self.encoding = encoding;
        assert(self@.strings =~= old(self)@.strings);
    }

    /// The encoding in which the pool stores its strings.
    pub fn get_encoding(&self) -> (encoding: Encoding)
        ensures
            encoding == self@.encoding,
    {
        self.encoding
    }

    /// Adds `new_string` behind the strings that are there: its index is the
    /// number of strings before the call.
    pub fn add_string(&mut self, new_string: String)
        ensures
            final(self)@ == (StringTableModel {
                encoding: old(self)@.encoding,
                strings: old(self)@.strings.push(new_string@),
            }),
    {
        self.strings.push(new_string);
        assert(self@.strings =~= old(self)@.strings.push(new_string@));
    }

    /// The number of strings.
    pub fn get_strings_len(&self) -> (len: usize)
        ensures
            len == self@.strings.len(),
    {
        self.strings.len()
    }

    /// The string at `idx`, if there is one.
    pub fn get_string(&self, idx: usize) -> (r: Option<&str>)
        ensures
            match r {
                Some(text) => idx < self@.strings.len() && text@ == self@.strings[idx as int],
                None => idx >= self@.strings.len(),
            },
    {
        if idx < self.strings.len() {
            Some(self.strings[idx].as_str())
        } else {
            None
        }
    }

    /// The token of the chunk that a string pool is written as.
    pub fn get_token(&self) -> (token: u16)
        ensures
            token == TOKEN_STRING_TABLE,
    {
        TOKEN_STRING_TABLE
    }

    /// The header fields behind the prologue, where the start of the string
    /// data fits its field.
    pub fn get_header(&self) -> (r: Result<Vec<u8>, EncodeError>)
        ensures
            match r {
                Ok(header) => self@.strings_start() <= u32::MAX && header@
                    == self@.header_bytes(),
                Err(e) => self@.strings_start() > u32::MAX && e == EncodeError::ChunkTooLarge,
            },
    {
        let count: usize = self.strings.len();
        if count as u64 > ((u32::MAX - 28) / 4) as u64 {
            return Err(EncodeError::ChunkTooLarge);
        }
        let flags: u32 = match self.encoding {
            Encoding::Utf8 => 0x100,
            Encoding::Utf16 => 0,
        };
        let mut out: Vec<u8> = Vec::new();
        push_u32(&mut out, count as u32);
        push_u32(&mut out, 0);
        push_u32(&mut out, flags);
        push_u32(&mut out, 28 + 4 * (count as u32));
        push_u32(&mut out, 0);
        Ok(out)
    }

    /// The body: the table of offsets, then the entries and their padding.
    /// It fails at the first string that no entry can hold, and where an
    /// offset does not fit its field.
    pub fn get_body_data(&self) -> (r: Result<Vec<u8>, EncodeError>)
        ensures
            match r {
                Ok(body) => self@.representable() && self@.data_bytes().len() <= u32::MAX
                    && body@ == self@.body_bytes(),
                Err(e) => if self@.representable() {
                    self@.data_bytes().len() > u32::MAX && e == EncodeError::ChunkTooLarge
                } else {
                    self@.fails_with(e)
                },
            },
    {
        let ghost model = self@;
        let mut string_offsets: Vec<usize> = Vec::new();
        let mut string_buffer: Vec<u8> = Vec::new();
        let mut i: usize = 0;
        while i < self.strings.len()
            invariant
                i <= self.strings@.len(),
                model == self@,
                model.take(i as int).representable(),
                string_buffer@ == entries_bytes(model.encoding, model.strings.take(i as int)),
                string_offsets@.len() == i,
                forall|k: int|
                    0 <= k < i ==> #[trigger] string_offsets@[k] == model.entry_offset(k)
                        && string_offsets@[k] <= string_buffer@.len(),
            decreases self.strings@.len() - i,
        {
            let ghost before = string_buffer@;
            string_offsets.push(string_buffer.len());
            assert(model.strings.take(i + 1).drop_last() == model.strings.take(i as int));
            assert(model.strings.take(i + 1).last() == model.strings[i as int]);
            match push_entry(&mut string_buffer, self.encoding, self.strings[i].as_str(), i) {
                Ok(()) => {},
                Err(e) => {
                    return Err(e);
                },
            }
            assert forall|k: int| 0 <= k < i + 1 implies entry_representable(
                model.encoding,
                #[trigger] model.take(i + 1).strings[k],
            ) by {
                if k < i {
                    assert(model.take(i as int).strings[k] == model.strings[k]);
                }
            }
            i = i + 1;
        }
        assert(model.strings.take(i as int) == model.strings);
        assert(model.take(i as int) == model);

        let padding: usize = (4 - string_buffer.len() % 4) % 4;
        if string_buffer.len() > u32::MAX as usize - padding {
            return Err(EncodeError::ChunkTooLarge);
        }
        let mut out: Vec<u8> = Vec::new();
        let mut j: usize = 0;
        while j < string_offsets.len()
            invariant
                j <= string_offsets@.len() == model.strings.len(),
                string_buffer@.len() <= u32::MAX,
                string_buffer@ == entries_bytes(model.encoding, model.strings),
                forall|k: int|
                    0 <= k < string_offsets@.len() ==> #[trigger] string_offsets@[k]
                        == model.entry_offset(k) && string_offsets@[k] <= string_buffer@.len(),
                out@ == u32_seq_le_bytes(model.offsets().subrange(0, j as int)),
            decreases string_offsets@.len() - j,
        {
            let offset: usize = string_offsets[j];
            assert(offset == model.entry_offset(j as int));
            push_u32(&mut out, offset as u32);
            assert(model.offsets().subrange(0, j + 1).drop_last() == model.offsets().subrange(
                0,
                j as int,
            ));
            j = j + 1;
        }
        assert(model.offsets().subrange(0, j as int) == model.offsets());
        push_bytes(&mut out, string_buffer.as_slice());
        let ghost unpadded = out@;
        let mut p: usize = 0;
        while p < padding
            invariant
                p <= padding,
                out@ == unpadded + Seq::new(p as nat, |i: int| 0u8),
            decreases padding - p,
        {
            out.push(0);
            p = p + 1;
            assert(out@ =~= unpadded + Seq::new(p as nat, |i: int| 0u8));
        }
        assert(out@ =~= model.body_bytes());
        Ok(out)
    }

    /// Writes the pool as a chunk: prologue, header, table of offsets, string
    /// data. It fails at the first string that no entry can hold, and where
    /// the chunk's size does not fit its field.
    pub fn to_vec(&self) -> (r: Result<Vec<u8>, EncodeError>)
        ensures
            match r {
                Ok(bytes) => self@.encodable() && bytes@ == self@.bytes(),
                Err(e) => !self@.encodable() && self@.fails_with(e),
            },
    {
        proof {
            lemma_u32_seq_bytes(self@.offsets());
        }
        let body = self.get_body_data()?;
        let header = self.get_header()?;
        assemble_chunk(self.get_token(), &header, &body)
    }
}

} // verus!
