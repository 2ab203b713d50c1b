//! Owned forms of chunks, which can be built, changed and written back as bytes.

use vstd::prelude::*;

use crate::chunks::chunk_header::{ChunkHeader, PROLOGUE_SIZE};
use crate::errors::{DecodeError, EncodeError};
use crate::wire::{
    le_u16, le_u32, lemma_u16_bytes_read_back, lemma_u32_bytes_read_back, push_u16, push_u32,
    read_u32_spec, u16_le_bytes, u32_le_bytes,
};

pub mod string_table;
pub mod table_type_spec;

pub use self::string_table::StringTableBuf;
pub use self::string_table::StringTableModel;
pub use self::table_type_spec::TableTypeSpecBuf;
pub use self::table_type_spec::TypeSpecModel;

verus! {

/// The two encodings in which a string pool stores its text.
#[derive(Debug, Clone, Copy, PartialEq, Eq, Structural)]
pub enum Encoding {
    Utf8,
    Utf16,
}

/// Whether a chunk of this header and body can be written: its sizes must fit
/// the 16-bit and 32-bit fields of the prologue.
pub open spec fn chunk_fits(header: Seq<u8>, body: Seq<u8>) -> bool {
    &&& PROLOGUE_SIZE + header.len() <= u16::MAX
    &&& PROLOGUE_SIZE + header.len() + body.len() <= u32::MAX
}

/// The prologue that a chunk of this token, header and body starts with.
pub open spec fn chunk_prologue(token: u16, header: Seq<u8>, body: Seq<u8>) -> ChunkHeader {
    ChunkHeader {
        start_offset: 0,
        header_size: (PROLOGUE_SIZE + header.len()) as u16,
        chunk_size: (PROLOGUE_SIZE + header.len() + body.len()) as u32,
        token,
    }
}

/// The bytes of a whole chunk: the prologue, the rest of the header, the body.
pub open spec fn chunk_bytes(token: u16, header: Seq<u8>, body: Seq<u8>) -> Seq<u8> {
    chunk_prologue(token, header, body).prologue_bytes() + header + body
}

/// Whether the bytes of `data` from `start` on are the chunk `written`.
pub open spec fn written_at(data: Seq<u8>, start: int, written: Seq<u8>) -> bool {
    &&& 0 <= start
    &&& start + written.len() <= data.len()
    &&& data.subrange(start, start + written.len()) == written
}

/// A field of a chunk that lies in a buffer is read in the buffer as it is
/// read in the chunk.
pub proof fn lemma_field_in_buffer(data: Seq<u8>, start: int, written: Seq<u8>, at: int)
    requires
        written_at(data, start, written),
        0 <= at,
        at + 4 <= written.len(),
    ensures
        le_u32(data, start + at) == le_u32(written, at),
        read_u32_spec(data, start + at) == Ok::<u32, DecodeError>(le_u32(written, at) as u32),
{
    assert(written[at] == data[start + at]);
    assert(written[at + 1] == data[start + at + 1]);
    assert(written[at + 2] == data[start + at + 2]);
    assert(written[at + 3] == data[start + at + 3]);
}

/// A byte and a stretch of bytes of a chunk that lies in a buffer are found
/// in the buffer at the chunk's place.
pub proof fn lemma_part_in_buffer(data: Seq<u8>, start: int, written: Seq<u8>, from: int, to: int)
    requires
        written_at(data, start, written),
        0 <= from <= to <= written.len(),
    ensures
        data.subrange(start + from, start + to) == written.subrange(from, to),
        from < to ==> data[start + from] == written[from],
{
    assert forall|k: int| 0 <= k < to - from implies data.subrange(start + from, start + to)[k]
        == written.subrange(from, to)[k] by {
        assert(data.subrange(start, start + written.len())[from + k] == data[start + from + k]);
    }
    assert(data.subrange(start + from, start + to) =~= written.subrange(from, to));
    if from < to {
        assert(data.subrange(start, start + written.len())[from] == data[start + from]);
    }
}

/// The two parts of a sequence that was put together lie in it one behind
/// the other.
pub proof fn lemma_concat_parts(front: Seq<u8>, back: Seq<u8>)
    ensures
        (front + back).len() == front.len() + back.len(),
        (front + back).subrange(0, front.len() as int) == front,
        (front + back).subrange(front.len() as int, front.len() + back.len() as int) == back,
{
    assert((front + back).subrange(0, front.len() as int) =~= front);
    assert((front + back).subrange(front.len() as int, front.len() + back.len() as int) =~= back);
}

/// The prologue of a chunk that was put together is well-formed and is read
/// back from the chunk's first eight bytes.
pub proof fn lemma_chunk_prologue(token: u16, header: Seq<u8>, body: Seq<u8>)
    requires
        chunk_fits(header, body),
    ensures
        chunk_bytes(token, header, body).len() == PROLOGUE_SIZE + header.len() + body.len(),
        chunk_prologue(token, header, body).well_formed(),
        ChunkHeader::read_spec(
            chunk_bytes(token, header, body),
            0,
            chunk_bytes(token, header, body).len() as int,
        ) == Ok::<ChunkHeader, DecodeError>(chunk_prologue(token, header, body)),
        chunk_bytes(token, header, body).subrange(8, 8 + header.len() as int) == header,
        chunk_bytes(token, header, body).subrange(
            8 + header.len() as int,
            8 + header.len() + body.len() as int,
        ) == body,
{
    let prologue = chunk_prologue(token, header, body);
    let b = chunk_bytes(token, header, body);
    lemma_u16_bytes_read_back(prologue.token);
    lemma_u16_bytes_read_back(prologue.header_size);
    lemma_u32_bytes_read_back(prologue.chunk_size);
    assert(b.subrange(0, 2) =~= u16_le_bytes(prologue.token));
    assert(b.subrange(2, 4) =~= u16_le_bytes(prologue.header_size));
    assert(b.subrange(4, 8) =~= u32_le_bytes(prologue.chunk_size));
    assert(le_u16(b, 0) == le_u16(b.subrange(0, 2), 0));
    assert(le_u16(b, 2) == le_u16(b.subrange(2, 4), 0));
    assert(le_u32(b, 4) == le_u32(b.subrange(4, 8), 0));
    assert(b.subrange(8, 8 + header.len() as int) =~= header);
    assert(b.subrange(8 + header.len() as int, 8 + header.len() + body.len() as int) =~= body);
}

/// Puts a chunk together from its token, the fields of its header that follow
/// the prologue, and its body.
pub fn assemble_chunk(token: u16, header: &Vec<u8>, body: &Vec<u8>) -> (r: Result<
    Vec<u8>,
    EncodeError,
>)
    ensures
        match r {
            Ok(bytes) => chunk_fits(header@, body@) && bytes@ == chunk_bytes(
                token,
                header@,
                body@,
            ),
            Err(e) => !chunk_fits(header@, body@) && e == EncodeError::ChunkTooLarge,
        },
{
    let header_len: usize = header.len();
    let body_len: usize = body.len();
    if header_len > (u16::MAX - PROLOGUE_SIZE) as usize {
        return Err(EncodeError::ChunkTooLarge);
    }
    let header_size: u16 = PROLOGUE_SIZE + header_len as u16;
    if body_len as u64 > u32::MAX as u64 - header_size as u64 {
        return Err(EncodeError::ChunkTooLarge);
    }
    let chunk_size: u32 = header_size as u32 + body_len as u32;
    let mut out: Vec<u8> = Vec::new();
    push_u16(&mut out, token);
    push_u16(&mut out, header_size);
    push_u32(&mut out, chunk_size);
    let mut i: usize = 0;
    while i < header_len
        invariant
            i <= header_len == header@.len(),
            out@ == chunk_prologue(token, header@, body@).prologue_bytes() + header@.subrange(
                0,
                i as int,
            ),
        decreases header_len - i,
    {
        out.push(header[i]);
        i = i + 1;
    }
    assert(header@.subrange(0, header_len as int) == header@);
    let ghost front = out@;
    let mut j: usize = 0;
    while j < body_len
        invariant
            j <= body_len == body@.len(),
            out@ == front + body@.subrange(0, j as int),
        decreases body_len - j,
    {
        out.push(body[j]);
        j = j + 1;
    }
    assert(body@.subrange(0, body_len as int) == body@);
    Ok(out)
}

} // verus!
