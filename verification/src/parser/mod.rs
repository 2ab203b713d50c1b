//! Decoders of whole files: a resource table and a compiled XML document.

use vstd::prelude::*;

use crate::chunks::{all_decode_as, walk, Chunk, ChunkHeader, ChunkLoader};
use crate::errors::DecodeError;
use crate::wire::{in_bounds, le_u32, Cursor};

verus! {

/// The length of the header of a resource table: the prologue and the number
/// of packages.
pub const TABLE_HEADER_SIZE: u64 = 12;

/// The length of the header of a compiled XML document: the prologue.
pub const XML_HEADER_SIZE: u64 = 8;

/// The headers of the chunks of a file whose own header takes `header_len`
/// bytes: a header that the buffer does not hold is a truncated read; else
/// the walk starts behind the header and ends where the file's prologue says
/// that the file ends.
pub open spec fn file_walk(data: Seq<u8>, header_len: int) -> Result<
    Seq<ChunkHeader>,
    DecodeError,
> {
    if !in_bounds(data.len(), 0, header_len) {
        Err(DecodeError::TruncatedRead)
    } else {
        walk(data, header_len, le_u32(data, 4))
    }
}

/// The decoder of resource tables.
pub struct ArscDecoder;

impl ArscDecoder {
    /// The chunks of a resource table, in the order in which they lie in the
    /// file, those inside a package behind the package.
    pub fn decode<'a>(&self, raw_data: &'a [u8]) -> (r: Result<Vec<Chunk<'a>>, DecodeError>)
        ensures
            match r {
                Ok(chunks) => file_walk(raw_data@, TABLE_HEADER_SIZE as int) is Ok
                    && all_decode_as(
                    chunks@,
                    raw_data,
                    file_walk(raw_data@, TABLE_HEADER_SIZE as int)->Ok_0,
                ),
                Err(e) => file_walk(raw_data@, TABLE_HEADER_SIZE as int) == Err::<
                    Seq<ChunkHeader>,
                    DecodeError,
                >(e),
            },
    {
        let mut cursor = Cursor::new(raw_data);

        let _token = cursor.read_u16()?;
        let _header_size = cursor.read_u16()?;
        let chunk_size = cursor.read_u32()?;
        let _package_amount = cursor.read_u32()?;

        ChunkLoader::read_all(&mut cursor, chunk_size as u64)
    }
}

/// The decoder of compiled XML documents.
pub struct XmlDecoder;

impl XmlDecoder {
    /// The chunks of a compiled XML document, in the order in which they lie
    /// in the file.
    pub fn decode<'a>(&self, raw_data: &'a [u8]) -> (r: Result<Vec<Chunk<'a>>, DecodeError>)
        ensures
            match r {
                Ok(chunks) => file_walk(raw_data@, XML_HEADER_SIZE as int) is Ok && all_decode_as(
                    chunks@,
                    raw_data,
                    file_walk(raw_data@, XML_HEADER_SIZE as int)->Ok_0,
                ),
                Err(e) => file_walk(raw_data@, XML_HEADER_SIZE as int) == Err::<
                    Seq<ChunkHeader>,
                    DecodeError,
                >(e),
            },
    {
        let mut cursor = Cursor::new(raw_data);

        let _token = cursor.read_u16()?;
        let _header_size = cursor.read_u16()?;
        let chunk_size = cursor.read_u32()?;

        ChunkLoader::read_all(&mut cursor, chunk_size as u64)
    }
}

} // verus!
