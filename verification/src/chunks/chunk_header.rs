//! The prologue that every chunk starts with.

use vstd::prelude::*;

use crate::errors::DecodeError;
use crate::wire::{in_bounds, le_u16, le_u32, u16_le_bytes, u32_le_bytes};

verus! {

/// The length in bytes of the prologue: token, header size and chunk size.
pub const PROLOGUE_SIZE: u16 = 8;

/// The prologue of one chunk, together with the place of the chunk in its buffer.
#[derive(Debug, Clone, Copy, PartialEq, Eq, Structural)]
pub struct ChunkHeader {
    /// Where the chunk's token stands, in bytes from the start of the buffer.
    pub start_offset: u64,
    /// The bytes that the chunk's own header takes, prologue included.
    pub header_size: u16,
    /// The bytes that the whole chunk takes, header and body.
    pub chunk_size: u32,
    /// What kind of chunk this is.
    pub token: u16,
}

impl ChunkHeader {
    /// The sizes agree with each other (the header holds the prologue and the
    /// chunk holds the header), and a `u64` can hold the chunk's end.
    pub open spec fn well_formed(&self) -> bool {
        &&& PROLOGUE_SIZE <= self.header_size
        &&& self.header_size <= self.chunk_size
        &&& self.start_offset + self.chunk_size <= u64::MAX
    }

    /// The place in the buffer of the byte that lies `relative` bytes into the chunk.
    pub open spec fn absolute_spec(&self, relative: int) -> int {
        self.start_offset + relative
    }

    /// The place of the first byte behind the chunk's header.
    pub open spec fn data_offset_spec(&self) -> int {
        self.start_offset + self.header_size
    }

    /// The place of the first byte behind the chunk.
    pub open spec fn chunk_end_spec(&self) -> int {
        self.start_offset + self.chunk_size
    }

    /// The header that the eight bytes from `at` on spell.
    pub open spec fn at(data: Seq<u8>, at: int) -> ChunkHeader {
        ChunkHeader {
            start_offset: at as u64,
            header_size: le_u16(data, at + 2) as u16,
            chunk_size: le_u32(data, at + 4) as u32,
            token: le_u16(data, at) as u16,
        }
    }

    /// What reading a prologue at `at` gives, where the region that may be
    /// read ends at `end`: a truncated read where the prologue does not lie
    /// inside the region and the buffer, a malformed header where its sizes
    /// contradict each other, else the header.
    pub open spec fn read_spec(data: Seq<u8>, at: int, end: int) -> Result<
        ChunkHeader,
        DecodeError,
    > {
        if !(in_bounds(data.len(), at, PROLOGUE_SIZE as int) && at + PROLOGUE_SIZE <= end
            <= u64::MAX) {
            Err(DecodeError::TruncatedRead)
        } else if !Self::at(data, at).well_formed() {
            Err(DecodeError::MalformedHeader)
        } else {
            Ok(Self::at(data, at))
        }
    }

    /// The eight bytes that spell the prologue.
    pub open spec fn prologue_bytes(&self) -> Seq<u8> {
        u16_le_bytes(self.token) + u16_le_bytes(self.header_size) + u32_le_bytes(self.chunk_size)
    }

    /// A header with the given place, sizes and token. Nothing is checked:
    /// whether the sizes agree is asked with [`ChunkHeader::is_well_formed`].
    pub fn new(start_offset: u64, header_size: u16, chunk_size: u32, token: u16) -> (header: Self)
        ensures
            header == (ChunkHeader { start_offset, header_size, chunk_size, token }),
    {
        ChunkHeader { start_offset, header_size, chunk_size, token }
    }

    /// Where the chunk starts in its buffer.
    pub fn get_offset(&self) -> (offset: u64)
        ensures
            offset == self.start_offset,
    {
        self.start_offset
    }

    /// The bytes that the chunk's header takes.
    pub fn get_header_size(&self) -> (size: u16)
        ensures
            size == self.header_size,
    {
        self.header_size
    }

    /// The bytes that the whole chunk takes.
    pub fn get_chunk_size(&self) -> (size: u32)
        ensures
            size == self.chunk_size,
    {
        self.chunk_size
    }

    /// What kind of chunk this is.
    pub fn get_token(&self) -> (token: u16)
        ensures
            token == self.token,
    {
        self.token
    }

    /// The place of the first byte behind the chunk's header.
    pub fn get_data_offset(&self) -> (offset: u64)
        requires
            self.data_offset_spec() <= u64::MAX,
        ensures
            offset == self.data_offset_spec(),
    {
        self.start_offset + self.header_size as u64
    }

    /// The place of the first byte behind the chunk, where a stream goes on.
    pub fn get_chunk_end(&self) -> (end: u64)
        requires
            self.chunk_end_spec() <= u64::MAX,
        ensures
            end == self.chunk_end_spec(),
    {
        self.start_offset + self.chunk_size as u64
    }

    /// The place in the buffer of the byte that lies `offset` bytes into the chunk.
    pub fn absolute(&self, offset: u64) -> (place: u64)
        requires
            self.absolute_spec(offset as int) <= u64::MAX,
        ensures
            place == self.absolute_spec(offset as int),
    {
        self.start_offset + offset
    }

    /// Whether the sizes agree with each other and the chunk's end can be addressed.
    pub fn is_well_formed(&self) -> (b: bool)
        ensures
            b == self.well_formed(),
    {
        PROLOGUE_SIZE <= self.header_size && self.header_size as u32 <= self.chunk_size
            && self.chunk_size as u64 <= u64::MAX - self.start_offset
    }
}

} // verus!
