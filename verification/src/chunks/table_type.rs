//! The view of a table type chunk: the entries of one resource type under one configuration.

use vstd::prelude::*;

use crate::chunks::chunk_header::ChunkHeader;
use crate::chunks::Chunk;
use crate::errors::DecodeError;
use crate::wire::Cursor;

verus! {

/// The decoder of table type chunks.
pub struct TableTypeDecoder;

impl TableTypeDecoder {
    /// The table type that `header` announces, as a view over the cursor's
    /// buffer. The cursor stays where it is.
    pub fn decode<'a>(cursor: &mut Cursor<'a>, header: &ChunkHeader) -> (r: Result<
        Chunk<'a>,
        DecodeError,
    >)
        ensures
            *final(cursor) == *old(cursor),
            r matches Ok(Chunk::TableType(view)) && view.buffer() == old(cursor).buffer()
                && view.header() == *header,
    {
        let view = TableTypeWrapper::new(cursor.get_ref(), *header);
        Ok(Chunk::TableType(view))
    }
}

/// A table type chunk inside a borrowed buffer.
#[derive(Debug, Clone, Copy)]
pub struct TableTypeWrapper<'a> {
    raw_data: &'a [u8],
    header: ChunkHeader,
}

impl<'a> TableTypeWrapper<'a> {
    /// The buffer that the view reads.
    pub closed spec fn buffer(&self) -> &'a [u8] {
        self.raw_data
    }

    /// The bytes of that buffer.
    pub open spec fn bytes(&self) -> Seq<u8> {
        self.buffer()@
    }

    /// The header of the chunk that the view reads.
    pub closed spec fn header(&self) -> ChunkHeader {
        self.header
    }

    /// A view over the chunk of `header` in `raw_data`.
    pub fn new(raw_data: &'a [u8], header: ChunkHeader) -> (view: Self)
        ensures
            view.buffer() == raw_data,
            view.header() == header,
    {
        TableTypeWrapper { raw_data, header }
    }

    /// The header of the chunk.
    pub fn get_header(&self) -> (header: ChunkHeader)
        ensures
            header == self.header(),
    {
        self.header
    }

    /// The buffer in which the chunk lies.
    pub fn get_raw_data(&self) -> (data: &'a [u8])
        ensures
            data == self.buffer(),
    {
        self.raw_data
    }
}

/// A table type as the resource model reads it.
#[derive(Debug, Clone, Copy)]
pub struct TableType<'a> {
    wrapper: TableTypeWrapper<'a>,
}

impl<'a> TableType<'a> {
    /// The view that this table type reads.
    pub closed spec fn view_of(&self) -> TableTypeWrapper<'a> {
        self.wrapper
    }

    /// A table type that reads `wrapper`.
    pub fn new(wrapper: TableTypeWrapper<'a>) -> (table_type: Self)
        ensures
            table_type.view_of() == wrapper,
    {
        TableType { wrapper }
    }
}

} // verus!
