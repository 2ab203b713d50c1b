//! The view of a package chunk: a container whose own chunks follow its header.

use vstd::prelude::*;

use crate::chunks::chunk_header::ChunkHeader;
use crate::chunks::Chunk;
use crate::errors::DecodeError;
use crate::wire::Cursor;

verus! {

/// The decoder of package chunks.
pub struct PackageDecoder;

impl PackageDecoder {
    /// The package that `header` announces, as a view over the cursor's
    /// buffer. A package holds further chunks, which follow its header: the
    /// cursor is left at the first of them.
    pub fn decode<'a>(cursor: &mut Cursor<'a>, header: &ChunkHeader) -> (r: Result<
        Chunk<'a>,
        DecodeError,
    >)
        requires
            header.data_offset_spec() <= u64::MAX,
        ensures
            final(cursor).buffer() == old(cursor).buffer(),
            final(cursor).place() == header.data_offset_spec(),
            r matches Ok(Chunk::Package(view)) && view.buffer() == old(cursor).buffer()
                && view.header() == *header,
    {
        let view = PackageWrapper::new(cursor.get_ref(), *header);
        cursor.set_position(header.get_data_offset());
        Ok(Chunk::Package(view))
    }
}

/// A package chunk inside a borrowed buffer.
#[derive(Debug, Clone, Copy)]
pub struct PackageWrapper<'a> {
    raw_data: &'a [u8],
    header: ChunkHeader,
}

impl<'a> PackageWrapper<'a> {
    /// The buffer that the view reads.
    pub closed spec fn buffer(&self) -> &'a [u8] {
        self.raw_data
    }

    /// The bytes of that buffer.
    pub open spec fn bytes(&self) -> Seq<u8> {
        self.buffer()@
    }

    /// The header of the chunk that the view reads.
    pub closed spec fn header(&self) -> ChunkHeader {
        self.header
    }

    /// A view over the chunk of `header` in `raw_data`.
    pub fn new(raw_data: &'a [u8], header: ChunkHeader) -> (view: Self)
        ensures
            view.buffer() == raw_data,
            view.header() == header,
    {
        PackageWrapper { raw_data, header }
    }

    /// The header of the chunk.
    pub fn get_header(&self) -> (header: ChunkHeader)
        ensures
            header == self.header(),
    {
        self.header
    }

    /// The buffer in which the chunk lies.
    pub fn get_raw_data(&self) -> (data: &'a [u8])
        ensures
            data == self.buffer(),
    {
        self.raw_data
    }
}

/// A package as the resource model reads it.
#[derive(Debug, Clone, Copy)]
pub struct Package<'a> {
    wrapper: PackageWrapper<'a>,
}

impl<'a> Package<'a> {
    /// The view that this package reads.
    pub closed spec fn view_of(&self) -> PackageWrapper<'a> {
        self.wrapper
    }

    /// A package that reads `wrapper`.
    pub fn new(wrapper: PackageWrapper<'a>) -> (package: Self)
        ensures
            package.view_of() == wrapper,
    {
        Package { wrapper }
    }
}

} // verus!
