//! Chunks: the records that a resource container is made of.

use std::rc::Rc;
use vstd::prelude::*;

use crate::chunks::chunk_header::PROLOGUE_SIZE;
use crate::errors::DecodeError;
use crate::model::owned::{
    chunk_bytes, chunk_fits, chunk_prologue, lemma_chunk_prologue, lemma_part_in_buffer,
    written_at,
};
use crate::wire::{le_u16, le_u32, Cursor};

pub mod chunk_header;
pub mod package;
pub mod string_table;
pub mod table_type;
pub mod table_type_spec;

pub use self::chunk_header::ChunkHeader;
pub use self::package::Package;
pub use self::package::PackageDecoder;
pub use self::package::PackageWrapper;
pub use self::string_table::CountingStringTable;
pub use self::string_table::StringTableDecoder;
pub use self::string_table::StringTableWrapper;
pub use self::table_type::TableType;
pub use self::table_type::TableTypeDecoder;
pub use self::table_type::TableTypeWrapper;
pub use self::table_type_spec::TableTypeSpecDecoder;
pub use self::table_type_spec::TypeSpec;
pub use self::table_type_spec::TypeSpecWrapper;

verus! {

/// The token of a string pool.
pub const TOKEN_STRING_TABLE: u16 = 0x0001;

/// The token of a table of resource ids.
pub const TOKEN_RESOURCE: u16 = 0x0180;

/// The token of a package.
pub const TOKEN_PACKAGE: u16 = 0x0200;

/// The token of a table type.
pub const TOKEN_TABLE_TYPE: u16 = 0x0201;

/// The token of a type specification.
pub const TOKEN_TABLE_SPEC: u16 = 0x0202;

/// The token of the start of an XML namespace.
pub const TOKEN_XML_START_NAMESPACE: u16 = 0x0100;

/// The token of the end of an XML namespace.
pub const TOKEN_XML_END_NAMESPACE: u16 = 0x0101;

/// The token of the start of an XML tag.
pub const TOKEN_XML_TAG_START: u16 = 0x0102;

/// The token of the end of an XML tag.
pub const TOKEN_XML_TAG_END: u16 = 0x0103;

/// One decoded chunk.
pub enum Chunk<'a> {
    StringTable(StringTableWrapper<'a>),
    Package(PackageWrapper<'a>),
    TableTypeSpec(TypeSpecWrapper<'a>),
    TableType(TableTypeWrapper<'a>),
    ResourceTable(Vec<u32>),
    XmlStartNamespace(Rc<String>, Rc<String>),
    XmlEndNamespace,
    XmlStartTag,
    XmlEndTag,
    /// A chunk of a kind that this crate does not decode. The stream steps
    /// over it and goes on.
    Unknown,
}

/// Where a stream goes on behind the chunk of `header`: inside a package,
/// at the first of the chunks that it holds; else behind the chunk.
pub open spec fn resume_place(header: ChunkHeader) -> int {
    if header.token == TOKEN_PACKAGE {
        header.data_offset_spec()
    } else {
        header.chunk_end_spec()
    }
}

/// Whether `chunk` is what the chunk of `header` in `data` decodes to: the
/// view that the token selects, over `data` and with `header`, and
/// `Chunk::Unknown` for every token that selects none.
pub open spec fn decodes_as(chunk: Chunk, data: &[u8], header: ChunkHeader) -> bool {
    match chunk {
        Chunk::StringTable(view) => header.token == TOKEN_STRING_TABLE && view.buffer() == data
            && view.header() == header,
        Chunk::Package(view) => header.token == TOKEN_PACKAGE && view.buffer() == data
            && view.header() == header,
        Chunk::TableTypeSpec(view) => header.token == TOKEN_TABLE_SPEC && view.buffer() == data
            && view.header() == header,
        Chunk::TableType(view) => header.token == TOKEN_TABLE_TYPE && view.buffer() == data
            && view.header() == header,
        Chunk::Unknown => header.token != TOKEN_STRING_TABLE && header.token != TOKEN_PACKAGE
            && header.token != TOKEN_TABLE_SPEC && header.token != TOKEN_TABLE_TYPE,
        _ => false,
    }
}

/// The headers of the chunks that a stream meets from `at` up to `end`, or
/// the failure that ends it: at each place a prologue is read, and the walk
/// goes on where that chunk says.
pub open spec fn walk(data: Seq<u8>, at: int, end: int) -> Result<Seq<ChunkHeader>, DecodeError>
    decreases
            if at <= end {
                end - at
            } else {
                0
            },
{
    if at == end {
        Ok(Seq::empty())
    } else {
        match ChunkHeader::read_spec(data, at, end) {
            Err(e) => Err(e),
            Ok(header) => prepend_all(seq![header], walk(data, resume_place(header), end)),
        }
    }
}

/// Whether `headers` are the prologues of chunks that fill the region from
/// `at` to `end` without a gap: each is read where the one before it lets a
/// stream go on, and the last lets it go on at `end`.
pub open spec fn packed(data: Seq<u8>, at: int, end: int, headers: Seq<ChunkHeader>) -> bool
    decreases headers.len(),
{
    if headers.len() == 0 {
        at == end
    } else {
        &&& ChunkHeader::read_spec(data, at, end) == Ok::<ChunkHeader, DecodeError>(headers[0])
        &&& packed(data, resume_place(headers[0]), end, headers.drop_first())
    }
}

/// A stream over a region that chunks fill without a gap meets each of them,
/// in order, and ends without a failure: it yields as many chunks as the
/// region holds prologues.
pub proof fn lemma_walk_meets_packed_chunks(
    data: Seq<u8>,
    at: int,
    end: int,
    headers: Seq<ChunkHeader>,
)
    requires
        packed(data, at, end, headers),
    ensures
        walk(data, at, end) == Ok::<Seq<ChunkHeader>, DecodeError>(headers),
    decreases headers.len(),
{
    if headers.len() == 0 {
        assert(headers =~= Seq::empty());
    } else {
        let first = headers[0];
        lemma_walk_meets_packed_chunks(data, resume_place(first), end, headers.drop_first());
        assert(at != end);
        assert(walk(data, at, end) == prepend_all(
            seq![first],
            walk(data, resume_place(first), end),
        ));
        assert(seq![first] + headers.drop_first() =~= headers);
    }
}

/// Chunks that fill a region without a gap stand where a stream steps: the
/// first at the start of the region, each other one where the chunk before
/// it lets the stream go on, which for every chunk but a package is its
/// start plus its size, and behind the last one the region ends.
pub proof fn lemma_packed_chunks_follow(
    data: Seq<u8>,
    at: int,
    end: int,
    headers: Seq<ChunkHeader>,
    index: int,
)
    requires
        packed(data, at, end, headers),
        0 <= index < headers.len(),
    ensures
        headers[0].start_offset == at,
        headers[index].well_formed(),
        headers[index].token != TOKEN_PACKAGE ==> resume_place(headers[index])
            == headers[index].start_offset + headers[index].chunk_size,
        index + 1 < headers.len() ==> headers[index + 1].start_offset == resume_place(
            headers[index],
        ),
        index + 1 == headers.len() ==> resume_place(headers[index]) == end,
    decreases headers.len(),
{
    let rest = headers.drop_first();
    if index > 0 {
        lemma_packed_chunks_follow(data, resume_place(headers[0]), end, rest, index - 1);
        assert(rest[index - 1] == headers[index]);
        if index + 1 < headers.len() {
            assert(rest[index] == headers[index + 1]);
        }
    } else if headers.len() > 1 {
        lemma_packed_chunks_follow(data, resume_place(headers[0]), end, rest, 0);
        assert(rest[0] == headers[1]);
    } else {
        assert(rest.len() == 0);
        assert(packed(data, resume_place(headers[0]), end, rest));
    }
}

/// A chunk that was put together and lies in a region of a buffer is read
/// there by a stream: the header that the stream reads at the chunk's place
/// is the prologue that the chunk was written with.
pub proof fn lemma_written_chunk_is_met(
    data: Seq<u8>,
    at: int,
    end: int,
    token: u16,
    header: Seq<u8>,
    body: Seq<u8>,
)
    requires
        chunk_fits(header, body),
        written_at(data, at, chunk_bytes(token, header, body)),
        at + chunk_bytes(token, header, body).len() <= end <= u64::MAX,
    ensures
        ChunkHeader::read_spec(data, at, end) == Ok::<ChunkHeader, DecodeError>(
            ChunkHeader { start_offset: at as u64, ..chunk_prologue(token, header, body) },
        ),
        resume_place(ChunkHeader { start_offset: at as u64, ..chunk_prologue(token, header, body) })
            == if token == TOKEN_PACKAGE {
            at + PROLOGUE_SIZE + header.len()
        } else {
            at + chunk_bytes(token, header, body).len()
        },
{
    let written = chunk_bytes(token, header, body);
    lemma_chunk_prologue(token, header, body);
    lemma_part_in_buffer(data, at, written, 0, 8);
    assert(data.subrange(at, at + 8) == written.subrange(0, 8));
    assert forall|k: int| 0 <= k < 8 implies data[at + k] == written[k] by {
        assert(data.subrange(at, at + 8)[k] == data[at + k]);
        assert(written.subrange(0, 8)[k] == written[k]);
    }
    assert(le_u16(data, at) == le_u16(written, 0));
    assert(le_u16(data, at + 2) == le_u16(written, 2));
    assert(le_u32(data, at + 4) == le_u32(written, 4));
}

/// A stream of the chunks of a region of a buffer. It reads one prologue at a
/// time, hands out the chunk that the token selects, and steps to where the
/// next chunk starts.
pub struct ChunkLoaderStream<'a> {
    cursor: Cursor<'a>,
    end: u64,
}

impl<'a> ChunkLoaderStream<'a> {
    /// The buffer that the stream reads.
    pub closed spec fn buffer(&self) -> &'a [u8] {
        self.cursor.buffer()
    }

    /// The bytes of that buffer.
    pub open spec fn bytes(&self) -> Seq<u8> {
        self.buffer()@
    }

    /// The place of the next prologue.
    pub closed spec fn place(&self) -> u64 {
        self.cursor.place()
    }

    /// Where the region ends.
    pub closed spec fn end(&self) -> u64 {
        self.end
    }

    /// The stream has reached the end of its region and yields no more.
    pub open spec fn exhausted(&self) -> bool {
        self.place() == self.end()
    }

    /// What the next step reads: the header at the stream's place.
    pub open spec fn next_header(&self) -> Result<ChunkHeader, DecodeError> {
        ChunkHeader::read_spec(self.bytes(), self.place() as int, self.end() as int)
    }

    /// A stream from the cursor's place to the end of its buffer.
    pub fn new(cursor: Cursor<'a>) -> (stream: Self)
        ensures
            stream.buffer() == cursor.buffer(),
            stream.place() == cursor.place(),
            stream.end() == cursor.bytes().len(),
    {
        let end: u64 = cursor.get_ref().len() as u64;
        ChunkLoaderStream { cursor, end }
    }

    /// A stream from the cursor's place to `end`.
    pub fn with_end(cursor: Cursor<'a>, end: u64) -> (stream: Self)
        ensures
            stream.buffer() == cursor.buffer(),
            stream.place() == cursor.place(),
            stream.end() == end,
    {
        ChunkLoaderStream { cursor, end }
    }

    /// The place of the next prologue.
    pub fn position(&self) -> (place: u64)
        ensures
            place == self.place(),
    {
        self.cursor.position()
    }

    /// Reads the prologue at the stream's place, decodes the chunk that its
    /// token selects, and steps to where the next chunk starts. A prologue
    /// that does not lie inside the region and the buffer, or whose sizes
    /// contradict each other, is a failure.
    fn read_one(&mut self) -> (r: Result<Chunk<'a>, DecodeError>)
        ensures
            final(self).buffer() == old(self).buffer(),
            final(self).end() == old(self).end(),
            match r {
                Ok(chunk) => {
                    &&& old(self).next_header() is Ok
                    &&& decodes_as(chunk, old(self).buffer(), old(self).next_header()->Ok_0)
                    &&& final(self).place() == resume_place(old(self).next_header()->Ok_0)
                },
                Err(e) => old(self).next_header() == Err::<ChunkHeader, DecodeError>(e),
            },
    {
        let initial_position = self.cursor.position();
        if self.end < 8 || initial_position > self.end - 8 {
            return Err(DecodeError::TruncatedRead);
        }
        let token = self.cursor.read_u16()?;
        let header_size = self.cursor.read_u16()?;
        let chunk_size = self.cursor.read_u32()?;
        let chunk_header = ChunkHeader::new(initial_position, header_size, chunk_size, token);
        if !chunk_header.is_well_formed() {
            return Err(DecodeError::MalformedHeader);
        }
        let chunk = match token {
            TOKEN_STRING_TABLE => StringTableDecoder::decode(&mut self.cursor, &chunk_header)?,
            TOKEN_PACKAGE => PackageDecoder::decode(&mut self.cursor, &chunk_header)?,
            TOKEN_TABLE_SPEC => TableTypeSpecDecoder::decode(&mut self.cursor, &chunk_header)?,
            TOKEN_TABLE_TYPE => TableTypeDecoder::decode(&mut self.cursor, &chunk_header)?,
            _ => Chunk::Unknown,
        };

        if let Chunk::Package(_) = chunk {
            // The package decoder has left the cursor at the first chunk of the package.
        } else {
            self.cursor.set_position(chunk_header.get_chunk_end());
        }
        Ok(chunk)
    }

    /// The next chunk, or the failure that ends the stream, or nothing at
    /// the end of the region. After a failure the stream is exhausted.
    pub fn next(&mut self) -> (r: Option<Result<Chunk<'a>, DecodeError>>)
        ensures
            final(self).buffer() == old(self).buffer(),
            final(self).end() == old(self).end(),
            match r {
                None => old(self).exhausted() && final(self).place() == old(self).place(),
                Some(Ok(chunk)) => {
                    &&& !old(self).exhausted()
                    &&& old(self).next_header() is Ok
                    &&& decodes_as(chunk, old(self).buffer(), old(self).next_header()->Ok_0)
                    &&& final(self).place() == resume_place(old(self).next_header()->Ok_0)
                },
                Some(Err(e)) => {
                    &&& !old(self).exhausted()
                    &&& old(self).next_header() == Err::<ChunkHeader, DecodeError>(e)
                    &&& final(self).exhausted()
                },
            },
    {
        if self.cursor.position() == self.end {
            return None;
        }
        match self.read_one() {
            Ok(c) => Some(Ok(c)),
            Err(e) => {
                self.cursor.set_position(self.end);
                Some(Err(e))
            },
        }
    }

    /// All the chunks from the stream's place to the end of its region, or
    /// the first failure.
    pub fn read_all(&mut self) -> (r: Result<Vec<Chunk<'a>>, DecodeError>)
        ensures
            final(self).buffer() == old(self).buffer(),
            final(self).end() == old(self).end(),
            final(self).exhausted(),
            match r {
                Ok(chunks) => {
                    &&& walk(old(self).bytes(), old(self).place() as int, old(self).end() as int)
                        is Ok
                    &&& all_decode_as(
                        chunks@,
                        old(self).buffer(),
                        walk(
                            old(self).bytes(),
                            old(self).place() as int,
                            old(self).end() as int,
                        )->Ok_0,
                    )
                },
                Err(e) => walk(old(self).bytes(), old(self).place() as int, old(self).end() as int)
                    == Err::<Seq<ChunkHeader>, DecodeError>(e),
            },
    {
        let mut chunks: Vec<Chunk<'a>> = Vec::new();
        let ghost data = self.bytes();
        let ghost start = self.place() as int;
        let ghost end = self.end() as int;
        let ghost headers: Seq<ChunkHeader> = Seq::empty();
        loop
            invariant_except_break
                self.buffer() == old(self).buffer(),
                self.end() == end,
                all_decode_as(chunks@, self.buffer(), headers),
                walk(data, start, end) == prepend_all(
                    headers,
                    walk(data, self.place() as int, end),
                ),
            invariant
                data == old(self).bytes(),
                start == old(self).place(),
                end == old(self).end(),
            ensures
                self.buffer() == old(self).buffer(),
                self.end() == end,
                self.exhausted(),
                walk(data, start, end) == Ok::<Seq<ChunkHeader>, DecodeError>(headers),
                all_decode_as(chunks@, self.buffer(), headers),
            decreases
                    if self.place() <= end {
                        end - self.place() + 1
                    } else {
                        0
                    },
        {
            let ghost before = self.place() as int;
            match self.next() {
                None => {
                    proof {
                        assert(headers + Seq::<ChunkHeader>::empty() =~= headers);
                    }
                    break ;
                },
                Some(Ok(chunk)) => {
                    proof {
                        let header = ChunkHeader::read_spec(data, before, end)->Ok_0;
                        let rest = walk(data, resume_place(header), end);
                        match rest {
                            Ok(more) => {
                                assert(headers + (seq![header] + more) =~= headers.push(header)
                                    + more);
                            },
                            Err(_) => {},
                        }
                        headers = headers.push(header);
                    }
                    chunks.push(chunk);
                },
                Some(Err(e)) => {
                    return Err(e);
                },
            }
        }
        Ok(chunks)
    }
}

/// Whether each of `chunks` is what the chunk of the header at the same
/// index decodes to, and there are as many chunks as headers.
pub open spec fn all_decode_as(chunks: Seq<Chunk>, data: &[u8], headers: Seq<ChunkHeader>) -> bool {
    &&& chunks.len() == headers.len()
    &&& forall|i: int| 0 <= i < chunks.len() ==> decodes_as(#[trigger] chunks[i], data, headers[i])
}

/// `front` before the headers of `rest`, and the failure of `rest`.
pub open spec fn prepend_all(
    front: Seq<ChunkHeader>,
    rest: Result<Seq<ChunkHeader>, DecodeError>,
) -> Result<Seq<ChunkHeader>, DecodeError> {
    match rest {
        Ok(headers) => Ok(front + headers),
        Err(e) => Err(e),
    }
}

/// Reads the chunks of a region in one go.
pub struct ChunkLoader;

impl ChunkLoader {
    /// All the chunks from the cursor's place to `ending`, or the first
    /// failure. The cursor is left at `ending`.
    pub fn read_all<'a>(cursor: &mut Cursor<'a>, ending: u64) -> (r: Result<
        Vec<Chunk<'a>>,
        DecodeError,
    >)
        ensures
            final(cursor).buffer() == old(cursor).buffer(),
            final(cursor).place() == ending,
            match r {
                Ok(chunks) => {
                    &&& walk(old(cursor).bytes(), old(cursor).place() as int, ending as int) is Ok
                    &&& all_decode_as(
                        chunks@,
                        old(cursor).buffer(),
                        walk(old(cursor).bytes(), old(cursor).place() as int, ending as int)->Ok_0,
                    )
                },
                Err(e) => walk(old(cursor).bytes(), old(cursor).place() as int, ending as int)
                    == Err::<Seq<ChunkHeader>, DecodeError>(e),
            },
    {
        let mut stream = ChunkLoaderStream::with_end(*cursor, ending);
        let r = stream.read_all();
        cursor.set_position(stream.position());
        r
    }
}

} // verus!
