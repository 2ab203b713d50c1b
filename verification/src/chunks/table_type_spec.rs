//! The view of a type specification chunk: an id and one word of
//! configuration flags for each entry of a resource type.

use vstd::prelude::*;

use crate::chunks::chunk_header::ChunkHeader;
use crate::chunks::{Chunk, TOKEN_TABLE_SPEC};
use crate::errors::DecodeError;
use crate::model::owned::{
    lemma_chunk_prologue, lemma_field_in_buffer, written_at, TableTypeSpecBuf, TypeSpecModel,
};
use crate::wire::{
    in_bounds, le_u16, le_u32, lemma_u16_read_write_back, lemma_u32_bytes_read_back,
    lemma_u32_read_write_back, lemma_u32_seq_bytes, lemma_u32_seq_read_write_back,
    read_u32_from, read_u32_spec, Cursor,
};

verus! {

/// Where the id stands, in bytes from the start of the chunk.
pub const ID_OFFSET: u64 = 8;

/// Where the number of flags stands.
pub const AMOUNT_OFFSET: u64 = 12;

/// Where the first flag stands.
pub const FLAGS_OFFSET: u64 = 16;

/// The decoder of type specification chunks.
pub struct TableTypeSpecDecoder;

impl TableTypeSpecDecoder {
    /// The chunk that `header` announces in the cursor's buffer, as a view.
    /// The cursor stays where it is.
    pub fn decode<'a>(cursor: &mut Cursor<'a>, header: &ChunkHeader) -> (r: Result<
        Chunk<'a>,
        DecodeError,
    >)
        ensures
            *final(cursor) == *old(cursor),
            r matches Ok(Chunk::TableTypeSpec(view)) && view.buffer() == old(cursor).buffer()
                && view.header() == *header,
    {
        let view = TypeSpecWrapper::new(cursor.get_ref(), *header);
        Ok(Chunk::TableTypeSpec(view))
    }
}

/// A type specification that reads its fields from a borrowed buffer.
#[derive(Debug, Clone, Copy)]
pub struct TypeSpecWrapper<'a> {
    raw_data: &'a [u8],
    header: ChunkHeader,
}

impl<'a> TypeSpecWrapper<'a> {
    /// The buffer that the view reads.
    pub closed spec fn buffer(&self) -> &'a [u8] {
        self.raw_data
    }

    /// The bytes of that buffer.
    pub open spec fn bytes(&self) -> Seq<u8> {
        self.buffer()@
    }

    /// The header of the chunk that the view reads.
    pub closed spec fn header(&self) -> ChunkHeader {
        self.header
    }

    /// The raw id field: its low byte is the id of the resource type.
    pub open spec fn id_spec(&self) -> Result<u32, DecodeError> {
        read_u32_spec(self.bytes(), self.header().absolute_spec(ID_OFFSET as int))
    }

    /// The number of flags that the chunk declares.
    pub open spec fn amount_spec(&self) -> Result<u32, DecodeError> {
        read_u32_spec(self.bytes(), self.header().absolute_spec(AMOUNT_OFFSET as int))
    }

    /// Where the flag at `index` stands in the buffer.
    pub open spec fn flag_place(&self, index: int) -> int {
        self.header().absolute_spec(FLAGS_OFFSET + 4 * index)
    }

    /// The flag at `index`: it is there for an index below the declared
    /// number, and the error names the index and that number otherwise.
    pub open spec fn flag_spec(&self, index: u32) -> Result<u32, DecodeError> {
        match self.amount_spec() {
            Err(e) => Err(e),
            Ok(amount) => if index >= amount {
                Err(DecodeError::FlagIndexOutOfBounds { index, amount })
            } else {
                read_u32_spec(self.bytes(), self.flag_place(index as int))
            },
        }
    }

    /// The owned form: the id narrowed to its low 16 bits, and every declared
    /// flag in order. It is there where the id, the number of flags and all
    /// the flags lie inside the buffer.
    pub open spec fn owned_spec(&self) -> Result<TypeSpecModel, DecodeError> {
        match (self.id_spec(), self.amount_spec()) {
            (Ok(id), Ok(amount)) => if in_bounds(
                self.bytes().len(),
                self.flag_place(0),
                4 * amount,
            ) {
                Ok(
                    TypeSpecModel {
                        id: (id % 0x1_0000) as u16,
                        flags: Seq::new(
                            amount as nat,
                            |i: int| le_u32(self.bytes(), self.flag_place(i)) as u32,
                        ),
                    },
                )
            } else {
                Err(DecodeError::TruncatedRead)
            },
            _ => Err(DecodeError::TruncatedRead),
        }
    }

    /// A view over the chunk of `header` in `raw_data`.
    pub fn new(raw_data: &'a [u8], header: ChunkHeader) -> (view: Self)
        ensures
            view.buffer() == raw_data,
            view.header() == header,
    {
        TypeSpecWrapper { raw_data, header }
    }

    /// The raw id field.
    pub fn get_id(&self) -> (r: Result<u32, DecodeError>)
        ensures
            r == self.id_spec(),
    {
        read_u32_from(self.raw_data, self.header.get_offset(), ID_OFFSET)
    }

    /// The number of flags that the chunk declares.
    pub fn get_amount(&self) -> (r: Result<u32, DecodeError>)
        ensures
            r == self.amount_spec(),
    {
        read_u32_from(self.raw_data, self.header.get_offset(), AMOUNT_OFFSET)
    }

    /// The flag at `index`.
    pub fn get_flag(&self, index: u32) -> (r: Result<u32, DecodeError>)
        ensures
            r == self.flag_spec(index),
    {
        let amount = self.get_amount()?;
        if index >= amount {
            return Err(DecodeError::FlagIndexOutOfBounds { index, amount });
        }
        let flag_offset: u64 = FLAGS_OFFSET + (index as u64) * 4;
        read_u32_from(self.raw_data, self.header.get_offset(), flag_offset)
    }

    /// Copies the id and the flags out of the buffer.
    pub fn to_owned(self) -> (r: Result<TableTypeSpecBuf, DecodeError>)
        ensures
            match r {
                Ok(owned) => self.owned_spec() == Ok::<TypeSpecModel, DecodeError>(owned@),
                Err(e) => self.owned_spec() == Err::<TypeSpecModel, DecodeError>(e),
            },
    {
        let id = self.get_id()?;
        let mut owned = TableTypeSpecBuf::new((id % 0x1_0000) as u16);
        let amount = self.get_amount()?;
        let mut i: u32 = 0;
        while i < amount
            invariant
                i <= amount,
                self.id_spec() == Ok::<u32, DecodeError>(id),
                self.amount_spec() == Ok::<u32, DecodeError>(amount),
                owned@.id == (id % 0x1_0000) as u16,
                owned@.flags.len() == i,
                in_bounds(self.bytes().len(), self.flag_place(0), 4 * i),
                forall|k: int|
                    0 <= k < i ==> owned@.flags[k] == le_u32(
                        self.bytes(),
                        #[trigger] self.flag_place(k),
                    ) as u32,
            decreases amount - i,
        {
            let flag = self.get_flag(i)?;
            owned.push_flag(flag);
            i = i + 1;
        }
        assert(owned@.flags =~= self.owned_spec()->Ok_0.flags);
        Ok(owned)
    }
}

/// A type specification as the resource model reads it: the id is the low
/// byte of the raw field.
#[derive(Debug, Clone, Copy)]
pub struct TypeSpec<'a> {
    wrapper: TypeSpecWrapper<'a>,
}

impl<'a> TypeSpec<'a> {
    /// The view that this type specification reads.
    pub closed spec fn view_of(&self) -> TypeSpecWrapper<'a> {
        self.wrapper
    }

    /// A type specification that reads `wrapper`.
    pub fn new(wrapper: TypeSpecWrapper<'a>) -> (spec: Self)
        ensures
            spec.view_of() == wrapper,
    {
        TypeSpec { wrapper }
    }

    /// The id of the resource type: the low byte of the raw id field.
    pub fn get_id(&self) -> (r: Result<u16, DecodeError>)
        ensures
            r == match self.view_of().id_spec() {
                Ok(id) => Ok::<u16, DecodeError>((id % 0x100) as u16),
                Err(e) => Err(e),
            },
    {
        let id = self.wrapper.get_id()?;
        Ok((id % 0x100) as u16)
    }

    /// The number of flags that the chunk declares.
    pub fn get_amount(&self) -> (r: Result<u32, DecodeError>)
        ensures
            r == self.view_of().amount_spec(),
    {
        self.wrapper.get_amount()
    }

    /// The flag at `index`.
    pub fn get_flag(&self, index: u32) -> (r: Result<u32, DecodeError>)
        ensures
            r == self.view_of().flag_spec(index),
    {
        self.wrapper.get_flag(index)
    }
}

} // verus!

verus! {

/// Whether the bytes of `data` from `start` on are the chunk that the type
/// specification `model` is written as.
pub open spec fn holds_type_spec(data: Seq<u8>, start: int, model: TypeSpecModel) -> bool {
    model.encodable() && written_at(data, start, model.bytes())
}

/// The chunk that a type specification is written as is 16 bytes and four
/// for each flag, and its own first bytes say so.
pub proof fn lemma_type_spec_layout(model: TypeSpecModel)
    requires
        model.encodable(),
    ensures
        model.bytes().len() == 16 + 4 * model.flags.len(),
        model.prologue() == (ChunkHeader {
            start_offset: 0,
            header_size: 16,
            chunk_size: (16 + 4 * model.flags.len()) as u32,
            token: TOKEN_TABLE_SPEC,
        }),
        model.prologue().well_formed(),
        ChunkHeader::read_spec(model.bytes(), 0, model.bytes().len() as int) == Ok::<
            ChunkHeader,
            DecodeError,
        >(model.prologue()),
{
    lemma_u32_seq_bytes(model.flags);
    lemma_chunk_prologue(TOKEN_TABLE_SPEC, model.header_bytes(), model.body_bytes());
}

/// The id, the number of flags and each flag, as the written chunk holds
/// them.
pub proof fn lemma_written_type_spec(model: TypeSpecModel)
    requires
        model.encodable(),
    ensures
        model.bytes().len() == 16 + 4 * model.flags.len(),
        le_u32(model.bytes(), 8) == model.id,
        le_u32(model.bytes(), 12) == model.flags.len(),
        forall|i: int|
            0 <= i < model.flags.len() ==> le_u32(model.bytes(), 16 + 4 * i)
                == #[trigger] model.flags[i],
{
    let header = model.header_bytes();
    let body = model.body_bytes();
    let whole = model.bytes();
    lemma_u32_seq_bytes(model.flags);
    assert(header.len() == 8);
    lemma_chunk_prologue(TOKEN_TABLE_SPEC, header, body);
    lemma_u32_bytes_read_back(model.id as u32);
    lemma_u32_bytes_read_back(model.flags.len() as u32);
    assert(whole.subrange(8, 16) == header);
    assert(whole.subrange(16, 16 + body.len() as int) == body);
    lemma_field_in_buffer(whole, 8, header, 0);
    lemma_field_in_buffer(whole, 8, header, 4);
    assert(le_u32(header, 0) == model.id);
    assert(le_u32(header, 4) == model.flags.len());
    assert forall|i: int| 0 <= i < model.flags.len() implies le_u32(whole, 16 + 4 * i)
        == #[trigger] model.flags[i] by {
        lemma_field_in_buffer(whole, 16, body, 4 * i);
    }
}

/// Reading what was written gives back what was written: a view over the
/// chunk of a type specification decodes to that type specification, with
/// its id, its number of flags and each flag, wherever in a buffer the
/// chunk lies.
#[verifier::rlimit(50)]
pub proof fn lemma_type_spec_read_back(view: TypeSpecWrapper, model: TypeSpecModel)
    requires
        holds_type_spec(view.bytes(), view.header().start_offset as int, model),
    ensures
        view.id_spec() == Ok::<u32, DecodeError>(model.id as u32),
        view.amount_spec() == Ok::<u32, DecodeError>(model.flags.len() as u32),
        forall|i: int|
            0 <= i < model.flags.len() ==> view.flag_spec(i as u32) == Ok::<u32, DecodeError>(
                #[trigger] model.flags[i],
            ),
        view.owned_spec() == Ok::<TypeSpecModel, DecodeError>(model),
{
    let data = view.bytes();
    let start = view.header().start_offset as int;
    let whole = model.bytes();
    lemma_written_type_spec(model);
    lemma_field_in_buffer(data, start, whole, 8);
    lemma_field_in_buffer(data, start, whole, 12);
    assert forall|i: int| 0 <= i < model.flags.len() implies le_u32(
        data,
        #[trigger] view.flag_place(i),
    ) == model.flags[i] && in_bounds(data.len(), view.flag_place(i), 4) by {
        lemma_field_in_buffer(data, start, whole, 16 + 4 * i);
    }
    assert forall|i: int| 0 <= i < model.flags.len() implies view.flag_spec(i as u32) == Ok::<
        u32,
        DecodeError,
    >(#[trigger] model.flags[i]) by {
        assert(le_u32(data, view.flag_place(i)) == model.flags[i]);
    }
    assert(view.owned_spec()->Ok_0.flags =~= model.flags);
}

/// Writing back what was read gives the bytes that were read: where a view
/// lies over the chunk that some type specification is written as, its owned
/// form is written as the same chunk, byte for byte.
pub proof fn lemma_type_spec_round_trip(view: TypeSpecWrapper, model: TypeSpecModel)
    requires
        holds_type_spec(view.bytes(), view.header().start_offset as int, model),
    ensures
        view.owned_spec() is Ok,
        view.owned_spec()->Ok_0.encodable(),
        written_at(
            view.bytes(),
            view.header().start_offset as int,
            view.owned_spec()->Ok_0.bytes(),
        ),
{
    lemma_type_spec_read_back(view, model);
    lemma_type_spec_layout(model);
}

/// Whether `bytes` are a whole type specification chunk in the form in which
/// one is written: the token of a type specification, a header of 16 bytes,
/// a chunk size that is the length of `bytes`, an id that fits 16 bits, and
/// as many flags as the rest of `bytes` holds.
pub open spec fn canonical_type_spec(bytes: Seq<u8>) -> bool {
    &&& bytes.len() >= 16
    &&& le_u16(bytes, 0) == TOKEN_TABLE_SPEC
    &&& le_u16(bytes, 2) == 16
    &&& le_u32(bytes, 4) == bytes.len()
    &&& le_u32(bytes, 8) <= u16::MAX
    &&& bytes.len() == 16 + 4 * le_u32(bytes, 12)
}

/// Every chunk in the written form is the chunk that its own owned form is
/// written as: decoding it and writing it back gives the same bytes.
pub proof fn lemma_canonical_type_spec_round_trip(view: TypeSpecWrapper)
    requires
        view.header().start_offset == 0,
        canonical_type_spec(view.bytes()),
    ensures
        view.owned_spec() is Ok,
        view.owned_spec()->Ok_0.encodable(),
        view.owned_spec()->Ok_0.bytes() == view.bytes(),
{
    let bytes = view.bytes();
    let amount = le_u32(bytes, 12) as nat;
    let model = view.owned_spec()->Ok_0;
    assert(model.flags =~= Seq::new(amount, |i: int| le_u32(bytes, 16 + 4 * i) as u32));
    lemma_u32_seq_bytes(model.flags);
    lemma_u16_read_write_back(bytes, 0);
    lemma_u16_read_write_back(bytes, 2);
    lemma_u32_read_write_back(bytes, 4);
    lemma_u32_read_write_back(bytes, 8);
    lemma_u32_read_write_back(bytes, 12);
    lemma_u32_seq_read_write_back(bytes, 16, amount);
    assert(model.prologue().prologue_bytes() =~= bytes.subrange(0, 2) + bytes.subrange(2, 4)
        + bytes.subrange(4, 8));
    assert(model.header_bytes() =~= bytes.subrange(8, 12) + bytes.subrange(12, 16));
    assert(model.body_bytes() == bytes.subrange(16, 16 + 4 * (amount as int)));
    assert(model.bytes() =~= bytes);
}

/// A flag is there for every index below the declared number, as far as the
/// buffer holds the declared flags, and for no other index: there the error
/// names the index and the declared number.
pub proof fn lemma_flag_bounds(view: TypeSpecWrapper, amount: u32, index: u32)
    requires
        view.amount_spec() == Ok::<u32, DecodeError>(amount),
    ensures
        index < amount && in_bounds(view.bytes().len(), view.flag_place(0), 4 * amount)
            ==> view.flag_spec(index) == Ok::<u32, DecodeError>(
            le_u32(view.bytes(), view.flag_place(index as int)) as u32,
        ),
        index >= amount ==> view.flag_spec(index) == Err::<u32, DecodeError>(
            DecodeError::FlagIndexOutOfBounds { index, amount },
        ),
{
}

} // verus!
