//! The owned form of a type specification.

use vstd::prelude::*;

use crate::chunks::chunk_header::ChunkHeader;
use crate::chunks::TOKEN_TABLE_SPEC;
use crate::errors::EncodeError;
use crate::model::owned::{assemble_chunk, chunk_bytes, chunk_prologue};
use crate::wire::{lemma_u32_seq_bytes, push_u32, u32_le_bytes, u32_seq_le_bytes};

verus! {

/// What a type specification says: the id of its resource type, and one word
/// of configuration flags for each entry of that type.
pub struct TypeSpecModel {
    pub id: u16,
    pub flags: Seq<u32>,
}

impl TypeSpecModel {
    /// The header fields behind the prologue: the id, then the number of flags.
    pub open spec fn header_bytes(self) -> Seq<u8> {
        u32_le_bytes(self.id as u32) + u32_le_bytes(self.flags.len() as u32)
    }

    /// The body: the flags in order.
    pub open spec fn body_bytes(self) -> Seq<u8> {
        u32_seq_le_bytes(self.flags)
    }

    /// Whether the chunk can be written: its size must fit the size field.
    pub open spec fn encodable(self) -> bool {
        16 + 4 * self.flags.len() <= u32::MAX
    }

    /// The prologue of the chunk that this type specification is written as.
    pub open spec fn prologue(self) -> ChunkHeader {
        chunk_prologue(TOKEN_TABLE_SPEC, self.header_bytes(), self.body_bytes())
    }

    /// The chunk that this type specification is written as.
    pub open spec fn bytes(self) -> Seq<u8> {
        chunk_bytes(TOKEN_TABLE_SPEC, self.header_bytes(), self.body_bytes())
    }
}

/// A type specification that owns its flags.
#[derive(Debug)]
pub struct TableTypeSpecBuf {
    id: u16,
    flags: Vec<u32>,
}

impl View for TableTypeSpecBuf {
    type V = TypeSpecModel;

    closed spec fn view(&self) -> TypeSpecModel {
        TypeSpecModel { id: self.id, flags: self.flags@ }
    }
}

impl TableTypeSpecBuf {
    /// A type specification of the type `id`, without flags.
    pub fn new(id: u16) -> (buf: Self)
        ensures
            buf@ == (TypeSpecModel { id, flags: Seq::empty() }),
    {
        TableTypeSpecBuf { id, flags: Vec::new() }
    }

    /// Adds `flag` behind the flags that are there.
    pub fn push_flag(&mut self, flag: u32)
        ensures
            final(self)@ == (TypeSpecModel {
                id: old(self)@.id,
                flags: old(self)@.flags.push(flag),
            }),
    {
        self.flags.push(flag);
    }

    /// The id of the resource type.
    pub fn get_id(&self) -> (id: u16)
        ensures
            id == self@.id,
    {
        self.id
    }

    /// The number of flags.
    pub fn get_amount(&self) -> (amount: usize)
        ensures
            amount == self@.flags.len(),
    {
        self.flags.len()
    }

    /// The flag at `index`, if there is one.
    pub fn get_flag(&self, index: usize) -> (flag: Option<u32>)
        ensures
            flag == if index < self@.flags.len() {
                Some(self@.flags[index as int])
            } else {
                None
            },
    {
        if index < self.flags.len() {
            Some(self.flags[index])
        } else {
            None
        }
    }

    /// The token of the chunk that a type specification is written as.
    pub fn get_token(&self) -> (token: u16)
        ensures
            token == TOKEN_TABLE_SPEC,
    {
        TOKEN_TABLE_SPEC
    }

    /// The header fields behind the prologue, where the number of flags fits
    /// its field.
    pub fn get_header(&self) -> (r: Result<Vec<u8>, EncodeError>)
        ensures
            match r {
                Ok(header) => self@.flags.len() <= u32::MAX && header@ == self@.header_bytes(),
                Err(e) => self@.flags.len() > u32::MAX && e == EncodeError::ChunkTooLarge,
            },
    {
        let amount: usize = self.flags.len();
        if amount as u64 > u32::MAX as u64 {
            return Err(EncodeError::ChunkTooLarge);
        }
        let mut out: Vec<u8> = Vec::new();
        push_u32(&mut out, self.id as u32);
        push_u32(&mut out, amount as u32);
        Ok(out)
    }

    /// The body: the flags in order.
    pub fn get_body_data(&self) -> (body: Vec<u8>)
        ensures
            body@ == self@.body_bytes(),
    {
        let mut out: Vec<u8> = Vec::new();
        let mut i: usize = 0;
        while i < self.flags.len()
            invariant
                i <= self.flags@.len(),
                out@ == u32_seq_le_bytes(self.flags@.subrange(0, i as int)),
            decreases self.flags@.len() - i,
        {
            push_u32(&mut out, self.flags[i]);
            assert(self.flags@.subrange(0, i + 1).drop_last() == self.flags@.subrange(0, i as int));
            i = i + 1;
        }
        assert(self.flags@.subrange(0, i as int) == self.flags@);
        out
    }

    /// Writes the type specification as a chunk: prologue, id, number of
    /// flags, flags. It fails where the chunk's size does not fit its field.
    pub fn to_vec(&self) -> (r: Result<Vec<u8>, EncodeError>)
        ensures
            match r {
                Ok(bytes) => self@.encodable() && bytes@ == self@.bytes(),
                Err(e) => !self@.encodable() && e == EncodeError::ChunkTooLarge,
            },
    {
        proof {
            lemma_u32_seq_bytes(self@.flags);
        }
        let header = self.get_header()?;
        let body = self.get_body_data();
        assemble_chunk(self.get_token(), &header, &body)
    }
}

} // verus!
