//! Little-endian integers inside a byte buffer, and a cursor over one.

use byteorder::{ByteOrder, LittleEndian};
use vstd::prelude::*;
use vstd::slice::slice_subrange;

use crate::errors::DecodeError;

verus! {

/// True when the `n` bytes from `at` on lie inside a buffer of `len` bytes.
pub open spec fn in_bounds(len: nat, at: int, n: int) -> bool {
    0 <= at && at + n <= len
}

/// The number that the two bytes from `at` on spell, least significant byte first.
pub open spec fn le_u16(b: Seq<u8>, at: int) -> int {
    b[at] + 0x100 * b[at + 1]
}

/// The number that the four bytes from `at` on spell, least significant byte first.
pub open spec fn le_u32(b: Seq<u8>, at: int) -> int {
    b[at] + 0x100 * b[at + 1] + 0x1_0000 * b[at + 2] + 0x100_0000 * b[at + 3]
}

/// The two bytes that spell `v`, least significant byte first.
pub open spec fn u16_le_bytes(v: u16) -> Seq<u8> {
    seq![(v % 0x100) as u8, (v / 0x100) as u8]
}

/// The four bytes that spell `v`, least significant byte first.
pub open spec fn u32_le_bytes(v: u32) -> Seq<u8> {
    seq![
        (v % 0x100) as u8,
        (v / 0x100 % 0x100) as u8,
        (v / 0x1_0000 % 0x100) as u8,
        (v / 0x100_0000) as u8,
    ]
}

/// The bytes that spell each number of `values` in turn, four bytes a number.
pub open spec fn u32_seq_le_bytes(values: Seq<u32>) -> Seq<u8>
    decreases values.len(),
{
    if values.len() == 0 {
        Seq::empty()
    } else {
        u32_seq_le_bytes(values.drop_last()) + u32_le_bytes(values.last())
    }
}

/// What reading a byte at `at` gives: the byte, or a truncated read.
pub open spec fn read_u8_spec(b: Seq<u8>, at: int) -> Result<u8, DecodeError> {
    if in_bounds(b.len(), at, 1) {
        Ok(b[at])
    } else {
        Err(DecodeError::TruncatedRead)
    }
}

/// What reading a `u16` at `at` gives: the number, or a truncated read.
pub open spec fn read_u16_spec(b: Seq<u8>, at: int) -> Result<u16, DecodeError> {
    if in_bounds(b.len(), at, 2) {
        Ok(le_u16(b, at) as u16)
    } else {
        Err(DecodeError::TruncatedRead)
    }
}

/// What reading a `u32` at `at` gives: the number, or a truncated read.
pub open spec fn read_u32_spec(b: Seq<u8>, at: int) -> Result<u32, DecodeError> {
    if in_bounds(b.len(), at, 4) {
        Ok(le_u32(b, at) as u32)
    } else {
        Err(DecodeError::TruncatedRead)
    }
}

/// No buffer is longer than a `u64` can count.
pub proof fn lemma_buffer_len(data: &[u8])
    ensures
        data@.len() <= usize::MAX <= u64::MAX,
{
    assert(data@.len() == data.len());
}

/// Reading back the bytes of a `u16` gives the number.
pub proof fn lemma_u16_bytes_read_back(v: u16)
    ensures
        u16_le_bytes(v).len() == 2,
        le_u16(u16_le_bytes(v), 0) == v,
{
}

/// Reading back the bytes of a `u32` gives the number.
pub proof fn lemma_u32_bytes_read_back(v: u32)
    ensures
        u32_le_bytes(v).len() == 4,
        le_u32(u32_le_bytes(v), 0) == v,
{
}

/// A number and a remainder below the divisor: dividing their sum gives
/// them back.
proof fn lemma_split(x: int, low: int, high: int, base: int)
    by (nonlinear_arith)
    requires
        base > 0,
        0 <= low < base,
        x == low + base * high,
    ensures
        x % base == low,
        x / base == high,
{
}

/// Writing the number that two bytes spell gives those two bytes.
pub proof fn lemma_u16_read_write_back(b: Seq<u8>, at: int)
    requires
        in_bounds(b.len(), at, 2),
    ensures
        u16_le_bytes(le_u16(b, at) as u16) == b.subrange(at, at + 2),
{
    lemma_split(le_u16(b, at), b[at] as int, b[at + 1] as int, 0x100);
    assert(u16_le_bytes(le_u16(b, at) as u16) =~= b.subrange(at, at + 2));
}

/// Writing the number that four bytes spell gives those four bytes.
pub proof fn lemma_u32_read_write_back(b: Seq<u8>, at: int)
    requires
        in_bounds(b.len(), at, 4),
    ensures
        u32_le_bytes(le_u32(b, at) as u32) == b.subrange(at, at + 4),
{
    let x = le_u32(b, at);
    let b0 = b[at] as int;
    let b1 = b[at + 1] as int;
    let b2 = b[at + 2] as int;
    let b3 = b[at + 3] as int;
    lemma_split(x, b0, b1 + 0x100 * b2 + 0x1_0000 * b3, 0x100);
    lemma_split(x / 0x100, b1, b2 + 0x100 * b3, 0x100);
    lemma_split(x, b0 + 0x100 * b1, b2 + 0x100 * b3, 0x1_0000);
    lemma_split(x / 0x1_0000, b2, b3, 0x100);
    lemma_split(x, b0 + 0x100 * b1 + 0x1_0000 * b2, b3, 0x100_0000);
    assert(u32_le_bytes(x as u32) =~= b.subrange(at, at + 4));
}

/// Writing the numbers that a stretch of bytes spells, four bytes a number,
/// gives that stretch.
pub proof fn lemma_u32_seq_read_write_back(b: Seq<u8>, at: int, count: nat)
    requires
        in_bounds(b.len(), at, 4 * (count as int)),
    ensures
        u32_seq_le_bytes(Seq::new(count, |i: int| le_u32(b, at + 4 * i) as u32)) == b.subrange(
            at,
            at + 4 * count,
        ),
    decreases count,
{
    let values = Seq::new(count, |i: int| le_u32(b, at + 4 * i) as u32);
    if count == 0 {
        assert(u32_seq_le_bytes(values) =~= b.subrange(at, at + 4 * count));
    } else {
        let front = Seq::new((count - 1) as nat, |i: int| le_u32(b, at + 4 * i) as u32);
        assert(values.drop_last() =~= front);
        lemma_u32_seq_read_write_back(b, at, (count - 1) as nat);
        lemma_u32_read_write_back(b, at + 4 * (count - 1));
        assert(b.subrange(at, at + 4 * (count - 1)) + b.subrange(
            at + 4 * (count - 1),
            at + 4 * (count - 1) + 4,
        ) =~= b.subrange(at, at + 4 * count));
    }
}

/// The bytes of a sequence of numbers: four for each, and each number can be
/// read back at four times its index.
pub proof fn lemma_u32_seq_bytes(values: Seq<u32>)
    ensures
        u32_seq_le_bytes(values).len() == 4 * values.len(),
        forall|i: int|
            0 <= i < values.len() ==> le_u32(u32_seq_le_bytes(values), 4 * i)
                == #[trigger] values[i],
    decreases values.len(),
{
    if values.len() > 0 {
        let front = values.drop_last();
        lemma_u32_seq_bytes(front);
        lemma_u32_bytes_read_back(values.last());
        let all = u32_seq_le_bytes(values);
        assert forall|i: int| 0 <= i < values.len() implies le_u32(all, 4 * i)
            == #[trigger] values[i] by {
            if i < front.len() {
                assert(front[i] == values[i]);
                assert(le_u32(all, 4 * i) == le_u32(u32_seq_le_bytes(front), 4 * i));
            } else {
                assert(le_u32(all, 4 * i) == le_u32(u32_le_bytes(values.last()), 0));
            }
        }
    }
}

/// `byteorder::LittleEndian::read_u16`: the first two bytes of `buf` as a
/// little-endian number. The call panics on a shorter buffer.
#[verifier::external_body]
fn decode_u16(buf: &[u8]) -> (v: u16)
    requires
        buf@.len() >= 2,
    ensures
        v == le_u16(buf@, 0),
{
    LittleEndian::read_u16(buf)
}

/// `byteorder::LittleEndian::read_u32`: the first four bytes of `buf` as a
/// little-endian number. The call panics on a shorter buffer.
#[verifier::external_body]
fn decode_u32(buf: &[u8]) -> (v: u32)
    requires
        buf@.len() >= 4,
    ensures
        v == le_u32(buf@, 0),
{
    LittleEndian::read_u32(buf)
}

/// `byteorder::LittleEndian::write_u16` into a buffer of two bytes: the bytes
/// of `v`, least significant first.
#[verifier::external_body]
fn encode_u16(v: u16) -> (r: [u8; 2])
    ensures
        r@ == u16_le_bytes(v),
{
    let mut buf = [0u8; 2];
    LittleEndian::write_u16(&mut buf, v);
    buf
}

/// `byteorder::LittleEndian::write_u32` into a buffer of four bytes: the bytes
/// of `v`, least significant first.
#[verifier::external_body]
fn encode_u32(v: u32) -> (r: [u8; 4])
    ensures
        r@ == u32_le_bytes(v),
{
    let mut buf = [0u8; 4];
    LittleEndian::write_u32(&mut buf, v);
    buf
}

/// Reads the byte at `position`.
pub fn read_u8_at(data: &[u8], position: u64) -> (r: Result<u8, DecodeError>)
    ensures
        r == read_u8_spec(data@, position as int),
{
    let len: usize = data.len();
    if position >= len as u64 {
        return Err(DecodeError::TruncatedRead);
    }
    Ok(data[position as usize])
}

/// Reads the `u16` that starts at `position`.
pub fn read_u16_at(data: &[u8], position: u64) -> (r: Result<u16, DecodeError>)
    ensures
        r == read_u16_spec(data@, position as int),
{
    let len: usize = data.len();
    if position > len as u64 || len as u64 - position < 2 {
        return Err(DecodeError::TruncatedRead);
    }
    let start: usize = position as usize;
    let field = slice_subrange(data, start, start + 2);
    Ok(decode_u16(field))
}

/// Reads the `u32` that starts at `position`.
pub fn read_u32_at(data: &[u8], position: u64) -> (r: Result<u32, DecodeError>)
    ensures
        r == read_u32_spec(data@, position as int),
{
    let len: usize = data.len();
    if position > len as u64 || len as u64 - position < 4 {
        return Err(DecodeError::TruncatedRead);
    }
    let start: usize = position as usize;
    let field = slice_subrange(data, start, start + 4);
    Ok(decode_u32(field))
}

/// Reads the `u32` that starts `relative` bytes behind `base`. A place that no
/// `u64` can hold lies behind the end of every buffer.
pub fn read_u32_from(data: &[u8], base: u64, relative: u64) -> (r: Result<u32, DecodeError>)
    ensures
        r == read_u32_spec(data@, base + relative),
{
    match base.checked_add(relative) {
        Some(position) => read_u32_at(data, position),
        None => {
            proof {
                lemma_buffer_len(data);
            }
            Err(DecodeError::TruncatedRead)
        },
    }
}

/// Appends the two bytes of `v` to `out`.
pub fn push_u16(out: &mut Vec<u8>, v: u16)
    ensures
        final(out)@ == old(out)@ + u16_le_bytes(v),
{
    let bytes = encode_u16(v);
    out.push(bytes[0]);
    out.push(bytes[1]);
    assert(out@ =~= old(out)@ + u16_le_bytes(v));
}

/// Appends the four bytes of `v` to `out`.
pub fn push_u32(out: &mut Vec<u8>, v: u32)
    ensures
        final(out)@ == old(out)@ + u32_le_bytes(v),
{
    let bytes = encode_u32(v);
    out.push(bytes[0]);
    out.push(bytes[1]);
    out.push(bytes[2]);
    out.push(bytes[3]);
    assert(out@ =~= old(out)@ + u32_le_bytes(v));
}

/// A place in a borrowed buffer, from which the chunk decoders read.
#[derive(Debug, Clone, Copy)]
pub struct Cursor<'a> {
    data: &'a [u8],
    position: u64,
}

impl<'a> Cursor<'a> {
    /// The buffer that the cursor walks.
    pub closed spec fn buffer(&self) -> &'a [u8] {
        self.data
    }

    /// The bytes of the buffer.
    pub open spec fn bytes(&self) -> Seq<u8> {
        self.buffer()@
    }

    /// The place of the cursor, in bytes from the start of the buffer.
    pub closed spec fn place(&self) -> u64 {
        self.position
    }

    /// A cursor at the start of `data`.
    pub fn new(data: &'a [u8]) -> (c: Self)
        ensures
            c.buffer() == data,
            c.place() == 0,
    {
        Cursor { data, position: 0 }
    }

    /// The buffer that the cursor walks.
    pub fn get_ref(&self) -> (data: &'a [u8])
        ensures
            data == self.buffer(),
    {
        self.data
    }

    /// The place of the cursor.
    pub fn position(&self) -> (p: u64)
        ensures
            p == self.place(),
    {
        self.position
    }

    /// Moves the cursor to `position`, which may lie behind the end of the buffer.
    pub fn set_position(&mut self, position: u64)
        ensures
            final(self).place() == position,
            final(self).buffer() == old(self).buffer(),
    {
        self.position = position;
    }

    /// Reads the byte under the cursor and steps behind it. A read that fails
    /// leaves the cursor where it was.
    pub fn read_u8(&mut self) -> (r: Result<u8, DecodeError>)
        ensures
            r == read_u8_spec(old(self).bytes(), old(self).place() as int),
            final(self).buffer() == old(self).buffer(),
            final(self).place() == if r is Ok {
                old(self).place() + 1
            } else {
                old(self).place() as int
            },
    {
        let r = read_u8_at(self.data, self.position);
        if r.is_ok() {
            proof {
                lemma_buffer_len(self.data);
            }
            self.position = self.position + 1;
        }
        r
    }

    /// Reads the `u16` under the cursor and steps behind it. A read that fails
    /// leaves the cursor where it was.
    pub fn read_u16(&mut self) -> (r: Result<u16, DecodeError>)
        ensures
            r == read_u16_spec(old(self).bytes(), old(self).place() as int),
            final(self).buffer() == old(self).buffer(),
            final(self).place() == if r is Ok {
                old(self).place() + 2
            } else {
                old(self).place() as int
            },
    {
        let r = read_u16_at(self.data, self.position);
        if r.is_ok() {
            proof {
                lemma_buffer_len(self.data);
            }
            self.position = self.position + 2;
        }
        r
    }

    /// Reads the `u32` under the cursor and steps behind it. A read that fails
    /// leaves the cursor where it was.
    pub fn read_u32(&mut self) -> (r: Result<u32, DecodeError>)
        ensures
            r == read_u32_spec(old(self).bytes(), old(self).place() as int),
            final(self).buffer() == old(self).buffer(),
            final(self).place() == if r is Ok {
                old(self).place() + 4
            } else {
                old(self).place() as int
            },
    {
        let r = read_u32_at(self.data, self.position);
        if r.is_ok() {
            proof {
                lemma_buffer_len(self.data);
            }
            self.position = self.position + 4;
        }
        r
    }
}

} // verus!
