//! The failures that decoding and encoding report, and what they say.

use vstd::prelude::*;
use vstd::string::StringExecFns;

use crate::model::owned::Encoding;

verus! {

/// Why a chunk, or a value inside a chunk, could not be decoded.
#[derive(Debug, Clone, Copy, PartialEq, Eq, Structural)]
pub enum DecodeError {
    /// A field lies partly or wholly behind the end of what may be read.
    TruncatedRead,
    /// A string was asked for at or behind the number of strings of its pool.
    StringIndexOutOfBounds { index: u32, count: u32 },
    /// A flag was asked for at or behind the number of flags of its type specification.
    FlagIndexOutOfBounds { index: u32, amount: u32 },
    /// The bytes of a string are not well-formed text in the pool's encoding.
    InvalidEncoding { encoding: Encoding },
    /// The bytes that a length prefix announces do not lie inside the buffer.
    InvalidRange,
    /// A chunk prologue whose sizes contradict each other.
    MalformedHeader,
}

/// Why an owned value could not be written as a chunk.
#[derive(Debug, Clone, Copy, PartialEq, Eq, Structural)]
pub enum EncodeError {
    /// The chunk would be longer than its 32-bit size field can say.
    ChunkTooLarge,
    /// The string at `index` is longer than its length prefix can say.
    StringTooLong { index: usize },
    /// The string at `index` holds a NUL character, which ends a UTF-8 entry.
    EmbeddedNul { index: usize },
}

/// The character of one decimal digit.
pub open spec fn digit_char(digit: int) -> char {
    if digit == 0 {
        '0'
    } else if digit == 1 {
        '1'
    } else if digit == 2 {
        '2'
    } else if digit == 3 {
        '3'
    } else if digit == 4 {
        '4'
    } else if digit == 5 {
        '5'
    } else if digit == 6 {
        '6'
    } else if digit == 7 {
        '7'
    } else if digit == 8 {
        '8'
    } else {
        '9'
    }
}

/// A number written in decimal, without leading zeros.
pub open spec fn decimal(n: nat) -> Seq<char>
    decreases n,
{
    if n < 10 {
        seq![digit_char(n as int)]
    } else {
        decimal(n / 10).push(digit_char((n % 10) as int))
    }
}

/// One decimal digit as text.
fn digit_str(digit: u64) -> (text: &'static str)
    requires
        digit < 10,
    ensures
        text@ == seq![digit_char(digit as int)],
{
    proof {
        reveal_strlit("0");
        reveal_strlit("1");
        reveal_strlit("2");
        reveal_strlit("3");
        reveal_strlit("4");
        reveal_strlit("5");
        reveal_strlit("6");
        reveal_strlit("7");
        reveal_strlit("8");
        reveal_strlit("9");
    }
    let text = if digit == 0 {
        "0"
    } else if digit == 1 {
        "1"
    } else if digit == 2 {
        "2"
    } else if digit == 3 {
        "3"
    } else if digit == 4 {
        "4"
    } else if digit == 5 {
        "5"
    } else if digit == 6 {
        "6"
    } else if digit == 7 {
        "7"
    } else if digit == 8 {
        "8"
    } else {
        "9"
    };
    assert(text@ =~= seq![digit_char(digit as int)]);
    text
}

/// Appends `n` in decimal.
pub fn append_decimal(out: &mut String, n: u64)
    ensures
        final(out)@ == old(out)@ + decimal(n as nat),
    decreases n,
{
    if n >= 10 {
        append_decimal(out, n / 10);
    }
    out.append(digit_str(n % 10));
    assert(out@ =~= old(out)@ + decimal(n as nat));
}

impl DecodeError {
    /// What the failure says.
    pub open spec fn message(self) -> Seq<char> {
        match self {
            DecodeError::TruncatedRead => "Unexpected end of data"@,
            DecodeError::StringIndexOutOfBounds { .. } => "Index out of bounds"@,
            DecodeError::FlagIndexOutOfBounds { index, amount } => "Invalid flag on index "@
                + decimal(index as nat) + " out of "@ + decimal(amount as nat),
            DecodeError::InvalidEncoding { encoding: Encoding::Utf8 } =>
                "Error decoding UTF8 string"@,
            DecodeError::InvalidEncoding { encoding: Encoding::Utf16 } =>
                "Error decoding UTF16 string"@,
            DecodeError::InvalidRange => "Sub-slice out of raw_data range"@,
            DecodeError::MalformedHeader => "Malformed chunk header"@,
        }
    }

    /// What the failure says, as text.
    pub fn to_string(&self) -> (text: String)
        ensures
            text@ == self.message(),
    {
        match self {
            DecodeError::TruncatedRead => "Unexpected end of data".to_owned(),
            DecodeError::StringIndexOutOfBounds { .. } => "Index out of bounds".to_owned(),
            DecodeError::FlagIndexOutOfBounds { index, amount } => {
                let mut text = "Invalid flag on index ".to_owned();
                append_decimal(&mut text, *index as u64);
                text.append(" out of ");
                append_decimal(&mut text, *amount as u64);
                text
            },
            DecodeError::InvalidEncoding { encoding: Encoding::Utf8 } =>
                "Error decoding UTF8 string".to_owned(),
            DecodeError::InvalidEncoding { encoding: Encoding::Utf16 } =>
                "Error decoding UTF16 string".to_owned(),
            DecodeError::InvalidRange => "Sub-slice out of raw_data range".to_owned(),
            DecodeError::MalformedHeader => "Malformed chunk header".to_owned(),
        }
    }
}

impl EncodeError {
    /// What the failure says.
    pub open spec fn message(self) -> Seq<char> {
        match self {
            EncodeError::ChunkTooLarge => "Chunk too large"@,
            EncodeError::StringTooLong { index } => "String too long on index "@ + decimal(
                index as nat,
            ),
            EncodeError::EmbeddedNul { index } => "NUL character in string on index "@ + decimal(
                index as nat,
            ),
        }
    }

    /// What the failure says, as text.
    pub fn to_string(&self) -> (text: String)
        ensures
            text@ == self.message(),
    {
        match self {
            EncodeError::ChunkTooLarge => "Chunk too large".to_owned(),
            EncodeError::StringTooLong { index } => {
                let mut text = "String too long on index ".to_owned();
                append_decimal(&mut text, *index as u64);
                text
            },
            EncodeError::EmbeddedNul { index } => {
                let mut text = "NUL character in string on index ".to_owned();
                append_decimal(&mut text, *index as u64);
                text
            },
        }
    }
}

} // verus!
