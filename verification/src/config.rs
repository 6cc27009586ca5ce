//! Inspecting the vault configuration: the raw document with its hash, the
//! error a candidate configuration is refused with, and the line and
//! column a parse error's byte offset points at.

use vstd::prelude::*;

use crate::text::chars_of;

verus! {

/// The raw configuration text and a hash of it.
#[derive(Debug, Clone, PartialEq, Eq)]
pub struct ConfigDocument {
    /// The verbatim file text; empty when the file is absent.
    pub content: String,
    /// A 16-character lower-case hex hash of `content`.
    pub hash: String,
}

/// Why a candidate configuration would not open: a parse error (with the
/// 1-based line and column it reports) or a validation error (a message
/// alone).
#[derive(Debug, Clone, PartialEq, Eq)]
pub struct ConfigValidationError {
    pub message: String,
    pub line: Option<u32>,
    pub col: Option<u32>,
}

impl ConfigValidationError {
    /// A validation error carrying only a message.
    pub fn from_message(message: String) -> (r: Self)
        ensures
            r.message == message,
            r.line is None,
            r.col is None,
    {
        ConfigValidationError { message, line: None, col: None }
    }

    /// The message, as the error displays.
    pub fn to_message(&self) -> (r: String)
        ensures
            r@ == self.message@,
    {
        crate::text::string_of(&chars_of(self.message.as_str()))
    }
}

/// Bytes a character takes in UTF-8.
pub open spec fn utf8_len(c: char) -> nat {
    if (c as u32) < 0x80 {
        1
    } else if (c as u32) < 0x800 {
        2
    } else if (c as u32) < 0x10000 {
        3
    } else {
        4
    }
}

/// Bytes the characters of `s` take in UTF-8.
pub open spec fn utf8_size(s: Seq<char>) -> nat
    decreases s.len(),
{
    if s.len() == 0 {
        0
    } else {
        utf8_size(s.drop_last()) + utf8_len(s.last())
    }
}

/// The 1-based `(line, column)` reached after the characters of `s` that
/// start before byte `offset`; a column counts characters.
pub open spec fn position(s: Seq<char>, offset: nat) -> (nat, nat)
    decreases s.len(),
{
    if s.len() == 0 {
        (1, 1)
    } else {
        let (line, col) = position(s.drop_last(), offset);
        if utf8_size(s.drop_last()) >= offset {
            (line, col)
        } else if s.last() == '\n' {
            (line + 1, 1)
        } else {
            (line, col + 1)
        }
    }
}

proof fn lemma_utf8_size_monotone(s: Seq<char>, i: int, j: int)
    requires
        0 <= i <= j <= s.len(),
    ensures
        utf8_size(s.take(i)) <= utf8_size(s.take(j)),
    decreases j - i,
{
    if i < j {
        lemma_utf8_size_monotone(s, i, j - 1);
        assert(s.take(j).drop_last() =~= s.take(j - 1));
    }
}

proof fn lemma_position_stops(s: Seq<char>, offset: nat, i: int, j: int)
    requires
        0 <= i <= j <= s.len(),
        utf8_size(s.take(i)) >= offset,
    ensures
        position(s.take(j), offset) == position(s.take(i), offset),
    decreases j - i,
{
    if i < j {
        lemma_position_stops(s, offset, i, j - 1);
        assert(s.take(j).drop_last() =~= s.take(j - 1));
        lemma_utf8_size_monotone(s, i, j - 1);
    }
}

proof fn lemma_position_bound(s: Seq<char>, offset: nat)
    ensures
        position(s, offset).0 <= s.len() + 1,
        position(s, offset).1 <= s.len() + 1,
    decreases s.len(),
{
    if s.len() > 0 {
        lemma_position_bound(s.drop_last(), offset);
    }
}

/// The 1-based line and column of byte `byte_offset` in `content`; an
/// offset past the end gives the final position.
pub fn line_col(content: &str, byte_offset: usize) -> (r: (u32, u32))
    requires
        content@.len() < u32::MAX,
    ensures
        r.0 == position(content@, byte_offset as nat).0,
        r.1 == position(content@, byte_offset as nat).1,
{
    let s = chars_of(content);
    let mut line: u32 = 1;
    let mut col: u32 = 1;
    let mut idx: u64 = 0;
    let mut i: usize = 0;
    while i < s.len()
        invariant
            i <= s@.len(),
            s@ == content@,
            s@.len() < u32::MAX,
            idx == utf8_size(s@.take(i as int)),
            idx <= 4 * i,
            (line as nat, col as nat) == position(s@.take(i as int), byte_offset as nat),
        decreases s@.len() - i,
    {
        if idx >= byte_offset as u64 {
            proof {
                lemma_position_stops(s@, byte_offset as nat, i as int, s@.len() as int);
                assert(s@.take(s@.len() as int) =~= s@);
            }
            return (line, col);
        }
        let c = s[i];
        assert(s@.take(i + 1).drop_last() =~= s@.take(i as int));
        assert(s@.take(i + 1).last() == c);
        proof {
            lemma_position_bound(s@.take(i as int), byte_offset as nat);
        }
        if c == '\n' {
            line = line + 1;
            col = 1;
        } else {
            col = col + 1;
        }
        let w: u64 = if (c as u32) < 0x80 {
            1
        } else if (c as u32) < 0x800 {
            2
        } else if (c as u32) < 0x10000 {
            3
        } else {
            4
        };
        idx = idx + w;
        i = i + 1;
    }
    assert(s@.take(s@.len() as int) =~= s@);
    (line, col)
}

} // verus!
