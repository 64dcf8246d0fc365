//! The four-byte chunk tag. Each byte is ASCII alphabetic and the case of
//! each position encodes one property bit: critical, public, reserved-bit
//! validity, and safe-to-copy.

use vstd::prelude::*;

verus! {

/// An uppercase ASCII letter.
pub open spec fn spec_is_upper(b: u8) -> bool {
    65 <= b <= 90
}

/// A lowercase ASCII letter.
pub open spec fn spec_is_lower(b: u8) -> bool {
    97 <= b <= 122
}

/// An ASCII letter of either case, the only bytes a tag may hold.
pub open spec fn spec_is_alpha(b: u8) -> bool {
    spec_is_upper(b) || spec_is_lower(b)
}

/// An ASCII letter of either case, as a character.
pub open spec fn spec_char_is_alpha(c: char) -> bool {
    (65 <= c as u32 <= 90) || (97 <= c as u32 <= 122)
}

/// A character string that names a tag: exactly four characters, each an
/// ASCII letter.
pub open spec fn spec_str_is_tag(s: Seq<char>) -> bool {
    s.len() == 4 && forall|i: int| 0 <= i < 4 ==> spec_char_is_alpha(#[trigger] s[i])
}

/// The tag bytes named by a four-character string.
pub open spec fn spec_tag_of_str(s: Seq<char>) -> Seq<u8> {
    Seq::new(4, |i: int| s[i] as u8)
}

/// The rejection that a string which names no tag earns: a wrong
/// character count first, else the first character that is no ASCII
/// letter.
pub open spec fn spec_str_tag_error(s: Seq<char>) -> ChunkTypeError {
    if s.len() != 4 {
        ChunkTypeError::InvalidLen(s.len() as usize)
    } else if !spec_char_is_alpha(s[0]) {
        ChunkTypeError::InvalidChar(s[0])
    } else if !spec_char_is_alpha(s[1]) {
        ChunkTypeError::InvalidChar(s[1])
    } else if !spec_char_is_alpha(s[2]) {
        ChunkTypeError::InvalidChar(s[2])
    } else {
        ChunkTypeError::InvalidChar(s[3])
    }
}

/// The rejection that four raw bytes earn when one is no ASCII letter:
/// the first such byte.
pub open spec fn spec_bytes_tag_error(b: Seq<u8>) -> ChunkTypeError {
    if !spec_is_alpha(b[0]) {
        ChunkTypeError::InvalidValue(b[0])
    } else if !spec_is_alpha(b[1]) {
        ChunkTypeError::InvalidValue(b[1])
    } else if !spec_is_alpha(b[2]) {
        ChunkTypeError::InvalidValue(b[2])
    } else {
        ChunkTypeError::InvalidValue(b[3])
    }
}

/// Why a chunk type tag was rejected.
#[derive(Debug, Clone, PartialEq, Eq)]
pub enum ChunkTypeError {
    /// A raw tag byte outside the ASCII alphabetic range.
    InvalidValue(u8),
    /// A tag character outside the ASCII alphabetic range.
    InvalidChar(char),
    /// A tag string whose character count is not four.
    InvalidLen(usize),
}

/// A four-byte chunk tag.
#[derive(Debug, Clone, Copy, PartialEq, Eq)]
pub struct ChunkType {
    pub tag: [u8; 4],
}

impl View for ChunkType {
    type V = Seq<u8>;

    open spec fn view(&self) -> Seq<u8> {
        self.tag@
    }
}

impl ChunkType {
    /// All four tag bytes are ASCII letters, which both construction
    /// paths guarantee.
    pub open spec fn spec_alpha(self) -> bool {
        forall|i: int| 0 <= i < 4 ==> spec_is_alpha(#[trigger] self@[i])
    }

    /// The reserved-bit gate: the third byte is uppercase.
    pub open spec fn spec_is_valid(self) -> bool {
        spec_is_upper(self@[2])
    }

    /// The raw four bytes of the tag.
    pub fn bytes(&self) -> (r: [u8; 4])
        ensures
            r@ == self@,
    {
        self.tag
    }

    /// Whether the tag passes the reserved-bit gate that stream parsing
    /// demands: third byte uppercase.
    pub fn is_valid(&self) -> (r: bool)
        ensures
            r == self.spec_is_valid(),
    {
        65 <= self.tag[2] && self.tag[2] <= 90
    }

    /// Whether the chunk is critical: first byte uppercase.
    pub fn is_critical(&self) -> (r: bool)
        ensures
            r == spec_is_upper(self@[0]),
    {
        65 <= self.tag[0] && self.tag[0] <= 90
    }

    /// Whether the chunk is public: second byte uppercase.
    pub fn is_public(&self) -> (r: bool)
        ensures
            r == spec_is_upper(self@[1]),
    {
        65 <= self.tag[1] && self.tag[1] <= 90
    }

    /// The reserved-bit property, the same gate as `is_valid`.
    pub fn is_reserved_bit_valid(&self) -> (r: bool)
        ensures
            r == self.spec_is_valid(),
    {
        self.is_valid()
    }

    /// Whether editors that do not understand the chunk may copy it:
    /// fourth byte lowercase.
    pub fn is_safe_to_copy(&self) -> (r: bool)
        ensures
            r == spec_is_lower(self@[3]),
    {
        97 <= self.tag[3] && self.tag[3] <= 122
    }

    /// Builds a tag from four raw bytes; every byte must be an ASCII
    /// letter, and the first that is not is reported.
    pub fn try_from(value: [u8; 4]) -> (r: Result<ChunkType, ChunkTypeError>)
        ensures
            r matches Ok(ct) ==> ct@ == value@ && ct.spec_alpha(),
            (r matches Ok(_)) <==> (forall|i: int| 0 <= i < 4 ==> spec_is_alpha(
                #[trigger] value@[i],
            )),
            r matches Err(e) ==> e == spec_bytes_tag_error(value@),
    {
        if !byte_is_alpha(value[0]) {
            Err(ChunkTypeError::InvalidValue(value[0]))
        } else if !byte_is_alpha(value[1]) {
            Err(ChunkTypeError::InvalidValue(value[1]))
        } else if !byte_is_alpha(value[2]) {
            Err(ChunkTypeError::InvalidValue(value[2]))
        } else if !byte_is_alpha(value[3]) {
            Err(ChunkTypeError::InvalidValue(value[3]))
        } else {
            Ok(ChunkType { tag: value })
        }
    }

    /// Builds a tag from a string of exactly four characters, each an
    /// ASCII letter; a wrong character count, or the first offending
    /// character, is reported.
    pub fn from_str(s: &str) -> (r: Result<ChunkType, ChunkTypeError>)
        ensures
            r matches Ok(ct) ==> ct.spec_alpha() && ct@ == spec_tag_of_str(s@),
            (r matches Ok(_)) <==> spec_str_is_tag(s@),
            r matches Err(e) ==> e == spec_str_tag_error(s@),
    {
        let n = s.unicode_len();
        if n != 4 {
            return Err(ChunkTypeError::InvalidLen(n));
        }
        let c0 = s.get_char(0);
        let c1 = s.get_char(1);
        let c2 = s.get_char(2);
        let c3 = s.get_char(3);
        match (char_alpha_byte(c0), char_alpha_byte(c1), char_alpha_byte(c2), char_alpha_byte(c3)) {
            (None, _, _, _) => Err(ChunkTypeError::InvalidChar(c0)),
            (_, None, _, _) => Err(ChunkTypeError::InvalidChar(c1)),
            (_, _, None, _) => Err(ChunkTypeError::InvalidChar(c2)),
            (_, _, _, None) => Err(ChunkTypeError::InvalidChar(c3)),
            (Some(b0), Some(b1), Some(b2), Some(b3)) => Ok(ChunkType { tag: [b0, b1, b2, b3] }),
        }
    }

    /// Whether two tags hold the same four bytes: exact, case-sensitive
    /// equality.
    pub fn same_tag(&self, other: &ChunkType) -> (r: bool)
        ensures
            r == (self@ == other@),
    {
        let r = self.tag[0] == other.tag[0] && self.tag[1] == other.tag[1] && self.tag[2]
            == other.tag[2] && self.tag[3] == other.tag[3];
        proof {
            if r {
                assert(self@ =~= other@);
            }
        }
        r
    }

    /// The tag as a four-character string.
    pub fn to_string(&self) -> (r: String)
        ensures
            r@.len() == 4,
            forall|i: int| 0 <= i < 4 ==> #[trigger] r@[i] == self@[i] as char,
    {
        let mut r = String::new();
        let mut i: usize = 0;
        while i < 4
            invariant
                i <= 4,
                r@.len() == i,
                forall|j: int| 0 <= j < i ==> #[trigger] r@[j] == self@[j] as char,
            decreases 4 - i,
        {
            r.push(self.tag[i] as char);
            i = i + 1;
        }
        r
    }
}

/// Whether a byte is an ASCII letter.
fn byte_is_alpha(b: u8) -> (r: bool)
    ensures
        r == spec_is_alpha(b),
{
    65 <= b && b <= 90 || 97 <= b && b <= 122
}

/// The byte of an ASCII-alphabetic character, or nothing for any other
/// character.
fn char_alpha_byte(c: char) -> (r: Option<u8>)
    ensures
        r matches Some(b) ==> spec_char_is_alpha(c) && b == c as u8 && spec_is_alpha(b),
        (r matches Some(_)) <==> spec_char_is_alpha(c),
{
    let v = c as u32;
    if 65 <= v && v <= 90 || 97 <= v && v <= 122 {
        Some(v as u8)
    } else {
        None
    }
}

} // verus!
