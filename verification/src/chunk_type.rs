//! The four-byte type tag of a chunk and the properties it encodes.

use crate::endian::{be_bytes, be_value, from_be_bytes, lemma_bytes_of_value, to_be_bytes};
use crate::error::InvalidType;
use std::str::FromStr;
use vstd::prelude::*;
use vstd::utf8::{
    decode_utf8, encode_utf8, encode_utf8_decode_utf8, encode_utf8_valid_utf8, is_ascii_chars,
    is_ascii_chars_encode_utf8, valid_utf8,
};

verus! {

/// The bit of an ASCII letter that tells lower case (set) from upper case
/// (clear). Each property of a chunk type is this bit of one of its bytes.
pub const CASE_BIT: u8 = 0x20;

/// The case bit of the first byte, as a bit of the folded value: bit 29.
pub const ANCILLARY_BIT: u32 = 0x2000_0000;

/// The case bit of the second byte, as a bit of the folded value: bit 21.
pub const PRIVATE_BIT: u32 = 0x0020_0000;

/// The case bit of the third byte, as a bit of the folded value: bit 13.
pub const RESERVED_BIT: u32 = 0x0000_2000;

/// The case bit of the fourth byte, as a bit of the folded value: bit 5.
pub const SAFE_TO_COPY_BIT: u32 = 0x0000_0020;

/// `b` is an ASCII upper-case letter.
pub open spec fn is_upper(b: u8) -> bool {
    0x41 <= b <= 0x5a
}

/// `b` is an ASCII lower-case letter.
pub open spec fn is_lower(b: u8) -> bool {
    0x61 <= b <= 0x7a
}

/// `b` is an ASCII letter.
pub open spec fn is_letter(b: u8) -> bool {
    is_upper(b) || is_lower(b)
}

/// `c` is an ASCII letter.
pub open spec fn is_letter_char(c: char) -> bool {
    ('A' <= c <= 'Z') || ('a' <= c <= 'z')
}

/// Among letters, the case bit is clear on the upper-case ones and set on the
/// lower-case ones.
pub proof fn lemma_case_bit_of_letter(b: u8)
    requires
        is_letter(b),
    ensures
        b & CASE_BIT == 0 <==> is_upper(b),
        b & CASE_BIT != 0 <==> is_lower(b),
{
    assert((0x41 <= b <= 0x5a) ==> b & 0x20 == 0) by (bit_vector);
    assert((0x61 <= b <= 0x7a) ==> b & 0x20 != 0) by (bit_vector);
}

/// Whether `b` is an ASCII letter.
pub fn is_ascii_letter(b: u8) -> (r: bool)
    ensures
        r == is_letter(b),
{
    (0x41 <= b && b <= 0x5a) || (0x61 <= b && b <= 0x7a)
}

/// A chunk type: four bytes folded into one 32-bit value, first byte in the
/// most significant position.
#[derive(Debug, Clone, Copy, PartialEq, Eq, Structural)]
pub struct ChunkType {
    pub sum: u32,
}

impl View for ChunkType {
    type V = Seq<u8>;

    /// The four bytes of the type, in the order in which they are written.
    open spec fn view(&self) -> Seq<u8> {
        be_bytes(self.sum)
    }
}

impl ChunkType {
    /// The type whose four bytes are the first four of `bytes`.
    pub open spec fn of_bytes(bytes: Seq<u8>) -> ChunkType
        recommends
            bytes.len() >= 4,
    {
        ChunkType { sum: be_value(bytes) }
    }

    /// `text` can name a chunk type: it is four ASCII letters.
    pub open spec fn is_type_text(text: Seq<char>) -> bool {
        &&& text.len() == 4
        &&& forall|i: int| 0 <= i < 4 ==> is_letter_char(#[trigger] text[i])
    }

    /// The type that `text` names, if it names one: the type whose bytes are
    /// the character codes of `text`.
    pub open spec fn parse(text: Seq<char>) -> Option<ChunkType> {
        if Self::is_type_text(text) {
            Some(Self::of_bytes(Seq::new(4, |i: int| text[i] as u8)))
        } else {
            None
        }
    }

    /// The text that the type is shown as: its four bytes read as UTF-8, and
    /// the empty text if they are not UTF-8.
    pub open spec fn text(&self) -> Seq<char> {
        if valid_utf8(self@) {
            decode_utf8(self@)
        } else {
            Seq::empty()
        }
    }

    /// The case bit of the first byte is clear.
    pub open spec fn spec_is_critical(&self) -> bool {
        self@[0] & CASE_BIT == 0
    }

    /// The case bit of the second byte is clear.
    pub open spec fn spec_is_public(&self) -> bool {
        self@[1] & CASE_BIT == 0
    }

    /// The case bit of the third byte is clear.
    pub open spec fn spec_is_reserved_bit_valid(&self) -> bool {
        self@[2] & CASE_BIT == 0
    }

    /// The case bit of the fourth byte is set.
    pub open spec fn spec_is_safe_to_copy(&self) -> bool {
        self@[3] & CASE_BIT != 0
    }

    /// All four bytes are ASCII letters, and the third one, the byte that
    /// carries the reserved bit, is upper case.
    pub open spec fn spec_is_valid(&self) -> bool {
        &&& forall|i: int| 0 <= i < 4 ==> is_letter(#[trigger] self@[i])
        &&& is_upper(self@[2])
    }

    /// The four bytes of the type, first byte first.
    pub fn bytes(&self) -> (b: [u8; 4])
        ensures
            b@ == self@,
    {
        to_be_bytes(self.sum)
    }

    /// Whether the type is well formed: four ASCII letters, the third of them
    /// upper case.
    #[verifier::when_used_as_spec(spec_is_valid)]
    pub fn is_valid(&self) -> (valid: bool)
        ensures
            valid == self.spec_is_valid(),
    {
        let b = self.bytes();
        let letters = is_ascii_letter(b[0]) && is_ascii_letter(b[1]) && is_ascii_letter(b[2])
            && is_ascii_letter(b[3]);
        letters && b[2] <= 0x5a
    }

    /// Whether the chunk is critical rather than ancillary: the case bit of
    /// the first byte, bit 29 of the folded value, is clear.
    #[verifier::when_used_as_spec(spec_is_critical)]
    pub fn is_critical(&self) -> (critical: bool)
        ensures
            critical == self.spec_is_critical(),
    {
        let sum = self.sum;
        assert((sum & 0x2000_0000 == 0) == ((sum / 0x100_0000) as u8 & 0x20 == 0)) by (bit_vector);
        (self.sum & ANCILLARY_BIT) == 0
    }

    /// Whether the chunk is public rather than private: the case bit of the
    /// second byte, bit 21 of the folded value, is clear.
    #[verifier::when_used_as_spec(spec_is_public)]
    pub fn is_public(&self) -> (public: bool)
        ensures
            public == self.spec_is_public(),
    {
        let sum = self.sum;
        assert((sum & 0x0020_0000 == 0) == ((sum / 0x1_0000 % 0x100) as u8 & 0x20 == 0))
            by (bit_vector);
        (self.sum & PRIVATE_BIT) == 0
    }

    /// Whether the reserved bit, the case bit of the third byte and bit 13 of
    /// the folded value, is clear as the format asks.
    #[verifier::when_used_as_spec(spec_is_reserved_bit_valid)]
    pub fn is_reserved_bit_valid(&self) -> (valid: bool)
        ensures
            valid == self.spec_is_reserved_bit_valid(),
    {
        let sum = self.sum;
        assert((sum & 0x0000_2000 == 0) == ((sum / 0x100 % 0x100) as u8 & 0x20 == 0))
            by (bit_vector);
        (self.sum & RESERVED_BIT) == 0
    }

    /// Whether the chunk may be copied by an editor that does not know it:
    /// the case bit of the fourth byte, bit 5 of the folded value, is set.
    #[verifier::when_used_as_spec(spec_is_safe_to_copy)]
    pub fn is_safe_to_copy(&self) -> (safe: bool)
        ensures
            safe == self.spec_is_safe_to_copy(),
    {
        let sum = self.sum;
        assert((sum & 0x0000_0020 != 0) == ((sum % 0x100) as u8 & 0x20 != 0)) by (bit_vector);
        (self.sum & SAFE_TO_COPY_BIT) != 0
    }

    /// The type as text: its four bytes read as UTF-8. Four letters come out
    /// as they went in; bytes that are not UTF-8 give the empty text.
    pub fn to_string(&self) -> (text: String)
        ensures
            text@ == self.text(),
    {
        let tag = self.bytes();
        let mut bytes: Vec<u8> = Vec::new();
        bytes.extend_from_slice(&tag);
        assert(bytes@ =~= self@);
        match String::from_utf8(bytes) {
            Ok(text) => {
                proof {
                    encode_utf8_decode_utf8(text@);
                }
                text
            },
            Err(_) => String::new(),
        }
    }
}

impl FromStr for ChunkType {
    type Err = InvalidType;

    /// Parses a type from its text: exactly four ASCII letters, whose
    /// character codes become the four bytes. Any other text is rejected.
    fn from_str(s: &str) -> (r: Result<ChunkType, InvalidType>)
        ensures
            match r {
                Ok(t) => ChunkType::parse(s@) == Some(t),
                Err(_) => ChunkType::parse(s@) is None,
            },
    {
        if !s.is_ascii() {
            return Err(InvalidType);
        }
        let bytes = s.as_bytes();
        proof {
            is_ascii_chars_encode_utf8(s@);
        }
        if bytes.len() != 4 {
            return Err(InvalidType);
        }
        let tag = [bytes[0], bytes[1], bytes[2], bytes[3]];
        assert(tag@ =~= Seq::new(4, |i: int| s@[i] as u8));
        if is_ascii_letter(tag[0]) && is_ascii_letter(tag[1]) && is_ascii_letter(tag[2])
            && is_ascii_letter(tag[3]) {
            Ok(ChunkType::from(tag))
        } else {
            Err(InvalidType)
        }
    }
}

impl From<[u8; 4]> for ChunkType {
    /// Folds four bytes into a type. Every four bytes form a type.
    fn from(bytes: [u8; 4]) -> (t: ChunkType) {
        ChunkType { sum: from_be_bytes(bytes) }
    }
}

impl vstd::std_specs::convert::FromSpecImpl<[u8; 4]> for ChunkType {
    open spec fn obeys_from_spec() -> bool {
        true
    }

    open spec fn from_spec(bytes: [u8; 4]) -> ChunkType {
        ChunkType::of_bytes(bytes@)
    }
}

/// The bytes of a type built from four bytes are those four bytes.
pub proof fn lemma_bytes_of_type(bytes: Seq<u8>)
    requires
        bytes.len() == 4,
    ensures
        ChunkType::of_bytes(bytes)@ == bytes,
{
    lemma_bytes_of_value(bytes);
}

/// Two types with the same four bytes are the same type.
pub proof fn lemma_type_by_bytes(a: ChunkType, b: ChunkType)
    ensures
        a@ == b@ <==> a == b,
{
    crate::endian::lemma_value_of_bytes(a.sum);
    crate::endian::lemma_value_of_bytes(b.sum);
}

/// The text of a type is the text it was parsed from.
pub proof fn lemma_text_of_parsed(text: Seq<char>)
    requires
        ChunkType::is_type_text(text),
    ensures
        ChunkType::parse(text) matches Some(t) && t.text() == text && t@ == encode_utf8(text),
{
    let bytes = Seq::new(4, |i: int| text[i] as u8);
    lemma_bytes_of_type(bytes);
    assert(is_ascii_chars(text));
    is_ascii_chars_encode_utf8(text);
    assert(encode_utf8(text) =~= bytes);
    encode_utf8_valid_utf8(text);
    encode_utf8_decode_utf8(text);
}

} // verus!
