//! The 4-byte chunk type tag and its property bits.

use crate::PngError;
use vstd::prelude::*;
use vstd::string::StringSliceAdditionalSpecFns;

verus! {

/// A tag byte must be an ASCII letter (`A`-`Z` or `a`-`z`).
pub open spec fn is_tag_byte(b: u8) -> bool {
    (65 <= b <= 90) || (97 <= b <= 122)
}

/// A valid tag is exactly four ASCII-letter bytes.
pub open spec fn is_tag(s: Seq<u8>) -> bool {
    s.len() == 4 && (forall|i: int| 0 <= i < 4 ==> is_tag_byte(#[trigger] s[i]))
}

/// A 4-byte chunk type tag. Every byte is an ASCII letter.
#[derive(Debug, PartialEq, Eq)]
pub struct ChunkType {
    bytes: [u8; 4],
}

impl Clone for ChunkType {
    fn clone(&self) -> (r: Self)
        ensures
            r == *self,
    {
        proof {
            use_type_invariant(self);
        }
        ChunkType { bytes: self.bytes }
    }
}

impl ChunkType {
    /// The four tag bytes.
    pub closed spec fn spec_bytes(&self) -> Seq<u8> {
        self.bytes@
    }

    /// Every byte of the tag is an ASCII letter.
    #[verifier::type_invariant]
    pub open spec fn wf(&self) -> bool {
        is_tag(self.spec_bytes())
    }

    /// The tag read as text, one character per byte.
    pub open spec fn spec_chars(&self) -> Seq<char> {
        self.spec_bytes().map(|i: int, b: u8| b as char)
    }

    /// Builds a tag from four raw bytes; rejects any byte outside `A`-`Za`-`z`.
    pub fn try_new(bytes: [u8; 4]) -> (r: Result<ChunkType, PngError>)
        ensures
            match r {
                Ok(ct) => is_tag(bytes@) && ct.spec_bytes() == bytes@,
                Err(e) => !is_tag(bytes@) && e == PngError::InvalidTag,
            },
    {
        let valid_ascii = tag_byte_ok(bytes[0]) && tag_byte_ok(bytes[1]) && tag_byte_ok(bytes[2])
            && tag_byte_ok(bytes[3]);
        if valid_ascii {
            proof {
                assert forall|i: int| 0 <= i < 4 implies is_tag_byte(bytes@[i]) by {
                    if i == 0 {
                    } else if i == 1 {
                    } else if i == 2 {
                    } else {
                        assert(i == 3);
                    }
                }
            }
            Ok(ChunkType { bytes })
        } else {
            Err(PngError::InvalidTag)
        }
    }

    /// Builds a tag from text; rejects anything but four ASCII letters.
    pub fn from_text(s: &str) -> (r: Result<ChunkType, PngError>)
        ensures
            match r {
                Ok(ct) => is_tag(s.spec_bytes()) && ct.spec_bytes() == s.spec_bytes(),
                Err(e) => !is_tag(s.spec_bytes()) && e == PngError::InvalidTag,
            },
    {
        let b = s.as_bytes();
        if b.len() != 4 {
            return Err(PngError::InvalidTag);
        }
        let arr = [b[0], b[1], b[2], b[3]];
        proof {
            assert(arr@ =~= s.spec_bytes());
        }
        ChunkType::try_new(arr)
    }

    /// The exact stored bytes.
    pub fn bytes(&self) -> (r: [u8; 4])
        ensures
            r@ == self.spec_bytes(),
    {
        self.bytes
    }

    /// Bit 5 of byte 0 is clear.
    pub open spec fn spec_is_critical(&self) -> bool {
        (self.spec_bytes()[0] >> 5) & 1 == 0
    }

    /// Bit 5 of byte 1 is clear.
    pub open spec fn spec_is_public(&self) -> bool {
        (self.spec_bytes()[1] >> 5) & 1 == 0
    }

    /// Bit 5 of byte 2 is clear.
    pub open spec fn spec_is_reserved_bit_valid(&self) -> bool {
        (self.spec_bytes()[2] >> 5) & 1 == 0
    }

    /// Bit 5 of byte 3 is set.
    pub open spec fn spec_is_safe_to_copy(&self) -> bool {
        (self.spec_bytes()[3] >> 5) & 1 == 1
    }

    pub fn is_critical(&self) -> (r: bool)
        ensures
            r == self.spec_is_critical(),
    {
        (self.bytes[0] >> 5) & 1 == 0
    }

    pub fn is_public(&self) -> (r: bool)
        ensures
            r == self.spec_is_public(),
    {
        (self.bytes[1] >> 5) & 1 == 0
    }

    pub fn is_reserved_bit_valid(&self) -> (r: bool)
        ensures
            r == self.spec_is_reserved_bit_valid(),
    {
        (self.bytes[2] >> 5) & 1 == 0
    }

    pub fn is_safe_to_copy(&self) -> (r: bool)
        ensures
            r == self.spec_is_safe_to_copy(),
    {
        (self.bytes[3] >> 5) & 1 == 1
    }

    /// Overall validity is exactly the reserved-bit rule.
    pub fn is_valid(&self) -> (r: bool)
        ensures
            r == self.spec_is_reserved_bit_valid(),
    {
        self.is_reserved_bit_valid()
    }

    /// The tag rendered as a 4-character string.
    pub fn to_text(&self) -> (r: String)
        ensures
            r@ == self.spec_chars(),
    {
        proof {
            use_type_invariant(self);
        }
        let v = vstd::slice::slice_to_vec(self.bytes.as_slice());
        proof {
            lemma_ascii_bytes_decode(self.bytes@);
        }
        let r = crate::utf8_to_text(v);
        match r {
            Ok(s) => s,
            Err(_) => {
                proof {
                    assert(false);
                }
                String::new()
            },
        }
    }
}

/// Checks one byte against the ASCII-letter rule.
fn tag_byte_ok(b: u8) -> (r: bool)
    ensures
        r == is_tag_byte(b),
{
    (b >= 65 && b <= 90) || (b >= 97 && b <= 122)
}

/// A sequence of bytes below 0x80 is valid UTF-8 and decodes to those bytes
/// read as characters, one each.
pub proof fn lemma_ascii_bytes_decode(bytes: Seq<u8>)
    requires
        forall|i: int| 0 <= i < bytes.len() ==> #[trigger] bytes[i] < 0x80,
    ensures
        vstd::utf8::valid_utf8(bytes),
        vstd::utf8::decode_utf8(bytes) == bytes.map(|i: int, b: u8| b as char),
{
    let chars = bytes.map(|i: int, b: u8| b as char);
    assert(vstd::utf8::is_ascii_chars(chars)) by {
        assert forall|i: int| 0 <= i < chars.len() implies '\0' <= #[trigger] chars[i]
            <= '\u{7f}' by {
            assert(bytes[i] < 0x80);
        }
    }
    vstd::utf8::is_ascii_chars_encode_utf8(chars);
    assert(vstd::utf8::encode_utf8(chars) =~= bytes);
    vstd::utf8::encode_utf8_valid_utf8(chars);
    vstd::utf8::encode_utf8_decode_utf8(chars);
}

} // verus!
