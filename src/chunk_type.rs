use vstd::prelude::*;
use vstd::utf8::{
    decode_utf8, decode_utf8_encode_utf8, encode_utf8, is_leading_byte_width_1,
    partial_valid_utf8, partial_valid_utf8_extend_ascii_block, valid_utf8,
};
use vstd::string::StringSliceAdditionalSpecFns;
use crate::checksum::string_from_utf8;
use crate::error::PngError;

verus! {

/// `b` is an ASCII letter, `A`-`Z` or `a`-`z`.
pub open spec fn is_ascii_letter(b: u8) -> bool {
    (65 <= b <= 90) || (97 <= b <= 122)
}

/// `b` is an upper-case ASCII letter.
pub open spec fn is_upper(b: u8) -> bool {
    65 <= b <= 90
}

/// `s` is a valid type code: four ASCII letters.
pub open spec fn is_type_code(s: Seq<u8>) -> bool {
    s.len() == 4 && forall|i: int| 0 <= i < 4 ==> is_ascii_letter(#[trigger] s[i])
}

/// For a letter, bit 5 is clear exactly when it is upper case.
proof fn lemma_case_bit(b: u8)
    requires
        is_ascii_letter(b),
    ensures
        ((b & 32u8) == 0) == is_upper(b),
{
    assert(((65 <= b <= 90) || (97 <= b <= 122)) ==> (((b & 32u8) == 0u8) == (65 <= b <= 90)))
        by (bit_vector);
}

/// Four ASCII letters form valid UTF-8.
proof fn lemma_letters_are_utf8(s: Seq<u8>)
    requires
        is_type_code(s),
    ensures
        valid_utf8(s),
{
    assert(s.subrange(0, 0) =~= Seq::<u8>::empty());
    assert(partial_valid_utf8(s, 0));
    assert forall|i: int| 0 <= 0 <= i < 4 <= s.len() implies #[trigger] is_leading_byte_width_1(
        s[i],
    ) by {
        assert(is_ascii_letter(s[i]));
    }
    partial_valid_utf8_extend_ascii_block(s, 0, 4);
    assert(s.subrange(0, 4) =~= s);
}

/// A chunk type code: four ASCII letters whose case carries four property bits.
#[derive(Clone, Copy, Debug, PartialEq, Eq)]
pub struct ChunkType {
    bytes: [u8; 4],
}

impl View for ChunkType {
    type V = Seq<u8>;

    closed spec fn view(&self) -> Seq<u8> {
        self.bytes@
    }
}

impl ChunkType {
    #[verifier::type_invariant]
    spec fn letters(self) -> bool {
        is_type_code(self.bytes@)
    }

    /// Builds a type code from four bytes; fails unless each is an ASCII letter.
    pub fn try_from(bytes: [u8; 4]) -> (r: Result<ChunkType, PngError>)
        ensures
            r is Ok <==> is_type_code(bytes@),
            r is Ok ==> r->Ok_0@ == bytes@,
            r is Err ==> r->Err_0 == PngError::InvalidTypeCode,
    {
        let mut i: usize = 0;
        while i < 4
            invariant
                i <= 4,
                bytes@.len() == 4,
                forall|j: int| 0 <= j < i ==> is_ascii_letter(#[trigger] bytes@[j]),
            decreases 4 - i,
        {
            let b = bytes[i];
            if !((b >= 65 && b <= 90) || (b >= 97 && b <= 122)) {
                return Err(PngError::InvalidTypeCode);
            }
            i = i + 1;
        }
        Ok(ChunkType { bytes })
    }

    /// Parses a type code from text; fails unless the text is exactly four ASCII letters.
    pub fn from_str(text: &str) -> (r: Result<ChunkType, PngError>)
        ensures
            r is Ok <==> is_type_code(text.spec_bytes()),
            r is Ok ==> r->Ok_0@ == text.spec_bytes(),
            r is Err ==> r->Err_0 == PngError::InvalidTypeCode,
    {
        let b = text.as_bytes();
        if b.len() != 4 {
            return Err(PngError::InvalidTypeCode);
        }
        let arr: [u8; 4] = [b[0], b[1], b[2], b[3]];
        assert(arr@ =~= b@);
        ChunkType::try_from(arr)
    }

    /// The four bytes of the code, as given.
    pub fn bytes(&self) -> (r: [u8; 4])
        ensures
            r@ == self@,
            is_type_code(r@),
    {
        proof {
            use_type_invariant(self);
        }
        self.bytes
    }

    /// The code is exactly the given bytes (case-sensitive).
    pub fn is_code(&self, text: &[u8]) -> (r: bool)
        ensures
            r == (self@ == text@),
    {
        if text.len() != 4 {
            return false;
        }
        let r = self.bytes[0] == text[0] && self.bytes[1] == text[1] && self.bytes[2] == text[2]
            && self.bytes[3] == text[3];
        proof {
            if r {
                assert(self.bytes@ =~= text@);
            }
        }
        r
    }

    /// Byte 0 is upper case: the chunk is needed to decode the image.
    pub fn is_critical(&self) -> (r: bool)
        ensures
            r == is_upper(self@[0]),
    {
        proof {
            use_type_invariant(self);
            lemma_case_bit(self.bytes@[0]);
        }
        (self.bytes[0] & 32u8) == 0
    }

    /// Byte 1 is upper case: the type is part of the public registry.
    pub fn is_public(&self) -> (r: bool)
        ensures
            r == is_upper(self@[1]),
    {
        proof {
            use_type_invariant(self);
            lemma_case_bit(self.bytes@[1]);
        }
        (self.bytes[1] & 32u8) == 0
    }

    /// Byte 2 is upper case, as conforming files require.
    pub fn is_reserved_bit_valid(&self) -> (r: bool)
        ensures
            r == is_upper(self@[2]),
    {
        proof {
            use_type_invariant(self);
            lemma_case_bit(self.bytes@[2]);
        }
        (self.bytes[2] & 32u8) == 0
    }

    /// Byte 3 is lower case: editors that do not know the type may copy the chunk.
    pub fn is_safe_to_copy(&self) -> (r: bool)
        ensures
            r == !is_upper(self@[3]),
    {
        proof {
            use_type_invariant(self);
            lemma_case_bit(self.bytes@[3]);
        }
        (self.bytes[3] & 32u8) != 0
    }

    /// Every code that can be built is valid: four ASCII letters.
    pub fn is_valid(&self) -> (r: bool)
        ensures
            r == is_type_code(self@),
            r,
    {
        proof {
            use_type_invariant(self);
        }
        true
    }

    /// The code as four characters, case preserved.
    pub fn to_string(&self) -> (r: String)
        ensures
            encode_utf8(r@) == self@,
    {
        proof {
            use_type_invariant(self);
            lemma_letters_are_utf8(self.bytes@);
            decode_utf8_encode_utf8(self.bytes@);
        }
        let v: Vec<u8> = vec![self.bytes[0], self.bytes[1], self.bytes[2], self.bytes[3]];
        assert(v@ =~= self.bytes@);
        match string_from_utf8(v) {
            Some(s) => s,
            None => String::new(),
        }
    }
}

} // verus!
