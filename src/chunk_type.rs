use vstd::prelude::*;
use vstd::string::StringSliceAdditionalSpecFns;
use vstd::utf8::encode_utf8;

use crate::error::PngError;
use crate::text::{bytes_as_chars, lemma_ascii_bytes_utf8, string_from_utf8};

verus! {

broadcast use vstd::utf8::group_utf8_lib;

/// An ASCII letter, `A` to `Z` or `a` to `z`, both ends included.
pub open spec fn is_letter(b: u8) -> bool {
    (65 <= b && b <= 90) || (97 <= b && b <= 122)
}

pub open spec fn is_letter_char(c: char) -> bool {
    ('A' <= c && c <= 'Z') || ('a' <= c && c <= 'z')
}

pub open spec fn is_upper(b: u8) -> bool {
    65 <= b && b <= 90
}

pub open spec fn is_lower(b: u8) -> bool {
    97 <= b && b <= 122
}

/// Every byte is an ASCII letter.
pub open spec fn all_letters(b: Seq<u8>) -> bool {
    forall|i: int| 0 <= i < b.len() ==> is_letter(#[trigger] b[i])
}

/// The outcome of reading a tag from text: the bytes of a text of four
/// ASCII letters, else the reason it is refused.
pub open spec fn type_from_text(s: Seq<char>) -> Result<Seq<u8>, PngError> {
    if !(forall|i: int| 0 <= i < s.len() ==> is_letter_char(#[trigger] s[i])) {
        Err(PngError::InvalidChunkType)
    } else if s.len() != 4 {
        Err(PngError::InvalidLength)
    } else {
        Ok(s.map_values(|c: char| c as u8))
    }
}

/// The tag of a chunk: four bytes, each an ASCII letter. The case of each
/// byte carries one property of the chunk.
#[derive(Debug, Clone, Copy)]
pub struct ChunkType {
    chunk: [u8; 4],
}

impl View for ChunkType {
    type V = Seq<u8>;

    closed spec fn view(&self) -> Seq<u8> {
        self.chunk@
    }
}

impl PartialEq for ChunkType {
    fn eq(&self, o: &ChunkType) -> (r: bool) {
        proof {
            assert(self@.len() == 4 && o@.len() == 4);
        }
        let r = self.chunk[0] == o.chunk[0] && self.chunk[1] == o.chunk[1] && self.chunk[2]
            == o.chunk[2] && self.chunk[3] == o.chunk[3];
        proof {
            if r {
                assert(self@ =~= o@);
            }
        }
        r
    }
}

impl vstd::std_specs::cmp::PartialEqSpecImpl for ChunkType {
    open spec fn obeys_eq_spec() -> bool {
        true
    }

    open spec fn eq_spec(&self, o: &ChunkType) -> bool {
        self@ == o@
    }
}

impl Eq for ChunkType {

}

impl ChunkType {
    /// Four bytes, all ASCII letters.
    pub open spec fn wf(&self) -> bool {
        self@.len() == 4 && all_letters(self@)
    }

    /// The characters that the tag renders as.
    pub open spec fn name(&self) -> Seq<char> {
        bytes_as_chars(self@)
    }

    /// Builds a tag from four raw bytes, each of which must be an ASCII letter.
    pub fn try_from(value: [u8; 4]) -> (r: Result<ChunkType, PngError>)
        ensures
            all_letters(value@) ==> (r matches Ok(t) && t@ == value@ && t.wf()),
            !all_letters(value@) ==> r == Err::<ChunkType, PngError>(PngError::InvalidChunkType),
    {
        let mut i: usize = 0;
        while i < 4
            invariant
                0 <= i <= 4,
                value@.len() == 4,
                forall|j: int| 0 <= j < i ==> is_letter(#[trigger] value@[j]),
            decreases 4 - i,
        {
            if !byte_is_letter(value[i]) {
                return Err(PngError::InvalidChunkType);
            }
            i = i + 1;
        }
        Ok(ChunkType { chunk: value })
    }

    /// Builds a tag from a text of four ASCII letters.
    pub fn from_str(s: &str) -> (r: Result<ChunkType, PngError>)
        ensures
            match type_from_text(s@) {
                Ok(b) => r matches Ok(t) && t.wf() && t@ == b && t.name() == s@,
                Err(e) => r == Err::<ChunkType, PngError>(e),
            },
    {
        let bytes = s.as_bytes();
        let mut i: usize = 0;
        while i < bytes.len()
            invariant
                0 <= i <= bytes@.len(),
                bytes@ == s.spec_bytes(),
                forall|j: int| 0 <= j < i ==> is_letter(#[trigger] bytes@[j]),
            decreases bytes@.len() - i,
        {
            if !byte_is_letter(bytes[i]) {
                proof {
                    lemma_letter_chars_bytes(s@);
                }
                return Err(PngError::InvalidChunkType);
            }
            i = i + 1;
        }
        proof {
            lemma_ascii_bytes_utf8(bytes@);
            vstd::utf8::encode_utf8_decode_utf8(s@);
            assert(s@ == bytes_as_chars(bytes@));
        }
        if bytes.len() != 4 {
            return Err(PngError::InvalidLength);
        }
        let t = ChunkType { chunk: [bytes[0], bytes[1], bytes[2], bytes[3]] };
        proof {
            assert(t@ =~= bytes@);
            assert(s@.map_values(|c: char| c as u8) =~= bytes@);
        }
        Ok(t)
    }

    /// The four raw bytes.
    pub fn bytes(&self) -> (r: [u8; 4])
        ensures
            r@ == self@,
    {
        self.chunk
    }

    /// True when the first byte is upper case: a chunk a decoder must understand.
    pub fn is_critical(&self) -> (r: bool)
        ensures
            r == is_upper(self@[0]),
    {
        byte_is_upper(self.chunk[0])
    }

    /// True when the second byte is upper case: a chunk of the published standard.
    pub fn is_public(&self) -> (r: bool)
        ensures
            r == is_upper(self@[1]),
    {
        byte_is_upper(self.chunk[1])
    }

    /// True when the third byte is upper case, as every conforming tag has it.
    pub fn is_reserved_bit_valid(&self) -> (r: bool)
        ensures
            r == is_upper(self@[2]),
    {
        byte_is_upper(self.chunk[2])
    }

    /// True when the fourth byte is lower case: editors may copy the chunk unchanged.
    pub fn is_safe_to_copy(&self) -> (r: bool)
        ensures
            r == is_lower(self@[3]),
    {
        self.chunk[3] >= 97 && self.chunk[3] <= 122
    }

    /// True when the reserved bit is valid and every byte is an ASCII letter.
    pub fn is_valid(&self) -> (r: bool)
        ensures
            r == (is_upper(self@[2]) && all_letters(self@)),
    {
        if !self.is_reserved_bit_valid() {
            return false;
        }
        let mut i: usize = 0;
        while i < 4
            invariant
                0 <= i <= 4,
                self@.len() == 4,
                self@ == self.chunk@,
                forall|j: int| 0 <= j < i ==> is_letter(#[trigger] self@[j]),
            decreases 4 - i,
        {
            if !byte_is_letter(self.chunk[i]) {
                return false;
            }
            i = i + 1;
        }
        true
    }

    /// The tag as text.
    pub fn to_string(&self) -> (r: String)
        requires
            self.wf(),
        ensures
            r@ == self.name(),
    {
        let mut v: Vec<u8> = Vec::new();
        v.push(self.chunk[0]);
        v.push(self.chunk[1]);
        v.push(self.chunk[2]);
        v.push(self.chunk[3]);
        proof {
            assert(v@ =~= self@);
            lemma_ascii_bytes_utf8(v@);
        }
        match string_from_utf8(v) {
            Some(s) => s,
            None => String::new(),
        }
    }
}

fn byte_is_letter(b: u8) -> (r: bool)
    ensures
        r == is_letter(b),
{
    (b >= 65 && b <= 90) || (b >= 97 && b <= 122)
}

fn byte_is_upper(b: u8) -> (r: bool)
    ensures
        r == is_upper(b),
{
    b >= 65 && b <= 90
}

/// The text a tag of four ASCII letters renders as is those same four
/// letters: one character per byte, whose UTF-8 encoding is the bytes again.
pub proof fn lemma_render_parse(b: Seq<u8>)
    requires
        b.len() == 4,
        all_letters(b),
    ensures
        bytes_as_chars(b).len() == 4,
        forall|i: int|
            0 <= i < 4 ==> is_letter_char(#[trigger] bytes_as_chars(b)[i]) && bytes_as_chars(
                b,
            )[i] as u8 == b[i],
        encode_utf8(bytes_as_chars(b)) == b,
{
    lemma_ascii_bytes_utf8(b);
    assert forall|i: int| 0 <= i < 4 implies is_letter_char(#[trigger] bytes_as_chars(b)[i])
        && bytes_as_chars(b)[i] as u8 == b[i] by {
        assert(is_letter(b[i]));
    }
}

/// A text is all ASCII letters exactly when its UTF-8 bytes are.
proof fn lemma_letter_chars_bytes(s: Seq<char>)
    ensures
        (forall|i: int| 0 <= i < s.len() ==> is_letter_char(#[trigger] s[i])) <==> all_letters(
            encode_utf8(s),
        ),
{
    let b = encode_utf8(s);
    if forall|i: int| 0 <= i < s.len() ==> is_letter_char(#[trigger] s[i]) {
        assert(vstd::utf8::is_ascii_chars(s));
        vstd::utf8::is_ascii_chars_encode_utf8(s);
        assert forall|i: int| 0 <= i < b.len() implies is_letter(#[trigger] b[i]) by {
            assert(s[i] as u8 == b[i]);
        }
    }
    if all_letters(b) {
        lemma_ascii_bytes_utf8(b);
        vstd::utf8::encode_utf8_decode_utf8(s);
        assert(s == bytes_as_chars(b));
    }
}

} // verus!
