use crate::error::ChunkError;
use crate::text::{ascii_chars, lemma_ascii_is_utf8, string_from_utf8};
use vstd::prelude::*;
use vstd::string::StringSliceAdditionalSpecFns;
use vstd::utf8::{decode_utf8_encode_utf8, encode_utf8};

verus! {

/// The bit that tells lower case from upper case in an ASCII letter.
pub const CASE_BIT: u8 = 0x20;

/// An ASCII letter, `A`-`Z` or `a`-`z`.
pub open spec fn is_letter(b: u8) -> bool {
    (0x41 <= b && b <= 0x5A) || (0x61 <= b && b <= 0x7A)
}

/// Every byte of `s` is an ASCII letter.
pub open spec fn all_letters(s: Seq<u8>) -> bool {
    forall|i: int| 0 <= i < s.len() ==> #[trigger] is_letter(s[i])
}

/// The case bit of `b` is clear: for a letter, it is upper case.
pub open spec fn case_bit_clear(b: u8) -> bool {
    b & CASE_BIT == 0
}

/// What building a tag from `b` gives: the bytes themselves, or the error.
pub open spec fn parse_tag(b: Seq<u8>) -> Result<Seq<u8>, ChunkError> {
    if all_letters(b) {
        Ok(b)
    } else {
        Err(ChunkError::InvalidTagByte)
    }
}

/// What building a tag from text whose UTF-8 encoding is `b` gives.
pub open spec fn parse_tag_text(b: Seq<u8>) -> Result<Seq<u8>, ChunkError> {
    if b.len() != 4 {
        Err(ChunkError::WrongTagLength)
    } else {
        parse_tag(b)
    }
}

/// The bytes of the tag that a result holds, or its error.
pub open spec fn tag_result_view(r: Result<ChunkType, ChunkError>) -> Result<Seq<u8>, ChunkError> {
    match r {
        Ok(t) => Ok(t@),
        Err(e) => Err(e),
    }
}

/// For a letter, a clear case bit means upper case and a set one lower case.
pub proof fn lemma_case_bit_upper(b: u8)
    requires
        is_letter(b),
    ensures
        case_bit_clear(b) <==> (0x41 <= b && b <= 0x5A),
        !case_bit_clear(b) <==> (0x61 <= b && b <= 0x7A),
{
    assert(((0x41 <= b && b <= 0x5A) || (0x61 <= b && b <= 0x7A)) ==> ((b & 0x20 == 0) <==> (
    0x41 <= b && b <= 0x5A))) by (bit_vector);
}

/// The text of a tag, read back as a tag, gives the same four bytes.
pub proof fn lemma_tag_text_round_trip(tag: Seq<u8>)
    requires
        tag.len() == 4,
        all_letters(tag),
    ensures
        parse_tag_text(encode_utf8(ascii_chars(tag))) == Ok::<Seq<u8>, ChunkError>(tag),
{
    assert forall|j: int| 0 <= j < tag.len() implies #[trigger] tag[j] < 0x80 by {
        assert(is_letter(tag[j]));
    }
    lemma_ascii_is_utf8(tag);
    decode_utf8_encode_utf8(tag);
}

/// The four-byte type tag of a chunk. Each byte is an ASCII letter, and the
/// case of each byte carries one property of the chunk.
#[derive(Debug, Clone, Copy, PartialEq, Eq)]
pub struct ChunkType {
    bytes: [u8; 4],
}

impl View for ChunkType {
    type V = Seq<u8>;

    closed spec fn view(&self) -> Seq<u8> {
        self.bytes@
    }
}

impl ChunkType {
    /// A tag holds four letters.
    pub open spec fn wf(&self) -> bool {
        self@.len() == 4 && all_letters(self@)
    }

    /// Builds a tag from four bytes, each of which must be an ASCII letter.
    pub fn try_from(bytes: [u8; 4]) -> (r: Result<ChunkType, ChunkError>)
        ensures
            r matches Ok(t) ==> t.wf(),
            tag_result_view(r) == parse_tag(bytes@),
    {
        let mut i: usize = 0;
        while i < 4
            invariant
                0 <= i <= 4,
                forall|j: int| 0 <= j < i ==> #[trigger] is_letter(bytes@[j]),
            decreases 4 - i,
        {
            let b = bytes[i];
            if !((0x41 <= b && b <= 0x5A) || (0x61 <= b && b <= 0x7A)) {
                assert(!is_letter(bytes@[i as int]));
                return Err(ChunkError::InvalidTagByte);
            }
            i = i + 1;
        }
        let t = ChunkType { bytes };
        assert(t@ == bytes@);
        Ok(t)
    }

    /// Builds a tag from text, which must hold exactly four bytes, each an
    /// ASCII letter.
    pub fn from_str(s: &str) -> (r: Result<ChunkType, ChunkError>)
        ensures
            r matches Ok(t) ==> t.wf(),
            tag_result_view(r) == parse_tag_text(s.spec_bytes()),
    {
        if s.len() != 4 {
            return Err(ChunkError::WrongTagLength);
        }
        let sb = s.as_bytes();
        let bytes: [u8; 4] = [sb[0], sb[1], sb[2], sb[3]];
        assert(bytes@ == s.spec_bytes());
        ChunkType::try_from(bytes)
    }

    /// The four raw bytes of the tag.
    pub fn bytes(&self) -> (r: [u8; 4])
        ensures
            r@ == self@,
    {
        self.bytes
    }

    /// The tag as text: one character for each of its four letters.
    pub fn to_string(&self) -> (r: String)
        requires
            self.wf(),
        ensures
            r@ == ascii_chars(self@),
    {
        let mut v: Vec<u8> = Vec::new();
        let mut i: usize = 0;
        while i < 4
            invariant
                0 <= i <= 4,
                v@ == self@.subrange(0, i as int),
                self.wf(),
            decreases 4 - i,
        {
            v.push(self.bytes[i]);
            i = i + 1;
        }
        proof {
            assert(v@ == self@);
            assert forall|j: int| 0 <= j < v@.len() implies #[trigger] v@[j] < 0x80 by {
                assert(is_letter(self@[j]));
            }
            lemma_ascii_is_utf8(v@);
        }
        match string_from_utf8(v) {
            Some(s) => s,
            None => String::new(),
        }
    }

    /// Whether the chunk is critical: the first byte is upper case.
    pub fn is_critical(&self) -> (r: bool)
        ensures
            r == case_bit_clear(self@[0]),
            self.wf() ==> (r <==> (0x41 <= self@[0] && self@[0] <= 0x5A)),
    {
        proof {
            if self.wf() {
                lemma_case_bit_upper(self@[0]);
            }
        }
        self.bytes[0] & CASE_BIT == 0
    }

    /// Whether the chunk is public: the second byte is upper case.
    pub fn is_public(&self) -> (r: bool)
        ensures
            r == case_bit_clear(self@[1]),
            self.wf() ==> (r <==> (0x41 <= self@[1] && self@[1] <= 0x5A)),
    {
        proof {
            if self.wf() {
                lemma_case_bit_upper(self@[1]);
            }
        }
        self.bytes[1] & CASE_BIT == 0
    }

    /// Whether the reserved bit is valid: the third byte is upper case.
    pub fn is_reserved_bit_valid(&self) -> (r: bool)
        ensures
            r == case_bit_clear(self@[2]),
            self.wf() ==> (r <==> (0x41 <= self@[2] && self@[2] <= 0x5A)),
    {
        proof {
            if self.wf() {
                lemma_case_bit_upper(self@[2]);
            }
        }
        self.bytes[2] & CASE_BIT == 0
    }

    /// Whether the tag is valid; the same as `is_reserved_bit_valid`.
    pub fn is_valid(&self) -> (r: bool)
        ensures
            r == case_bit_clear(self@[2]),
            self.wf() ==> (r <==> (0x41 <= self@[2] && self@[2] <= 0x5A)),
    {
        self.is_reserved_bit_valid()
    }

    /// Whether the chunk is safe to copy: the fourth byte is lower case.
    pub fn is_safe_to_copy(&self) -> (r: bool)
        ensures
            r == !case_bit_clear(self@[3]),
            self.wf() ==> (r <==> (0x61 <= self@[3] && self@[3] <= 0x7A)),
    {
        proof {
            if self.wf() {
                lemma_case_bit_upper(self@[3]);
            }
        }
        self.bytes[3] & CASE_BIT != 0
    }
}

impl vstd::std_specs::convert::TryFromSpecImpl<[u8; 4]> for ChunkType {
    open spec fn obeys_try_from_spec() -> bool {
        false
    }

    // The outcome is stated over the tag's view, by `ChunkType::try_from`.
    open spec fn try_from_spec(v: [u8; 4]) -> Result<ChunkType, ChunkError> {
        arbitrary()
    }
}

impl TryFrom<[u8; 4]> for ChunkType {
    type Error = ChunkError;

    fn try_from(bytes: [u8; 4]) -> (r: Result<ChunkType, ChunkError>)
        ensures
            tag_result_view(r) == parse_tag(bytes@),
    {
        ChunkType::try_from(bytes)
    }
}

impl std::str::FromStr for ChunkType {
    type Err = ChunkError;

    fn from_str(s: &str) -> Result<ChunkType, ChunkError> {
        ChunkType::from_str(s)
    }
}

} // verus!
