use crate::chunk_type::{all_letters, ChunkType};
use crate::error::ChunkError;
use crate::text::string_from_utf8;
use vstd::prelude::*;
use vstd::utf8::{decode_utf8, valid_utf8};

verus! {

/// The CRC-32 (IEEE 802.3, as used by PNG) of a byte sequence.
pub uninterp spec fn crc32_of(b: Seq<u8>) -> u32;

/// Relies on `crc::crc32::checksum_ieee`: the CRC-32 of the bytes with the
/// IEEE table, which depends on the bytes alone.
#[verifier::external_body]
fn checksum_ieee(b: &[u8]) -> (r: u32)
    ensures
        r == crc32_of(b@),
{
    crc::crc32::checksum_ieee(b)
}

/// `x` as four bytes, most significant first.
pub open spec fn be32(x: u32) -> Seq<u8> {
    seq![(x >> 24) as u8, (x >> 16) as u8, (x >> 8) as u8, x as u8]
}

/// The number that the first four bytes of `s` encode, most significant first.
pub open spec fn read_be32(s: Seq<u8>) -> u32 {
    ((s[0] as u32) << 24) | ((s[1] as u32) << 16) | ((s[2] as u32) << 8) | (s[3] as u32)
}

/// Reading back four written bytes gives the number.
pub proof fn lemma_read_be32_of_be32(x: u32)
    ensures
        read_be32(be32(x)) == x,
{
    let s = be32(x);
    let (b0, b1, b2, b3) = ((x >> 24) as u8, (x >> 16) as u8, (x >> 8) as u8, x as u8);
    assert(s[0] == b0 && s[1] == b1 && s[2] == b2 && s[3] == b3);
    assert(((b0 as u32) << 24) | ((b1 as u32) << 16) | ((b2 as u32) << 8) | (b3 as u32) == x)
        by (bit_vector)
        requires
            b0 == (x >> 24) as u8,
            b1 == (x >> 16) as u8,
            b2 == (x >> 8) as u8,
            b3 == x as u8,
    ;
}

/// Writing a number read from four bytes gives the bytes back.
pub proof fn lemma_be32_of_read_be32(s: Seq<u8>)
    requires
        s.len() == 4,
    ensures
        be32(read_be32(s)) == s,
{
    let (b0, b1, b2, b3) = (s[0], s[1], s[2], s[3]);
    let x = read_be32(s);
    assert((x >> 24) as u8 == b0 && (x >> 16) as u8 == b1 && (x >> 8) as u8 == b2 && x as u8
        == b3) by (bit_vector)
        requires
            x == ((b0 as u32) << 24) | ((b1 as u32) << 16) | ((b2 as u32) << 8) | (b3 as u32),
    ;
    assert(be32(x) =~= s);
}

/// A chunk made from a tag of four letters and a payload whose length fits in
/// 32 bits is well formed.
pub proof fn lemma_build_wf(tag: Seq<u8>, data: Seq<u8>)
    requires
        tag.len() == 4,
        all_letters(tag),
        data.len() <= u32::MAX,
    ensures
        chunk_wf(build(tag, data)),
{
}

/// Decoding the bytes of a well-formed chunk gives the chunk back.
pub proof fn lemma_decode_encode(c: ChunkView)
    requires
        chunk_wf(c),
    ensures
        decode(encode(c)) == Ok::<ChunkView, ChunkError>(c),
{
    let b = encode(c);
    let n = c.length as int;
    lemma_read_be32_of_be32(c.length);
    lemma_read_be32_of_be32(c.crc);
    assert(b.subrange(0, 4) =~= be32(c.length));
    assert(b.subrange(4, 8) =~= c.tag);
    assert(b.subrange(8, 8 + n) =~= c.data);
    assert(b.subrange(8 + n, 12 + n) =~= be32(c.crc));
}

/// Round trip: decoding the bytes of the chunk built from a tag and a payload
/// gives that same chunk.
pub proof fn lemma_round_trip(tag: Seq<u8>, data: Seq<u8>)
    requires
        tag.len() == 4,
        all_letters(tag),
        data.len() <= u32::MAX,
    ensures
        decode(encode(build(tag, data))) == Ok::<ChunkView, ChunkError>(build(tag, data)),
{
    lemma_build_wf(tag, data);
    lemma_decode_encode(build(tag, data));
}

/// A buffer that decodes gives a well-formed chunk, and encoding that chunk
/// gives back the bytes that were read: the first `12 + length` of them.
pub proof fn lemma_encode_decode(b: Seq<u8>)
    requires
        decode(b) is Ok,
    ensures
        chunk_wf(decode(b)->Ok_0),
        encode(decode(b)->Ok_0) == b.subrange(0, 12 + declared_length(b)),
{
    let c = decode(b)->Ok_0;
    let n = declared_length(b) as int;
    lemma_be32_of_read_be32(b.subrange(0, 4));
    lemma_be32_of_read_be32(b.subrange(8 + n, 12 + n));
    assert(encode(c) =~= b.subrange(0, 12 + n));
}

/// A buffer shorter than twelve bytes is truncated.
pub proof fn lemma_short_buffer(b: Seq<u8>)
    requires
        b.len() < 12,
    ensures
        decode(b) == Err::<ChunkView, ChunkError>(ChunkError::TruncatedBuffer),
{
}

/// The bytes of a well-formed chunk without their last byte are truncated.
pub proof fn lemma_one_byte_short(c: ChunkView)
    requires
        chunk_wf(c),
    ensures
        decode(encode(c).drop_last()) == Err::<ChunkView, ChunkError>(ChunkError::TruncatedBuffer),
{
    let b = encode(c).drop_last();
    let n = c.length as int;
    lemma_read_be32_of_be32(c.length);
    assert(b.subrange(0, 4) =~= be32(c.length));
    assert(b.subrange(4, 8) =~= c.tag);
}

/// Replacing the checksum field of a well-formed chunk's bytes by any other
/// value makes decoding fail with a checksum mismatch.
pub proof fn lemma_altered_checksum_rejected(c: ChunkView, x: u32)
    requires
        chunk_wf(c),
        x != c.crc,
    ensures
        decode(encode(ChunkView { crc: x, ..c })) == Err::<ChunkView, ChunkError>(
            ChunkError::ChecksumMismatch,
        ),
{
    let d = ChunkView { crc: x, ..c };
    let b = encode(d);
    let n = c.length as int;
    lemma_read_be32_of_be32(c.length);
    lemma_read_be32_of_be32(x);
    assert(b.subrange(0, 4) =~= be32(c.length));
    assert(b.subrange(4, 8) =~= c.tag);
    assert(b.subrange(8, 8 + n) =~= c.data);
    assert(b.subrange(8 + n, 12 + n) =~= be32(x));
}

/// Flipping one bit of the tag or payload in a well-formed chunk's bytes:
/// where the tag stays four letters, decoding fails with a checksum mismatch
/// exactly when the CRC-32 of the altered tag and payload differs from the
/// stored checksum; otherwise it fails on the tag.
pub proof fn lemma_flipped_bit(c: ChunkView, i: int, bit: u8)
    requires
        chunk_wf(c),
        4 <= i < 8 + c.length,
        bit < 8,
    ensures
        ({
            let b = encode(c);
            let f = b.update(i, b[i] ^ (1u8 << bit));
            &&& all_letters(f.subrange(4, 8)) ==> (decode(f) == Err::<ChunkView, ChunkError>(
                ChunkError::ChecksumMismatch) <==> crc32_of(f.subrange(4, 8 + c.length)) != c.crc)
            &&& !all_letters(f.subrange(4, 8)) ==> decode(f) == Err::<ChunkView, ChunkError>(
                ChunkError::InvalidTagByte)
        }),
{
    let b = encode(c);
    let f = b.update(i, b[i] ^ (1u8 << bit));
    let n = c.length as int;
    lemma_read_be32_of_be32(c.length);
    lemma_read_be32_of_be32(c.crc);
    assert(f.subrange(0, 4) =~= be32(c.length));
    assert(f.subrange(8 + n, 12 + n) =~= be32(c.crc));
    assert(f.subrange(4, 8) + f.subrange(8, 8 + n) =~= f.subrange(4, 8 + n));
}

/// The fields of a chunk: declared length, tag bytes, payload and checksum.
pub struct ChunkView {
    pub length: u32,
    pub tag: Seq<u8>,
    pub data: Seq<u8>,
    pub crc: u32,
}

/// A chunk whose length matches its payload, whose tag holds four letters,
/// and whose checksum is the CRC-32 of tag and payload.
pub open spec fn chunk_wf(c: ChunkView) -> bool {
    &&& c.tag.len() == 4
    &&& all_letters(c.tag)
    &&& c.length as int == c.data.len()
    &&& c.crc == crc32_of(c.tag + c.data)
}

/// The chunk made of `tag` and `data`.
pub open spec fn build(tag: Seq<u8>, data: Seq<u8>) -> ChunkView {
    ChunkView { length: data.len() as u32, tag, data, crc: crc32_of(tag + data) }
}

/// The bytes of a chunk: length, tag, payload and checksum.
pub open spec fn encode(c: ChunkView) -> Seq<u8> {
    be32(c.length) + c.tag + c.data + be32(c.crc)
}

/// The declared length that a buffer starts with.
pub open spec fn declared_length(b: Seq<u8>) -> u32 {
    read_be32(b.subrange(0, 4))
}

/// The outcome of decoding a chunk from the front of `b`.
pub open spec fn decode(b: Seq<u8>) -> Result<ChunkView, ChunkError> {
    if b.len() < 12 {
        Err(ChunkError::TruncatedBuffer)
    } else {
        let length = declared_length(b);
        let tag = b.subrange(4, 8);
        if !all_letters(tag) {
            Err(ChunkError::InvalidTagByte)
        } else if b.len() < 12 + length {
            Err(ChunkError::TruncatedBuffer)
        } else {
            let data = b.subrange(8, 8 + length);
            let crc = read_be32(b.subrange(8 + length, 12 + length));
            if crc32_of(tag + data) != crc {
                Err(ChunkError::ChecksumMismatch)
            } else {
                Ok(ChunkView { length, tag, data, crc })
            }
        }
    }
}

/// Compares the checksum stored in a chunk with the one computed over its tag
/// and payload.
pub fn check_checksum(stored: u32, computed: u32) -> (r: Result<(), ChunkError>)
    ensures
        r is Ok <==> stored == computed,
        r matches Err(e) ==> e == ChunkError::ChecksumMismatch,
{
    if stored == computed {
        Ok(())
    } else {
        Err(ChunkError::ChecksumMismatch)
    }
}

/// Appends `x` as four bytes, most significant first.
fn push_be32(v: &mut Vec<u8>, x: u32)
    ensures
        final(v)@ == old(v)@ + be32(x),
{
    v.push((x >> 24) as u8);
    v.push((x >> 16) as u8);
    v.push((x >> 8) as u8);
    v.push(x as u8);
    assert(final(v)@ =~= old(v)@ + be32(x));
}

/// Appends the bytes of `s`.
fn push_all(v: &mut Vec<u8>, s: &[u8])
    ensures
        final(v)@ == old(v)@ + s@,
{
    let ghost start = v@;
    let mut i: usize = 0;
    while i < s.len()
        invariant
            0 <= i <= s@.len(),
            v@ == start + s@.subrange(0, i as int),
        decreases s@.len() - i,
    {
        v.push(s[i]);
        i = i + 1;
        assert(v@ =~= start + s@.subrange(0, i as int));
    }
    assert(s@.subrange(0, s@.len() as int) =~= s@);
}

/// Reads four bytes at `at` as a number, most significant first.
fn read_be32_at(b: &[u8], at: usize) -> (r: u32)
    requires
        at + 4 <= b@.len(),
    ensures
        r == read_be32(b@.subrange(at as int, at + 4)),
{
    ((b[at] as u32) << 24) | ((b[at + 1] as u32) << 16) | ((b[at + 2] as u32) << 8) | (b[at
        + 3] as u32)
}

/// The bytes that the checksum covers: tag, then payload.
fn checksum_input(tag: [u8; 4], data: &[u8]) -> (r: Vec<u8>)
    ensures
        r@ == tag@ + data@,
{
    let mut v: Vec<u8> = Vec::new();
    push_all(&mut v, tag.as_slice());
    push_all(&mut v, data);
    v
}

/// One length-prefixed, type-tagged, checksummed record.
#[derive(Debug, Clone, PartialEq)]
pub struct Chunk {
    length: u32,
    chunk_type: ChunkType,
    chunk_data: Vec<u8>,
    crc: u32,
}

impl View for Chunk {
    type V = ChunkView;

    closed spec fn view(&self) -> ChunkView {
        ChunkView {
            length: self.length,
            tag: self.chunk_type@,
            data: self.chunk_data@,
            crc: self.crc,
        }
    }
}

/// The fields of the chunk that a result holds, or its error.
pub open spec fn chunk_result_view(r: Result<Chunk, ChunkError>) -> Result<ChunkView, ChunkError> {
    match r {
        Ok(c) => Ok(c@),
        Err(e) => Err(e),
    }
}

impl Chunk {
    /// The chunk's fields agree with each other.
    pub open spec fn wf(&self) -> bool {
        chunk_wf(self@)
    }

    /// The tag as a value.
    pub closed spec fn spec_chunk_type(&self) -> ChunkType {
        self.chunk_type
    }

    /// Builds a chunk from a tag and a payload, computing its length and
    /// checksum.
    pub fn new(chunk_type: ChunkType, data: Vec<u8>) -> (r: Chunk)
        requires
            chunk_type.wf(),
            data@.len() <= u32::MAX,
        ensures
            r@ == build(chunk_type@, data@),
            r.spec_chunk_type() == chunk_type,
            r.wf(),
    {
        let length = data.len() as u32;
        let input = checksum_input(chunk_type.bytes(), data.as_slice());
        let crc = checksum_ieee(input.as_slice());
        Chunk { length, chunk_type, chunk_data: data, crc }
    }

    /// Decodes a chunk from the front of `bytes`: length, tag, payload and
    /// checksum. Bytes after the chunk are left alone.
    pub fn try_from(bytes: &[u8]) -> (r: Result<Chunk, ChunkError>)
        ensures
            chunk_result_view(r) == decode(bytes@),
            r matches Ok(c) ==> c.wf(),
    {
        if bytes.len() < 12 {
            return Err(ChunkError::TruncatedBuffer);
        }
        let length = read_be32_at(bytes, 0);
        let tag_bytes: [u8; 4] = [bytes[4], bytes[5], bytes[6], bytes[7]];
        assert(tag_bytes@ =~= bytes@.subrange(4, 8));
        let chunk_type = match ChunkType::try_from(tag_bytes) {
            Ok(t) => t,
            Err(e) => {
                return Err(e);
            },
        };
        if (bytes.len() as u64) < 12 + (length as u64) {
            return Err(ChunkError::TruncatedBuffer);
        }
        let end: usize = 8 + length as usize;
        let mut data: Vec<u8> = Vec::new();
        let mut i: usize = 8;
        while i < end
            invariant
                8 <= i <= end,
                end + 4 <= bytes@.len(),
                data@ == bytes@.subrange(8, i as int),
            decreases end - i,
        {
            data.push(bytes[i]);
            i = i + 1;
            assert(data@ =~= bytes@.subrange(8, i as int));
        }
        let crc = read_be32_at(bytes, end);
        let input = checksum_input(tag_bytes, data.as_slice());
        let computed = checksum_ieee(input.as_slice());
        if let Err(e) = check_checksum(crc, computed) {
            return Err(e);
        }
        Ok(Chunk { length, chunk_type, chunk_data: data, crc })
    }

    /// The declared length of the payload.
    pub fn length(&self) -> (r: u32)
        ensures
            r == self@.length,
    {
        self.length
    }

    /// The type tag.
    pub fn chunk_type(&self) -> (r: &ChunkType)
        ensures
            r@ == self@.tag,
            *r == self.spec_chunk_type(),
    {
        &self.chunk_type
    }

    /// The payload.
    pub fn data(&self) -> (r: &[u8])
        ensures
            r@ == self@.data,
    {
        self.chunk_data.as_slice()
    }

    /// The stored checksum.
    pub fn crc(&self) -> (r: u32)
        ensures
            r == self@.crc,
    {
        self.crc
    }

    /// The payload as text; fails when it is not valid UTF-8.
    pub fn data_as_string(&self) -> (r: Result<String, ChunkError>)
        ensures
            r is Ok <==> valid_utf8(self@.data),
            r matches Ok(s) ==> s@ == decode_utf8(self@.data),
            r matches Err(e) ==> e == ChunkError::InvalidUtf8,
    {
        match string_from_utf8(self.chunk_data.clone()) {
            Some(s) => Ok(s),
            None => Err(ChunkError::InvalidUtf8),
        }
    }

    /// The chunk's bytes: length, tag, payload and checksum.
    pub fn as_bytes(&self) -> (r: Vec<u8>)
        ensures
            r@ == encode(self@),
    {
        let mut v: Vec<u8> = Vec::new();
        push_be32(&mut v, self.length);
        push_all(&mut v, self.chunk_type.bytes().as_slice());
        push_all(&mut v, self.chunk_data.as_slice());
        push_be32(&mut v, self.crc);
        v
    }
}

impl<'a> vstd::std_specs::convert::TryFromSpecImpl<&'a [u8]> for Chunk {
    open spec fn obeys_try_from_spec() -> bool {
        false
    }

    // No spec-level chunk is built here: `Chunk::try_from` states the outcome.
    open spec fn try_from_spec(v: &'a [u8]) -> Result<Chunk, ChunkError> {
        arbitrary()
    }
}

impl<'a> TryFrom<&'a [u8]> for Chunk {
    type Error = ChunkError;

    fn try_from(bytes: &'a [u8]) -> (r: Result<Chunk, ChunkError>)
        ensures
            chunk_result_view(r) == decode(bytes@),
    {
        Chunk::try_from(bytes)
    }
}

} // verus!
