use vstd::prelude::*;
use vstd::utf8::{decode_utf8, valid_utf8};

use crate::chunk_type::{all_letters, ChunkType};
use crate::error::PngError;
use crate::text::string_from_utf8;

verus! {

/// The CRC-32 (ISO-HDLC, as used by PNG and zlib) checksum of a byte sequence.
pub uninterp spec fn crc32_of(b: Seq<u8>) -> u32;

/// Relies on crc::Crc::<u32>::checksum with the CRC_32_ISO_HDLC algorithm:
/// the checksum is a function of the bytes alone.
#[verifier::external_body]
fn crc32_checksum(b: &[u8]) -> (r: u32)
    ensures
        r == crc32_of(b@),
{
    crc::Crc::<u32>::new(&crc::CRC_32_ISO_HDLC).checksum(b)
}

/// The four big-endian bytes of a 32-bit value.
pub open spec fn be_bytes(v: u32) -> Seq<u8> {
    seq![(v / 16777216) as u8, ((v / 65536) % 256) as u8, ((v / 256) % 256) as u8, (v % 256) as u8]
}

/// The value of the first four bytes read as a big-endian integer.
pub open spec fn be_value(b: Seq<u8>) -> int {
    b[0] as int * 16777216 + b[1] as int * 65536 + b[2] as int * 256 + b[3] as int
}

pub proof fn lemma_be_round_trip(v: u32)
    ensures
        be_value(be_bytes(v)) == v,
        be_bytes(v).len() == 4,
{
    let b = be_bytes(v);
    assert(b[0] as int == v / 16777216);
    assert(b[1] as int == (v / 65536) % 256);
    assert(b[2] as int == (v / 256) % 256);
    assert(b[3] as int == v % 256);
}

/// What a chunk holds, as values: its declared length, its type bytes, its
/// payload and its checksum.
pub struct ChunkView {
    pub length: u32,
    pub chunk_type: Seq<u8>,
    pub data: Seq<u8>,
    pub crc: u32,
}

impl ChunkView {
    /// The length is the payload's size and the checksum is the CRC-32 of
    /// the type bytes followed by the payload.
    pub open spec fn wf(self) -> bool {
        &&& self.chunk_type.len() == 4
        &&& all_letters(self.chunk_type)
        &&& self.length == self.data.len()
        &&& self.crc == crc32_of(self.chunk_type + self.data)
    }

    /// The wire layout: length, type, payload, checksum.
    pub open spec fn encoded(self) -> Seq<u8> {
        be_bytes(self.length) + self.chunk_type + self.data + be_bytes(self.crc)
    }

    /// The type renders as the given text.
    pub open spec fn has_type(self, name: Seq<char>) -> bool {
        crate::text::bytes_as_chars(self.chunk_type) == name
    }
}

/// The outcome of reading one chunk from the start of a buffer; bytes after
/// the chunk are not looked at. The type bytes must be ASCII letters here as
/// well, so that every decoded chunk carries a tag that could be built directly.
#[verifier::opaque]
pub open spec fn chunk_from_bytes(b: Seq<u8>) -> Result<ChunkView, PngError> {
    if b.len() < 8 {
        Err(PngError::TruncatedInput)
    } else if !all_letters(b.subrange(4, 8)) {
        Err(PngError::InvalidChunkType)
    } else if b.len() < 12 + be_value(b.subrange(0, 4)) {
        Err(PngError::TruncatedInput)
    } else {
        let n = be_value(b.subrange(0, 4));
        let t = b.subrange(4, 8);
        let d = b.subrange(8, 8 + n);
        let stored = be_value(b.subrange(8 + n, 12 + n)) as u32;
        let computed = crc32_of(t + d);
        if stored != computed {
            Err(PngError::CrcMismatch { stored, computed })
        } else {
            Ok(ChunkView { length: n as u32, chunk_type: t, data: d, crc: stored })
        }
    }
}

/// Decoding the wire form of a well-formed chunk gives that chunk back,
/// length, type, payload and checksum alike, whatever bytes follow it.
pub proof fn lemma_chunk_round_trip(v: ChunkView, rest: Seq<u8>)
    requires
        v.wf(),
    ensures
        chunk_from_bytes(v.encoded() + rest) == Ok::<ChunkView, PngError>(v),
{
    reveal(chunk_from_bytes);
    let b = v.encoded() + rest;
    let n = v.data.len() as int;
    lemma_be_round_trip(v.length);
    lemma_be_round_trip(v.crc);
    assert(b.subrange(0, 4) =~= be_bytes(v.length));
    assert(b.subrange(4, 8) =~= v.chunk_type);
    assert(b.subrange(8, 8 + n) =~= v.data);
    assert(b.subrange(8 + n, 12 + n) =~= be_bytes(v.crc));
}

/// Flipping any one bit of the trailing checksum in the wire form of a
/// well-formed chunk makes decoding fail with a checksum mismatch.
pub proof fn lemma_crc_bit_flip_detected(v: ChunkView, i: int, k: u8)
    requires
        v.wf(),
        v.data.len() + 8 <= i < v.data.len() + 12,
        k < 8,
    ensures
        chunk_from_bytes(v.encoded().update(i, v.encoded()[i] ^ (1u8 << k))) matches Err(
            PngError::CrcMismatch { .. },
        ),
{
    reveal(chunk_from_bytes);
    let e = v.encoded();
    let x = e[i];
    let y = x ^ (1u8 << k);
    assert(y != x) by (bit_vector)
        requires
            y == x ^ (1u8 << k),
            k < 8,
    ;
    let b = e.update(i, y);
    let n = v.data.len() as int;
    lemma_be_round_trip(v.length);
    lemma_be_round_trip(v.crc);
    assert(b.subrange(0, 4) =~= be_bytes(v.length));
    assert(b.subrange(4, 8) =~= v.chunk_type);
    assert(b.subrange(8, 8 + n) =~= v.data);
    let s = b.subrange(8 + n, 12 + n);
    let c = be_bytes(v.crc);
    assert(c =~= e.subrange(8 + n, 12 + n));
    let j = i - 8 - n;
    assert(s =~= c.update(j, y));
    assert(be_value(s) != be_value(c));
}

/// A typed, checksummed record of a PNG stream. It cannot be changed once built.
#[derive(Debug)]
pub struct Chunk {
    length: u32,
    ct: ChunkType,
    cd: Vec<u8>,
    crc: u32,
}

impl View for Chunk {
    type V = ChunkView;

    closed spec fn view(&self) -> ChunkView {
        ChunkView { length: self.length, chunk_type: self.ct@, data: self.cd@, crc: self.crc }
    }
}

impl Chunk {
    pub open spec fn wf(&self) -> bool {
        self@.wf()
    }

    /// Pairs a tag with a payload and computes the checksum over both.
    pub fn new(chunk_type: ChunkType, chunk_data: Vec<u8>) -> (r: Chunk)
        requires
            chunk_type.wf(),
            chunk_data@.len() <= u32::MAX,
        ensures
            r.wf(),
            r@.chunk_type == chunk_type@,
            r@.data == chunk_data@,
    {
        let tb = chunk_type.bytes();
        let mut bytes: Vec<u8> = Vec::new();
        append_bytes(&mut bytes, tb.as_slice());
        append_bytes(&mut bytes, chunk_data.as_slice());
        let crc = crc32_checksum(bytes.as_slice());
        let length = chunk_data.len() as u32;
        Chunk { length, ct: chunk_type, cd: chunk_data, crc }
    }

    pub fn length(&self) -> (r: u32)
        ensures
            r == self@.length,
    {
        self.length
    }

    pub fn crc(&self) -> (r: u32)
        ensures
            r == self@.crc,
    {
        self.crc
    }

    pub fn chunk_type(&self) -> (r: &ChunkType)
        ensures
            r@ == self@.chunk_type,
            self.wf() ==> r.wf(),
    {
        &self.ct
    }

    /// The payload as text; fails when it is not valid UTF-8.
    pub fn data_as_string(&self) -> (r: Result<String, PngError>)
        ensures
            valid_utf8(self@.data) ==> (r matches Ok(s) && s@ == decode_utf8(self@.data)),
            !valid_utf8(self@.data) ==> r == Err::<String, PngError>(PngError::InvalidUtf8),
    {
        let mut v: Vec<u8> = Vec::new();
        append_bytes(&mut v, self.cd.as_slice());
        match string_from_utf8(v) {
            Some(s) => Ok(s),
            None => Err(PngError::InvalidUtf8),
        }
    }

    pub fn data(&self) -> (r: &[u8])
        ensures
            r@ == self@.data,
    {
        self.cd.as_slice()
    }

    /// The wire form: length and type, payload, then the checksum.
    pub fn as_bytes(&self) -> (r: Vec<u8>)
        ensures
            r@ == self@.encoded(),
    {
        let mut out: Vec<u8> = Vec::new();
        self.write_to(&mut out);
        out
    }

    /// Appends the wire form to `out`.
    pub fn write_to(&self, out: &mut Vec<u8>)
        ensures
            final(out)@ == old(out)@ + self@.encoded(),
    {
        push_be_u32(out, self.length);
        let tb = self.ct.bytes();
        append_bytes(out, tb.as_slice());
        append_bytes(out, self.cd.as_slice());
        push_be_u32(out, self.crc);
        proof {
            assert(final(out)@ =~= old(out)@ + self@.encoded());
        }
    }

    /// Reads one chunk from the start of `bytes`: length, type, payload and
    /// checksum, which must match the one computed over type and payload.
    pub fn try_from(bytes: &[u8]) -> (r: Result<Chunk, PngError>)
        ensures
            match r {
                Ok(c) => c.wf() && chunk_from_bytes(bytes@) == Ok::<ChunkView, PngError>(c@),
                Err(e) => chunk_from_bytes(bytes@) == Err::<ChunkView, PngError>(e),
            },
    {
        proof {
            assert(bytes@.subrange(0, bytes@.len() as int) =~= bytes@);
        }
        Chunk::read_at(bytes, 0)
    }

    /// Reads one chunk that starts at `pos` in `bytes`.
    pub fn read_at(bytes: &[u8], pos: usize) -> (r: Result<Chunk, PngError>)
        requires
            pos <= bytes@.len(),
        ensures
            match r {
                Ok(c) => c.wf() && chunk_from_bytes(bytes@.subrange(pos as int, bytes@.len() as int))
                    == Ok::<ChunkView, PngError>(c@),
                Err(e) => chunk_from_bytes(bytes@.subrange(pos as int, bytes@.len() as int))
                    == Err::<ChunkView, PngError>(e),
            },
    {
        let ghost b = bytes@.subrange(pos as int, bytes@.len() as int);
        proof {
            reveal(chunk_from_bytes);
        }
        let avail = bytes.len() - pos;
        if avail < 8 {
            return Err(PngError::TruncatedInput);
        }
        let tag = [bytes[pos + 4], bytes[pos + 5], bytes[pos + 6], bytes[pos + 7]];
        proof {
            assert(tag@ =~= b.subrange(4, 8));
        }
        let ct = match ChunkType::try_from(tag) {
            Ok(t) => t,
            Err(e) => {
                return Err(e);
            },
        };
        let n = read_be_u32(bytes, pos);
        proof {
            assert(bytes@.subrange(pos as int, pos + 4) =~= b.subrange(0, 4));
        }
        if avail < 12 || n as usize > avail - 12 {
            return Err(PngError::TruncatedInput);
        }
        let len = n as usize;
        let start = pos + 8;
        let mut data: Vec<u8> = Vec::new();
        let mut i: usize = 0;
        while i < len
            invariant
                0 <= i <= len,
                start + len + 4 <= bytes.len(),
                data@ == bytes@.subrange(start as int, start + i),
            decreases len - i,
        {
            data.push(bytes[start + i]);
            i = i + 1;
            proof {
                assert(data@ =~= bytes@.subrange(start as int, start + i));
            }
        }
        let stored = read_be_u32(bytes, start + len);
        proof {
            assert(data@ =~= b.subrange(8, 8 + len));
            assert(bytes@.subrange(start + len, start + len + 4) =~= b.subrange(
                8 + len,
                12 + len,
            ));
        }
        let chunk = Chunk::new(ct, data);
        if chunk.crc != stored {
            return Err(PngError::CrcMismatch { stored, computed: chunk.crc });
        }
        Ok(chunk)
    }
}

/// Appends every byte of `src` to `dst`, in order.
fn append_bytes(dst: &mut Vec<u8>, src: &[u8])
    ensures
        final(dst)@ == old(dst)@ + src@,
{
    let mut i: usize = 0;
    while i < src.len()
        invariant
            0 <= i <= src@.len(),
            dst@ == old(dst)@ + src@.subrange(0, i as int),
        decreases src@.len() - i,
    {
        dst.push(src[i]);
        i = i + 1;
        proof {
            assert(dst@ =~= old(dst)@ + src@.subrange(0, i as int));
        }
    }
    proof {
        assert(src@.subrange(0, src@.len() as int) =~= src@);
    }
}

/// Appends the four big-endian bytes of `v`.
fn push_be_u32(out: &mut Vec<u8>, v: u32)
    ensures
        final(out)@ == old(out)@ + be_bytes(v),
{
    out.push((v / 16777216) as u8);
    out.push(((v / 65536) % 256) as u8);
    out.push(((v / 256) % 256) as u8);
    out.push((v % 256) as u8);
    proof {
        assert(final(out)@ =~= old(out)@ + be_bytes(v));
    }
}

/// The big-endian value of the four bytes at `pos`.
fn read_be_u32(b: &[u8], pos: usize) -> (r: u32)
    requires
        pos + 4 <= b@.len(),
    ensures
        r == be_value(b@.subrange(pos as int, pos + 4)),
{
    let r = (b[pos] as u32) * 16777216 + (b[pos + 1] as u32) * 65536 + (b[pos + 2] as u32) * 256
        + (b[pos + 3] as u32);
    r
}

} // verus!
