use vstd::prelude::*;
use vstd::string::StringSliceAdditionalSpecFns;
use vstd::utf8::{decode_utf8, encode_utf8};

use crate::chunk::{chunk_from_bytes, lemma_chunk_round_trip, Chunk, ChunkView};
use crate::error::PngError;
use crate::text::{bytes_as_chars, lemma_ascii_bytes_utf8};

verus! {

broadcast use vstd::utf8::group_utf8_lib;

/// The eight bytes that open every PNG file.
pub open spec fn signature() -> Seq<u8> {
    seq![137u8, 80u8, 78u8, 71u8, 13u8, 10u8, 26u8, 10u8]
}

/// The wire forms of the chunks, one after another.
pub open spec fn chunks_encoded(cs: Seq<ChunkView>) -> Seq<u8>
    decreases cs.len(),
{
    if cs.len() == 0 {
        Seq::empty()
    } else {
        cs[0].encoded() + chunks_encoded(cs.drop_first())
    }
}

/// A whole file: the signature, then the chunks.
pub open spec fn png_encoded(cs: Seq<ChunkView>) -> Seq<u8> {
    signature() + chunks_encoded(cs)
}

/// The outcome of reading chunks, one after another, until the buffer is used up.
#[verifier::opaque]
pub open spec fn chunks_from_bytes(b: Seq<u8>) -> Result<Seq<ChunkView>, PngError>
    decreases b.len(),
    via chunks_from_bytes_decreases
{
    if b.len() == 0 {
        Ok(Seq::empty())
    } else {
        match chunk_from_bytes(b) {
            Err(e) => Err(e),
            Ok(v) => match chunks_from_bytes(b.subrange(12 + v.data.len() as int, b.len() as int)) {
                Err(e) => Err(e),
                Ok(rest) => Ok(seq![v] + rest),
            },
        }
    }
}

#[via_fn]
proof fn chunks_from_bytes_decreases(b: Seq<u8>) {
    reveal(chunk_from_bytes);
}

/// The outcome of reading a whole file.
pub open spec fn png_from_bytes(b: Seq<u8>) -> Result<Seq<ChunkView>, PngError> {
    if b.len() < 8 || b.subrange(0, 8) != signature() {
        Err(PngError::InvalidSignature)
    } else {
        chunks_from_bytes(b.subrange(8, b.len() as int))
    }
}

/// `i` is the position of the first chunk whose type renders as `name`.
pub open spec fn is_first_of_type(cs: Seq<ChunkView>, name: Seq<char>, i: int) -> bool {
    &&& 0 <= i < cs.len()
    &&& cs[i].has_type(name)
    &&& forall|j: int| 0 <= j < i ==> !(#[trigger] cs[j]).has_type(name)
}

/// The position of the first chunk whose type renders as `name`, if any.
pub open spec fn first_of_type(cs: Seq<ChunkView>, name: Seq<char>) -> Option<int> {
    if exists|i: int| is_first_of_type(cs, name, i) {
        Some(choose|i: int| is_first_of_type(cs, name, i))
    } else {
        None
    }
}

pub open spec fn views(cs: Seq<Chunk>) -> Seq<ChunkView> {
    cs.map_values(|c: Chunk| c@)
}

pub proof fn lemma_first_of_type_at(cs: Seq<ChunkView>, name: Seq<char>, i: int)
    requires
        is_first_of_type(cs, name, i),
    ensures
        first_of_type(cs, name) == Some(i),
{
    let k = choose|k: int| is_first_of_type(cs, name, k);
    assert(is_first_of_type(cs, name, k));
    if k < i {
        assert(!cs[k].has_type(name));
    } else if i < k {
        assert(!cs[i].has_type(name));
    }
}

pub proof fn lemma_first_of_type_none(cs: Seq<ChunkView>, name: Seq<char>)
    requires
        forall|j: int| 0 <= j < cs.len() ==> !(#[trigger] cs[j]).has_type(name),
    ensures
        first_of_type(cs, name) is None,
{
    assert(!exists|i: int| is_first_of_type(cs, name, i));
}

proof fn lemma_chunks_encoded_push(cs: Seq<ChunkView>, v: ChunkView)
    ensures
        chunks_encoded(cs.push(v)) == chunks_encoded(cs) + v.encoded(),
    decreases cs.len(),
{
    if cs.len() == 0 {
        let s = cs.push(v);
        assert(s.drop_first() =~= Seq::<ChunkView>::empty());
        assert(chunks_encoded(s.drop_first()) == Seq::<u8>::empty());
        assert(chunks_encoded(s) == s[0].encoded() + chunks_encoded(s.drop_first()));
        assert(chunks_encoded(s) =~= chunks_encoded(cs) + v.encoded());
    } else {
        let s = cs.push(v);
        assert(s.drop_first() =~= cs.drop_first().push(v));
        assert(s[0] == cs[0]);
        lemma_chunks_encoded_push(cs.drop_first(), v);
        assert(chunks_encoded(s) == s[0].encoded() + chunks_encoded(s.drop_first()));
        assert(chunks_encoded(cs) == cs[0].encoded() + chunks_encoded(cs.drop_first()));
        assert(chunks_encoded(s) =~= chunks_encoded(cs) + v.encoded());
    }
}

/// One step of reading chunks: the first chunk, then the rest of the buffer.
proof fn lemma_chunks_step(b: Seq<u8>, v: ChunkView)
    requires
        chunk_from_bytes(b) == Ok::<ChunkView, PngError>(v),
    ensures
        b.len() >= 12 + v.data.len(),
        chunks_from_bytes(b) == match chunks_from_bytes(
            b.subrange(12 + v.data.len() as int, b.len() as int),
        ) {
            Ok(rest) => Ok(seq![v] + rest),
            Err(e) => Err(e),
        },
{
    reveal(chunk_from_bytes);
    reveal(chunks_from_bytes);
}

/// Reading one well-formed chunk's wire form ahead of a readable rest.
proof fn lemma_chunks_cons(v: ChunkView, tail: Seq<ChunkView>)
    requires
        v.wf(),
        chunks_from_bytes(chunks_encoded(tail)) == Ok::<Seq<ChunkView>, PngError>(tail),
    ensures
        chunks_from_bytes(v.encoded() + chunks_encoded(tail)) == Ok::<Seq<ChunkView>, PngError>(
            seq![v] + tail,
        ),
{
    let rest = chunks_encoded(tail);
    let b = v.encoded() + rest;
    lemma_chunk_round_trip(v, rest);
    assert(b.subrange(12 + v.data.len() as int, b.len() as int) =~= rest);
    lemma_chunks_step(b, v);
}

/// Reading back the chunks' wire forms gives the same chunks in the same order.
pub proof fn lemma_chunks_round_trip(cs: Seq<ChunkView>)
    requires
        forall|i: int| 0 <= i < cs.len() ==> (#[trigger] cs[i]).wf(),
    ensures
        chunks_from_bytes(chunks_encoded(cs)) == Ok::<Seq<ChunkView>, PngError>(cs),
    decreases cs.len(),
{
    if cs.len() == 0 {
        reveal(chunks_from_bytes);
        assert(chunks_encoded(cs) == Seq::<u8>::empty());
        assert(cs =~= Seq::<ChunkView>::empty());
    } else {
        let v = cs[0];
        let tail = cs.drop_first();
        assert(v.wf());
        assert forall|i: int| 0 <= i < tail.len() implies (#[trigger] tail[i]).wf() by {
            assert(tail[i] == cs[i + 1]);
        }
        lemma_chunks_round_trip(tail);
        lemma_chunks_cons(v, tail);
        assert(chunks_encoded(cs) == v.encoded() + chunks_encoded(tail));
        assert(seq![v] + tail =~= cs);
    }
}

/// Decoding the encoding of a container whose chunks are well formed gives
/// back the same ordered chunk sequence.
pub proof fn lemma_png_round_trip(cs: Seq<ChunkView>)
    requires
        forall|i: int| 0 <= i < cs.len() ==> (#[trigger] cs[i]).wf(),
    ensures
        png_from_bytes(png_encoded(cs)) == Ok::<Seq<ChunkView>, PngError>(cs),
{
    let b = png_encoded(cs);
    assert(b.subrange(0, 8) =~= signature());
    assert(b.subrange(8, b.len() as int) =~= chunks_encoded(cs));
    lemma_chunks_round_trip(cs);
}

/// After appending a chunk whose type no earlier chunk has, a lookup by
/// that type finds the appended chunk.
pub proof fn lemma_append_then_find(cs: Seq<ChunkView>, v: ChunkView)
    requires
        forall|j: int| 0 <= j < cs.len() ==> !(#[trigger] cs[j]).has_type(
            bytes_as_chars(v.chunk_type),
        ),
    ensures
        first_of_type(cs.push(v), bytes_as_chars(v.chunk_type)) == Some(cs.len() as int),
        cs.push(v)[cs.len() as int] == v,
{
    let name = bytes_as_chars(v.chunk_type);
    let s = cs.push(v);
    assert(forall|j: int| 0 <= j < cs.len() ==> #[trigger] s[j] == cs[j]);
    assert(is_first_of_type(s, name, cs.len() as int));
    lemma_first_of_type_at(s, name, cs.len() as int);
}

/// Removing the one chunk of a type leaves none of that type to find.
pub proof fn lemma_remove_then_absent(cs: Seq<ChunkView>, name: Seq<char>)
    requires
        first_of_type(cs, name) is Some,
        forall|j: int, k: int|
            0 <= j < cs.len() && 0 <= k < cs.len() && (#[trigger] cs[j]).has_type(name) && (
            #[trigger] cs[k]).has_type(name) ==> j == k,
    ensures
        first_of_type(cs.remove(first_of_type(cs, name)->0), name) is None,
{
    let i = first_of_type(cs, name)->0;
    assert(exists|k: int| is_first_of_type(cs, name, k));
    assert(is_first_of_type(cs, name, i));
    let s = cs.remove(i);
    assert forall|j: int| 0 <= j < s.len() implies !(#[trigger] s[j]).has_type(name) by {
        if j < i {
            assert(s[j] == cs[j]);
        } else {
            assert(s[j] == cs[j + 1]);
        }
    }
    lemma_first_of_type_none(s, name);
}

/// A PNG file held as its ordered chunks; the signature is checked on
/// reading and written back on encoding, never stored.
#[derive(Debug)]
pub struct Png {
    chunks: Vec<Chunk>,
}

impl View for Png {
    type V = Seq<ChunkView>;

    closed spec fn view(&self) -> Seq<ChunkView> {
        views(self.chunks@)
    }
}

impl Png {
    pub const STANDARD_HEADER: [u8; 8] = [137, 80, 78, 71, 13, 10, 26, 10];

    /// Every chunk is well formed.
    pub open spec fn wf(&self) -> bool {
        forall|i: int| 0 <= i < self@.len() ==> (#[trigger] self@[i]).wf()
    }

    /// A container holding the given chunks, in order.
    pub fn from_chunks(chunks: Vec<Chunk>) -> (r: Png)
        requires
            forall|i: int| 0 <= i < chunks@.len() ==> (#[trigger] chunks@[i]).wf(),
        ensures
            r@ == views(chunks@),
            r.wf(),
    {
        Png { chunks }
    }

    /// Adds a chunk at the end.
    pub fn append_chunk(&mut self, chunk: Chunk)
        requires
            old(self).wf(),
            chunk.wf(),
        ensures
            final(self)@ == old(self)@.push(chunk@),
            final(self).wf(),
    {
        self.chunks.push(chunk);
        proof {
            assert(self@ =~= old(self)@.push(chunk@));
        }
    }

    /// Removes the first chunk whose type renders as `chunk_type`; when there
    /// is none, fails and leaves the chunks as they were.
    pub fn remove_chunk(&mut self, chunk_type: &str) -> (r: Result<(), PngError>)
        requires
            old(self).wf(),
        ensures
            final(self).wf(),
            match first_of_type(old(self)@, chunk_type@) {
                Some(i) => r is Ok && final(self)@ == old(self)@.remove(i),
                None => r == Err::<(), PngError>(PngError::ChunkNotFound) && final(self)@
                    == old(self)@,
            },
    {
        match self.position_of(chunk_type) {
            Some(i) => {
                self.chunks.remove(i);
                proof {
                    assert(self@ =~= old(self)@.remove(i as int));
                }
                Ok(())
            },
            None => Err(PngError::ChunkNotFound),
        }
    }

    /// The first chunk whose type renders as `chunk_type`, if any.
    pub fn chunk_by_type(&self, chunk_type: &str) -> (r: Option<&Chunk>)
        requires
            self.wf(),
        ensures
            match first_of_type(self@, chunk_type@) {
                Some(i) => r matches Some(c) && c@ == self@[i],
                None => r is None,
            },
    {
        match self.position_of(chunk_type) {
            Some(i) => {
                let c = &self.chunks[i];
                assert(*c == self.chunks@[i as int]);
                assert(c@ == self@[i as int]);
                Some(c)
            },
            None => None,
        }
    }

    fn position_of(&self, chunk_type: &str) -> (r: Option<usize>)
        requires
            self.wf(),
        ensures
            match first_of_type(self@, chunk_type@) {
                Some(i) => r matches Some(k) && k == i && i < self@.len(),
                None => r is None,
            },
    {
        let mut i: usize = 0;
        while i < self.chunks.len()
            invariant
                self.wf(),
                0 <= i <= self@.len(),
                self@.len() == self.chunks@.len(),
                forall|j: int| 0 <= j < i ==> !(#[trigger] self@[j]).has_type(chunk_type@),
            decreases self@.len() - i,
        {
            assert(self@[i as int] == self.chunks@[i as int]@);
            if has_type(&self.chunks[i], chunk_type) {
                proof {
                    lemma_first_of_type_at(self@, chunk_type@, i as int);
                }
                return Some(i);
            }
            i = i + 1;
        }
        proof {
            lemma_first_of_type_none(self@, chunk_type@);
        }
        None
    }

    /// The chunks, in order.
    pub fn chunks(&self) -> (r: &[Chunk])
        ensures
            views(r@) == self@,
    {
        self.chunks.as_slice()
    }

    /// The file signature.
    pub fn header(&self) -> (r: [u8; 8])
        ensures
            r@ == signature(),
    {
        let h = Png::STANDARD_HEADER;
        proof {
            assert(h@ =~= signature());
        }
        h
    }

    /// The whole file: the signature, then each chunk's wire form in order.
    pub fn as_bytes(&self) -> (r: Vec<u8>)
        ensures
            r@ == png_encoded(self@),
    {
        let mut out: Vec<u8> = Vec::new();
        let h = self.header();
        let mut k: usize = 0;
        while k < 8
            invariant
                0 <= k <= 8,
                h@ == signature(),
                out@ == signature().subrange(0, k as int),
            decreases 8 - k,
        {
            out.push(h[k]);
            k = k + 1;
            proof {
                assert(out@ =~= signature().subrange(0, k as int));
            }
        }
        let mut i: usize = 0;
        while i < self.chunks.len()
            invariant
                0 <= i <= self@.len(),
                self@.len() == self.chunks@.len(),
                out@ == signature() + chunks_encoded(self@.take(i as int)),
            decreases self@.len() - i,
        {
            self.chunks[i].write_to(&mut out);
            proof {
                assert(self@.take(i + 1) =~= self@.take(i as int).push(self@[i as int]));
                lemma_chunks_encoded_push(self@.take(i as int), self@[i as int]);
                assert(out@ =~= signature() + chunks_encoded(self@.take(i + 1)));
            }
            i = i + 1;
        }
        proof {
            assert(self@.take(i as int) =~= self@);
        }
        out
    }

    /// Reads a whole file: the signature, then chunks until the buffer is used
    /// up. The first failing chunk fails the whole read.
    pub fn try_from(bytes: &[u8]) -> (r: Result<Png, PngError>)
        ensures
            (bytes@.len() < 8 || bytes@.subrange(0, 8) != signature()) ==> r == Err::<
                Png,
                PngError,
            >(PngError::InvalidSignature),
            match r {
                Ok(p) => p.wf() && png_from_bytes(bytes@) == Ok::<Seq<ChunkView>, PngError>(p@),
                Err(e) => png_from_bytes(bytes@) == Err::<Seq<ChunkView>, PngError>(e),
            },
    {
        if bytes.len() < 8 {
            return Err(PngError::InvalidSignature);
        }
        let h = Png::STANDARD_HEADER;
        let mut k: usize = 0;
        while k < 8
            invariant
                0 <= k <= 8,
                8 <= bytes@.len(),
                h@ == signature(),
                forall|j: int| 0 <= j < k ==> bytes@[j] == #[trigger] signature()[j],
            decreases 8 - k,
        {
            proof {
                assert(h@ =~= signature());
            }
            if bytes[k] != h[k] {
                proof {
                    assert(bytes@.subrange(0, 8)[k as int] != signature()[k as int]);
                }
                return Err(PngError::InvalidSignature);
            }
            k = k + 1;
        }
        proof {
            assert(bytes@.subrange(0, 8) =~= signature());
        }
        let ghost total = bytes@.subrange(8, bytes@.len() as int);
        let mut chunks: Vec<Chunk> = Vec::new();
        let mut pos: usize = 8;
        while pos < bytes.len()
            invariant
                8 <= pos <= bytes@.len(),
                bytes@.subrange(0, 8) == signature(),
                total == bytes@.subrange(8, bytes@.len() as int),
                forall|i: int| 0 <= i < chunks@.len() ==> (#[trigger] chunks@[i]).wf(),
                chunks_from_bytes(total) == match chunks_from_bytes(
                    bytes@.subrange(pos as int, bytes@.len() as int),
                ) {
                    Ok(rest) => Ok(views(chunks@) + rest),
                    Err(e) => Err(e),
                },
            decreases bytes@.len() - pos,
        {
            let ghost b = bytes@.subrange(pos as int, bytes@.len() as int);
            match Chunk::read_at(bytes, pos) {
                Err(e) => {
                    proof {
                        reveal(chunks_from_bytes);
                        assert(chunks_from_bytes(b) == Err::<Seq<ChunkView>, PngError>(e));
                    }
                    return Err(e);
                },
                Ok(c) => {
                    let n = c.length() as usize;
                    proof {
                        lemma_chunks_step(b, c@);
                        assert(b.len() >= 12 + n);
                        assert(b.subrange(12 + n, b.len() as int) =~= bytes@.subrange(
                            pos + 12 + n,
                            bytes@.len() as int,
                        ));
                        assert(views(chunks@.push(c)) =~= views(chunks@) + seq![c@]);
                        assert(chunks_from_bytes(b) == match chunks_from_bytes(
                            b.subrange(12 + n, b.len() as int),
                        ) {
                            Ok(rest) => Ok(seq![c@] + rest),
                            Err(e) => Err(e),
                        });
                        match chunks_from_bytes(b.subrange(12 + n, b.len() as int)) {
                            Ok(rest) => {
                                assert(views(chunks@) + (seq![c@] + rest) =~= views(
                                    chunks@.push(c),
                                ) + rest);
                            },
                            Err(e) => {},
                        }
                    }
                    chunks.push(c);
                    pos = pos + 12 + n;
                },
            }
        }
        proof {
            reveal(chunks_from_bytes);
            assert(bytes@.subrange(pos as int, bytes@.len() as int) =~= Seq::<u8>::empty());
            assert(views(chunks@) + Seq::<ChunkView>::empty() =~= views(chunks@));
        }
        Ok(Png { chunks })
    }
}

/// Whether the chunk's type renders as `name`.
fn has_type(c: &Chunk, name: &str) -> (r: bool)
    requires
        c.wf(),
    ensures
        r == c@.has_type(name@),
{
    let t = c.chunk_type().bytes();
    let s = name.as_bytes();
    proof {
        lemma_ascii_bytes_utf8(t@);
        vstd::utf8::encode_utf8_decode_utf8(name@);
    }
    if s.len() != 4 {
        return false;
    }
    let r = s[0] == t[0] && s[1] == t[1] && s[2] == t[2] && s[3] == t[3];
    proof {
        if r {
            assert(s@ =~= t@);
        }
        if c@.has_type(name@) {
            assert(encode_utf8(name@) == t@);
        }
    }
    r
}

} // verus!
