//! The container: a fixed 8-byte signature followed by an ordered sequence
//! of chunks, with whole-buffer parsing, re-serialization, append, and
//! type-keyed lookup and removal.

use crate::chunk::{
    lemma_chunk_bytes_front, lemma_chunk_front_decompose, lemma_chunk_view_type_len,
    spec_chunk_bytes, spec_chunk_err, spec_chunk_front_ok, spec_chunk_model_of, spec_frame_len,
    wf_chunk, Chunk, ChunkModel,
};
use crate::chunk_type::wf_type_bytes;
use crate::error::PngError;
use vstd::prelude::*;
use vstd::slice::slice_subrange;
use vstd::string::StringSliceAdditionalSpecFns;

verus! {

/// The fixed 8-byte signature that opens every container.
pub open spec fn spec_signature() -> Seq<u8> {
    seq![137u8, 80u8, 78u8, 71u8, 13u8, 10u8, 26u8, 10u8]
}

/// The concatenated encodings of a sequence of chunk models, in order.
pub open spec fn spec_chunks_bytes(ms: Seq<ChunkModel>) -> Seq<u8>
    decreases ms.len(),
{
    if ms.len() == 0 {
        Seq::empty()
    } else {
        spec_chunk_bytes(ms[0]) + spec_chunks_bytes(ms.drop_first())
    }
}

/// The full byte image of a container: signature, then every chunk.
pub open spec fn spec_png_bytes(ms: Seq<ChunkModel>) -> Seq<u8> {
    spec_signature() + spec_chunks_bytes(ms)
}

/// The bytes after the signature split exactly into checksum-correct
/// chunk frames, with nothing left over.
pub open spec fn spec_wf_stream(b: Seq<u8>) -> bool
    decreases b.len(),
{
    if b.len() == 0 {
        true
    } else if !spec_chunk_front_ok(b) {
        false
    } else {
        spec_wf_stream(b.skip(spec_frame_len(b)))
    }
}

/// The chunk models read off `b`, frame by frame, until the bytes run out
/// or a frame fails to parse.
pub open spec fn spec_parse_stream(b: Seq<u8>) -> Seq<ChunkModel>
    decreases b.len(),
{
    if b.len() == 0 {
        Seq::empty()
    } else if !spec_chunk_front_ok(b) {
        Seq::empty()
    } else {
        seq![spec_chunk_model_of(b)] + spec_parse_stream(b.skip(spec_frame_len(b)))
    }
}

/// The error that the first unparseable frame of `b` reports. Meaningful
/// only when the stream is not well formed; an empty stream never fails.
pub open spec fn spec_stream_err(b: Seq<u8>) -> PngError
    decreases b.len(),
{
    if b.len() == 0 {
        PngError::TooShort
    } else if !spec_chunk_front_ok(b) {
        spec_chunk_err(b)
    } else {
        spec_stream_err(b.skip(spec_frame_len(b)))
    }
}

/// Some chunk in `ms` carries exactly the 4 type bytes `key`.
pub open spec fn spec_has_type(ms: Seq<ChunkModel>, key: Seq<u8>) -> bool {
    exists|i: int| 0 <= i < ms.len() && ms[i].type_bytes == key
}

/// The position of the first chunk in `ms` whose type bytes are `key`;
/// `ms.len()` when none matches.
pub open spec fn spec_first_idx(ms: Seq<ChunkModel>, key: Seq<u8>) -> int
    decreases ms.len(),
{
    if ms.len() == 0 {
        0
    } else if ms[0].type_bytes == key {
        0
    } else {
        1 + spec_first_idx(ms.drop_first(), key)
    }
}

/// `spec_first_idx` is the least matching position, and it is in range
/// exactly when some chunk matches.
pub proof fn lemma_first_idx(ms: Seq<ChunkModel>, key: Seq<u8>)
    ensures
        0 <= spec_first_idx(ms, key) <= ms.len(),
        spec_has_type(ms, key) <==> spec_first_idx(ms, key) < ms.len(),
        spec_first_idx(ms, key) < ms.len() ==> ms[spec_first_idx(ms, key)].type_bytes == key,
        forall|j: int| 0 <= j < spec_first_idx(ms, key) ==> ms[j].type_bytes != key,
    decreases ms.len(),
{
    if ms.len() == 0 {
    } else if ms[0].type_bytes == key {
    } else {
        let rest = ms.drop_first();
        lemma_first_idx(rest, key);
        assert(forall|i: int| 0 <= i < rest.len() ==> rest[i] == ms[i + 1]);
        assert forall|j: int| 0 <= j < spec_first_idx(ms, key) implies ms[j].type_bytes
            != key by {
            if j >= 1 {
                assert(ms[j] == rest[j - 1]);
            }
        }
        if spec_has_type(ms, key) {
            let i = choose|i: int| 0 <= i < ms.len() && ms[i].type_bytes == key;
            assert(i >= 1);
            assert(rest[i - 1].type_bytes == key);
            assert(spec_has_type(rest, key));
        }
        if spec_has_type(rest, key) {
            let i = choose|i: int| 0 <= i < rest.len() && rest[i].type_bytes == key;
            assert(ms[i + 1].type_bytes == key);
            assert(spec_has_type(ms, key));
        }
    }
}

/// Serializing any sequence of well-formed chunk records and parsing the
/// result back yields the same records, in the same order.
pub proof fn lemma_png_round_trip(ms: Seq<ChunkModel>)
    requires
        forall|i: int| 0 <= i < ms.len() ==> wf_chunk(#[trigger] ms[i]),
    ensures
        spec_wf_stream(spec_chunks_bytes(ms)),
        spec_parse_stream(spec_chunks_bytes(ms)) == ms,
    decreases ms.len(),
{
    if ms.len() == 0 {
        assert(spec_parse_stream(spec_chunks_bytes(ms)) =~= ms);
    } else {
        let rest = ms.drop_first();
        let b = spec_chunks_bytes(ms);
        let tail = spec_chunks_bytes(rest);
        assert(forall|i: int| 0 <= i < rest.len() ==> rest[i] == ms[i + 1]);
        lemma_chunk_bytes_front(ms[0], tail);
        lemma_png_round_trip(rest);
        assert(b == spec_chunk_bytes(ms[0]) + tail);
        assert(b.len() > 0);
        assert(b.skip(spec_frame_len(b)) == tail);
        assert(spec_parse_stream(b) =~= ms);
    }
}

/// Parsing a well-formed stream and re-serializing the records yields the
/// original bytes, and every record read is well formed.
#[verifier::rlimit(50)]
#[verifier::spinoff_prover]
pub proof fn lemma_stream_round_trip(b: Seq<u8>)
    requires
        spec_wf_stream(b),
    ensures
        spec_chunks_bytes(spec_parse_stream(b)) == b,
        forall|i: int|
            0 <= i < spec_parse_stream(b).len() ==> wf_chunk(#[trigger] spec_parse_stream(b)[i]),
    decreases b.len(),
{
    if b.len() == 0 {
        assert(spec_chunks_bytes(spec_parse_stream(b)) =~= b);
    } else {
        let f = spec_frame_len(b);
        let m = spec_chunk_model_of(b);
        let rest = b.skip(f);
        let ms = spec_parse_stream(b);
        let msr = spec_parse_stream(rest);
        lemma_chunk_front_decompose(b);
        lemma_stream_round_trip(rest);
        assert(ms == seq![m] + msr);
        assert(ms.drop_first() =~= msr);
        assert(ms.len() > 0 && ms[0] == m);
        assert(spec_chunks_bytes(ms) == spec_chunk_bytes(m) + spec_chunks_bytes(ms.drop_first()));
        assert(spec_chunk_bytes(m) == b.subrange(0, f));
        assert(b.subrange(0, f) + rest =~= b);
        assert forall|i: int| 0 <= i < ms.len() implies wf_chunk(#[trigger] ms[i]) by {
            if i >= 1 {
                assert(ms[i] == msr[i - 1]);
            }
        }
    }
}

/// An ordered sequence of chunks behind the fixed signature.
#[derive(Debug)]
pub struct Png {
    chunks: Vec<Chunk>,
}

impl View for Png {
    type V = Seq<ChunkModel>;

    closed spec fn view(&self) -> Seq<ChunkModel> {
        self.chunks@.map_values(|c: Chunk| c@)
    }
}

impl Png {
    /// An empty container: no chunks yet.
    pub fn new() -> (r: Png)
        ensures
            r@ == Seq::<ChunkModel>::empty(),
    {
        let r = Png { chunks: Vec::new() };
        proof {
            assert(r@ =~= Seq::<ChunkModel>::empty());
        }
        r
    }

    /// The fixed 8-byte signature.
    pub fn header() -> (r: [u8; 8])
        ensures
            r@ == spec_signature(),
    {
        let r = [137u8, 80u8, 78u8, 71u8, 13u8, 10u8, 26u8, 10u8];
        proof {
            assert(r@ =~= spec_signature());
        }
        r
    }

    /// The chunks, in order, borrowed for enumeration.
    pub fn chunks(&self) -> (r: &Vec<Chunk>)
        ensures
            r@.map_values(|c: Chunk| c@) == self@,
    {
        &self.chunks
    }

    /// Appends a chunk at the end. No validity or uniqueness check is made:
    /// the container enforces byte framing only.
    pub fn append_chunk(&mut self, chunk: Chunk)
        ensures
            final(self)@ == old(self)@.push(chunk@),
    {
        self.chunks.push(chunk);
        proof {
            assert(self@ =~= old(self)@.push(chunk@));
        }
    }

    /// Serializes the container: the signature followed by each chunk's
    /// exact encoding, in order.
    pub fn as_bytes(&self) -> (r: Vec<u8>)
        ensures
            r@ == spec_png_bytes(self@),
    {
        let mut out: Vec<u8> = Vec::new();
        let h = Self::header();
        out.push(h[0]);
        out.push(h[1]);
        out.push(h[2]);
        out.push(h[3]);
        out.push(h[4]);
        out.push(h[5]);
        out.push(h[6]);
        out.push(h[7]);
        proof {
            assert(out@ =~= spec_signature() + spec_chunks_bytes(self@.take(0)));
        }
        let mut i: usize = 0;
        while i < self.chunks.len()
            invariant
                0 <= i <= self@.len(),
                self@.len() == self.chunks@.len(),
                self@ == self.chunks@.map_values(|c: Chunk| c@),
                out@ == spec_signature() + spec_chunks_bytes(self@.take(i as int)),
            decreases self@.len() - i,
        {
            let cb = self.chunks[i].as_bytes();
            let mut j: usize = 0;
            while j < cb.len()
                invariant
                    0 <= j <= cb@.len(),
                    out@ == spec_signature() + spec_chunks_bytes(self@.take(i as int))
                        + cb@.subrange(0, j as int),
                decreases cb@.len() - j,
            {
                out.push(cb[j]);
                proof {
                    assert(out@ =~= spec_signature() + spec_chunks_bytes(self@.take(i as int))
                        + cb@.subrange(0, j + 1));
                }
                j = j + 1;
            }
            proof {
                assert(cb@.subrange(0, cb@.len() as int) =~= cb@);
                lemma_chunks_bytes_push(self@.take(i as int), self@[i as int]);
                assert(self@.take(i as int).push(self@[i as int]) =~= self@.take(i + 1));
                assert(out@ =~= spec_signature() + spec_chunks_bytes(self@.take(i + 1)));
            }
            i = i + 1;
        }
        proof {
            assert(self@.take(self@.len() as int) =~= self@);
        }
        out
    }

    /// Parses a complete container buffer: the 8-byte signature, then
    /// chunks until the bytes are exhausted. Succeeds exactly when the
    /// signature matches and the rest splits into checksum-correct frames;
    /// any frame failure is reported as the frame reported it.
    #[verifier::rlimit(50)]
    #[verifier::spinoff_prover]
    pub fn from_bytes(bytes: &[u8]) -> (r: Result<Png, PngError>)
        ensures
            bytes@.len() < 8 ==> r == Err::<Png, PngError>(PngError::TooShort),
            bytes@.len() >= 8 && bytes@.subrange(0, 8) != spec_signature() ==> r == Err::<
                Png,
                PngError,
            >(PngError::BadSignature),
            bytes@.len() >= 8 && bytes@.subrange(0, 8) == spec_signature() ==> {
                &&& spec_wf_stream(bytes@.skip(8)) <==> r is Ok
                &&& r is Ok ==> r.unwrap()@ == spec_parse_stream(bytes@.skip(8))
                    && spec_png_bytes(r.unwrap()@) == bytes@
                &&& !spec_wf_stream(bytes@.skip(8)) ==> r == Err::<Png, PngError>(
                    spec_stream_err(bytes@.skip(8)),
                )
            },
    {
        if bytes.len() < 8 {
            return Err(PngError::TooShort);
        }
        if bytes[0] != 137 || bytes[1] != 80 || bytes[2] != 78 || bytes[3] != 71 || bytes[4] != 13
            || bytes[5] != 10 || bytes[6] != 26 || bytes[7] != 10 {
            proof {
                assert(bytes@.subrange(0, 8) != spec_signature());
            }
            return Err(PngError::BadSignature);
        }
        proof {
            assert(bytes@.subrange(0, 8) =~= spec_signature());
        }
        let ghost rest0: Seq<u8> = bytes@.skip(8);
        let mut chunks: Vec<Chunk> = Vec::new();
        let mut idx: usize = 8;
        proof {
            assert(chunks@.map_values(|c: Chunk| c@) =~= Seq::<ChunkModel>::empty());
        }
        while idx < bytes.len()
            invariant
                8 <= idx <= bytes@.len(),
                bytes@.subrange(0, 8) == spec_signature(),
                rest0 == bytes@.skip(8),
                spec_wf_stream(rest0) == spec_wf_stream(bytes@.skip(idx as int)),
                !spec_wf_stream(bytes@.skip(idx as int)) ==> spec_stream_err(rest0)
                    == spec_stream_err(bytes@.skip(idx as int)),
                spec_parse_stream(rest0) == chunks@.map_values(|c: Chunk| c@) + spec_parse_stream(
                    bytes@.skip(idx as int),
                ),
            decreases bytes@.len() - idx,
        {
            let ghost cur = bytes@.skip(idx as int);
            let rest = slice_subrange(bytes, idx, bytes.len());
            proof {
                assert(rest@ =~= cur);
                assert(cur.len() > 0);
            }
            match Chunk::parse(rest) {
                Err(e) => {
                    proof {
                        assert(!spec_wf_stream(cur));
                        assert(spec_stream_err(cur) == spec_chunk_err(cur));
                    }
                    return Err(e);
                },
                Ok(chunk) => {
                    proof {
                        assert(spec_chunk_front_ok(cur));
                        assert(spec_frame_len(cur) <= cur.len());
                        assert(chunk@.length == spec_chunk_model_of(cur).length);
                    }
                    let flen: usize = 12 + chunk.length() as usize;
                    proof {
                        assert(idx + flen == idx + spec_frame_len(cur));
                        assert(idx + spec_frame_len(cur) <= bytes@.len());
                        assert(cur.skip(spec_frame_len(cur)) =~= bytes@.skip(
                            idx + spec_frame_len(cur),
                        ));
                    }
                    let ghost old_chunks = chunks@;
                    chunks.push(chunk);
                    proof {
                        assert(chunks@.map_values(|c: Chunk| c@) =~= old_chunks.map_values(
                            |c: Chunk| c@,
                        ).push(chunk@));
                        assert(spec_parse_stream(cur) == seq![spec_chunk_model_of(cur)]
                            + spec_parse_stream(cur.skip(spec_frame_len(cur))));
                        assert(old_chunks.map_values(|c: Chunk| c@) + spec_parse_stream(cur)
                            =~= chunks@.map_values(|c: Chunk| c@) + spec_parse_stream(
                            cur.skip(spec_frame_len(cur)),
                        ));
                    }
                    idx = idx + flen;
                },
            }
        }
        let r = Png { chunks };
        proof {
            assert(bytes@.skip(bytes@.len() as int) =~= Seq::<u8>::empty());
            assert(spec_wf_stream(rest0));
            assert(spec_parse_stream(bytes@.skip(idx as int)) =~= Seq::<ChunkModel>::empty());
            assert(r@ =~= spec_parse_stream(rest0));
            lemma_stream_round_trip(rest0);
            assert(spec_png_bytes(r@) =~= bytes@);
        }
        Ok(r)
    }

    /// The first chunk whose type bytes equal the raw bytes of the given
    /// text, or absence when no chunk matches. Pure lookup, never an error.
    pub fn chunk_by_type(&self, chunk_type: &str) -> (r: Option<&Chunk>)
        ensures
            spec_has_type(self@, chunk_type.spec_bytes()) <==> r is Some,
            r is Some ==> {
                let i = spec_first_idx(self@, chunk_type.spec_bytes());
                &&& 0 <= i < self@.len()
                &&& r.unwrap()@ == self@[i]
            },
    {
        broadcast use lemma_chunk_view_type_len;

        let ghost key = chunk_type.spec_bytes();
        proof {
            lemma_first_idx(self@, key);
        }
        let kb = chunk_type.as_bytes();
        if kb.len() != 4 {
            proof {
                assert(forall|i: int| 0 <= i < self@.len() ==> self@[i].type_bytes != key);
            }
            return None;
        }
        let mut i: usize = 0;
        while i < self.chunks.len()
            invariant
                0 <= i <= self@.len(),
                self@.len() == self.chunks@.len(),
                self@ == self.chunks@.map_values(|c: Chunk| c@),
                key == chunk_type.spec_bytes(),
                kb@ == key,
                kb@.len() == 4,
                forall|j: int| 0 <= j < i ==> self@[j].type_bytes != key,
            decreases self@.len() - i,
        {
            let tb = self.chunks[i].chunk_type().bytes();
            proof {
                assert(self.chunks@[i as int]@ == self@[i as int]);
                assert(tb@ == self@[i as int].type_bytes);
            }
            if tb[0] == kb[0] && tb[1] == kb[1] && tb[2] == kb[2] && tb[3] == kb[3] {
                proof {
                    assert(tb@ =~= kb@);
                    assert(self@[i as int].type_bytes == key);
                    assert(spec_has_type(self@, key));
                    lemma_first_idx(self@, key);
                    let fi = spec_first_idx(self@, key);
                    assert(self@[fi].type_bytes == key);
                    assert(fi == i);
                }
                return Some(&self.chunks[i]);
            }
            proof {
                if self@[i as int].type_bytes == key {
                    assert(tb@ =~= key);
                }
            }
            i = i + 1;
        }
        proof {
            lemma_first_idx(self@, key);
        }
        None
    }

    /// Removes the first chunk whose type bytes equal the given text,
    /// parsed as a type code. Exactly one chunk leaves; the others keep
    /// their order. Fails, leaving the container unchanged, when the text
    /// is not a type code or no chunk matches.
    pub fn remove_first_chunk(&mut self, chunk_type: &str) -> (r: Result<(), PngError>)
        ensures
            !wf_type_bytes(chunk_type.spec_bytes()) ==> r == Err::<(), PngError>(
                PngError::InvalidBytes,
            ) && final(self)@ == old(self)@,
            wf_type_bytes(chunk_type.spec_bytes()) && !spec_has_type(
                old(self)@,
                chunk_type.spec_bytes(),
            ) ==> r == Err::<(), PngError>(PngError::ChunkNotFound) && final(self)@ == old(self)@,
            wf_type_bytes(chunk_type.spec_bytes()) && spec_has_type(
                old(self)@,
                chunk_type.spec_bytes(),
            ) ==> r is Ok && final(self)@ == old(self)@.remove(
                spec_first_idx(old(self)@, chunk_type.spec_bytes()),
            ),
    {
        broadcast use lemma_chunk_view_type_len;

        let ghost key = chunk_type.spec_bytes();
        let target = match crate::chunk_type::ChunkType::from_text(chunk_type) {
            Ok(t) => t,
            Err(e) => {
                return Err(e);
            },
        };
        let kb = target.bytes();
        proof {
            assert(kb@ == key);
        }
        let mut i: usize = 0;
        while i < self.chunks.len()
            invariant
                0 <= i <= self@.len(),
                self@.len() == self.chunks@.len(),
                self@ == self.chunks@.map_values(|c: Chunk| c@),
                self@ == old(self)@,
                key == chunk_type.spec_bytes(),
                wf_type_bytes(key),
                kb@ == key,
                forall|j: int| 0 <= j < i ==> self@[j].type_bytes != key,
            decreases self@.len() - i,
        {
            let tb = self.chunks[i].chunk_type().bytes();
            proof {
                assert(self.chunks@[i as int]@ == self@[i as int]);
                assert(tb@ == self@[i as int].type_bytes);
            }
            if tb[0] == kb[0] && tb[1] == kb[1] && tb[2] == kb[2] && tb[3] == kb[3] {
                proof {
                    assert(tb@ =~= kb@);
                    assert(self@[i as int].type_bytes == key);
                    assert(spec_has_type(old(self)@, key));
                    lemma_first_idx(old(self)@, key);
                    let fi = spec_first_idx(old(self)@, key);
                    assert(old(self)@[fi].type_bytes == key);
                    assert(fi == i);
                }
                self.chunks.remove(i);
                proof {
                    assert(self@ =~= old(self)@.remove(i as int));
                }
                return Ok(());
            }
            proof {
                if self@[i as int].type_bytes == key {
                    assert(tb@ =~= key);
                }
            }
            i = i + 1;
        }
        proof {
            lemma_first_idx(old(self)@, key);
        }
        Err(PngError::ChunkNotFound)
    }
}

/// Appending a record extends the serialized chunk bytes by exactly that
/// record's encoding.
pub proof fn lemma_chunks_bytes_push(ms: Seq<ChunkModel>, m: ChunkModel)
    ensures
        spec_chunks_bytes(ms.push(m)) == spec_chunks_bytes(ms) + spec_chunk_bytes(m),
    decreases ms.len(),
{
    if ms.len() == 0 {
        assert(ms.push(m)[0] == m);
        assert(ms.push(m).drop_first() =~= Seq::<ChunkModel>::empty());
        assert(spec_chunks_bytes(Seq::<ChunkModel>::empty()) == Seq::<u8>::empty());
        assert(spec_chunks_bytes(ms.push(m)) == spec_chunk_bytes(m) + Seq::<u8>::empty());
        assert(spec_chunks_bytes(ms.push(m)) =~= spec_chunks_bytes(ms) + spec_chunk_bytes(m));
    } else {
        assert(ms.push(m).drop_first() =~= ms.drop_first().push(m));
        lemma_chunks_bytes_push(ms.drop_first(), m);
        assert(spec_chunks_bytes(ms.push(m)) == spec_chunk_bytes(ms[0]) + spec_chunks_bytes(
            ms.drop_first().push(m),
        ));
        assert(spec_chunk_bytes(ms[0]) + (spec_chunks_bytes(ms.drop_first()) + spec_chunk_bytes(m))
            =~= (spec_chunk_bytes(ms[0]) + spec_chunks_bytes(ms.drop_first())) + spec_chunk_bytes(
            m,
        ));
    }
}

} // verus!
