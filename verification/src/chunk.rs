//! A chunk: a length-prefixed, typed, checksummed record, and its exact
//! byte layout `length:u32 BE | type:4 | data:length | crc:u32 BE`.

use crate::chunk_type::{wf_type_bytes, ChunkType};
use crate::error::PngError;
use crate::text::{ascii_chars_of, dec_string, spec_dec_bytes, utf8_string};
use crate::wire::{
    push_u32_be, read_u32_be, spec_u32_from_be_bytes, spec_u32_to_be_bytes,
    lemma_u32_from_to_be_bytes, lemma_u32_to_from_be_bytes,
};
use vstd::prelude::*;
use vstd::slice::{slice_subrange, slice_to_vec};
use vstd::string::StringExecFns;
use vstd::utf8::{decode_utf8, valid_utf8};

verus! {

/// The CRC-32 (ISO-HDLC, the polynomial of the container format) of a byte
/// sequence, as the checksum routine of the `crc32fast` crate computes it.
pub uninterp spec fn crc32_of(bytes: Seq<u8>) -> u32;

/// Relies on crc32fast::hash: the CRC-32 checksum of the bytes, a pure
/// function of the bytes alone.
#[verifier::external_body]
fn crc32(bytes: &[u8]) -> (r: u32)
    ensures
        r == crc32_of(bytes@),
{
    crc32fast::hash(bytes)
}

/// The characters that a best-effort (lossy) UTF-8 decoding of the bytes
/// yields, as the `String::from_utf8_lossy` routine computes them: a pure
/// function of the bytes alone.
pub uninterp spec fn lossy_chars(bytes: Seq<u8>) -> Seq<char>;

/// Relies on String::from_utf8_lossy: a best-effort decoding that never
/// fails, a function of the bytes alone; valid UTF-8 decodes exactly.
#[verifier::external_body]
fn utf8_lossy_string(v: &[u8]) -> (r: String)
    ensures
        r@ == lossy_chars(v@),
        valid_utf8(v@) ==> r@ == decode_utf8(v@),
{
    String::from_utf8_lossy(v).into_owned()
}

/// The mathematical content of a chunk: its four stored fields.
#[verifier::ext_equal]
pub ghost struct ChunkModel {
    pub length: u32,
    pub type_bytes: Seq<u8>,
    pub data: Seq<u8>,
    pub crc: u32,
}

/// A chunk model as construction writes it: a well-formed type code, a
/// length field that matches the payload, and a checksum that covers the
/// type and the payload.
pub open spec fn wf_chunk(m: ChunkModel) -> bool {
    &&& wf_type_bytes(m.type_bytes)
    &&& m.length == m.data.len()
    &&& m.crc == crc32_of(m.type_bytes + m.data)
}

/// The exact byte encoding of a chunk model.
pub open spec fn spec_chunk_bytes(m: ChunkModel) -> Seq<u8> {
    spec_u32_to_be_bytes(m.length) + m.type_bytes + m.data + spec_u32_to_be_bytes(m.crc)
}

/// The total frame size declared at the front of `b`: 12 framing bytes plus
/// the length field.
pub open spec fn spec_frame_len(b: Seq<u8>) -> int {
    12 + spec_u32_from_be_bytes(b.subrange(0, 4))
}

/// A complete, checksum-correct chunk starts at the front of `b`.
pub open spec fn spec_chunk_front_ok(b: Seq<u8>) -> bool {
    &&& b.len() >= 8
    &&& wf_type_bytes(b.subrange(4, 8))
    &&& b.len() >= spec_frame_len(b)
    &&& spec_u32_from_be_bytes(b.subrange(spec_frame_len(b) - 4, spec_frame_len(b))) == crc32_of(
        b.subrange(4, 8) + b.subrange(8, spec_frame_len(b) - 4),
    )
}

/// The chunk whose fields are read from the front of `b`.
pub open spec fn spec_chunk_model_of(b: Seq<u8>) -> ChunkModel {
    ChunkModel {
        length: spec_u32_from_be_bytes(b.subrange(0, 4)),
        type_bytes: b.subrange(4, 8),
        data: b.subrange(8, spec_frame_len(b) - 4),
        crc: spec_u32_from_be_bytes(b.subrange(spec_frame_len(b) - 4, spec_frame_len(b))),
    }
}

/// The error that parsing the front of `b` as a chunk reports, in the order
/// the checks are made: enough bytes for length and type, a well-formed
/// type, enough bytes for payload and checksum, a matching checksum.
pub open spec fn spec_chunk_err(b: Seq<u8>) -> PngError {
    if b.len() < 8 {
        PngError::TooShort
    } else if !wf_type_bytes(b.subrange(4, 8)) {
        PngError::InvalidBytes
    } else if b.len() < spec_frame_len(b) {
        PngError::TooShort
    } else {
        PngError::CrcMismatch
    }
}

/// The text that `Chunk::to_text` renders: type, length, checksum and a
/// best-effort reading of the payload.
pub open spec fn spec_chunk_display(m: ChunkModel) -> Seq<char> {
    "Chunk Type: "@ + ascii_chars_of(m.type_bytes) + "\nLength: "@ + ascii_chars_of(
        spec_dec_bytes(m.length as nat),
    ) + "\nCRC: "@ + ascii_chars_of(spec_dec_bytes(m.crc as nat)) + "\nData: "@ + lossy_chars(
        m.data,
    )
}

/// A length-prefixed, typed, checksummed record.
#[derive(Debug)]
pub struct Chunk {
    length: u32,
    chunk_type: ChunkType,
    data: Vec<u8>,
    crc: u32,
}

impl View for Chunk {
    type V = ChunkModel;

    closed spec fn view(&self) -> ChunkModel {
        ChunkModel {
            length: self.length,
            type_bytes: self.chunk_type@,
            data: self.data@,
            crc: self.crc,
        }
    }
}

/// Every chunk's type code views as exactly 4 bytes.
pub broadcast proof fn lemma_chunk_view_type_len(c: Chunk)
    ensures
        (#[trigger] c@).type_bytes.len() == 4,
{
    broadcast use crate::chunk_type::lemma_type_view_len;

}

impl Chunk {
    /// Builds a fresh chunk: the length is the payload's size and the
    /// checksum is computed over the type and the payload. Never fails.
    pub fn new(chunk_type: ChunkType, data: Vec<u8>) -> (r: Chunk)
        requires
            data@.len() <= u32::MAX,
        ensures
            r@ == (ChunkModel {
                length: data@.len() as u32,
                type_bytes: chunk_type@,
                data: data@,
                crc: crc32_of(chunk_type@ + data@),
            }),
            wf_type_bytes(chunk_type@) ==> wf_chunk(r@),
    {
        let crc = Self::create_crc(&chunk_type, data.as_slice());
        let r = Chunk { length: data.len() as u32, chunk_type, data, crc };
        proof {
            assert(r@ =~= ChunkModel {
                length: r@.data.len() as u32,
                type_bytes: r@.type_bytes,
                data: r@.data,
                crc: crc32_of(r@.type_bytes + r@.data),
            });
        }
        r
    }

    /// The checksum of a chunk: the CRC-32 over the 4 type bytes followed
    /// by the payload bytes.
    fn create_crc(chunk_type: &ChunkType, data: &[u8]) -> (r: u32)
        ensures
            r == crc32_of(chunk_type@ + data@),
    {
        let tb = chunk_type.bytes();
        let mut buf: Vec<u8> = Vec::new();
        buf.push(tb[0]);
        buf.push(tb[1]);
        buf.push(tb[2]);
        buf.push(tb[3]);
        proof {
            assert(buf@ =~= chunk_type@ + data@.subrange(0, 0));
        }
        let mut i: usize = 0;
        while i < data.len()
            invariant
                0 <= i <= data@.len(),
                buf@ == chunk_type@ + data@.subrange(0, i as int),
            decreases data@.len() - i,
        {
            buf.push(data[i]);
            proof {
                assert(buf@ =~= chunk_type@ + data@.subrange(0, i + 1));
            }
            i = i + 1;
        }
        proof {
            assert(buf@ =~= chunk_type@ + data@);
        }
        crc32(buf.as_slice())
    }

    /// The payload's byte count, as stored.
    pub fn length(&self) -> (r: u32)
        ensures
            r == self@.length,
    {
        self.length
    }

    /// The stored checksum.
    pub fn crc(&self) -> (r: u32)
        ensures
            r == self@.crc,
    {
        self.crc
    }

    /// The chunk's type code.
    pub fn chunk_type(&self) -> (r: &ChunkType)
        ensures
            r@ == self@.type_bytes,
    {
        &self.chunk_type
    }

    /// The payload, borrowed.
    pub fn data(&self) -> (r: &Vec<u8>)
        ensures
            r@ == self@.data,
    {
        &self.data
    }

    /// The payload as text: succeeds exactly when it is valid UTF-8, and
    /// then returns its decoding.
    pub fn data_as_string(&self) -> (r: Result<String, PngError>)
        ensures
            valid_utf8(self@.data) <==> r is Ok,
            r is Ok ==> r.unwrap()@ == decode_utf8(self@.data),
            !valid_utf8(self@.data) ==> r == Err::<String, PngError>(PngError::NotUtf8),
    {
        match utf8_string(slice_to_vec(self.data.as_slice())) {
            Some(s) => Ok(s),
            None => Err(PngError::NotUtf8),
        }
    }

    /// The exact 12 + length byte encoding of the chunk, recomputed from
    /// the current field values.
    pub fn as_bytes(&self) -> (r: Vec<u8>)
        ensures
            r@ == spec_chunk_bytes(self@),
    {
        let mut out: Vec<u8> = Vec::new();
        push_u32_be(&mut out, self.length);
        let tb = self.chunk_type.bytes();
        out.push(tb[0]);
        out.push(tb[1]);
        out.push(tb[2]);
        out.push(tb[3]);
        proof {
            assert(out@ =~= spec_u32_to_be_bytes(self@.length) + self@.type_bytes
                + self@.data.subrange(0, 0));
        }
        let mut i: usize = 0;
        while i < self.data.len()
            invariant
                0 <= i <= self@.data.len(),
                out@ == spec_u32_to_be_bytes(self@.length) + self@.type_bytes + self@.data.subrange(
                    0,
                    i as int,
                ),
            decreases self@.data.len() - i,
        {
            out.push(self.data[i]);
            proof {
                assert(out@ =~= spec_u32_to_be_bytes(self@.length) + self@.type_bytes
                    + self@.data.subrange(0, i + 1));
            }
            i = i + 1;
        }
        push_u32_be(&mut out, self.crc);
        proof {
            assert(self@.data.subrange(0, self@.data.len() as int) =~= self@.data);
            assert(out@ =~= spec_chunk_bytes(self@));
        }
        out
    }

    /// A human-readable account of the chunk: its type as text, its length
    /// and checksum in decimal, and a best-effort text rendering of the
    /// payload, which never fails.
    pub fn to_text(&self) -> (r: String)
        ensures
            r@ == spec_chunk_display(self@),
    {
        let mut s = <String as StringExecFns>::from_str("Chunk Type: ");
        let tt = self.chunk_type.to_text();
        s.append(tt.as_str());
        s.append("\nLength: ");
        let ls = dec_string(self.length);
        s.append(ls.as_str());
        s.append("\nCRC: ");
        let cs = dec_string(self.crc);
        s.append(cs.as_str());
        s.append("\nData: ");
        let ds = utf8_lossy_string(self.data.as_slice());
        s.append(ds.as_str());
        proof {
            assert(s@ =~= spec_chunk_display(self@));
        }
        s
    }

    /// Decodes a chunk from the front of `value`; bytes past the declared
    /// frame are ignored. Succeeds exactly when a complete, checksum-correct
    /// chunk starts there, and then returns the fields as read.
    pub fn parse(value: &[u8]) -> (r: Result<Chunk, PngError>)
        ensures
            spec_chunk_front_ok(value@) <==> r is Ok,
            r is Ok ==> r.unwrap()@ == spec_chunk_model_of(value@),
            !spec_chunk_front_ok(value@) ==> r == Err::<Chunk, PngError>(spec_chunk_err(value@)),
    {
        if value.len() < 8 {
            return Err(PngError::TooShort);
        }
        let length = read_u32_be(value, 0);
        let quad = [value[4], value[5], value[6], value[7]];
        proof {
            assert(quad@ =~= value@.subrange(4, 8));
        }
        let chunk_type = match ChunkType::from_bytes(quad) {
            Ok(t) => t,
            Err(e) => {
                return Err(e);
            },
        };
        let total: u64 = 12u64 + length as u64;
        if (value.len() as u64) < total {
            return Err(PngError::TooShort);
        }
        let n: usize = 8 + length as usize;
        let data = slice_to_vec(slice_subrange(value, 8, n));
        let crc_read = read_u32_be(value, n);
        let computed = Self::create_crc(&chunk_type, data.as_slice());
        proof {
            assert(value@.subrange(n as int, n + 4) =~= value@.subrange(
                spec_frame_len(value@) - 4,
                spec_frame_len(value@),
            ));
            assert(chunk_type@ + data@ =~= value@.subrange(4, 8) + value@.subrange(
                8,
                spec_frame_len(value@) - 4,
            ));
        }
        if crc_read != computed {
            return Err(PngError::CrcMismatch);
        }
        let r = Chunk { length, chunk_type, data, crc: crc_read };
        proof {
            assert(r@ =~= spec_chunk_model_of(value@));
        }
        Ok(r)
    }
}

/// Encoding a well-formed chunk model and reading a chunk back off the
/// front of the result inverts the encoding: the same record comes back,
/// whatever bytes follow it.
pub proof fn lemma_chunk_bytes_front(m: ChunkModel, tail: Seq<u8>)
    requires
        wf_chunk(m),
    ensures
        ({
            let b = spec_chunk_bytes(m) + tail;
            &&& spec_chunk_front_ok(b)
            &&& spec_chunk_model_of(b) == m
            &&& spec_frame_len(b) == 12 + m.data.len()
            &&& b.skip(spec_frame_len(b)) == tail
        }),
{
    let b = spec_chunk_bytes(m) + tail;
    lemma_u32_to_from_be_bytes(m.length);
    lemma_u32_to_from_be_bytes(m.crc);
    assert(b.subrange(0, 4) =~= spec_u32_to_be_bytes(m.length));
    assert(spec_frame_len(b) == 12 + m.data.len());
    assert(b.subrange(4, 8) =~= m.type_bytes);
    assert(b.subrange(8, spec_frame_len(b) - 4) =~= m.data);
    assert(b.subrange(spec_frame_len(b) - 4, spec_frame_len(b)) =~= spec_u32_to_be_bytes(m.crc));
    assert(spec_chunk_model_of(b) =~= m);
    assert(b.skip(spec_frame_len(b)) =~= tail);
}

/// Round trip for a single chunk: a well-formed chunk model parses back
/// from exactly its own byte encoding.
pub proof fn lemma_chunk_round_trip(m: ChunkModel)
    requires
        wf_chunk(m),
    ensures
        spec_chunk_front_ok(spec_chunk_bytes(m)),
        spec_chunk_model_of(spec_chunk_bytes(m)) == m,
        spec_chunk_bytes(m).len() == 12 + m.data.len(),
{
    lemma_chunk_bytes_front(m, Seq::<u8>::empty());
    assert(spec_chunk_bytes(m) + Seq::<u8>::empty() =~= spec_chunk_bytes(m));
}

/// A checksum-correct front chunk decomposes the buffer: the fields read
/// off it form a well-formed model whose encoding is exactly the frame.
pub proof fn lemma_chunk_front_decompose(b: Seq<u8>)
    requires
        spec_chunk_front_ok(b),
    ensures
        wf_chunk(spec_chunk_model_of(b)),
        spec_chunk_bytes(spec_chunk_model_of(b)) == b.subrange(0, spec_frame_len(b)),
        spec_frame_len(b) == 12 + spec_chunk_model_of(b).data.len(),
{
    let m = spec_chunk_model_of(b);
    lemma_u32_from_to_be_bytes(b.subrange(0, 4));
    lemma_u32_from_to_be_bytes(b.subrange(spec_frame_len(b) - 4, spec_frame_len(b)));
    assert(spec_chunk_bytes(m) =~= b.subrange(0, spec_frame_len(b)));
}

} // verus!
