//! The in-memory halves of the tool's operations: hide a message in a
//! container, find it again, and remove it. Reading and writing files is
//! the caller's business; these functions work on parsed containers.

use crate::chunk::{crc32_of, Chunk, ChunkModel};
use crate::chunk_type::{spec_type_valid, wf_type_bytes, ChunkType};
use crate::error::PngError;
use crate::png::{spec_first_idx, spec_has_type, Png};
use vstd::prelude::*;
use vstd::string::{StrSliceExecFns, StringSliceAdditionalSpecFns};

verus! {

/// Appends a chunk carrying `message` under the type code written in
/// `chunk_type`. Succeeds exactly when the text is a well-formed 4-letter
/// type code; the container gains exactly that one chunk at the end.
pub fn encode(png: Png, chunk_type: &str, message: &str) -> (r: Result<Png, PngError>)
    requires
        message.spec_bytes().len() <= u32::MAX,
    ensures
        wf_type_bytes(chunk_type.spec_bytes()) <==> r is Ok,
        r is Ok ==> r.unwrap()@ == png@.push(
            ChunkModel {
                length: message.spec_bytes().len() as u32,
                type_bytes: chunk_type.spec_bytes(),
                data: message.spec_bytes(),
                crc: crc32_of(chunk_type.spec_bytes() + message.spec_bytes()),
            },
        ),
        !wf_type_bytes(chunk_type.spec_bytes()) ==> r == Err::<Png, PngError>(
            PngError::InvalidBytes,
        ),
{
    let t = match ChunkType::from_text(chunk_type) {
        Ok(t) => t,
        Err(e) => {
            return Err(e);
        },
    };
    let data = message.as_bytes_vec();
    let chunk = Chunk::new(t, data);
    let mut p = png;
    p.append_chunk(chunk);
    Ok(p)
}

/// Finds the chunk hiding a message: the first one whose type bytes equal
/// the given text. The text must name a valid type code (well formed, with
/// its reserved byte uppercase); absence of a matching chunk is an error
/// here, unlike the plain lookup.
pub fn decode<'a>(png: &'a Png, chunk_type: &str) -> (r: Result<&'a Chunk, PngError>)
    ensures
        spec_type_valid(chunk_type.spec_bytes()) && spec_has_type(
            png@,
            chunk_type.spec_bytes(),
        ) <==> r is Ok,
        r is Ok ==> r.unwrap()@ == png@[spec_first_idx(png@, chunk_type.spec_bytes())],
        !spec_type_valid(chunk_type.spec_bytes()) ==> r == Err::<&'a Chunk, PngError>(
            PngError::InvalidBytes,
        ),
        spec_type_valid(chunk_type.spec_bytes()) && !spec_has_type(
            png@,
            chunk_type.spec_bytes(),
        ) ==> r == Err::<&'a Chunk, PngError>(PngError::ChunkNotFound),
{
    let t = match ChunkType::from_text(chunk_type) {
        Ok(t) => t,
        Err(e) => {
            return Err(e);
        },
    };
    if !t.is_valid() {
        return Err(PngError::InvalidBytes);
    }
    match png.chunk_by_type(chunk_type) {
        Some(c) => Ok(c),
        None => Err(PngError::ChunkNotFound),
    }
}

/// Removes the first chunk of the given type from the container. Succeeds
/// exactly when the text is a well-formed type code and some chunk carries
/// it; the remaining chunks keep their order.
pub fn remove(png: Png, chunk_type: &str) -> (r: Result<Png, PngError>)
    ensures
        wf_type_bytes(chunk_type.spec_bytes()) && spec_has_type(
            png@,
            chunk_type.spec_bytes(),
        ) <==> r is Ok,
        r is Ok ==> r.unwrap()@ == png@.remove(spec_first_idx(png@, chunk_type.spec_bytes())),
        !wf_type_bytes(chunk_type.spec_bytes()) ==> r == Err::<Png, PngError>(
            PngError::InvalidBytes,
        ),
        wf_type_bytes(chunk_type.spec_bytes()) && !spec_has_type(
            png@,
            chunk_type.spec_bytes(),
        ) ==> r == Err::<Png, PngError>(PngError::ChunkNotFound),
{
    let mut p = png;
    match p.remove_first_chunk(chunk_type) {
        Ok(_) => Ok(p),
        Err(e) => Err(e),
    }
}

} // verus!
