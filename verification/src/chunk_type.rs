//! The 4-byte chunk type code and its bit-level classification rules.

use crate::error::PngError;
use crate::text::{ascii_chars_of, lemma_ascii_bytes_utf8, utf8_string};
use vstd::prelude::*;
use vstd::string::StringSliceAdditionalSpecFns;

verus! {

/// A byte in `A`-`Z` or `a`-`z`.
pub open spec fn is_ascii_letter(b: u8) -> bool {
    (65 <= b && b <= 90) || (97 <= b && b <= 122)
}

/// A byte in `A`-`Z`.
pub open spec fn is_ascii_uppercase(b: u8) -> bool {
    65 <= b && b <= 90
}

/// A byte in `a`-`z`.
pub open spec fn is_ascii_lowercase(b: u8) -> bool {
    97 <= b && b <= 122
}

/// Four bytes form a chunk type code exactly when all of them are ASCII
/// letters.
pub open spec fn wf_type_bytes(s: Seq<u8>) -> bool {
    s.len() == 4 && (forall|i: int| 0 <= i < 4 ==> is_ascii_letter(#[trigger] s[i]))
}

/// A type code is valid per the container format when it is well formed and
/// its reserved byte (byte 2) is uppercase.
pub open spec fn spec_type_valid(s: Seq<u8>) -> bool {
    wf_type_bytes(s) && is_ascii_uppercase(s[2])
}

/// A 4-byte chunk type code. Every value of this type holds four ASCII
/// letters; validity of the reserved bit is a separate, queryable predicate.
#[derive(Debug, Clone, Copy, PartialEq, Eq)]
pub struct ChunkType {
    bytes: [u8; 4],
}

#[verifier::type_invariant]
/// Every chunk type code that exists holds four ASCII letters.
pub open spec fn type_code_inv(t: ChunkType) -> bool {
    wf_type_bytes(t@)
}

impl View for ChunkType {
    type V = Seq<u8>;

    closed spec fn view(&self) -> Seq<u8> {
        self.bytes@
    }
}

/// Every chunk type code views as exactly its 4 bytes.
pub broadcast proof fn lemma_type_view_len(t: ChunkType)
    ensures
        (#[trigger] t@).len() == 4,
{
}

/// True exactly when `b` is an ASCII letter.
fn letter(b: u8) -> (r: bool)
    ensures
        r == is_ascii_letter(b),
{
    (65 <= b && b <= 90) || (97 <= b && b <= 122)
}

/// True exactly when `b` is an ASCII uppercase letter.
fn upper(b: u8) -> (r: bool)
    ensures
        r == is_ascii_uppercase(b),
{
    65 <= b && b <= 90
}

impl ChunkType {
    /// Builds a type code from 4 raw bytes; succeeds exactly when all four
    /// are ASCII letters. No further validity check is made here.
    pub fn from_bytes(bytes: [u8; 4]) -> (r: Result<ChunkType, PngError>)
        ensures
            wf_type_bytes(bytes@) <==> r is Ok,
            r is Ok ==> r.unwrap()@ == bytes@,
            !wf_type_bytes(bytes@) ==> r == Err::<ChunkType, PngError>(PngError::InvalidBytes),
    {
        if letter(bytes[0]) && letter(bytes[1]) && letter(bytes[2]) && letter(bytes[3]) {
            Ok(ChunkType { bytes })
        } else {
            Err(PngError::InvalidBytes)
        }
    }

    /// Builds a type code from text; succeeds exactly when the text is 4
    /// bytes long and all of them are ASCII letters.
    pub fn from_text(s: &str) -> (r: Result<ChunkType, PngError>)
        ensures
            wf_type_bytes(s.spec_bytes()) <==> r is Ok,
            r is Ok ==> r.unwrap()@ == s.spec_bytes(),
            !wf_type_bytes(s.spec_bytes()) ==> r == Err::<ChunkType, PngError>(
                PngError::InvalidBytes,
            ),
    {
        let b = s.as_bytes();
        if b.len() != 4 {
            return Err(PngError::InvalidBytes);
        }
        let quad = [b[0], b[1], b[2], b[3]];
        proof {
            assert(quad@ =~= s.spec_bytes());
        }
        Self::from_bytes(quad)
    }

    /// The raw 4 bytes of the code.
    pub fn bytes(&self) -> (r: [u8; 4])
        ensures
            r@ == self@,
    {
        self.bytes
    }

    /// Overall validity: all four bytes are ASCII letters and the reserved
    /// byte (byte 2) is uppercase. Since construction already guarantees
    /// the letters, this holds exactly when the reserved byte is uppercase.
    pub fn is_valid(&self) -> (r: bool)
        ensures
            r == spec_type_valid(self@),
            r == is_ascii_uppercase(self@[2]),
    {
        proof {
            use_type_invariant(self);
        }
        letter(self.bytes[0]) && letter(self.bytes[1]) && letter(self.bytes[2]) && letter(
            self.bytes[3],
        ) && upper(self.bytes[2])
    }

    /// The chunk is critical exactly when byte 0 is uppercase.
    pub fn is_critical(&self) -> (r: bool)
        ensures
            r == is_ascii_uppercase(self@[0]),
    {
        upper(self.bytes[0])
    }

    /// The chunk is public exactly when byte 1 is uppercase.
    pub fn is_public(&self) -> (r: bool)
        ensures
            r == is_ascii_uppercase(self@[1]),
    {
        upper(self.bytes[1])
    }

    /// The reserved bit is valid exactly when byte 2 is uppercase.
    pub fn is_reserved_bit_valid(&self) -> (r: bool)
        ensures
            r == is_ascii_uppercase(self@[2]),
    {
        upper(self.bytes[2])
    }

    /// The 4 bytes as their 4-character ASCII text.
    pub fn to_text(&self) -> (r: String)
        ensures
            r@ == ascii_chars_of(self@),
    {
        proof {
            use_type_invariant(self);
        }
        let mut v: Vec<u8> = Vec::new();
        v.push(self.bytes[0]);
        v.push(self.bytes[1]);
        v.push(self.bytes[2]);
        v.push(self.bytes[3]);
        proof {
            assert(v@ =~= self@);
            assert forall|i: int| 0 <= i < v@.len() implies #[trigger] v@[i] < 128 by {
                assert(is_ascii_letter(self@[i]));
            }
            lemma_ascii_bytes_utf8(v@);
        }
        match utf8_string(v) {
            Some(s) => s,
            None => {
                proof {
                    assert(false);
                }
                String::new()
            },
        }
    }

    /// The chunk is safe to copy exactly when byte 3 is lowercase.
    pub fn is_safe_to_copy(&self) -> (r: bool)
        ensures
            r == is_ascii_lowercase(self@[3]),
    {
        97 <= self.bytes[3] && self.bytes[3] <= 122
    }
}

} // verus!
