//! ASCII helpers for rendering: byte sequences as characters and integers
//! as decimal digits, without formatting machinery.

use vstd::prelude::*;
use vstd::utf8::{
    decode_utf8, encode_utf8, encode_utf8_decode_utf8, encode_utf8_valid_utf8, is_ascii_chars,
    is_ascii_chars_encode_utf8, valid_utf8,
};

verus! {

/// Relies on String::from_utf8: it succeeds exactly when the bytes are
/// valid UTF-8, and then the string's characters are their decoding.
#[verifier::external_body]
pub(crate) fn utf8_string(v: Vec<u8>) -> (r: Option<String>)
    ensures
        r is Some <==> valid_utf8(v@),
        r is Some ==> r.unwrap()@ == decode_utf8(v@),
{
    String::from_utf8(v).ok()
}

/// Every byte is in the 7-bit ASCII range.
pub open spec fn is_ascii_bytes(s: Seq<u8>) -> bool {
    forall|i: int| 0 <= i < s.len() ==> #[trigger] s[i] < 128
}

/// The bytes read as characters, one for one.
pub open spec fn ascii_chars_of(s: Seq<u8>) -> Seq<char> {
    s.map_values(|b: u8| b as char)
}

/// ASCII bytes are valid UTF-8 and decode to themselves, character by
/// character.
pub proof fn lemma_ascii_bytes_utf8(s: Seq<u8>)
    requires
        is_ascii_bytes(s),
    ensures
        valid_utf8(s),
        decode_utf8(s) == ascii_chars_of(s),
{
    let chars = ascii_chars_of(s);
    assert forall|i: int| 0 <= i < chars.len() implies '\0' <= #[trigger] chars[i]
        <= '\u{7f}' by {
        assert(s[i] < 128);
        assert(chars[i] == s[i] as char);
    }
    assert(is_ascii_chars(chars));
    is_ascii_chars_encode_utf8(chars);
    assert(encode_utf8(chars) =~= s);
    encode_utf8_valid_utf8(chars);
    encode_utf8_decode_utf8(chars);
}

/// The decimal digits of `x` as ASCII bytes, most significant first, with
/// no leading zeroes (a single `0` for zero).
pub open spec fn spec_dec_bytes(x: nat) -> Seq<u8>
    decreases x,
{
    if x < 10 {
        seq![(48 + x) as u8]
    } else {
        spec_dec_bytes(x / 10).push((48 + (x % 10)) as u8)
    }
}

/// Decimal digit bytes are ASCII.
pub proof fn lemma_dec_bytes_ascii(x: nat)
    ensures
        is_ascii_bytes(spec_dec_bytes(x)),
    decreases x,
{
    if x < 10 {
    } else {
        lemma_dec_bytes_ascii(x / 10);
        assert(x % 10 < 10);
        assert forall|i: int| 0 <= i < spec_dec_bytes(x).len() implies #[trigger] spec_dec_bytes(
            x,
        )[i] < 128 by {
            if i < spec_dec_bytes(x / 10).len() {
                assert(spec_dec_bytes(x)[i] == spec_dec_bytes(x / 10)[i]);
            }
        }
    }
}

/// Appends the decimal rendering of `x` to `out`.
pub fn push_dec(out: &mut Vec<u8>, x: u32)
    ensures
        final(out)@ == old(out)@ + spec_dec_bytes(x as nat),
    decreases x,
{
    if x >= 10 {
        proof {
            assert(x / 10 < x) by (nonlinear_arith)
                requires
                    x >= 10,
            ;
        }
        push_dec(out, x / 10);
    }
    let d: u8 = 48 + (x % 10) as u8;
    out.push(d);
    proof {
        if x < 10 {
            assert(old(out)@ + spec_dec_bytes(x as nat) =~= old(out)@.push(d));
        } else {
            assert(old(out)@ + spec_dec_bytes(x as nat) =~= (old(out)@ + spec_dec_bytes(
                (x / 10) as nat,
            )).push(d));
        }
    }
}

/// The decimal rendering of `x` as text.
pub fn dec_string(x: u32) -> (r: String)
    ensures
        r@ == ascii_chars_of(spec_dec_bytes(x as nat)),
{
    let mut v: Vec<u8> = Vec::new();
    push_dec(&mut v, x);
    proof {
        assert(v@ =~= spec_dec_bytes(x as nat));
        lemma_dec_bytes_ascii(x as nat);
        lemma_ascii_bytes_utf8(v@);
    }
    match utf8_string(v) {
        Some(s) => s,
        None => {
            proof {
                assert(false);
            }
            String::new()
        },
    }
}

} // verus!
