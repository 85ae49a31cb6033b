//! Codec for the Angstrom settlement-bundle wire format (PADE).
//!
//! A bundle is carried as contract call data, given here as hex text: a
//! 4-byte selector, two opaque 32-byte words, and then the PADE-encoded
//! `AngstromBundle`. This crate decodes such payloads into structured
//! values and encodes bundles back, proving that decoding and encoding are
//! exact inverses on the bytes.

pub mod dec;
pub mod enc;
pub mod err;
pub mod laws;
pub mod model;
pub mod prim;
pub mod types;

use vstd::prelude::*;
use vstd::string::StringSliceAdditionalSpecFns;

use crate::dec::decode_bundle_at;
use crate::err::CodecError;
use crate::model::sdec_bundle;
use crate::types::{AngstromBundle, AngstromBundleV};

verus! {

pub open spec fn is_hex_digit(b: u8) -> bool {
    (48 <= b <= 57) || (97 <= b <= 102) || (65 <= b <= 70)
}

pub open spec fn hex_digit_val(b: u8) -> nat {
    if 48 <= b <= 57 {
        (b - 48) as nat
    } else if 97 <= b <= 102 {
        (b - 87) as nat
    } else if 65 <= b <= 70 {
        (b - 55) as nat
    } else {
        0
    }
}

/// Hex text: an even count of hex digits, either case.
pub open spec fn is_hex_seq(s: Seq<u8>) -> bool {
    s.len() % 2 == 0 && (forall|i: int| 0 <= i < s.len() ==> is_hex_digit(#[trigger] s[i]))
}

/// The bytes named by hex text, two digits each, high digit first.
pub open spec fn hex_to_bytes(s: Seq<u8>) -> Seq<u8> {
    Seq::new((s.len() / 2) as nat, |i: int| (hex_digit_val(s[2 * i]) * 16 + hex_digit_val(s[2 * i + 1])) as u8)
}

/// The call selector that names a bundle submission, as the eight hex
/// characters `09c5eabe`.
pub open spec fn selector_hex() -> Seq<u8> {
    seq![48u8, 57u8, 99u8, 53u8, 101u8, 97u8, 98u8, 101u8]
}

/// Hex text may carry a `0x` prefix; it is not part of the payload.
pub open spec fn strip_0x(s: Seq<u8>) -> Seq<u8> {
    if s.len() >= 2 && s[0] == 48 && s[1] == 120 {
        s.skip(2)
    } else {
        s
    }
}

pub open spec fn has_selector(h: Seq<u8>) -> bool {
    h.len() >= 8 && h.subrange(0, 8) == selector_hex()
}

/// What `decode_bundle` returns, as a function of the input text's bytes:
/// the selector must open the hex text, the text must be hex, the payload
/// must reach past the selector and the two opaque words at bytes
/// `[4, 68)`, and the rest must decode as one bundle record. Trailing bytes
/// after the record are ignored, as call-data padding.
pub open spec fn spec_decode_call(sb: Seq<u8>) -> Result<AngstromBundleV, CodecError> {
    let h = strip_0x(sb);
    if !has_selector(h) {
        Err(CodecError::InvalidSelector)
    } else if !is_hex_seq(h) {
        Err(CodecError::InvalidSelector)
    } else {
        let b = hex_to_bytes(h);
        if b.len() < 68 {
            Err(CodecError::UnexpectedEnd)
        } else {
            match sdec_bundle(b, 68, b.len() as int) {
                Ok((v, _)) => Ok(v),
                Err(e) => Err(e),
            }
        }
    }
}

/// Relies on hex::decode: an even-length run of hex digits (either case)
/// decodes, two digits to one byte, high digit first; an odd length or any
/// other character is refused.
#[verifier::external_body]
fn hex_decode_from(t: &Vec<u8>, start: usize) -> (r: Option<Vec<u8>>)
    requires
        start <= t@.len(),
    ensures
        match r {
            Some(v) => is_hex_seq(t@.skip(start as int)) && v@ == hex_to_bytes(t@.skip(start as int)),
            None => !is_hex_seq(t@.skip(start as int)),
        },
{
    hex::decode(&t[start..]).ok()
}

/// Decodes a whole call payload, its hex text given as bytes, exactly as
/// `spec_decode_call` says: the decoded bundle, or the first error met.
#[verifier::rlimit(100)]
#[verifier::spinoff_prover]
pub fn decode_call_hex(t: &Vec<u8>) -> (r: Result<AngstromBundle, CodecError>)
    ensures
        match r {
            Ok(v) => spec_decode_call(t@) == Ok::<AngstromBundleV, CodecError>(v@),
            Err(e) => spec_decode_call(t@) == Err::<AngstromBundleV, CodecError>(e),
        },
{
    let off: usize = if t.len() >= 2 && t[0] == 48 && t[1] == 120 {
        2
    } else {
        0
    };
    let ghost h = strip_0x(t@);
    proof {
        assert(h =~= t@.skip(off as int));
    }
    if t.len() - off < 8 || t[off] != 48 || t[off + 1] != 57 || t[off + 2] != 99
        || t[off + 3] != 53 || t[off + 4] != 101 || t[off + 5] != 97 || t[off + 6] != 98
        || t[off + 7] != 101 {
        proof {
            if has_selector(h) {
                assert(h.subrange(0, 8)[0] == h[0] && h.subrange(0, 8)[1] == h[1]
                    && h.subrange(0, 8)[2] == h[2] && h.subrange(0, 8)[3] == h[3]
                    && h.subrange(0, 8)[4] == h[4] && h.subrange(0, 8)[5] == h[5]
                    && h.subrange(0, 8)[6] == h[6] && h.subrange(0, 8)[7] == h[7]);
                assert(false);
            }
        }
        return Err(CodecError::InvalidSelector);
    }
    proof {
        assert(h.subrange(0, 8) =~= selector_hex());
    }
    let b = match hex_decode_from(t, off) {
        Some(x) => x,
        None => {
            return Err(CodecError::InvalidSelector);
        },
    };
    if b.len() < 68 {
        return Err(CodecError::UnexpectedEnd);
    }
    match decode_bundle_at(&b, 68, b.len()) {
        Ok((v, _)) => Ok(v),
        Err(e) => Err(e),
    }
}

/// Decodes a whole call payload given as hex text: the decoded bundle, or
/// the first error met. The contract is `decode_call_hex`'s, over the
/// text's bytes.
pub fn decode_bundle(s: &str) -> (r: Result<AngstromBundle, CodecError>)
    ensures
        match r {
            Ok(v) => spec_decode_call(s.spec_bytes()) == Ok::<AngstromBundleV, CodecError>(v@),
            Err(e) => spec_decode_call(s.spec_bytes()) == Err::<AngstromBundleV, CodecError>(e),
        },
{
    let t = vstd::slice::slice_to_vec(s.as_bytes());
    decode_call_hex(&t)
}

} // verus!
