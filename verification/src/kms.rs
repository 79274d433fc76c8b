//! Ciphertext framing for the field-encryption helper.
//!
//! An encrypted value travels as a sentinel-prefixed, reversibly encoded
//! string: the prefix marks a value as already encrypted (detected by
//! inspection alone, with no network call), and the body is the canonical
//! base64 encoding of the raw ciphertext the encryption backend produced.
//! The backend calls themselves live outside this library; this module owns
//! the framing and its round trip.

use vstd::prelude::*;

use base64::Engine;

use crate::errors::ErrV;
use crate::errors::PydynoError;
use crate::strutil::is_prefix_of;
use crate::strutil::str_starts_with;

verus! {

broadcast use vstd::std_specs::vec::group_vec_axioms, vstd::seq::group_seq_axioms;

/// What the base64 standard-alphabet padded engine encodes a byte sequence
/// to. The encoding depends on the bytes alone.
pub uninterp spec fn b64_of(b: Seq<u8>) -> Seq<char>;

/// Relies on base64's `STANDARD` engine `encode`: the deterministic
/// canonical encoding of the bytes.
#[verifier::external_body]
fn b64_encode(b: &Vec<u8>) -> (r: String)
    ensures
        r@ == b64_of(b@),
{
    base64::engine::general_purpose::STANDARD.encode(b)
}

/// Relies on base64's `STANDARD` engine `decode`: it is strict (canonical
/// padding required, no trailing bits allowed), so it succeeds exactly on
/// the canonical encodings and inverts `encode`.
#[verifier::external_body]
fn b64_decode(s: &str) -> (r: Option<Vec<u8>>)
    ensures
        match r {
            Some(d) => s@ == b64_of(d@) && (forall|b: Seq<u8>| b64_of(b) == s@ ==> b == d@),
            None => forall|b: Seq<u8>| b64_of(b) != s@,
        },
{
    base64::engine::general_purpose::STANDARD.decode(s).ok()
}

/// The sentinel that marks a value as encrypted, detected on read by
/// prefix inspection alone.
pub const ENCRYPTED_PREFIX: &'static str = "ENC:";

/// The sentinel that marks a value as encrypted.
pub open spec fn encrypted_prefix_v() -> Seq<char> {
    "ENC:"@
}

/// The framed form of a raw ciphertext: the sentinel, then the canonical
/// base64 encoding of the bytes.
pub open spec fn framed_ciphertext_v(raw: Seq<u8>) -> Seq<char> {
    encrypted_prefix_v() + b64_of(raw)
}

/// Reports whether a stored value is encrypted, by sentinel inspection
/// alone.
pub fn is_encrypted(value: &str) -> (r: bool)
    ensures
        r == is_prefix_of(encrypted_prefix_v(), value@),
{
    str_starts_with(value, "ENC:")
}

/// Frames a raw ciphertext for storage: the sentinel prefix, then the
/// canonical base64 encoding of the bytes.
pub fn wrap_ciphertext(raw: &Vec<u8>) -> (r: String)
    ensures
        r@ == framed_ciphertext_v(raw@),
{
    let mut s = String::from_str("ENC:");
    let body = b64_encode(raw);
    s.append(body.as_str());
    s
}

/// Recovers the raw ciphertext from a framed value. Fails with a validation
/// error exactly when the sentinel prefix is absent or the body is not a
/// canonical base64 encoding; on success the input is precisely the framing
/// of the returned bytes, and of no others.
pub fn unwrap_ciphertext(s: &str) -> (r: Result<Vec<u8>, PydynoError>)
    ensures
        match r {
            Ok(d) => s@ == framed_ciphertext_v(d@) && (forall|b: Seq<u8>|
                framed_ciphertext_v(b) == s@ ==> b == d@),
            Err(e) => {
                &&& forall|b: Seq<u8>| framed_ciphertext_v(b) != s@
                &&& e@ == if is_prefix_of(encrypted_prefix_v(), s@) {
                    ErrV::Validation("Invalid base64 in ciphertext"@)
                } else {
                    ErrV::Validation("Ciphertext must start with 'ENC:' prefix"@)
                }
            },
        },
{
    proof {
        reveal_strlit("ENC:");
    }
    if !is_encrypted(s) {
        proof {
            assert forall|b: Seq<u8>| framed_ciphertext_v(b) != s@ by {
                if framed_ciphertext_v(b) == s@ {
                    assert(s@.subrange(0, 4) =~= encrypted_prefix_v());
                }
            }
        }
        return Err(
            PydynoError::Validation(
                String::from_str("Ciphertext must start with 'ENC:' prefix"),
            ),
        );
    }
    let len = s.unicode_len();
    let body = s.substring_char(4, len);
    proof {
        assert(body@ == s@.subrange(4, s@.len() as int));
    }
    match b64_decode(body) {
        Some(d) => {
            proof {
                assert(s@ =~= encrypted_prefix_v() + s@.subrange(4, s@.len() as int));
                assert forall|b: Seq<u8>| framed_ciphertext_v(b) == s@ implies b == d@ by {
                    if framed_ciphertext_v(b) == s@ {
                        assert(b64_of(b) =~= s@.subrange(4, s@.len() as int));
                    }
                }
            }
            Ok(d)
        },
        None => {
            proof {
                assert forall|b: Seq<u8>| framed_ciphertext_v(b) != s@ by {
                    if framed_ciphertext_v(b) == s@ {
                        assert(b64_of(b) =~= s@.subrange(4, s@.len() as int));
                    }
                }
            }
            Err(PydynoError::Validation(String::from_str("Invalid base64 in ciphertext")))
        },
    }
}

/// What is framed can be told apart and read back: a framed ciphertext
/// always carries the sentinel, and framing determines the bytes whenever
/// the strict decoder can read the body at all.
pub proof fn lemma_framed_is_encrypted(raw: Seq<u8>)
    ensures
        is_prefix_of(encrypted_prefix_v(), framed_ciphertext_v(raw)),
{
    reveal_strlit("ENC:");
    assert(framed_ciphertext_v(raw).subrange(0, 4) =~= encrypted_prefix_v());
}

} // verus!
