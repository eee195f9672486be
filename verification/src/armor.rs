//! Base64 armour for payload bytes, as the `base64` crate's standard engine
//! writes and reads it.

use base64::prelude::{Engine, BASE64_STANDARD};
use vstd::prelude::*;

verus! {

#[verifier::external_type_specification]
#[verifier::external_body]
pub struct ExDecodeError(base64::DecodeError);

/// The bytes that the standard engine decodes `text` to, or `None` where it
/// rejects `text`.
pub uninterp spec fn base64_decoded(text: Seq<char>) -> Option<Seq<u8>>;

/// The text that the standard engine encodes `bytes` to.
pub uninterp spec fn base64_encoded(bytes: Seq<u8>) -> Seq<char>;

/// The length of the padded base64 text for `len` bytes: four characters for
/// every started group of three bytes.
pub open spec fn armored_len(len: nat) -> nat {
    if len % 3 == 0 {
        (len / 3) * 4
    } else {
        (len / 3) * 4 + 4
    }
}

/// Calls `Engine::decode` on `base64::prelude::BASE64_STANDARD`.
///
/// Trusted: the outcome depends on `text` alone, so it is given the name
/// [`base64_decoded`]; an `Err` stands for the engine's `DecodeError`.
#[verifier::external_body]
pub(crate) fn decode_standard(text: &str) -> (decoded: Result<Vec<u8>, base64::DecodeError>)
    ensures
        match decoded {
            Ok(bytes) => base64_decoded(text@) == Some(bytes@),
            Err(_) => base64_decoded(text@) is None,
        },
{
    BASE64_STANDARD.decode(text)
}

/// Calls `Engine::encode` on `base64::prelude::BASE64_STANDARD`.
///
/// Trusted: the text depends on `bytes` alone, so it is given the name
/// [`base64_encoded`]. The engine panics where the length of the text does not
/// fit in `usize`, which the precondition rules out.
#[verifier::external_body]
pub(crate) fn encode_standard(bytes: &[u8]) -> (text: String)
    requires
        armored_len(bytes@.len()) <= usize::MAX,
    ensures
        text@ == base64_encoded(bytes@),
{
    BASE64_STANDARD.encode(bytes)
}

} // verus!
