//! The text form in which file contents are embedded.

use base64::prelude::BASE64_STANDARD;
use base64::Engine;
use vstd::prelude::*;

verus! {

/// The standard base64 text, with padding, of `bytes`.
pub uninterp spec fn base64_standard(bytes: Seq<u8>) -> Seq<char>;

/// How long the padded base64 text of `len` bytes is: four characters for
/// every three bytes or part of three.
pub open spec fn encoded_len(len: nat) -> nat {
    (len / 3) * 4 + if len % 3 > 0 {
        4nat
    } else {
        0nat
    }
}

/// Whether `len` bytes have a base64 text whose length fits the machine.
pub open spec fn encodable(len: nat) -> bool {
    encoded_len(len) <= usize::MAX
}

/// `base64::Engine::encode` of `base64::prelude::BASE64_STANDARD`. Trusted:
/// the text is `base64_standard` of the bytes. The engine panics where the
/// length of the text overflows, so such inputs are left out.
#[verifier::external_body]
fn encode_standard(bytes: &[u8]) -> (encoded: String)
    requires
        encodable(bytes@.len()),
    ensures
        encoded@ == base64_standard(bytes@),
{
    BASE64_STANDARD.encode(bytes)
}

/// Whether `len` bytes can be encoded.
pub fn can_encode(len: usize) -> (fits: bool)
    ensures
        fits == encodable(len as nat),
{
    match (len / 3).checked_mul(4) {
        None => false,
        Some(whole) => len % 3 == 0 || whole.checked_add(4).is_some(),
    }
}

/// The base64 text of `bytes`; `None` where it would be too long to hold.
pub fn encode(bytes: &[u8]) -> (encoded: Option<String>)
    ensures
        match encoded {
            Some(text) => encodable(bytes@.len()) && text@ == base64_standard(bytes@),
            None => !encodable(bytes@.len()),
        },
{
    if can_encode(bytes.len()) {
        Some(encode_standard(bytes))
    } else {
        None
    }
}

} // verus!
