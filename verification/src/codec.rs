//! Base64 and UTF-8, as the `base64` crate and the standard library
//! compute them.
//!
//! Nothing here is proved about the codecs themselves: the functions marked
//! `external_body` state what the outside code is taken to do.

use base64::Engine;
use vstd::prelude::*;
use vstd::utf8::*;

verus! {

/// The base64 error type, carried through without being looked into.
#[verifier::external_type_specification]
#[verifier::external_body]
pub struct ExDecodeError(base64::DecodeError);

/// The standard base64 text (RFC 4648 alphabet, `=` padding) of `bytes`, as
/// `base64::prelude::BASE64_STANDARD.encode` returns it.
pub uninterp spec fn base64_encoded(bytes: Seq<u8>) -> Seq<char>;

/// The bytes that `base64::prelude::BASE64_STANDARD.decode` returns for
/// `text`, or `None` where it reports an error.
pub uninterp spec fn base64_decoded(text: Seq<u8>) -> Option<Seq<u8>>;

/// Whether `c` can occur in standard base64 text: a letter, a digit, `+`,
/// `/`, or the padding `=`.
pub open spec fn is_base64_symbol(c: char) -> bool {
    ||| 'A' <= c <= 'Z'
    ||| 'a' <= c <= 'z'
    ||| '0' <= c <= '9'
    ||| c == '+'
    ||| c == '/'
    ||| c == '='
}

/// The length of the padded base64 text of `n` bytes.
pub open spec fn base64_len(n: nat) -> nat {
    (n / 3) * 4 + if n % 3 == 0 {
        0nat
    } else {
        4nat
    }
}

/// Whether base64 carries `bytes` faithfully: their text is made of base64
/// symbols only, and decoding it gives `bytes` back.
pub open spec fn carried(bytes: Seq<u8>) -> bool {
    let text = base64_encoded(bytes);
    &&& forall|i: int| 0 <= i < text.len() ==> is_base64_symbol(#[trigger] text[i])
    &&& base64_decoded(encode_utf8(text)) == Some(bytes)
}

/// Calls `Engine::encode` on `base64::prelude::BASE64_STANDARD`.
///
/// Taken on trust: the result is the text named [`base64_encoded`]; it is
/// made of alphabet symbols and padding only; and the same engine decodes it
/// back to `bytes`. The engine panics when the length of the text does not
/// fit in `usize`, which the precondition rules out.
#[verifier::external_body]
pub(crate) fn base64_encode(bytes: &[u8]) -> (text: String)
    requires
        base64_len(bytes@.len()) <= usize::MAX,
    ensures
        text@ == base64_encoded(bytes@),
        forall|i: int| 0 <= i < text@.len() ==> is_base64_symbol(#[trigger] text@[i]),
        base64_decoded(encode_utf8(text@)) == Some(bytes@),
{
    base64::prelude::BASE64_STANDARD.encode(bytes)
}

/// Calls `Engine::decode` on `base64::prelude::BASE64_STANDARD`.
///
/// Taken on trust: the outcome is the one named [`base64_decoded`], an error
/// standing for `None`.
#[verifier::external_body]
pub(crate) fn base64_decode(text: &[u8]) -> (r: Result<Vec<u8>, base64::DecodeError>)
    ensures
        match r {
            Ok(bytes) => base64_decoded(text@) == Some(bytes@),
            Err(_) => base64_decoded(text@) is None,
        },
{
    base64::prelude::BASE64_STANDARD.decode(text)
}

/// Calls `String::from_utf8`.
///
/// Taken on trust: it succeeds exactly on valid UTF-8, and the string then
/// holds the characters that the bytes encode.
#[verifier::external_body]
pub(crate) fn string_from_utf8(bytes: Vec<u8>) -> (r: Option<String>)
    ensures
        r is Some <==> valid_utf8(bytes@),
        r matches Some(s) ==> s@ == decode_utf8(bytes@),
{
    String::from_utf8(bytes).ok()
}

} // verus!
