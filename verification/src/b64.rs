//! Base64 text (standard alphabet, with padding) through the `base64` crate.

use base64::prelude::BASE64_STANDARD;
use base64::Engine;
use vstd::prelude::*;
use vstd::utf8::*;

verus! {

/// What `BASE64_STANDARD.encode` gives for these bytes.
pub uninterp spec fn base64_encoded(bytes: Seq<u8>) -> Seq<char>;

/// What `BASE64_STANDARD.decode` gives for this input: the decoded bytes,
/// or `None` for its error.
pub uninterp spec fn base64_decoded(input: Seq<u8>) -> Option<Seq<u8>>;

/// A character of the standard alphabet or the padding character.
pub open spec fn is_base64_char(c: char) -> bool {
    ||| 'A' <= c <= 'Z'
    ||| 'a' <= c <= 'z'
    ||| '0' <= c <= '9'
    ||| c == '+'
    ||| c == '/'
    ||| c == '='
}

/// `BASE64_STANDARD.encode` (`Engine::encode`). Claimed: the result is its
/// named value; it has four characters for every three bytes or part of
/// three (padding on); it is written in the standard alphabet and `=`; and
/// `BASE64_STANDARD.decode` of it gives the bytes back. The crate panics when
/// the encoded length overflows a `usize`, which the bound excludes.
#[verifier::external_body]
pub(crate) fn base64_encode(bytes: &[u8]) -> (s: String)
    requires
        bytes@.len() <= usize::MAX / 2,
    ensures
        s@ == base64_encoded(bytes@),
        s@.len() == 4 * ((bytes@.len() + 2) / 3),
        forall|i: int| 0 <= i < s@.len() ==> is_base64_char(#[trigger] s@[i]),
        base64_decoded(encode_utf8(s@)) == Some(bytes@),
{
    BASE64_STANDARD.encode(bytes)
}

/// `BASE64_STANDARD.decode` (`Engine::decode`), its error mapped to `None`.
/// Claimed: the result is its named value.
#[verifier::external_body]
pub(crate) fn base64_decode(input: &[u8]) -> (r: Option<Vec<u8>>)
    ensures
        r matches Some(v) ==> base64_decoded(input@) == Some(v@),
        r is None ==> base64_decoded(input@) is None,
{
    match BASE64_STANDARD.decode(input) {
        Ok(v) => Some(v),
        Err(_) => None,
    }
}

} // verus!
