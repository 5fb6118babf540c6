//! Tokens read as text: the raw bytes of a token, and the string they
//! encode.

use crate::convert::FromToken;
use vstd::prelude::*;
use vstd::slice::slice_to_vec;
use vstd::utf8::{decode_utf8, encode_utf8, encode_utf8_decode_utf8, valid_utf8};

verus! {

/// Calls `core::str::from_utf8` and keeps the string slice, if there is one.
///
/// Trusted: the call succeeds exactly on well-formed UTF-8, and the slice it
/// returns has the bytes that were given.
#[verifier::external_body]
fn str_from_utf8(bytes: &[u8]) -> (r: Option<&str>)
    ensures
        r is Some <==> valid_utf8(bytes@),
        r matches Some(text) ==> encode_utf8(text@) == bytes@,
{
    core::str::from_utf8(bytes).ok()
}

impl FromToken for Vec<u8> {
    /// The bytes of the token, whatever they are.
    open spec fn denoted(token: Seq<u8>) -> Option<Seq<u8>> {
        Some(token)
    }

    fn from_token(token: &[u8]) -> (r: Option<Vec<u8>>) {
        Some(slice_to_vec(token))
    }
}

impl FromToken for String {
    /// The characters that the token encodes, if it is well-formed UTF-8.
    open spec fn denoted(token: Seq<u8>) -> Option<Seq<char>> {
        if valid_utf8(token) {
            Some(decode_utf8(token))
        } else {
            None
        }
    }

    fn from_token(token: &[u8]) -> (r: Option<String>) {
        match str_from_utf8(token) {
            Some(text) => {
                proof {
                    encode_utf8_decode_utf8(text@);
                }
                Some(text.to_owned())
            },
            None => None,
        }
    }
}

} // verus!
