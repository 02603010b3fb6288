//! The namespace deriver.
//!
//! The handler's portion of global state is identified by a fixed prefix:
//! the first six hexadecimal characters of the 512-bit hash of the handler
//! family's name. The prefix is a pure function of that constant literal,
//! so every computation, in every process, yields the same string.

use vstd::prelude::*;
use vstd::string::StrSliceExecFns;

verus! {

/// The hexadecimal rendering of the 512-bit digest of the input characters.
/// The digest is a function of its input alone.
pub uninterp spec fn sha512_hex(input: Seq<char>) -> Seq<char>;

/// A lowercase hexadecimal digit.
pub open spec fn is_lower_hex_char(c: char) -> bool {
    ('0' <= c && c <= '9') || ('a' <= c && c <= 'f')
}

/// Relies on crypto::sha2::Sha512 through crypto::digest::Digest: input_str
/// feeds the string's UTF-8 bytes to the hash, and result_str renders the
/// 64-byte digest as 128 hexadecimal characters drawn from "0123456789abcdef".
#[verifier::external_body]
fn sha512_hex_digest(input: &str) -> (r: String)
    ensures
        r@ == sha512_hex(input@),
        r@.len() == 128,
        forall|i: int| 0 <= i < r@.len() ==> is_lower_hex_char(#[trigger] r@[i]),
{
    let mut hasher = crypto::sha2::Sha512::new();
    crypto::digest::Digest::input_str(&mut hasher, input);
    crypto::digest::Digest::result_str(&mut hasher)
}

/// The namespace prefix: the first six characters of the hex digest of the
/// handler family's name.
pub open spec fn namespace_prefix() -> Seq<char> {
    sha512_hex("restroom"@).take(6)
}

/// Computes the handler's namespace prefix: a six-character lowercase
/// hexadecimal string, identical across repeated computations and across
/// processes, as it depends only on the fixed family-name literal.
pub fn prefix() -> (r: String)
    ensures
        r@ == namespace_prefix(),
        r@.len() == 6,
        forall|i: int| 0 <= i < r@.len() ==> is_lower_hex_char(#[trigger] r@[i]),
{
    let digest = sha512_hex_digest("restroom");
    let first = digest.as_str().substring_char(0, 6);
    proof {
        assert(first@ =~= namespace_prefix());
    }
    first.to_owned()
}

} // verus!
