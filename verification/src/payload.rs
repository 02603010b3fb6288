//! The payload decoder.
//!
//! An untrusted byte buffer is parsed as a single binary-encoded map and
//! validated into a typed `{value, address}` request. A buffer that is not a
//! well-formed item (or whose relevant text payloads are not valid UTF-8) is
//! an internal-class fault; a well-formed buffer that is not a map, or that
//! lacks a text entry under `"value"` or `"address"`, is a validation fault
//! attributable to the submitter. Extra entries are ignored.

use vstd::prelude::*;
use vstd::string::StringSliceAdditionalSpecFns;
use vstd::string::StringExecFns;
use vstd::utf8::{decode_utf8, encode_utf8, valid_utf8};
use crate::codec::{find_text_field, skip_item, top_text_field, wf_item};
use crate::errors::ApplyError;

verus! {

/// The key bytes under which a field is stored: the UTF-8 bytes of its name.
pub open spec fn field_key(name: Seq<char>) -> Seq<u8> {
    encode_utf8(name)
}

/// What decoding a payload buffer yields.
pub enum DecodeOutcome {
    /// Not a well-formed item, or a matched text payload that is not valid
    /// UTF-8: an internal-class fault.
    Malformed,
    /// Well formed, but no text value is stored under `"value"`.
    MissingValue,
    /// A text value under `"value"`, but none under `"address"`.
    MissingAddress,
    /// Both fields present as text: the decoded value and address.
    Decoded(Seq<char>, Seq<char>),
}

/// The decode function of the payload format, as a mathematical map from
/// buffer contents to outcome.
pub open spec fn decode_payload_spec(b: Seq<u8>) -> DecodeOutcome {
    if !wf_item(b) {
        DecodeOutcome::Malformed
    } else {
        match top_text_field(b, field_key("value"@)) {
            None => DecodeOutcome::MissingValue,
            Some(vp) => {
                if !valid_utf8(vp) {
                    DecodeOutcome::Malformed
                } else {
                    match top_text_field(b, field_key("address"@)) {
                        None => DecodeOutcome::MissingAddress,
                        Some(ap) => {
                            if !valid_utf8(ap) {
                                DecodeOutcome::Malformed
                            } else {
                                DecodeOutcome::Decoded(decode_utf8(vp), decode_utf8(ap))
                            }
                        },
                    }
                }
            },
        }
    }
}

/// Relies on String::from_utf8: it succeeds exactly on valid UTF-8 input and
/// returns the string holding those very bytes.
#[verifier::external_body]
fn string_from_utf8(v: Vec<u8>) -> (r: Option<String>)
    ensures
        r is Some <==> valid_utf8(v@),
        r matches Some(s) ==> s@ == decode_utf8(v@) && encode_utf8(s@) == v@,
{
    String::from_utf8(v).ok()
}

/// Copies the bytes of `b` between `s` and `e`.
fn bytes_range(b: &[u8], s: usize, e: usize) -> (r: Vec<u8>)
    requires
        s <= e <= b@.len(),
    ensures
        r@ == b@.subrange(s as int, e as int),
{
    let mut out: Vec<u8> = Vec::new();
    let mut j: usize = 0;
    while j < e - s
        invariant
            s <= e <= b@.len(),
            j <= e - s,
            out@ =~= b@.subrange(s as int, s as int + j as int),
        decreases e - s - j,
    {
        out.push(b[s + j]);
        proof {
            assert(out@ =~= b@.subrange(s as int, s as int + j as int + 1));
        }
        j = j + 1;
    }
    out
}

/// The decoded, validated request extracted from a transaction's raw byte
/// content.
pub struct HashPayload {
    value: String,
    address: String,
}

impl HashPayload {
    /// Decodes and validates a payload buffer into a typed request. The
    /// outcome follows `decode_payload_spec` exactly: a malformed buffer is
    /// an internal fault; a missing or non-text field is a validation fault
    /// naming the field; on success both strings are returned unchanged.
    pub fn new(payload_data: &[u8]) -> (r: Result<HashPayload, ApplyError>)
        ensures
            match decode_payload_spec(payload_data@) {
                DecodeOutcome::Malformed => r matches Err(e) && e is InternalError,
                DecodeOutcome::MissingValue => r matches Err(e) && (e matches
                    ApplyError::InvalidTransaction(m) && m@ == "Value must be a string"@),
                DecodeOutcome::MissingAddress => r matches Err(e) && (e matches
                    ApplyError::InvalidTransaction(m) && m@ == "Address must be a string"@),
                DecodeOutcome::Decoded(v, a) => r matches Ok(p) && p.spec_value() == v
                    && p.spec_address() == a,
            },
    {
        if skip_item(payload_data, 0).is_none() {
            return Err(
                ApplyError::InternalError(String::from_str("payload is not a well-formed item")),
            );
        }
        let value: String = match find_text_field(payload_data, "value".as_bytes()) {
            None => {
                return Err(
                    ApplyError::InvalidTransaction(String::from_str("Value must be a string")),
                );
            },
            Some(se) => {
                let bytes = bytes_range(payload_data, se.0, se.1);
                match string_from_utf8(bytes) {
                    None => {
                        return Err(
                            ApplyError::InternalError(
                                String::from_str("value is not valid text"),
                            ),
                        );
                    },
                    Some(s) => s,
                }
            },
        };
        let address: String = match find_text_field(payload_data, "address".as_bytes()) {
            None => {
                return Err(
                    ApplyError::InvalidTransaction(String::from_str("Address must be a string")),
                );
            },
            Some(se) => {
                let bytes = bytes_range(payload_data, se.0, se.1);
                match string_from_utf8(bytes) {
                    None => {
                        return Err(
                            ApplyError::InternalError(
                                String::from_str("address is not valid text"),
                            ),
                        );
                    },
                    Some(s) => s,
                }
            },
        };
        Ok(HashPayload { value, address })
    }

    /// The decoded value string.
    pub fn get_value(&self) -> (r: &String)
        ensures
            r@ == self.spec_value(),
    {
        &self.value
    }

    /// The decoded address string.
    pub fn get_address(&self) -> (r: &String)
        ensures
            r@ == self.spec_address(),
    {
        &self.address
    }

    /// The decoded value as a spec value.
    pub closed spec fn spec_value(&self) -> Seq<char> {
        self.value@
    }

    /// The decoded address as a spec value.
    pub closed spec fn spec_address(&self) -> Seq<char> {
        self.address@
    }
}

} // verus!
