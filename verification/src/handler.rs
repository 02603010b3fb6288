//! The handler entry point and its identity surface.
//!
//! The handler reports a fixed family name, one family version, and the
//! single derived namespace prefix. Per request it decodes the payload,
//! maps a validation fault or an internal fault to the caller, and on
//! success merges the decoded field into the state entry at the decoded
//! address through a fresh, invocation-scoped cache.

use vstd::prelude::*;
use vstd::string::StringExecFns;
use crate::codec::map_bytes;
use crate::errors::ApplyError;
use crate::namespace::{namespace_prefix, prefix};
use crate::payload::{decode_payload_spec, DecodeOutcome, HashPayload};
use crate::state::{State, StateStore};

verus! {

/// The identity the handler registers with the host runtime.
pub struct StateTransactionHandler {
    family_name: String,
    family_versions: Vec<String>,
    namespaces: Vec<String>,
}

impl StateTransactionHandler {
    /// The family name as a spec value.
    pub closed spec fn spec_family_name(&self) -> Seq<char> {
        self.family_name@
    }

    /// The family versions as spec values.
    pub closed spec fn spec_family_versions(&self) -> Seq<Seq<char>> {
        self.family_versions@.map_values(|s: String| s@)
    }

    /// The declared namespaces as spec values.
    pub closed spec fn spec_namespaces(&self) -> Seq<Seq<char>> {
        self.namespaces@.map_values(|s: String| s@)
    }

    /// A handler declaring the fixed family name, the single version, and
    /// the derived namespace prefix.
    pub fn new() -> (r: StateTransactionHandler)
        ensures
            r.spec_family_name() == "restroom"@,
            r.spec_family_versions() =~= seq!["1.0"@],
            r.spec_namespaces() =~= seq![namespace_prefix()],
    {
        let mut versions: Vec<String> = Vec::new();
        versions.push(String::from_str("1.0"));
        let mut namespaces: Vec<String> = Vec::new();
        namespaces.push(prefix());
        let r = StateTransactionHandler {
            family_name: String::from_str("restroom"),
            family_versions: versions,
            namespaces,
        };
        proof {
            assert(r.spec_family_versions() =~= seq!["1.0"@]);
            assert(r.spec_namespaces() =~= seq![namespace_prefix()]);
        }
        r
    }

    /// The name of the transaction family this handler processes.
    pub fn family_name(&self) -> (r: String)
        ensures
            r@ == self.spec_family_name(),
    {
        self.family_name.clone()
    }

    /// The family versions this handler can process.
    pub fn family_versions(&self) -> (r: Vec<String>)
        ensures
            r@.map_values(|s: String| s@) == self.spec_family_versions(),
    {
        clone_strings(&self.family_versions)
    }

    /// The namespaces the handler declares.
    pub fn namespaces(&self) -> (r: Vec<String>)
        ensures
            r@.map_values(|s: String| s@) == self.spec_namespaces(),
    {
        clone_strings(&self.namespaces)
    }

    /// Applies one request: decodes the payload bytes and, when they are
    /// valid, merges the decoded value into the state entry at the decoded
    /// address, over a fresh cache scoped to this call. The store is written
    /// exactly once on success and never for an invalid payload.
    pub fn apply_payload<S: StateStore>(&self, payload_data: &[u8], store: &mut S) -> (r: Result<
        (),
        ApplyError,
    >)
        ensures
            match decode_payload_spec(payload_data@) {
                DecodeOutcome::Malformed => r matches Err(e) && e is InternalError
                    && final(store).log() == old(store).log(),
                DecodeOutcome::MissingValue => r matches Err(e) && (e matches
                    ApplyError::InvalidTransaction(m) && m@ == "Value must be a string"@)
                    && final(store).log() == old(store).log(),
                DecodeOutcome::MissingAddress => r matches Err(e) && (e matches
                    ApplyError::InvalidTransaction(m) && m@ == "Address must be a string"@)
                    && final(store).log() == old(store).log(),
                DecodeOutcome::Decoded(v, a) => match r {
                    Ok(()) => final(store).log() == old(store).log().push(
                        (a, map_bytes(seq![(a, v)])),
                    ),
                    Err(e) => e is InternalError && final(store).log() == old(store).log(),
                },
            },
    {
        let payload = match HashPayload::new(payload_data) {
            Err(err) => {
                return Err(err);
            },
            Ok(payload) => payload,
        };
        let mut state = State::new();
        state.set(store, payload.get_address().as_str(), payload.get_value().as_str())
    }
}

/// A copy of a vector of strings, element by element.
fn clone_strings(v: &Vec<String>) -> (r: Vec<String>)
    ensures
        r@.map_values(|s: String| s@) == v@.map_values(|s: String| s@),
{
    let mut out: Vec<String> = Vec::new();
    let mut i: usize = 0;
    while i < v.len()
        invariant
            i <= v@.len(),
            out@.len() == i,
            forall|j: int| 0 <= j < i ==> (#[trigger] out@[j])@ == v@[j]@,
        decreases v@.len() - i,
    {
        out.push(v[i].clone());
        i = i + 1;
    }
    proof {
        assert(out@.map_values(|s: String| s@) =~= v@.map_values(|s: String| s@));
    }
    out
}

} // verus!
