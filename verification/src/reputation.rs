//! IP reputation: the configuration-derived record and the decisions it
//! makes. The reputation server itself is spoken to outside the library;
//! the score it returns is judged here.

use vstd::prelude::*;

verus! {

use vstd::string::{StringSliceAdditionalSpecFns, StrSliceExecFns};
use vstd::utf8::encode_utf8;
use crate::json::{json_string, append_json_string, append_literal};
use crate::settings::Settings;

/// How IP reputation is consulted: the server (none disables the check),
/// the minimal acceptable score, and the violation name to report.
pub struct IPReputation {
    /// The reputation server; none disables the check.
    pub iprepd_server: Option<String>,
    /// The minimal reputation to accept.
    pub iprep_min: u8,
    /// The violation to report.
    pub iprep_violation: String,
}

impl IPReputation {
    /// Read the reputation configuration out of the settings: an empty
    /// server name disables the check.
    pub fn from_settings(settings: &Settings) -> (r: IPReputation)
        ensures
            settings.ip_reputation_server@.len() == 0 ==> r.iprepd_server is None,
            settings.ip_reputation_server@.len() > 0 ==> r.iprepd_server == Some(
                settings.ip_reputation_server,
            ),
            r.iprep_min == settings.iprep_min,
            r.iprep_violation == settings.ip_violation,
    {
        let server = if settings.ip_reputation_server.as_str().is_empty() {
            None
        } else {
            Some(settings.ip_reputation_server.clone())
        };
        IPReputation {
            iprepd_server: server,
            iprep_min: settings.iprep_min,
            iprep_violation: settings.ip_violation.clone(),
        }
    }

    /// Judge a reputation score against the configured minimum: with no
    /// server configured every address is acceptable.
    pub fn is_abusive(&self, reputation: u64) -> (r: bool)
        ensures
            r == (self.iprepd_server is Some && reputation < self.iprep_min as u64),
    {
        match &self.iprepd_server {
            Some(_) => reputation < self.iprep_min as u64,
            None => false,
        }
    }

    /// The JSON body of a violation report for the given address.
    pub fn abuse_report(&self, addr: &String) -> (r: Vec<u8>)
        ensures
            r@ == "{\"ip\":".spec_bytes() + json_string(encode_utf8(addr@))
                + ",\"violation\":".spec_bytes() + json_string(
                encode_utf8(self.iprep_violation@),
            ) + "}".spec_bytes(),
    {
        let mut out: Vec<u8> = Vec::new();
        append_literal(&mut out, "{\"ip\":");
        let ab = addr.as_str().as_bytes_vec();
        append_json_string(&mut out, &ab);
        append_literal(&mut out, ",\"violation\":");
        let vb = self.iprep_violation.as_str().as_bytes_vec();
        append_json_string(&mut out, &vb);
        append_literal(&mut out, "}");
        out
    }
}

} // verus!
