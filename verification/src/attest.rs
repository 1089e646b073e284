//! How minting an attestation row can fail, and the line each failure reads as.

use vstd::prelude::*;
use crate::prims::concat2;

verus! {

/// A failure to mint a row: distinct variants because they are distinct
/// operator situations (a malformed row is not retried; a store failure is).
#[derive(Debug)]
pub enum Error {
    /// The envelope is not a JSON object, or does not parse as an envelope.
    Envelope(String),
    /// The substrate refused to stamp, canonicalize or assemble the row.
    Substrate(String),
    /// A signature half is not valid base64, or is the wrong length.
    Signature(String),
    /// Signing failed (no key, locked keyring, FFI error).
    Sign(String),
    /// The store refused or was unavailable.
    Persist(String),
}

impl Error {
    /// The failure's one-line description.
    pub open spec fn text(&self) -> Seq<char> {
        match self {
            Error::Envelope(e) => "attestation envelope: "@ + e@,
            Error::Substrate(e) => "attestation assembly refused: "@ + e@,
            Error::Signature(e) => "attestation signature: "@ + e@,
            Error::Sign(e) => "attestation signing: "@ + e@,
            Error::Persist(e) => "attestation store: "@ + e@,
        }
    }

    /// The failure's one-line description.
    pub fn message(&self) -> (s: String)
        ensures
            s@ == self.text(),
    {
        match self {
            Error::Envelope(e) => concat2("attestation envelope: ", e.as_str()),
            Error::Substrate(e) => concat2("attestation assembly refused: ", e.as_str()),
            Error::Signature(e) => concat2("attestation signature: ", e.as_str()),
            Error::Sign(e) => concat2("attestation signing: ", e.as_str()),
            Error::Persist(e) => concat2("attestation store: ", e.as_str()),
        }
    }
}

} // verus!
