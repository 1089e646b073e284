//! The adapter seam: what an adapter reports about itself, and the no-op
//! adapter every node carries.

use vstd::prelude::*;
use crate::prims::owned;

verus! {

/// A running adapter's status.
#[derive(Debug, Clone)]
pub struct AdapterStatus {
    pub adapter_id: String,
    pub running: bool,
}

/// An adapter's configuration.
#[derive(Debug, Clone)]
pub struct AdapterConfig {
    pub adapter_type: String,
    pub enabled: bool,
}

/// The adapter that serves nothing and runs nothing.
#[derive(Debug)]
pub struct NoopAdapter;

impl NoopAdapter {
    /// The no-op adapter is of type `noop` and enabled.
    pub fn adapter_config(&self) -> (c: AdapterConfig)
        ensures
            c.adapter_type@ == "noop"@,
            c.enabled,
    {
        AdapterConfig { adapter_type: owned("noop"), enabled: true }
    }

    /// The no-op adapter is `noop` and never running.
    pub fn status(&self) -> (s: AdapterStatus)
        ensures
            s.adapter_id@ == "noop"@,
            !s.running,
    {
        AdapterStatus { adapter_id: owned("noop"), running: false }
    }
}

} // verus!
