//! Readiness of open descriptions, as poll and select see it.

use super::open_description::OpenDescriptionId;
use vstd::prelude::*;

verus! {

/// Readiness bits for an open description.
#[derive(Clone, Copy, Debug, PartialEq, Eq, Structural)]
pub struct Readiness {
    pub readable: bool,
    pub writable: bool,
    pub hangup: bool,
    pub error: bool,
}

impl Default for Readiness {
    fn default() -> (r: Readiness)
        ensures
            r == (Readiness { readable: false, writable: false, hangup: false, error: false }),
    {
        Readiness { readable: false, writable: false, hangup: false, error: false }
    }
}

/// Backends implement readiness for their open descriptions.
pub trait ReadinessSource {
    fn readiness(&self, id: OpenDescriptionId) -> Readiness;
}

} // verus!
