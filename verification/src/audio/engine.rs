//! What the playback engine reports about its output device.

use vstd::prelude::*;

verus! {

/// Whether the output stream came up, and at which rate; `error` says why
/// it did not.
#[derive(Clone, Default)]
pub struct EngineStatus {
    pub ready: bool,
    pub error: Option<String>,
    pub sample_rate: u32,
}

} // verus!
