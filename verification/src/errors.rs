//! The error taxonomy, and which failures may take the process down.
//!
//! Device-initialization and renderer failures are fatal only to one output
//! or one frame; a protocol violation costs the offending surface and never
//! terminates the process. Losing the hardware seat, or a malformed
//! persisted configuration at startup, is fatal to the process.

use vstd::prelude::*;

verus! {

#[derive(Clone, Copy, PartialEq, Eq, Structural, Debug)]
pub enum CoreError {
    /// A display device or its backend could not be initialized; fatal only
    /// to that output.
    DeviceInit,
    /// Access to the hardware seat was lost; fatal to the process.
    Session,
    /// Compositing one frame on one output failed; the tick is skipped and
    /// the output disabled after bounded retries.
    Renderer,
    /// The persisted configuration is malformed; fatal at startup.
    ConfigLoad,
    /// A misbehaving client, e.g. conflicting surface roles; the offending
    /// surface is destroyed and the process continues.
    Protocol,
}

/// Whether an error must terminate the whole process rather than one
/// output, frame or surface.
pub open spec fn spec_fatal_to_process(e: CoreError) -> bool {
    e is Session || e is ConfigLoad
}

pub fn fatal_to_process(e: &CoreError) -> (r: bool)
    ensures
        r == spec_fatal_to_process(*e),
{
    match e {
        CoreError::Session => true,
        CoreError::ConfigLoad => true,
        _ => false,
    }
}

} // verus!
