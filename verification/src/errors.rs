use vstd::prelude::*;

verus! {

/// Errors surfaced by the core. Every error is fatal for the run that meets
/// it: listing and reconciliation never retry and never continue past one.
#[derive(Debug, Clone, PartialEq, Eq)]
pub enum SyncError {
    /// A remote fetch or create call failed; the message describes the
    /// failing stage.
    Transport { context: String },
    /// A source event carried no id, so no sync tag could be derived for it.
    MissingSourceId,
}

} // verus!
