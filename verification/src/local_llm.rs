//! The on-device language model's availability.
use vstd::prelude::*;

verus! {

#[derive(Debug, Clone, PartialEq, Eq)]
pub enum LlmStatus {
    /// Feature off, or the selected model file is not on disk yet.
    NotInstalled,
    /// The selected model file is present.
    Ready,
    /// A load or init attempt failed; carries user-facing detail.
    Error(String),
}

/// Current availability of the on-device model: not installed until a
/// model is selected and probed.
pub fn llm_status() -> (r: LlmStatus)
    ensures
        r == LlmStatus::NotInstalled,
{
    LlmStatus::NotInstalled
}

} // verus!
