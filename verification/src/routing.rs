//! Cross-project routing's verdicts.
use vstd::prelude::*;

verus! {

/// Why a query was routed to the members it was.
#[derive(Debug, Clone, PartialEq, Eq)]
pub enum RouteReason {
    /// A member's name matched the query.
    Named,
    /// These workspace-graph entity ids matched the query and map to
    /// member targets.
    KgEntities(Vec<i64>),
    /// Every ready member, capped and ordered by recent activity.
    Broadcast,
}

/// What happened to one member during a routed search.
#[derive(Debug, Clone, Copy, PartialEq, Eq, Structural)]
pub enum MemberStatus {
    /// Searched, and its hits merged in.
    Searched,
    /// Its semantic index is not ready yet; skipped.
    IndexBuilding,
    /// It could not be searched; skipped, not blocking.
    Unavailable,
}

} // verus!
