//! Generated ideas: built only with a citation, and deduplicated only
//! against the idea's own project and the projects linked to it.
use vstd::prelude::*;
use crate::pipeline::graph::{slice_strings, strs};
use crate::text::{eq_ci, eq_ci_str, is_blank, trim_ws, trimmed};

verus! {

/// A proposed idea, before it becomes a ticket.
#[derive(Debug, Clone, PartialEq, Eq)]
pub struct IdeaCandidate {
    pub title: String,
    pub body: String,
    /// The ticket or note the idea came from; never empty.
    pub spawned_by: String,
    pub project: String,
    pub projects: Vec<String>,
    pub pipeline: String,
}

/// Why an idea candidate could not be built.
#[derive(Debug, Clone, Copy, PartialEq, Eq, Structural)]
pub enum IdeaRefusal {
    /// An idea without a citation is refused at creation.
    MissingCitation,
    EmptyTitle,
    /// The pipeline declares no `ideas` lane.
    NoIdeasLane,
}

/// Build an idea candidate: refused without a citation, then refused
/// without a title; every text field trimmed.
pub fn propose_idea(
    title: &str,
    body: &str,
    spawned_by: &str,
    project: &str,
    projects: &[String],
    pipeline: &str,
) -> (r: Result<IdeaCandidate, IdeaRefusal>)
    ensures
        trim_ws(spawned_by@).len() == 0 ==> r == Err::<IdeaCandidate, IdeaRefusal>(
            IdeaRefusal::MissingCitation,
        ),
        trim_ws(spawned_by@).len() > 0 && trim_ws(title@).len() == 0 ==> r == Err::<
            IdeaCandidate,
            IdeaRefusal,
        >(IdeaRefusal::EmptyTitle),
        trim_ws(spawned_by@).len() > 0 && trim_ws(title@).len() > 0 ==> (r matches Ok(c) && {
            &&& c.title@ == trim_ws(title@)
            &&& c.body@ == trim_ws(body@)
            &&& c.spawned_by@ == trim_ws(spawned_by@)
            &&& c.project@ == trim_ws(project@)
            &&& strs(c.projects@) == strs(projects@)
            &&& c.pipeline@ == trim_ws(pipeline@)
        }),
{
    if is_blank(spawned_by) {
        return Err(IdeaRefusal::MissingCitation);
    }
    if is_blank(title) {
        return Err(IdeaRefusal::EmptyTitle);
    }
    Ok(
        IdeaCandidate {
            title: trimmed(title),
            body: trimmed(body),
            spawned_by: trimmed(spawned_by),
            project: trimmed(project),
            projects: slice_strings(projects),
            pipeline: trimmed(pipeline),
        },
    )
}

/// The candidate's project is the idea's own, or one linked to it
/// (compared trimmed and ASCII case-insensitively).
pub open spec fn in_scope(idea_project: Seq<char>, candidate: Seq<char>, linked: Seq<&str>) -> bool {
    eq_ci(idea_project, candidate) || exists|i: int|
        0 <= i < linked.len() && #[trigger] eq_ci(linked[i]@, candidate)
}

/// Dedupe scope: the idea's project plus the projects linked to it.
pub fn in_dedupe_scope(idea_project: &str, candidate_project: &str, linked: &[&str]) -> (r: bool)
    ensures
        r == in_scope(idea_project@, candidate_project@, linked@),
{
    if eq_ci_str(idea_project, candidate_project) {
        return true;
    }
    let mut i: usize = 0;
    while i < linked.len()
        invariant
            i <= linked.len(),
            forall|j: int| 0 <= j < i ==> !#[trigger] eq_ci(linked@[j]@, candidate_project@),
        decreases linked.len() - i,
    {
        let l: &str = linked[i];
        if eq_ci_str(l, candidate_project) {
            return true;
        }
        i = i + 1;
    }
    false
}

} // verus!
