//! New tickets the pipeline composes: the child a sign-off comment
//! spawns, and a landed idea. Both are returned whole, for the caller to
//! write in one go.
use vstd::prelude::*;
use crate::pipeline::block::{advance, advance_answer, Transition, TransitionRefusal};
use crate::pipeline::compose::IDEA_ORIGIN;
use crate::pipeline::graph::strs;
use crate::pipeline::ideas::{IdeaCandidate, IdeaRefusal};
use crate::pipeline::kinds::AdvanceOutcome;
use crate::pipeline::lanes::{resolve_idx, resolve_lane, Pipeline};
use crate::pipeline::ticket::{fm_list, fm_str, non_empty, opt_view, ticket_fields, Task};
use crate::text::{chars_of, push_all, push_str, str_of_lit, string_of, trim_vec, trim_ws};

verus! {

/// The lane a sign-off comment's child ticket lands in.
pub const SIGNOFF_CHILD_LANE: &'static str = "todo";

/// The lane a landed idea occupies.
pub const IDEA_LANE: &'static str = "ideas";

/// The `origin` of a sign-off comment's child.
pub const SIGNOFF_ORIGIN: &'static str = "signoff";

/// The frontmatter a new ticket starts with.
#[derive(Debug, Clone, PartialEq, Eq)]
pub struct NewTaskFields {
    pub lane: Option<String>,
    pub pipeline: Option<String>,
    pub project: Option<String>,
    pub projects: Option<Vec<String>>,
    pub parent: Option<String>,
    pub spawned_by: Option<String>,
    pub origin: Option<String>,
}

/// A ticket to create; the id is assigned when it is written.
#[derive(Debug, Clone, PartialEq, Eq)]
pub struct NewTask {
    pub id: Option<String>,
    pub title: String,
    pub body: String,
    pub fields: NewTaskFields,
}

/// A new ticket with its text as characters.
pub struct NewTaskView {
    pub id: Option<Seq<char>>,
    pub title: Seq<char>,
    pub body: Seq<char>,
    pub lane: Option<Seq<char>>,
    pub pipeline: Option<Seq<char>>,
    pub project: Option<Seq<char>>,
    pub projects: Option<Seq<Seq<char>>>,
    pub parent: Option<Seq<char>>,
    pub spawned_by: Option<Seq<char>>,
    pub origin: Option<Seq<char>>,
}

pub open spec fn new_task_view(t: NewTask) -> NewTaskView {
    NewTaskView {
        id: opt_view(t.id),
        title: t.title@,
        body: t.body@,
        lane: opt_view(t.fields.lane),
        pipeline: opt_view(t.fields.pipeline),
        project: opt_view(t.fields.project),
        projects: match t.fields.projects {
            Some(v) => Some(strs(v@)),
            None => None,
        },
        parent: opt_view(t.fields.parent),
        spawned_by: opt_view(t.fields.spawned_by),
        origin: opt_view(t.fields.origin),
    }
}

/// A list, or nothing when it is empty.
pub open spec fn unless_empty(v: Seq<Seq<char>>) -> Option<Seq<Seq<char>>> {
    if v.len() == 0 {
        None
    } else {
        Some(v)
    }
}

/// What "accept with comments" produces: the child ticket, the parent's
/// `on_pass` advance, and the line for the parent's log.
#[derive(Debug, Clone)]
pub struct SignoffChild {
    pub child: NewTask,
    pub parent_transition: Transition,
    pub parent_log: String,
}

/// Why a sign-off child cannot be composed.
#[derive(Debug, Clone, PartialEq, Eq)]
pub enum SignoffRefusal {
    /// The reviewed ticket is not in a human lane.
    NotHumanLane(String),
    /// An empty comment is plain acceptance.
    EmptyComment,
    /// The lane has no `on_pass` edge for the parent to follow.
    NoOnPass(String),
    /// The pipeline has no `todo` lane for the child.
    NoTodoLane,
}

pub enum SignoffRefusalView {
    NotHumanLane(Seq<char>),
    EmptyComment,
    NoOnPass(Seq<char>),
    NoTodoLane,
}

pub open spec fn signoff_refusal_view(r: SignoffRefusal) -> SignoffRefusalView {
    match r {
        SignoffRefusal::NotHumanLane(s) => SignoffRefusalView::NotHumanLane(s@),
        SignoffRefusal::EmptyComment => SignoffRefusalView::EmptyComment,
        SignoffRefusal::NoOnPass(s) => SignoffRefusalView::NoOnPass(s@),
        SignoffRefusal::NoTodoLane => SignoffRefusalView::NoTodoLane,
    }
}

/// Why "accept with comments" is refused for `parent`, if it is: an empty
/// comment, a ticket outside a human lane, no `todo` lane, or no `on_pass`
/// edge, checked in that order.
pub open spec fn signoff_refusal(parent: Task, p: Pipeline, comment: Seq<char>) -> Option<SignoffRefusalView> {
    let lanes = p.lanes@;
    if trim_ws(comment).len() == 0 {
        Some(SignoffRefusalView::EmptyComment)
    } else {
        match resolve_idx(lanes, parent.status_raw@) {
            None => Some(SignoffRefusalView::NotHumanLane(parent.status_raw@)),
            Some(k) => if !lanes[k].human {
                Some(SignoffRefusalView::NotHumanLane(lanes[k].id@))
            } else if resolve_idx(lanes, SIGNOFF_CHILD_LANE@).is_none() {
                Some(SignoffRefusalView::NoTodoLane)
            } else if lanes[k].on_pass.is_none() {
                Some(SignoffRefusalView::NoOnPass(lanes[k].id@))
            } else {
                None
            },
        }
    }
}

/// The child a sign-off comment spawns: titled after the parent, the
/// comment as its body, in `todo`, inheriting the parent's pipeline and
/// projects (not its scope or verify), pointing back at the parent.
pub open spec fn signoff_child(parent: Task, comment: Seq<char>) -> NewTaskView {
    let m = parent.extra@;
    NewTaskView {
        id: None,
        title: "Sign-off comment on "@ + parent.title@,
        body: trim_ws(comment),
        lane: Some(SIGNOFF_CHILD_LANE@),
        pipeline: non_empty(fm_str(m, "pipeline"@)),
        project: Some(parent.project@),
        projects: unless_empty(fm_list(m, "projects"@)),
        parent: Some(parent.id@),
        spawned_by: None,
        origin: Some(SIGNOFF_ORIGIN@),
    }
}

/// Compose the child ticket and the parent's advance for "accept with
/// comments". Both come from one call, so the two writes can never
/// disagree about where the parent goes.
pub fn compose_signoff_child(parent: &Task, pipeline: &Pipeline, comment: &str, now: &str) -> (r: Result<
    SignoffChild,
    SignoffRefusal,
>)
    ensures
        match signoff_refusal(*parent, *pipeline, comment@) {
            Some(why) => r matches Err(e) && signoff_refusal_view(e) == why,
            None => r matches Ok(sc) && {
                &&& new_task_view(sc.child) == signoff_child(*parent, comment@)
                &&& advance_answer(*parent, *pipeline, AdvanceOutcome::Pass, now@, sc.parent_transition)
                &&& sc.parent_log@ == "sign-off comment \u{2192} new ticket \""@ + signoff_child(
                    *parent,
                    comment@,
                ).title + "\": "@ + trim_ws(comment@)
            },
        },
{
    let text = trim_vec(&chars_of(comment));
    if text.len() == 0 {
        return Err(SignoffRefusal::EmptyComment);
    }
    let lane = match resolve_lane(pipeline, parent.status_raw.as_str()) {
        Some(l) => l,
        None => return Err(SignoffRefusal::NotHumanLane(parent.status_raw.clone())),
    };
    if !lane.human {
        return Err(SignoffRefusal::NotHumanLane(lane.id.clone()));
    }
    if pipeline.lane(SIGNOFF_CHILD_LANE).is_none() {
        return Err(SignoffRefusal::NoTodoLane);
    }
    let parent_transition = advance(parent, pipeline, AdvanceOutcome::Pass, now);
    if let Transition::Refused { reason: TransitionRefusal::NoEdge { .. } } = &parent_transition {
        return Err(SignoffRefusal::NoOnPass(lane.id.clone()));
    }
    let fields = ticket_fields(parent);
    let mut title = chars_of("Sign-off comment on ");
    push_all(&mut title, &chars_of(parent.title.as_str()));
    let title_s = string_of(title.as_slice());
    let projects = if fields.projects.len() == 0 {
        None
    } else {
        Some(fields.projects.clone())
    };
    let child = NewTask {
        id: None,
        title: title_s,
        body: string_of(text.as_slice()),
        fields: NewTaskFields {
            lane: Some(str_of_lit(SIGNOFF_CHILD_LANE)),
            pipeline: fields.pipeline.clone(),
            project: Some(parent.project.clone()),
            projects,
            parent: Some(parent.id.clone()),
            spawned_by: None,
            origin: Some(str_of_lit(SIGNOFF_ORIGIN)),
        },
    };
    let mut log = chars_of("sign-off comment \u{2192} new ticket \"");
    push_all(&mut log, &title);
    push_str(&mut log, "\": ");
    push_all(&mut log, &text);
    Ok(SignoffChild { child, parent_transition, parent_log: string_of(log.as_slice()) })
}

/// The ticket a landed idea becomes: in the `ideas` lane, of the idea's
/// pipeline and projects, citing what spawned it.
pub open spec fn idea_ticket(idea: IdeaCandidate) -> NewTaskView {
    NewTaskView {
        id: None,
        title: idea.title@,
        body: idea.body@,
        lane: Some(IDEA_LANE@),
        pipeline: Some(idea.pipeline@),
        project: Some(idea.project@),
        projects: unless_empty(strs(idea.projects@)),
        parent: None,
        spawned_by: Some(idea.spawned_by@),
        origin: Some(IDEA_ORIGIN@),
    }
}

/// The ticket to create for an idea that survived dedupe; refused when
/// the pipeline has no `ideas` lane to put it in.
pub fn compose_idea_ticket(idea: &IdeaCandidate, pipeline: &Pipeline) -> (r: Result<NewTask, IdeaRefusal>)
    ensures
        resolve_idx(pipeline.lanes@, IDEA_LANE@).is_none() ==> r == Err::<NewTask, IdeaRefusal>(
            IdeaRefusal::NoIdeasLane,
        ),
        resolve_idx(pipeline.lanes@, IDEA_LANE@) is Some ==> (r matches Ok(t) && new_task_view(t) == idea_ticket(
            *idea,
        )),
{
    if pipeline.lane(IDEA_LANE).is_none() {
        return Err(IdeaRefusal::NoIdeasLane);
    }
    let projects = if idea.projects.len() == 0 {
        None
    } else {
        Some(idea.projects.clone())
    };
    Ok(
        NewTask {
            id: None,
            title: idea.title.clone(),
            body: idea.body.clone(),
            fields: NewTaskFields {
                lane: Some(str_of_lit(IDEA_LANE)),
                pipeline: Some(idea.pipeline.clone()),
                project: Some(idea.project.clone()),
                projects,
                parent: None,
                spawned_by: Some(idea.spawned_by.clone()),
                origin: Some(str_of_lit(IDEA_ORIGIN)),
            },
        },
    )
}

} // verus!
