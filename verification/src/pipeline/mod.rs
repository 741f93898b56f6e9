//! Ken's work pipeline: lanes as data, the admission check every start passes,
//! the dependency graph behind blocked work, the run ledger's naming, the
//! idea and artifact models, and the daily digest.
pub mod admission;
pub mod block;
pub mod compose;
pub mod artifacts;
pub mod digest;
pub mod graph;
pub mod ideas;
pub mod kinds;
pub mod lanes;
pub mod queue;
pub mod layout;
pub mod runs;
pub mod scaffold;
pub mod ticket;
pub mod unblocks;
pub mod validate;
pub mod attention;
pub mod children;
pub mod frontmatter;

pub use admission::{
    admit_start, blocked_state, Admission, BlockedState, ConfirmReason, EntryKind, RefusalReason,
};
pub use artifacts::{
    is_artifact_expired, new_artifact_manifest, shift_iso_date, ArtifactManifest,
    DEFAULT_ARTIFACT_TTL_DAYS,
};
pub use digest::{
    render_digest_markdown, AwaitingReviewEntry, BlockedDigestEntry, Digest, IdeaEntry, MovedEntry,
    UnblockedDigestEntry,
};
pub use graph::{check_cycle, root_blockers, BlockGraph, CyclePath};
pub use ideas::{in_dedupe_scope, propose_idea, IdeaCandidate, IdeaRefusal};
pub use kinds::{AdvanceOutcome, Kickoff, RunOutcome, Runner, Target};
pub use lanes::{find_pipeline, lane_index, resolve_lane, Lane, Pipeline};
pub use layout::{
    artifact_manifest_path, artifact_ticket_dir, artifacts_dir, pipeline_path, pipelines_dir,
    run_month_dir, run_path, runs_dir,
};
pub use runs::{run_month, running_runs, RunRecord};
pub use scaffold::{scaffold_default_pipeline, DEFAULT_PIPELINE_MD};
pub use frontmatter::{
    frontmatter_entries, manifest_from_frontmatter, parse_artifact_manifest, parse_pipeline, parse_run,
    pipeline_from_frontmatter, run_from_frontmatter, scan_runs, DEFAULT_BOUNCE_CAP, DEFAULT_CONCURRENCY_CAP,
};
pub use ticket::{
    has_block_evidence, is_retry_cap_reason, matches_block_filter, ticket_fields, ticket_pipeline,
    BlockedFilter, FmEntry, FmValue, Task, TicketFields, RETRY_CAP_REASON,
};
pub use block::{
    advance, block, unblock, Block, BlockOutcome, BlockRefusal, BlockRequest, TaskPatch, Transition,
    TransitionRefusal, UnblockOutcome, UnblockRefusal, UnblockRequest,
};
pub use unblocks::{evaluate_all_unblocks, evaluate_unblocks, Unblocked};
pub use queue::{derive_queue, waiting_on_human, RunQueue};
pub use compose::{compose_digest, IDEA_ORIGIN};
