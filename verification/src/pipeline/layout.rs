//! Where the pipeline keeps its files under a workspace root.
use vstd::prelude::*;
use crate::paths::{config_sub, config_sub_dir, file_name, join_path, path_join, with_ext};

verus! {

/// `<root>/.ken-workspace/pipelines`.
pub fn pipelines_dir(workspace_root: &str) -> (r: String)
    ensures
        r@ == config_sub(workspace_root@, "pipelines"@),
{
    config_sub_dir(workspace_root, "pipelines")
}

/// `<root>/.ken-workspace/pipelines/<id>.md`.
pub fn pipeline_path(workspace_root: &str, id: &str) -> (r: String)
    ensures
        r@ == join_path(config_sub(workspace_root@, "pipelines"@), with_ext(id@, "md"@)),
{
    let d = pipelines_dir(workspace_root);
    let f = file_name(id, "md");
    path_join(d.as_str(), f.as_str())
}

/// `<root>/.ken-workspace/runs`, the append-only run ledger.
pub fn runs_dir(workspace_root: &str) -> (r: String)
    ensures
        r@ == config_sub(workspace_root@, "runs"@),
{
    config_sub_dir(workspace_root, "runs")
}

/// `<root>/.ken-workspace/runs/<yyyy-mm>`.
pub fn run_month_dir(workspace_root: &str, yyyy_mm: &str) -> (r: String)
    ensures
        r@ == join_path(config_sub(workspace_root@, "runs"@), yyyy_mm@),
{
    let d = runs_dir(workspace_root);
    path_join(d.as_str(), yyyy_mm)
}

/// `<root>/.ken-workspace/runs/<yyyy-mm>/<id>.md`.
pub fn run_path(workspace_root: &str, yyyy_mm: &str, id: &str) -> (r: String)
    ensures
        r@ == join_path(
            join_path(config_sub(workspace_root@, "runs"@), yyyy_mm@),
            with_ext(id@, "md"@),
        ),
{
    let d = run_month_dir(workspace_root, yyyy_mm);
    let f = file_name(id, "md");
    path_join(d.as_str(), f.as_str())
}

/// `<root>/.ken-workspace/artifacts`: throwaway review material, never
/// inside a member repository.
pub fn artifacts_dir(workspace_root: &str) -> (r: String)
    ensures
        r@ == config_sub(workspace_root@, "artifacts"@),
{
    config_sub_dir(workspace_root, "artifacts")
}

/// `<root>/.ken-workspace/artifacts/<ticket-id>`.
pub fn artifact_ticket_dir(workspace_root: &str, ticket_id: &str) -> (r: String)
    ensures
        r@ == join_path(config_sub(workspace_root@, "artifacts"@), ticket_id@),
{
    let d = artifacts_dir(workspace_root);
    path_join(d.as_str(), ticket_id)
}

/// `<root>/.ken-workspace/artifacts/<ticket-id>/manifest.md`.
pub fn artifact_manifest_path(workspace_root: &str, ticket_id: &str) -> (r: String)
    ensures
        r@ == join_path(
            join_path(config_sub(workspace_root@, "artifacts"@), ticket_id@),
            "manifest.md"@,
        ),
{
    let d = artifact_ticket_dir(workspace_root, ticket_id);
    path_join(d.as_str(), "manifest.md")
}

} // verus!
