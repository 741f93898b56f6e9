//! The default pipeline definition written on first enable, and the rule
//! that it is written only when no definition exists yet.
use vstd::prelude::*;

verus! {

/// The twelve-lane default definition (eleven flow lanes plus `blocked`),
/// with the brief each lane's agent is handed at kickoff.
pub const DEFAULT_PIPELINE_MD: &'static str = r#"---
id: default
name: Standard delivery pipeline
auto: false
concurrency_cap: 1
bounce_cap: 3
lanes:
  - id: ideas
    name: Ideas backlog
    maps_to: backlog
    agent: none
    kickoff: manual
    on_pass: backlog
  - id: backlog
    name: Backlog
    maps_to: backlog
    agent: none
    kickoff: manual
    on_pass: todo
  - id: todo
    name: To Do
    maps_to: todo
    agent: none
    kickoff: manual
    on_pass: investigation
  - id: investigation
    name: Investigation
    maps_to: doing
    agent: investigator
    model: sonnet
    kickoff: confirm
    on_pass: refinement
  - id: refinement
    name: Refinement
    maps_to: doing
    agent: refiner
    model: opus
    kickoff: confirm
    on_pass: programmer
  - id: programmer
    name: Programmer
    maps_to: doing
    agent: programmer
    model: sonnet
    kickoff: confirm
    writes_code: true
    on_pass: tester
  - id: tester
    name: Tester
    maps_to: review
    agent: tester
    model: sonnet
    kickoff: confirm
    on_pass: architect
    on_fail: programmer
  - id: architect
    name: Architect review
    maps_to: review
    agent: architect
    model: opus
    kickoff: confirm
    on_pass: qa
    on_fail: refinement
  - id: qa
    name: QA tester
    maps_to: review
    agent: qa
    model: sonnet
    kickoff: confirm
    on_pass: signoff
    on_fail: programmer
  - id: signoff
    name: Sign-off
    maps_to: review
    human: true
    kickoff: manual
    on_pass: documentation
    on_fail: refinement
  - id: documentation
    name: Documentation
    maps_to: done
    agent: documenter
    model: sonnet
    kickoff: confirm
    terminal: true
    generative: true
  - id: blocked
    name: Blocked
    maps_to: doing
    agent: none
    kickoff: manual
    blocked: true
---

# Standard delivery pipeline

Eleven flow lanes plus Blocked (D1). Manual kickoff only until `auto` is
flipped on (D6) — every lane with an agent defaults to `kickoff: confirm`,
so nothing runs without an explicit accept.

## Ideas / Backlog / To Do

Pure holding columns — no agent, no risk. Groom Ideas into Backlog, and
Backlog into To Do, by hand.

## Investigation (sonnet)

Read the ticket and its `scope`. Confirm the ask is well-specified before
anything is designed; report ambiguity rather than guessing.

## Refinement (opus)

Design-heavy: decide the shape of the work. This is the lane most worth a
stronger model (D8) because it sets the plan every later lane executes.

## Programmer (sonnet, writes_code)

Implement inside `scope` only. Prove the work with the ticket's `verify`
command and report the result — Ken does not run `verify` itself.

## Tester (sonnet)

Write and run real tests. A fail bounces back to Programmer; three bounces
(`bounce_cap`) blocks the ticket for a human rather than looping forever
(D4).

## Architect review (opus)

Risk-bearing: the lane that catches a bad shape before it ships. A fail
bounces back to Refinement, not Programmer — the shape needs to change,
not just the code.

## QA tester (sonnet)

Two outputs, two destinations (D9): durable long-term/E2E test plans go
into the repo inside `scope`; throwaway review material (walkthrough,
screenshots, a demo recording) goes only under
`.ken-workspace/artifacts/<ticket-id>/`, never into a member repo, with a
`manifest.md` recording `durable: false` and an `expires` date. Pick the
recording recipe from the ticket's `target` (D10): `web` → Playwright,
`tauri` → `tauri-driver` over WebDriver, `none` → a written walkthrough.

## Sign-off (human)

No agent. Accept moves to Documentation. Accept with comments spawns a
child ticket in To Do carrying the comment — the parent still advances,
so a comment never blocks work that's already done (D11). Reject bounces
to Refinement.

## Documentation (sonnet, terminal, generative)

Update docs, then look at the finished ticket for follow-up ideas. Every
proposed idea must cite the ticket that produced it (`spawned_by`) and is
deduped against existing tickets in this project and any linked project
before landing (D7); a near-duplicate gets a log note on the existing
ticket instead of a new file.

## Blocked

Never picked up by any lane's agent (D5) — whatever blocked a ticket,
dependency or retry cap, it resumes at its recorded `return_lane` only
after a human (or an unblock re-entry, which still waits at a
confirmation) says so.
"#;

/// What to write on first enable: the default definition when no file
/// exists yet, and nothing when one does, so an edited pipeline is never
/// overwritten.
pub fn scaffold_default_pipeline(exists: bool) -> (r: Option<&'static str>)
    ensures
        exists ==> r.is_none(),
        !exists ==> r == Some(DEFAULT_PIPELINE_MD),
{
    if exists {
        None
    } else {
        Some(DEFAULT_PIPELINE_MD)
    }
}

} // verus!
