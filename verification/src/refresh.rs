//! The refresh engine's decisions: which indexed files feed a recipe,
//! what changed since its last successful run, the prompt the agent gets,
//! and where it stages its output. Ken, not the agent, decides what
//! reaches real output files.
use std::collections::HashMap;
use vstd::prelude::*;
use crate::paths::{join_path, path_join};
use crate::pipeline::graph::{join, join_vec, strs};
use crate::recipe::{Mode, Recipe, ResolvedRules};
use crate::text::{
    chars_of, dec, dec_u64, has_prefix, lines_spec, push_all, push_str, split_lines, starts_with,
    string_of, sub_vec, trim_char, trim_char_str, trim_end_char, trim_end_char_vec,
    trim_start_char, trim_start_char_vec, trim_vec, trim_ws, vec_eq, views,
};

verus! {

/// Staging area under a project's `.ken` folder.
pub const STAGING_ROOT: &'static str = ".ken/.staging";

/// The list of removed outputs a refresh leaves in its staging folder.
pub const REMOVED_MANIFEST: &'static str = "_removed.txt";

/// `<root>/.ken/.staging/<slug>`.
pub fn staging_dir(root: &str, slug: &str) -> (r: String)
    ensures
        r@ == join_path(join_path(root@, STAGING_ROOT@), slug@),
{
    let d = path_join(root, STAGING_ROOT);
    path_join(d.as_str(), slug)
}

/// `path` is `dir` itself or lies inside it.
pub open spec fn in_tree(path: Seq<char>, dir: Seq<char>) -> bool {
    path == dir || has_prefix(path, dir + "/"@)
}

/// The path lies in the recipe's output (slashes around it ignored).
pub open spec fn output_holds(recipe: Recipe, rel_path: Seq<char>) -> bool {
    in_tree(rel_path, trim_char(recipe.output@, '/'))
}

/// The path is one of the recipe's sources: never one of its own
/// outputs, and inside a listed source folder when any are listed.
pub open spec fn source_holds(recipe: Recipe, rel_path: Seq<char>) -> bool {
    !output_holds(recipe, rel_path) && (recipe.sources@.len() == 0 || exists|i: int|
        0 <= i < recipe.sources@.len() && in_tree(rel_path, trim_char(#[trigger] recipe.sources@[i]@, '/')))
}

fn in_tree_vec(path: &Vec<char>, dir: &Vec<char>) -> (r: bool)
    ensures
        r == in_tree(path@, dir@),
{
    let mut d = dir.clone();
    d.push('/');
    assert(d@ =~= dir@ + "/"@) by {
        reveal_strlit("/");
    }
    vec_eq(path, dir) || starts_with(path, &d)
}

/// Whether `rel_path` lies in the recipe's output.
pub fn under_output(recipe: &Recipe, rel_path: &str) -> (r: bool)
    ensures
        r == output_holds(*recipe, rel_path@),
{
    let out = trim_char_str(recipe.output.as_str(), '/');
    in_tree_vec(&chars_of(rel_path), &out)
}

/// Whether an indexed file is one of the recipe's sources.
pub fn in_sources(recipe: &Recipe, rel_path: &str) -> (r: bool)
    ensures
        r == source_holds(*recipe, rel_path@),
{
    if under_output(recipe, rel_path) {
        return false;
    }
    if recipe.sources.len() == 0 {
        return true;
    }
    let path = chars_of(rel_path);
    let mut i: usize = 0;
    while i < recipe.sources.len()
        invariant
            i <= recipe.sources.len(),
            path@ == rel_path@,
            !output_holds(*recipe, rel_path@),
            recipe.sources@.len() > 0,
            forall|k: int|
                0 <= k < i ==> !in_tree(rel_path@, trim_char(#[trigger] recipe.sources@[k]@, '/')),
        decreases recipe.sources.len() - i,
    {
        let s = trim_char_str(recipe.sources[i].as_str(), '/');
        if in_tree_vec(&path, &s) {
            assert(in_tree(rel_path@, trim_char(recipe.sources@[i as int]@, '/')));
            return true;
        }
        i = i + 1;
    }
    false
}

/// Whether a set of changed or scanned paths warrants queueing the recipe.
pub fn triggers(recipe: &Recipe, changed_or_scanned: &[String]) -> (r: bool)
    ensures
        r == exists|i: int|
            0 <= i < changed_or_scanned@.len() && source_holds(*recipe, #[trigger] changed_or_scanned@[i]@),
{
    let mut i: usize = 0;
    while i < changed_or_scanned.len()
        invariant
            i <= changed_or_scanned.len(),
            forall|k: int| 0 <= k < i ==> !source_holds(*recipe, #[trigger] changed_or_scanned@[k]@),
        decreases changed_or_scanned.len() - i,
    {
        if in_sources(recipe, changed_or_scanned[i].as_str()) {
            return true;
        }
        i = i + 1;
    }
    false
}

pub const PROMPT_HEAD: &'static str =
    "You are Ken's ingest runner, refreshing the structured document(s) for the ingest \"";
pub const PROMPT_AFTER_NAME: &'static str =
    "\".\n\n## Instruction\n\n";
pub const PROMPT_AFTER_INSTRUCTION: &'static str =
    "\n\n## Rules (non-negotiable)\n\n- The current output documents are canonical. Update only what the changed source material implies; keep everything else exactly as it is.\n- Human edits in the current outputs must be preserved, even where they disagree with your own phrasing.\n- Never ask the user questions. Where the data is ambiguous, make the reasonable assumption and record it in an \"Open questions\" section of the output document.\n- Write ONLY inside the staging directory named below. Do not modify any other file.\n- Every file you write must be the complete document, not a fragment or diff.\n- (For reference: changes above ";
pub const PROMPT_AFTER_THRESHOLD: &'static str =
    "% of a document are held for human review before being applied.)\n\n## Source material (folders: ";
pub const PROMPT_AFTER_SOURCES: &'static str =
    ")\n\n";
pub const PROMPT_AFTER_CHANGED: &'static str =
    "\n\n## Current output\n\n";
pub const PROMPT_AFTER_OUTPUTS: &'static str =
    "\n\n## Where to write\n\nSTAGING_DIR=";
pub const PROMPT_AFTER_STAGING: &'static str =
    "\n";
pub const PROMPT_TAIL: &'static str =
    "\n";
pub const MODE_SINGLE_HEAD: &'static str =
    "This ingest maintains ONE document: `";
pub const MODE_SINGLE_MID: &'static str =
    "`.\nWrite the complete updated document to `";
pub const MODE_SINGLE_TAIL: &'static str =
    "`.";
pub const MODE_COLLECTION_HEAD: &'static str =
    "This ingest maintains a COLLECTION: one markdown file per entity in `";
pub const MODE_COLLECTION_MID: &'static str =
    "`.\nWrite each complete updated or new file to `";
pub const MODE_COLLECTION_NAME: &'static str =
    "<kebab-case-name>.md`.\nIf an existing entity should be removed, add its filename (one per line) to `";
pub const MODE_COLLECTION_TAIL: &'static str =
    "`.";
pub const ALL_FOLDERS: &'static str =
    "all project folders";
pub const FULL_PASS_HEAD: &'static str =
    "Full pass \u{2014} read all source material:\n";
pub const CHANGED_HEAD: &'static str =
    "Only these files changed since the last successful run \u{2014} focus on them:\n";
pub const NO_OUTPUT_YET: &'static str =
    "None yet \u{2014} this is the first run; create the output from scratch.";
pub const OUTPUTS_HEAD: &'static str =
    "Read these current documents FIRST; they are canonical:\n";

/// `- item` lines, one per item.
pub open spec fn bullets(items: Seq<Seq<char>>) -> Seq<char> {
    join(items.map_values(|i: Seq<char>| "- "@ + i), "\n"@)
}

/// `s` with exactly one trailing `/`.
pub open spec fn with_trailing_slash(s: Seq<char>) -> Seq<char> {
    trim_end_char(s, '/') + "/"@
}

/// Where and how the agent writes, by mode.
pub open spec fn mode_text(recipe: Recipe, staging: Seq<char>) -> Seq<char> {
    match recipe.mode {
        Mode::Single => MODE_SINGLE_HEAD@ + recipe.output@ + MODE_SINGLE_MID@ + staging + "/"@
            + recipe.output@ + MODE_SINGLE_TAIL@,
        Mode::Collection => {
            let out = with_trailing_slash(recipe.output@);
            MODE_COLLECTION_HEAD@ + out + MODE_COLLECTION_MID@ + staging + "/"@ + out
                + MODE_COLLECTION_NAME@ + staging + "/"@ + out + REMOVED_MANIFEST@ + MODE_COLLECTION_TAIL@
        },
    }
}

/// The full refresh prompt.
pub open spec fn refresh_prompt(
    recipe: Recipe,
    rules: ResolvedRules,
    changed: Seq<Seq<char>>,
    full_pass: bool,
    output_files: Seq<Seq<char>>,
    staging: Seq<char>,
) -> Seq<char> {
    let sources = if recipe.sources@.len() == 0 {
        ALL_FOLDERS@
    } else {
        join(strs(recipe.sources@), ", "@)
    };
    let changed_text = if full_pass {
        FULL_PASS_HEAD@ + bullets(changed)
    } else {
        CHANGED_HEAD@ + bullets(changed)
    };
    let outputs_text = if output_files.len() == 0 {
        NO_OUTPUT_YET@
    } else {
        OUTPUTS_HEAD@ + bullets(output_files)
    };
    PROMPT_HEAD@ + recipe.name@ + PROMPT_AFTER_NAME@ + recipe.instruction@ + PROMPT_AFTER_INSTRUCTION@
        + dec(rules.review_threshold_pct as nat) + PROMPT_AFTER_THRESHOLD@ + sources
        + PROMPT_AFTER_SOURCES@ + changed_text + PROMPT_AFTER_CHANGED@ + outputs_text
        + PROMPT_AFTER_OUTPUTS@ + staging + PROMPT_AFTER_STAGING@ + mode_text(recipe, staging)
        + PROMPT_TAIL@
}

fn bullet_list(items: &[String]) -> (r: Vec<char>)
    ensures
        r@ == bullets(strs(items@)),
{
    let mut lines: Vec<String> = Vec::new();
    let mut i: usize = 0;
    while i < items.len()
        invariant
            i <= items.len(),
            strs(lines@) == strs(items@).take(i as int).map_values(|s: Seq<char>| "- "@ + s),
        decreases items.len() - i,
    {
        let mut l: Vec<char> = Vec::new();
        push_str(&mut l, "- ");
        push_str(&mut l, items[i].as_str());
        let ghost before = lines@;
        let line = string_of(l.as_slice());
        lines.push(line);
        proof {
            assert(strs(lines@) =~= strs(before).push(line@));
            assert(strs(items@).take(i + 1) =~= strs(items@).take(i as int).push(items@[i as int]@));
            assert(strs(items@).take(i + 1).map_values(|s: Seq<char>| "- "@ + s) =~= strs(items@).take(
                i as int,
            ).map_values(|s: Seq<char>| "- "@ + s).push("- "@ + items@[i as int]@));
        }
        i = i + 1;
    }
    assert(strs(items@).take(items@.len() as int) =~= strs(items@));
    join_vec(&lines, "\n")
}

fn push_mode_text(out: &mut Vec<char>, recipe: &Recipe, staging: &str)
    ensures
        final(out)@ == old(out)@ + mode_text(*recipe, staging@),
{
    match recipe.mode {
        Mode::Single => {
            push_str(out, MODE_SINGLE_HEAD);
            push_str(out, recipe.output.as_str());
            push_str(out, MODE_SINGLE_MID);
            push_str(out, staging);
            push_str(out, "/");
            push_str(out, recipe.output.as_str());
            push_str(out, MODE_SINGLE_TAIL);
        },
        Mode::Collection => {
            let mut o = trim_end_char_vec(&chars_of(recipe.output.as_str()), '/');
            push_str(&mut o, "/");
            push_str(out, MODE_COLLECTION_HEAD);
            push_all(out, &o);
            push_str(out, MODE_COLLECTION_MID);
            push_str(out, staging);
            push_str(out, "/");
            push_all(out, &o);
            push_str(out, MODE_COLLECTION_NAME);
            push_str(out, staging);
            push_str(out, "/");
            push_all(out, &o);
            push_str(out, REMOVED_MANIFEST);
            push_str(out, MODE_COLLECTION_TAIL);
        },
    }
}

/// The prompt a refresh hands its agent: the recipe's instruction, the
/// non-negotiable rules, which sources to read, the current outputs to
/// treat as canonical, and where to stage.
pub fn compose_prompt(
    recipe: &Recipe,
    rules: &ResolvedRules,
    changed: &[String],
    full_pass: bool,
    output_files: &[String],
    staging: &str,
) -> (r: String)
    ensures
        r@ == refresh_prompt(*recipe, *rules, strs(changed@), full_pass, strs(output_files@), staging@),
{
    let mut out: Vec<char> = Vec::new();
    push_str(&mut out, PROMPT_HEAD);
    push_str(&mut out, recipe.name.as_str());
    push_str(&mut out, PROMPT_AFTER_NAME);
    push_str(&mut out, recipe.instruction.as_str());
    push_str(&mut out, PROMPT_AFTER_INSTRUCTION);
    push_all(&mut out, &dec_u64(rules.review_threshold_pct as u64));
    push_str(&mut out, PROMPT_AFTER_THRESHOLD);
    if recipe.sources.len() == 0 {
        push_str(&mut out, ALL_FOLDERS);
    } else {
        push_all(&mut out, &join_vec(&recipe.sources, ", "));
    }
    push_str(&mut out, PROMPT_AFTER_SOURCES);
    if full_pass {
        push_str(&mut out, FULL_PASS_HEAD);
    } else {
        push_str(&mut out, CHANGED_HEAD);
    }
    push_all(&mut out, &bullet_list(changed));
    push_str(&mut out, PROMPT_AFTER_CHANGED);
    if output_files.len() == 0 {
        push_str(&mut out, NO_OUTPUT_YET);
    } else {
        push_str(&mut out, OUTPUTS_HEAD);
        push_all(&mut out, &bullet_list(output_files));
    }
    push_str(&mut out, PROMPT_AFTER_OUTPUTS);
    push_str(&mut out, staging);
    push_str(&mut out, PROMPT_AFTER_STAGING);
    push_mode_text(&mut out, recipe, staging);
    push_str(&mut out, PROMPT_TAIL);
    string_of(out.as_slice())
}

/// One indexed file as the refresh planner sees it: its project-relative
/// path and its modification time in seconds.
#[derive(Debug, Clone, PartialEq, Eq)]
pub struct IndexedFile {
    pub rel_path: String,
    pub mtime: i64,
}

/// A planned refresh.
#[derive(Debug, Clone)]
pub struct RefreshPlan {
    pub slug: String,
    pub prompt: String,
    pub changed: Vec<String>,
    pub first_run: bool,
    pub staging: String,
    /// Output files and their mtimes at plan time, to notice human edits
    /// that land while the agent works.
    pub output_snapshot: HashMap<String, i64>,
}

/// The paths among the first `n` files that feed the recipe and changed
/// after `since` (every source when `since` is absent), in index order.
pub open spec fn fed(recipe: Recipe, files: Seq<IndexedFile>, since: Option<i64>, n: int) -> Seq<
    Seq<char>,
>
    decreases n,
{
    if n <= 0 {
        seq![]
    } else {
        let f = files[n - 1];
        let keep = source_holds(recipe, f.rel_path@) && match since {
            Some(t) => f.mtime > t,
            None => true,
        };
        if keep {
            fed(recipe, files, since, n - 1).push(f.rel_path@)
        } else {
            fed(recipe, files, since, n - 1)
        }
    }
}

fn collect_fed(recipe: &Recipe, files: &[IndexedFile], since: Option<i64>) -> (r: Vec<String>)
    ensures
        strs(r@) == fed(*recipe, files@, since, files@.len() as int),
{
    let mut out: Vec<String> = Vec::new();
    let mut i: usize = 0;
    while i < files.len()
        invariant
            i <= files.len(),
            strs(out@) == fed(*recipe, files@, since, i as int),
        decreases files.len() - i,
    {
        let f = &files[i];
        let newer = match since {
            Some(t) => f.mtime > t,
            None => true,
        };
        if in_sources(recipe, f.rel_path.as_str()) && newer {
            let ghost before = out@;
            out.push(f.rel_path.clone());
            assert(strs(out@) =~= strs(before).push(f.rel_path@));
        }
        i = i + 1;
    }
    out
}

/// Plan a refresh from the index (`files`), the time of the recipe's last
/// successful run, and the current outputs. `None` when nothing changed
/// and no full pass was forced. A first run, or a pass over every source,
/// reads everything; otherwise the prompt names only what changed. The
/// caller recreates the staging folder before the agent runs.
pub fn plan(
    root: &str,
    recipe: &Recipe,
    rules: &ResolvedRules,
    files: &[IndexedFile],
    last_success: Option<i64>,
    force_full: bool,
    output_files: &[String],
    output_snapshot: HashMap<String, i64>,
) -> (r: Option<RefreshPlan>)
    ensures
        ({
            let sources = fed(*recipe, files@, None, files@.len() as int);
            let changed = fed(*recipe, files@, last_success, files@.len() as int);
            let eff = if changed.len() == 0 {
                sources
            } else {
                changed
            };
            let staging = join_path(join_path(root@, STAGING_ROOT@), recipe.slug@);
            &&& r.is_none() == (changed.len() == 0 && !force_full)
            &&& r matches Some(p) ==> {
                &&& p.slug@ == recipe.slug@
                &&& strs(p.changed@) == eff
                &&& p.first_run == last_success.is_none()
                &&& p.staging@ == staging
                &&& p.prompt@ == refresh_prompt(
                    *recipe,
                    *rules,
                    eff,
                    last_success.is_none() || eff.len() == sources.len(),
                    strs(output_files@),
                    staging,
                )
                &&& p.output_snapshot == output_snapshot
            }
        }),
{
    let sources = collect_fed(recipe, files, None);
    let changed = collect_fed(recipe, files, last_success);
    let first_run = last_success.is_none();
    if changed.len() == 0 && !force_full {
        return None;
    }
    let effective = if changed.len() == 0 {
        sources.clone()
    } else {
        changed
    };
    proof {
        assert(strs(sources@).len() == sources@.len());
    }
    let full_pass = first_run || effective.len() == sources.len();
    let staging = staging_dir(root, recipe.slug.as_str());
    let prompt = compose_prompt(
        recipe,
        rules,
        effective.as_slice(),
        full_pass,
        output_files,
        staging.as_str(),
    );
    Some(
        RefreshPlan {
            slug: recipe.slug.clone(),
            prompt,
            changed: effective,
            first_run,
            staging,
            output_snapshot,
        },
    )
}

/// `""` for one, `"s"` otherwise.
pub open spec fn plural(n: nat) -> Seq<char> {
    if n == 1 {
        seq![]
    } else {
        "s"@
    }
}

/// The one-line summary of an applied refresh.
pub open spec fn summary_text(written: nat, removed: nat) -> Seq<char> {
    if written == 0 && removed == 0 {
        "No changes were needed."@
    } else if removed == 0 {
        "Updated "@ + dec(written) + " document"@ + plural(written) + "."@
    } else if written == 0 {
        "Removed "@ + dec(removed) + " document"@ + plural(removed) + "."@
    } else {
        "Updated "@ + dec(written) + " and removed "@ + dec(removed) + " document"@ + plural(
            written + removed,
        ) + "."@
    }
}

/// What an applied refresh reports: how many documents it updated and
/// removed.
pub fn summary_line(written: usize, removed: usize) -> (r: String)
    requires
        written + removed <= usize::MAX,
    ensures
        r@ == summary_text(written as nat, removed as nat),
{
    let mut out: Vec<char> = Vec::new();
    if written == 0 && removed == 0 {
        push_str(&mut out, "No changes were needed.");
    } else if removed == 0 {
        push_str(&mut out, "Updated ");
        push_all(&mut out, &dec_u64(written as u64));
        push_str(&mut out, " document");
        if written != 1 {
            push_str(&mut out, "s");
        }
        push_str(&mut out, ".");
    } else if written == 0 {
        push_str(&mut out, "Removed ");
        push_all(&mut out, &dec_u64(removed as u64));
        push_str(&mut out, " document");
        if removed != 1 {
            push_str(&mut out, "s");
        }
        push_str(&mut out, ".");
    } else {
        push_str(&mut out, "Updated ");
        push_all(&mut out, &dec_u64(written as u64));
        push_str(&mut out, " and removed ");
        push_all(&mut out, &dec_u64(removed as u64));
        push_str(&mut out, " document");
        if written + removed != 1 {
            push_str(&mut out, "s");
        }
        push_str(&mut out, ".");
    }
    string_of(out.as_slice())
}


/// `s` with every leading copy of `p` removed, as
/// `str::trim_start_matches` does with a string pattern.
pub open spec fn strip_repeated(s: Seq<char>, p: Seq<char>) -> Seq<char>
    decreases s.len(),
{
    if p.len() > 0 && has_prefix(s, p) {
        strip_repeated(s.skip(p.len() as int), p)
    } else {
        s
    }
}

/// The output file that one line of a staged removal manifest names: the
/// recipe's output folder, then the line's name relative to it (the
/// folder written again in the line is not doubled).
pub open spec fn removal_target(output: Seq<char>, line: Seq<char>) -> Seq<char> {
    let base = with_trailing_slash(trim_char(output, '/'));
    base + trim_start_char(strip_repeated(trim_ws(line), base), '/')
}

/// The targets of the first `n` manifest lines, blank lines skipped.
pub open spec fn removal_targets_upto(output: Seq<char>, lines: Seq<Seq<char>>, n: int) -> Seq<Seq<char>>
    decreases n,
{
    if n <= 0 {
        seq![]
    } else {
        let prev = removal_targets_upto(output, lines, n - 1);
        if trim_ws(lines[n - 1]).len() > 0 {
            prev.push(removal_target(output, lines[n - 1]))
        } else {
            prev
        }
    }
}

fn strip_repeated_vec(s: &Vec<char>, p: &Vec<char>) -> (r: Vec<char>)
    ensures
        r@ == strip_repeated(s@, p@),
{
    let mut rest = s.clone();
    while p.len() > 0 && starts_with(&rest, p)
        invariant
            strip_repeated(s@, p@) == strip_repeated(rest@, p@),
        decreases rest.len(),
    {
        let next = sub_vec(&rest, p.len(), rest.len());
        assert(next@ =~= rest@.skip(p@.len() as int));
        rest = next;
    }
    rest
}

/// The project-relative files a staged removal manifest asks to delete,
/// one per non-blank line, each under the recipe's output folder.
pub fn removal_targets(recipe: &Recipe, manifest: &str) -> (r: Vec<String>)
    ensures
        strs(r@) == removal_targets_upto(
            recipe.output@,
            lines_spec(manifest@),
            lines_spec(manifest@).len() as int,
        ),
{
    let out_trim = trim_char_str(recipe.output.as_str(), '/');
    let mut base = trim_end_char_vec(&out_trim, '/');
    base.push('/');
    assert(base@ =~= with_trailing_slash(trim_char(recipe.output@, '/'))) by {
        reveal_strlit("/");
    }
    let lines = split_lines(&chars_of(manifest));
    let mut out: Vec<String> = Vec::new();
    let mut i: usize = 0;
    while i < lines.len()
        invariant
            i <= lines.len(),
            views(lines@) == lines_spec(manifest@),
            base@ == with_trailing_slash(trim_char(recipe.output@, '/')),
            strs(out@) == removal_targets_upto(recipe.output@, lines_spec(manifest@), i as int),
        decreases lines.len() - i,
    {
        assert(views(lines@)[i as int] == lines@[i as int]@);
        let line = trim_vec(&lines[i]);
        if line.len() > 0 {
            let stripped = strip_repeated_vec(&line, &base);
            let name = trim_start_char_vec(&stripped, '/');
            let mut target = base.clone();
            push_all(&mut target, &name);
            let ghost before = out@;
            out.push(string_of(target.as_slice()));
            assert(strs(out@) =~= strs(before).push(target@));
        }
        i = i + 1;
    }
    out
}


proof fn lemma_trim_char_no_trailing(s: Seq<char>, c: char)
    ensures
        trim_end_char(trim_char(s, c), c) == trim_char(s, c),
{
    let e = trim_end_char(s, c);
    lemma_trim_end_char_result(s, c);
    lemma_trim_start_char_tail(e, c);
    let t = trim_char(s, c);
    if t.len() > 0 {
        assert(t.last() == e.last());
    } else {
        assert(trim_end_char(t, c) =~= t);
    }
}

proof fn lemma_trim_end_char_result(s: Seq<char>, c: char)
    ensures
        trim_end_char(s, c).len() > 0 ==> trim_end_char(s, c).last() != c,
    decreases s.len(),
{
    if s.len() > 0 && s.last() == c {
        lemma_trim_end_char_result(s.drop_last(), c);
    }
}

proof fn lemma_trim_start_char_tail(s: Seq<char>, c: char)
    ensures
        trim_start_char(s, c).len() > 0 ==> trim_start_char(s, c).last() == s.last(),
        trim_start_char(s, c).len() <= s.len(),
    decreases s.len(),
{
    if s.len() > 0 && s[0] == c {
        lemma_trim_start_char_tail(s.drop_first(), c);
        if trim_start_char(s, c).len() > 0 {
            assert(s.drop_first().last() == s.last());
        }
    }
}

proof fn lemma_targets_under_output(output: Seq<char>, lines: Seq<Seq<char>>, n: int)
    requires
        0 <= n <= lines.len(),
    ensures
        forall|k: int|
            0 <= k < removal_targets_upto(output, lines, n).len() ==> has_prefix(
                #[trigger] removal_targets_upto(output, lines, n)[k],
                trim_char(output, '/') + "/"@,
            ),
    decreases n,
{
    if n > 0 {
        lemma_targets_under_output(output, lines, n - 1);
        let dir = trim_char(output, '/');
        lemma_trim_char_no_trailing(output, '/');
        let base = with_trailing_slash(dir);
        assert(base == dir + "/"@);
        let prev = removal_targets_upto(output, lines, n - 1);
        if trim_ws(lines[n - 1]).len() > 0 {
            let x = removal_target(output, lines[n - 1]);
            assert(x.subrange(0, base.len() as int) =~= base);
            assert forall|k: int| 0 <= k < prev.push(x).len() implies has_prefix(#[trigger] prev.push(x)[k], dir + "/"@) by {
                if k < prev.len() {
                    assert(prev.push(x)[k] == prev[k]);
                }
            }
        }
    }
}

/// A staged removal can only ever name a file under the recipe's own
/// output: whatever the manifest says, the target lies in the output
/// folder.
pub proof fn law_removals_stay_in_output(recipe: Recipe, manifest: Seq<char>)
    ensures
        forall|k: int|
            0 <= k < removal_targets_upto(recipe.output@, lines_spec(manifest), lines_spec(manifest).len() as int).len()
                ==> output_holds(
                recipe,
                #[trigger] removal_targets_upto(
                    recipe.output@,
                    lines_spec(manifest),
                    lines_spec(manifest).len() as int,
                )[k],
            ),
{
    lemma_targets_under_output(recipe.output@, lines_spec(manifest), lines_spec(manifest).len() as int);
}

} // verus!
