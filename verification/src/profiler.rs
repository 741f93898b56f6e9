//! A project's structural profile: the scan statistics the profiler
//! keeps, where the profile is stored, and the capped tree sample the
//! refinement prompt shows.
use vstd::prelude::*;
use crate::paths::{join_path, path_join};
use crate::pipeline::graph::{join, join_vec, strs};
use crate::knowledge_model::{field, field_of, json_object_text, json_span, kept_strings, kept_strings_of};
use crate::json::{json_parse, parse_json, text_at, text_field, text_items, texts_at};
use crate::pipeline::ticket::opt_view;
use crate::text::{chars_of, dec, dec_u64, is_lit, push_all, push_str, str_eq, string_of, word_key, word_key_of};

verus! {

/// Lines the tree sample holds at most.
pub const MAX_TREE_SAMPLE_LINES: usize = 150;

/// The profile's file name under the project's `.ken` folder.
pub const PROFILE_FILE: &'static str = "index-profile.json";

/// Per-extension count and total bytes.
#[derive(Debug, Clone, Copy, PartialEq, Eq, Structural)]
pub struct ExtStat {
    pub count: usize,
    pub bytes: u64,
}

/// Structural facts about a project tree.
#[derive(Debug, Clone, PartialEq, Eq)]
pub struct ScanStats {
    pub total_files: usize,
    pub total_bytes: u64,
    /// Extension (no dot, lower-case; empty for none) and its totals.
    pub extensions: Vec<(String, ExtStat)>,
    /// Directories directly under the root, sorted.
    pub top_level_dirs: Vec<String>,
    /// Repository marker files found in the tree.
    pub markers: Vec<String>,
    pub doc_bytes: u64,
    pub code_bytes: u64,
    pub media_bytes: u64,
    /// The directories with the most bytes under them, largest first.
    pub largest_dirs: Vec<(String, u64)>,
    /// The walk stopped early at its file cap.
    pub truncated: bool,
}

impl Default for ScanStats {
    fn default() -> (r: Self)
        ensures
            r.total_files == 0 && r.total_bytes == 0 && r.extensions@.len() == 0,
            r.top_level_dirs@.len() == 0 && r.markers@.len() == 0 && r.largest_dirs@.len() == 0,
            r.doc_bytes == 0 && r.code_bytes == 0 && r.media_bytes == 0 && !r.truncated,
    {
        ScanStats {
            total_files: 0,
            total_bytes: 0,
            extensions: Vec::new(),
            top_level_dirs: Vec::new(),
            markers: Vec::new(),
            doc_bytes: 0,
            code_bytes: 0,
            media_bytes: 0,
            largest_dirs: Vec::new(),
            truncated: false,
        }
    }
}

/// `<root>/.ken/index-profile.json`.
pub fn profile_path(root: &str) -> (r: String)
    ensures
        r@ == join_path(join_path(root@, crate::project::CONFIG_DIR@), PROFILE_FILE@),
{
    let d = path_join(root, crate::project::CONFIG_DIR);
    path_join(d.as_str(), PROFILE_FILE)
}

/// `<dir>/  (~<bytes> bytes)`.
pub open spec fn dir_line(d: (String, u64)) -> Seq<char> {
    d.0@ + "/  (~"@ + dec(d.1 as nat) + " bytes)"@
}

pub open spec fn dir_lines(ds: Seq<(String, u64)>) -> Seq<Seq<char>>
    decreases ds.len(),
{
    if ds.len() == 0 {
        seq![]
    } else {
        dir_lines(ds.drop_last()).push(dir_line(ds.last()))
    }
}

/// `name` is one of the sized directories.
pub open spec fn sized(ds: Seq<(String, u64)>, name: Seq<char>) -> bool {
    exists|i: int| 0 <= i < ds.len() && #[trigger] ds[i].0@ == name
}

/// `<name>/` for each top-level directory without a recorded size.
pub open spec fn top_lines(names: Seq<String>, ds: Seq<(String, u64)>) -> Seq<Seq<char>>
    decreases names.len(),
{
    if names.len() == 0 {
        seq![]
    } else if sized(ds, names.last()@) {
        top_lines(names.drop_last(), ds)
    } else {
        top_lines(names.drop_last(), ds).push(names.last()@ + "/"@)
    }
}

/// Sized directories first, largest first, then the remaining top-level
/// directories, capped at `MAX_TREE_SAMPLE_LINES`.
pub open spec fn sample(stats: ScanStats) -> Seq<Seq<char>> {
    let all = dir_lines(stats.largest_dirs@) + top_lines(stats.top_level_dirs@, stats.largest_dirs@);
    if all.len() > 150 {
        all.take(150)
    } else {
        all
    }
}

fn is_sized(ds: &Vec<(String, u64)>, name: &str) -> (r: bool)
    ensures
        r == sized(ds@, name@),
{
    let mut i: usize = 0;
    while i < ds.len()
        invariant
            i <= ds.len(),
            forall|j: int| 0 <= j < i ==> #[trigger] ds@[j].0@ != name@,
        decreases ds.len() - i,
    {
        if str_eq(ds[i].0.as_str(), name) {
            return true;
        }
        i = i + 1;
    }
    false
}

/// The capped top-level tree the profile prompt shows.
pub fn tree_sample(stats: &ScanStats) -> (r: Vec<String>)
    ensures
        strs(r@) == sample(*stats),
{
    let ghost dl = dir_lines(stats.largest_dirs@);
    let ghost tl = top_lines(stats.top_level_dirs@, stats.largest_dirs@);
    let mut lines: Vec<String> = Vec::new();
    let mut i: usize = 0;
    while i < stats.largest_dirs.len()
        invariant
            i <= stats.largest_dirs.len(),
            dl == dir_lines(stats.largest_dirs@),
            tl == top_lines(stats.top_level_dirs@, stats.largest_dirs@),
            strs(lines@) == dir_lines(stats.largest_dirs@.take(i as int)),
            lines@.len() == i,
            i < 150,
        decreases stats.largest_dirs.len() - i,
    {
        let mut v: Vec<char> = chars_of(stats.largest_dirs[i].0.as_str());
        push_str(&mut v, "/  (~");
        let b = dec_u64(stats.largest_dirs[i].1);
        push_all(&mut v, &b);
        push_str(&mut v, " bytes)");
        let ghost before = strs(lines@);
        lines.push(string_of(v.as_slice()));
        proof {
            assert(stats.largest_dirs@.take(i + 1).drop_last() =~= stats.largest_dirs@.take(i as int));
            assert(strs(lines@) =~= before.push(v@));
        }
        i = i + 1;
        if lines.len() >= MAX_TREE_SAMPLE_LINES {
            proof {
                lemma_dir_lines_len(stats.largest_dirs@);
                lemma_dir_lines_prefix(stats.largest_dirs@, i as int);
                assert((dl + tl).take(150) =~= strs(lines@));
            }
            return lines;
        }
    }
    assert(stats.largest_dirs@.take(i as int) =~= stats.largest_dirs@);
    let ghost base = strs(lines@);
    let mut j: usize = 0;
    while j < stats.top_level_dirs.len()
        invariant
            j <= stats.top_level_dirs.len(),
            dl == dir_lines(stats.largest_dirs@),
            tl == top_lines(stats.top_level_dirs@, stats.largest_dirs@),
            base == dl,
            strs(lines@) == base + top_lines(stats.top_level_dirs@.take(j as int), stats.largest_dirs@),
            lines@.len() < 150,
        decreases stats.top_level_dirs.len() - j,
    {
        proof {
            assert(stats.top_level_dirs@.take(j + 1).drop_last() =~= stats.top_level_dirs@.take(j as int));
        }
        if is_sized(&stats.largest_dirs, stats.top_level_dirs[j].as_str()) {
            j = j + 1;
            continue;
        }
        let mut v: Vec<char> = chars_of(stats.top_level_dirs[j].as_str());
        push_str(&mut v, "/");
        let ghost before = strs(lines@);
        lines.push(string_of(v.as_slice()));
        proof {
            assert(strs(lines@) =~= before.push(v@));
        }
        j = j + 1;
        if lines.len() >= MAX_TREE_SAMPLE_LINES {
            proof {
                lemma_top_lines_prefix(stats.top_level_dirs@, stats.largest_dirs@, j as int);
                assert((dl + tl).take(150) =~= strs(lines@));
            }
            return lines;
        }
    }
    assert(stats.top_level_dirs@.take(j as int) =~= stats.top_level_dirs@);
    lines
}

proof fn lemma_dir_lines_len(ds: Seq<(String, u64)>)
    ensures
        dir_lines(ds).len() == ds.len(),
    decreases ds.len(),
{
    if ds.len() > 0 {
        lemma_dir_lines_len(ds.drop_last());
    }
}

proof fn lemma_dir_lines_prefix(ds: Seq<(String, u64)>, i: int)
    requires
        0 <= i <= ds.len(),
    ensures
        dir_lines(ds).take(i) == dir_lines(ds.take(i)),
    decreases ds.len(),
{
    lemma_dir_lines_len(ds);
    lemma_dir_lines_len(ds.take(i));
    if i < ds.len() {
        lemma_dir_lines_prefix(ds.drop_last(), i);
        assert(ds.drop_last().take(i) =~= ds.take(i));
        assert(dir_lines(ds).take(i) =~= dir_lines(ds.drop_last()).take(i));
    } else {
        assert(ds.take(i) =~= ds);
    }
}

proof fn lemma_top_lines_prefix(names: Seq<String>, ds: Seq<(String, u64)>, j: int)
    requires
        0 <= j <= names.len(),
    ensures
        top_lines(names.take(j), ds).len() <= top_lines(names, ds).len(),
        top_lines(names, ds).take(top_lines(names.take(j), ds).len() as int) == top_lines(names.take(j), ds),
    decreases names.len(),
{
    if j < names.len() {
        lemma_top_lines_prefix(names.drop_last(), ds, j);
        assert(names.drop_last().take(j) =~= names.take(j));
        let t = top_lines(names.take(j), ds);
        let a = top_lines(names.drop_last(), ds);
        assert(top_lines(names, ds).take(t.len() as int) =~= a.take(t.len() as int));
    } else {
        assert(names.take(j) =~= names);
    }
}

/// What a project mostly is.
#[derive(Debug, Clone, Copy, PartialEq, Eq, Structural)]
pub enum ProjectKind {
    Code,
    Docs,
    Mixed,
    Media,
}

impl Default for ProjectKind {
    fn default() -> (r: Self)
        ensures
            r == ProjectKind::Mixed,
    {
        ProjectKind::Mixed
    }
}

impl ProjectKind {
    /// The kind a word names, trimmed and case-insensitively.
    pub open spec fn from_word(w: Seq<char>) -> Option<ProjectKind> {
        if w == "code"@ {
            Some(ProjectKind::Code)
        } else if w == "docs"@ {
            Some(ProjectKind::Docs)
        } else if w == "mixed"@ {
            Some(ProjectKind::Mixed)
        } else if w == "media"@ {
            Some(ProjectKind::Media)
        } else {
            None
        }
    }

    pub fn parse(s: &str) -> (r: Option<ProjectKind>)
        ensures
            r == ProjectKind::from_word(word_key(s@)),
    {
        let k = word_key_of(s);
        if is_lit(&k, "code") {
            Some(ProjectKind::Code)
        } else if is_lit(&k, "docs") {
            Some(ProjectKind::Docs)
        } else if is_lit(&k, "mixed") {
            Some(ProjectKind::Mixed)
        } else if is_lit(&k, "media") {
            Some(ProjectKind::Media)
        } else {
            None
        }
    }
}

/// The most focus hints one refinement contributes.
pub const MAX_FOCUS_HINTS: usize = 20;

/// A refinement answer, loosely parsed: structurally valid, not yet
/// checked against the tree.
#[derive(Debug, Clone, PartialEq, Eq)]
pub struct ProfileRefinement {
    pub kind: Option<ProjectKind>,
    pub excludes: Vec<String>,
    pub summary: Option<String>,
    pub focus_hints: Vec<String>,
}

impl Default for ProfileRefinement {
    fn default() -> (r: Self)
        ensures
            r.kind.is_none() && r.excludes@.len() == 0 && r.summary.is_none() && r.focus_hints@.len() == 0,
    {
        ProfileRefinement { kind: None, excludes: Vec::new(), summary: None, focus_hints: Vec::new() }
    }
}

/// A refinement as the answer wrote it: each scalar `None` when absent or
/// not a string; one list entry per array element (`None` for a
/// non-string), a missing array empty.
#[derive(Debug, Clone, PartialEq, Eq)]
pub struct RawRefinement {
    pub kind: Option<String>,
    pub excludes: Vec<Option<String>>,
    pub summary: Option<String>,
    pub focus_hints: Vec<Option<String>>,
}

/// `r` is the refinement answered fields resolve to: an unknown kind
/// dropped, list entries trimmed and blank ones dropped, and at most
/// [`MAX_FOCUS_HINTS`] hints kept.
pub open spec fn refinement_from(
    r: ProfileRefinement,
    kind: Option<String>,
    excludes: Seq<Option<String>>,
    summary: Option<String>,
    focus_hints: Seq<Option<String>>,
) -> bool {
    &&& r.kind == match kind {
        Some(k) => ProjectKind::from_word(word_key(k@)),
        None => None,
    }
    &&& strs(r.excludes@) == kept_strings(excludes)
    &&& opt_view(r.summary) == field(summary)
    &&& strs(r.focus_hints@) == ({
        let all = kept_strings(focus_hints);
        if all.len() <= MAX_FOCUS_HINTS {
            all
        } else {
            all.take(MAX_FOCUS_HINTS as int)
        }
    })
}

/// Resolve a refinement answer: an unknown kind is dropped, list entries
/// are trimmed and blank ones dropped, and at most [`MAX_FOCUS_HINTS`]
/// hints are kept.
pub fn resolve_refinement(raw: &RawRefinement) -> (r: ProfileRefinement)
    ensures
        refinement_from(r, raw.kind, raw.excludes@, raw.summary, raw.focus_hints@),
{
    let kind = match &raw.kind {
        Some(k) => ProjectKind::parse(k.as_str()),
        None => None,
    };
    let hints = kept_strings_of(&raw.focus_hints);
    let mut focus_hints: Vec<String> = Vec::new();
    let mut i: usize = 0;
    while i < hints.len() && i < MAX_FOCUS_HINTS
        invariant
            i <= hints.len(),
            i <= MAX_FOCUS_HINTS,
            strs(focus_hints@) == strs(hints@).take(i as int),
        decreases hints.len() - i,
    {
        let ghost before = focus_hints@;
        focus_hints.push(hints[i].clone());
        assert(strs(focus_hints@) =~= strs(before).push(hints@[i as int]@));
        assert(strs(hints@).take(i + 1) =~= strs(hints@).take(i as int).push(strs(hints@)[i as int]));
        i = i + 1;
    }
    proof {
        if strs(hints@).len() <= MAX_FOCUS_HINTS {
            assert(strs(hints@).take(i as int) =~= strs(hints@));
        }
    }
    ProfileRefinement {
        kind,
        excludes: kept_strings_of(&raw.excludes),
        summary: field_of(&raw.summary),
        focus_hints,
    }
}


/// How the refinement prompt opens.
pub const PROFILE_PROMPT_HEAD: &'static str = "You are Ken, refining a project profile that tunes search chunking and knowledge extraction for this project. You will not modify anything \u{2014} just describe what you see.\n\n";

/// Said after the file count of a scan that hit its cap.
pub const TRUNCATED_NOTE: &'static str = " (truncated at the scan cap)";

/// Heads the tree sample in the refinement prompt.
pub const TREE_HEAD: &'static str = "Top-level tree (directories first, largest by bytes):\n";

/// The answer format and rules the refinement prompt ends with.
pub const PROFILE_PROMPT_TAIL: &'static str = "\nOutput ONLY a JSON object \u{2014} no prose before or after, no code fences \u{2014} shaped exactly like this:\n{\n  \"kind\": \"code|docs|mixed|media\",\n  \"summary\": \"one paragraph describing what this project is\",\n  \"excludes\": [\"generated-or-vendored-dir\"],\n  \"focus_hints\": [\"topic the knowledge extraction should prioritize\"]\n}\n\nRules:\n- excludes are ADDITIVE ONLY \u{2014} suggest a directory only if it is visible in the tree above and is not already an obvious build-output dir (target, node_modules, dist, build, vendor, bin, obj).\n- Every field is optional; omit any you have no opinion on.\n- Keep summary to one paragraph and focus_hints to a few short topics.\n";

/// `- <line>` for each line, each ended by a line break.
pub open spec fn dash_lines(lines: Seq<Seq<char>>) -> Seq<char>
    decreases lines.len(),
{
    if lines.len() == 0 {
        seq![]
    } else {
        dash_lines(lines.drop_last()) + "- "@ + lines.last() + "\n"@
    }
}

/// The refinement prompt: the scan's file count and markers, the
/// document share of document and code bytes (as the caller rendered
/// it), the tree sample (at most [`MAX_TREE_SAMPLE_LINES`] lines), and
/// the answer format.
pub open spec fn profile_prompt(stats: ScanStats, sample: Seq<Seq<char>>, doc_percent: Seq<char>) -> Seq<char> {
    PROFILE_PROMPT_HEAD@ + "Files scanned: "@ + dec(stats.total_files as nat) + (if stats.truncated {
        TRUNCATED_NOTE@
    } else {
        seq![]
    }) + "\n"@ + "Repo markers: "@ + (if stats.markers@.len() == 0 {
        "none"@
    } else {
        join(strs(stats.markers@), ", "@)
    }) + "\n"@ + "Doc-vs-code byte ratio: "@ + doc_percent + "% doc\n\n"@ + TREE_HEAD@ + (if sample.len()
        == 0 {
        "- (empty)\n"@
    } else {
        seq![]
    }) + dash_lines(
        if sample.len() > MAX_TREE_SAMPLE_LINES {
            sample.take(MAX_TREE_SAMPLE_LINES as int)
        } else {
            sample
        },
    ) + PROFILE_PROMPT_TAIL@
}

/// The prompt that asks a model to refine a project's profile.
/// `doc_percent` is the document share of document and code bytes,
/// already rendered as a whole percent.
pub fn compose_profile_prompt(stats: &ScanStats, tree_sample: &[String], doc_percent: &str) -> (r: String)
    ensures
        r@ == profile_prompt(*stats, strs(tree_sample@), doc_percent@),
{
    let ghost sample = strs(tree_sample@);
    let mut out: Vec<char> = Vec::new();
    push_str(&mut out, PROFILE_PROMPT_HEAD);
    push_str(&mut out, "Files scanned: ");
    push_all(&mut out, &dec_u64(stats.total_files as u64));
    if stats.truncated {
        push_str(&mut out, TRUNCATED_NOTE);
    }
    push_str(&mut out, "\n");
    push_str(&mut out, "Repo markers: ");
    if stats.markers.len() == 0 {
        push_str(&mut out, "none");
    } else {
        let j = join_vec(&stats.markers, ", ");
        push_all(&mut out, &j);
    }
    push_str(&mut out, "\n");
    push_str(&mut out, "Doc-vs-code byte ratio: ");
    push_str(&mut out, doc_percent);
    push_str(&mut out, "% doc\n\n");
    push_str(&mut out, TREE_HEAD);
    if tree_sample.len() == 0 {
        push_str(&mut out, "- (empty)\n");
    }
    let n: usize = if tree_sample.len() > MAX_TREE_SAMPLE_LINES {
        MAX_TREE_SAMPLE_LINES
    } else {
        tree_sample.len()
    };
    let ghost shown = sample.take(n as int);
    assert(shown =~= if sample.len() > MAX_TREE_SAMPLE_LINES {
        sample.take(MAX_TREE_SAMPLE_LINES as int)
    } else {
        sample
    });
    let ghost pre = out@;
    assert(shown.take(0) =~= Seq::<Seq<char>>::empty());
    assert(out@ =~= pre + dash_lines(shown.take(0)));
    let mut k: usize = 0;
    while k < n
        invariant
            k <= n <= tree_sample@.len(),
            sample == strs(tree_sample@),
            shown == sample.take(n as int),
            out@ == pre + dash_lines(shown.take(k as int)),
        decreases n - k,
    {
        let ghost before = out@;
        push_str(&mut out, "- ");
        let line = chars_of(tree_sample[k].as_str());
        push_all(&mut out, &line);
        push_str(&mut out, "\n");
        proof {
            assert(shown.take(k + 1).drop_last() =~= shown.take(k as int));
            assert(shown.take(k + 1).last() == line@);
            assert(out@ =~= pre + dash_lines(shown.take(k + 1)));
        }
        k = k + 1;
    }
    assert(shown.take(n as int) =~= shown);
    push_str(&mut out, PROFILE_PROMPT_TAIL);
    string_of(out.as_slice())
}

/// Read a refinement answer: the span from the first `{` to the last `}`
/// is read as JSON and its fields resolved; an answer with no such span,
/// or one that is not valid JSON, is the empty refinement.
pub fn parse_profile_refinement(raw: &str) -> (r: ProfileRefinement)
    ensures
        match json_span(raw@) {
            Some(t) => match json_parse(t) {
                Ok(v) => refinement_from(
                    r,
                    text_field(v, "kind"@),
                    text_items(v, "excludes"@),
                    text_field(v, "summary"@),
                    text_items(v, "focus_hints"@),
                ),
                Err(_) => r.kind.is_none() && r.excludes@.len() == 0 && r.summary.is_none()
                    && r.focus_hints@.len() == 0,
            },
            None => r.kind.is_none() && r.excludes@.len() == 0 && r.summary.is_none()
                && r.focus_hints@.len() == 0,
        },
{
    let text = match json_object_text(raw) {
        Some(t) => t,
        None => return ProfileRefinement::default(),
    };
    match parse_json(text.as_str()) {
        Ok(v) => resolve_refinement(
            &RawRefinement {
                kind: text_at(&v, "kind"),
                excludes: texts_at(&v, "excludes"),
                summary: text_at(&v, "summary"),
                focus_hints: texts_at(&v, "focus_hints"),
            },
        ),
        Err(_) => ProfileRefinement::default(),
    }
}

} // verus!
