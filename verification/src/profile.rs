//! A project's profile as the profiler keeps it: what kind of project it
//! is, what to leave out, what to focus on. A refinement only ever adds
//! to it; the prompt addendum is what the knowledge model is told.
use vstd::prelude::*;
use crate::pipeline::graph::{join, join_vec, strs};
use crate::profile_scan::{dir_step, dir_view, distinct_keys, key_pos_dir, lemma_key_at_none, lemma_key_at_some, top_by_bytes, top_head};
use crate::profiler::{ExtStat, ProfileRefinement, ProjectKind, ScanStats};
use crate::text::{chars_of, lower_c, lower_s, lower_vec, push_all, push_str, string_of, str_eq, sub_vec, trim_char, trim_char_str, trim_vec, trim_ws, vec_eq};
use crate::knowledge_model::last_index;

verus! {

/// A project's profile, without its chunking table.
#[derive(Debug, Clone, PartialEq, Eq)]
pub struct ProjectProfile {
    pub kind: ProjectKind,
    pub summary: String,
    pub languages: Vec<String>,
    /// Additive-only exclusions, project-relative with a trailing `/`.
    pub excludes: Vec<String>,
    pub focus_hints: Vec<String>,
    /// The hash of the content as of Ken's last write.
    pub generated_hash: String,
}

impl Default for ProjectProfile {
    fn default() -> (r: Self)
        ensures
            r.kind == ProjectKind::Mixed,
            r.summary@.len() == 0 && r.languages@.len() == 0 && r.excludes@.len() == 0,
            r.focus_hints@.len() == 0 && r.generated_hash@.len() == 0,
    {
        ProjectProfile {
            kind: ProjectKind::Mixed,
            summary: String::new(),
            languages: Vec::new(),
            excludes: Vec::new(),
            focus_hints: Vec::new(),
            generated_hash: String::new(),
        }
    }
}

/// The hints after adding the first `n` of `new`, each once.
pub open spec fn with_hints(old: Seq<Seq<char>>, new: Seq<Seq<char>>, n: int) -> Seq<Seq<char>>
    decreases n,
{
    if n <= 0 {
        old
    } else {
        let prev = with_hints(old, new, n - 1);
        if prev.contains(new[n - 1]) {
            prev
        } else {
            prev.push(new[n - 1])
        }
    }
}

/// The excludes after weighing the first `n` suggestions: a suggestion
/// is kept (slashes around it dropped, one `/` after it) unless it is
/// blank, already present however slashed, or not `ok`: an existing folder
/// with no repository marker directly in it.
pub open spec fn with_excludes(old: Seq<Seq<char>>, new: Seq<Seq<char>>, ok: Seq<bool>, n: int) -> Seq<Seq<char>>
    decreases n,
{
    if n <= 0 {
        old
    } else {
        let prev = with_excludes(old, new, ok, n - 1);
        let norm = trim_char(new[n - 1], '/');
        if norm.len() == 0 || (exists|j: int| 0 <= j < prev.len() && trim_char(#[trigger] prev[j], '/') == norm)
            || !ok[n - 1] {
            prev
        } else {
            prev.push(norm + "/"@)
        }
    }
}

fn has_hint(v: &Vec<String>, s: &String) -> (r: bool)
    ensures
        r == strs(v@).contains(s@),
{
    let mut i: usize = 0;
    while i < v.len()
        invariant
            i <= v.len(),
            forall|k: int| 0 <= k < i ==> v@[k]@ != s@,
        decreases v.len() - i,
    {
        if str_eq(v[i].as_str(), s.as_str()) {
            assert(strs(v@)[i as int] == s@);
            return true;
        }
        i = i + 1;
    }
    proof {
        if strs(v@).contains(s@) {
            let k = choose|k: int| 0 <= k < strs(v@).len() && strs(v@)[k] == s@;
            assert(v@[k]@ == s@);
        }
    }
    false
}

fn has_exclude(v: &Vec<String>, norm: &Vec<char>) -> (r: bool)
    ensures
        r == exists|j: int| 0 <= j < strs(v@).len() && trim_char(#[trigger] strs(v@)[j], '/') == norm@,
{
    let mut i: usize = 0;
    while i < v.len()
        invariant
            i <= v.len(),
            forall|k: int| 0 <= k < i ==> trim_char(#[trigger] strs(v@)[k], '/') != norm@,
        decreases v.len() - i,
    {
        let t = trim_char_str(v[i].as_str(), '/');
        assert(strs(v@)[i as int] == v@[i as int]@);
        if vec_eq(&t, norm) {
            return true;
        }
        i = i + 1;
    }
    false
}

/// Merge a refinement into `profile`: its kind and summary, when given,
/// replace the profile's; its focus hints are added, each once; its
/// exclude suggestions are weighed one by one (see [`with_excludes`]),
/// `dir_ok[i]` telling whether suggestion `i` names an existing folder
/// under the project root with no repository marker directly in it.
/// Nothing is ever removed.
pub fn apply_refinement(profile: &mut ProjectProfile, refinement: &ProfileRefinement, dir_ok: &[bool])
    requires
        dir_ok@.len() == refinement.excludes@.len(),
    ensures
        final(profile).kind == match refinement.kind {
            Some(k) => k,
            None => old(profile).kind,
        },
        final(profile).summary@ == match refinement.summary {
            Some(s) => s@,
            None => old(profile).summary@,
        },
        strs(final(profile).focus_hints@) == with_hints(
            strs(old(profile).focus_hints@),
            strs(refinement.focus_hints@),
            refinement.focus_hints@.len() as int,
        ),
        strs(final(profile).excludes@) == with_excludes(
            strs(old(profile).excludes@),
            strs(refinement.excludes@),
            dir_ok@,
            refinement.excludes@.len() as int,
        ),
        final(profile).languages == old(profile).languages,
        final(profile).generated_hash == old(profile).generated_hash,
{
    if let Some(k) = refinement.kind {
        profile.kind = k;
    }
    if let Some(s) = &refinement.summary {
        profile.summary = s.clone();
    }
    let ghost hints0 = strs(profile.focus_hints@);
    let mut i: usize = 0;
    while i < refinement.focus_hints.len()
        invariant
            i <= refinement.focus_hints@.len(),
            strs(profile.focus_hints@) == with_hints(hints0, strs(refinement.focus_hints@), i as int),
            profile.languages == old(profile).languages,
            profile.generated_hash == old(profile).generated_hash,
            profile.excludes == old(profile).excludes,
            profile.kind == match refinement.kind {
                Some(k) => k,
                None => old(profile).kind,
            },
            profile.summary@ == match refinement.summary {
                Some(s) => s@,
                None => old(profile).summary@,
            },
        decreases refinement.focus_hints.len() - i,
    {
        let h = &refinement.focus_hints[i];
        assert(strs(refinement.focus_hints@)[i as int] == h@);
        if !has_hint(&profile.focus_hints, h) {
            let ghost before = strs(profile.focus_hints@);
            profile.focus_hints.push(h.clone());
            assert(strs(profile.focus_hints@) =~= before.push(h@));
        }
        i = i + 1;
    }
    let ghost ex0 = strs(profile.excludes@);
    let mut j: usize = 0;
    while j < refinement.excludes.len()
        invariant
            j <= refinement.excludes@.len(),
            dir_ok@.len() == refinement.excludes@.len(),
            ex0 == strs(old(profile).excludes@),
            strs(profile.excludes@) == with_excludes(ex0, strs(refinement.excludes@), dir_ok@, j as int),
            strs(profile.focus_hints@) == with_hints(
                strs(old(profile).focus_hints@),
                strs(refinement.focus_hints@),
                refinement.focus_hints@.len() as int,
            ),
            profile.languages == old(profile).languages,
            profile.generated_hash == old(profile).generated_hash,
            profile.kind == match refinement.kind {
                Some(k) => k,
                None => old(profile).kind,
            },
            profile.summary@ == match refinement.summary {
                Some(s) => s@,
                None => old(profile).summary@,
            },
        decreases refinement.excludes.len() - j,
    {
        let c = &refinement.excludes[j];
        assert(strs(refinement.excludes@)[j as int] == c@);
        let norm = trim_char_str(c.as_str(), '/');
        if norm.len() > 0 && !has_exclude(&profile.excludes, &norm) && dir_ok[j] {
            let mut entry = norm.clone();
            entry.push('/');
            assert(entry@ =~= norm@ + "/"@) by {
                reveal_strlit("/");
            }
            let ghost before = strs(profile.excludes@);
            profile.excludes.push(string_of(entry.as_slice()));
            assert(strs(profile.excludes@) =~= before.push(entry@));
        }
        j = j + 1;
    }
    assert(hints0 == strs(old(profile).focus_hints@));
}

proof fn lemma_with_excludes_extends(old: Seq<Seq<char>>, new: Seq<Seq<char>>, ok: Seq<bool>, n: int)
    ensures
        old.len() <= with_excludes(old, new, ok, n).len(),
        with_excludes(old, new, ok, n).take(old.len() as int) == old,
    decreases n,
{
    if n > 0 {
        lemma_with_excludes_extends(old, new, ok, n - 1);
        let prev = with_excludes(old, new, ok, n - 1);
        let norm = trim_char(new[n - 1], '/');
        if !(norm.len() == 0 || (exists|j: int| 0 <= j < prev.len() && trim_char(#[trigger] prev[j], '/') == norm)
            || !ok[n - 1]) {
            assert(prev.push(norm + "/"@).take(old.len() as int) =~= prev.take(old.len() as int));
        }
    } else {
        assert(old.take(old.len() as int) =~= old);
    }
}

/// A refinement never removes an exclusion: whatever it suggests, the
/// exclusions before it stay, in order, at the front of the list.
pub proof fn law_refinement_only_adds_excludes(old: Seq<Seq<char>>, new: Seq<Seq<char>>, ok: Seq<bool>)
    ensures
        old.len() <= with_excludes(old, new, ok, new.len() as int).len(),
        with_excludes(old, new, ok, new.len() as int).take(old.len() as int) == old,
{
    lemma_with_excludes_extends(old, new, ok, new.len() as int);
}

/// The most characters the prompt addendum may hold.
pub const PROFILE_PROMPT_ADDENDUM_CHAR_CAP: usize = 500;

/// `Project summary: <summary>` and `Focus areas: <hints>` lines, each
/// only when there is something to say, cut to
/// [`PROFILE_PROMPT_ADDENDUM_CHAR_CAP`] characters; empty when there is
/// neither.
pub open spec fn addendum(p: ProjectProfile) -> Seq<char> {
    let summary = trim_ws(p.summary@);
    let hints = strs(p.focus_hints@);
    let full = (if summary.len() > 0 {
        "Project summary: "@ + summary + "\n"@
    } else {
        seq![]
    }) + (if hints.len() > 0 {
        "Focus areas: "@ + join(hints, ", "@) + "\n"@
    } else {
        seq![]
    });
    if full.len() > PROFILE_PROMPT_ADDENDUM_CHAR_CAP {
        full.take(PROFILE_PROMPT_ADDENDUM_CHAR_CAP as int)
    } else {
        full
    }
}

/// What the profile adds to the knowledge model's extraction prompt.
pub fn profile_prompt_addendum(profile: &ProjectProfile) -> (r: String)
    ensures
        r@ == addendum(*profile),
{
    let summary = trim_vec(&chars_of(profile.summary.as_str()));
    let mut s: Vec<char> = Vec::new();
    if summary.len() > 0 {
        push_str(&mut s, "Project summary: ");
        push_all(&mut s, &summary);
        push_str(&mut s, "\n");
    }
    if profile.focus_hints.len() > 0 {
        push_str(&mut s, "Focus areas: ");
        let j = join_vec(&profile.focus_hints, ", ");
        push_all(&mut s, &j);
        push_str(&mut s, "\n");
    }
    if s.len() > PROFILE_PROMPT_ADDENDUM_CHAR_CAP {
        let cut = sub_vec(&s, 0, PROFILE_PROMPT_ADDENDUM_CHAR_CAP);
        assert(cut@ =~= s@.take(PROFILE_PROMPT_ADDENDUM_CHAR_CAP as int));
        return string_of(cut.as_slice());
    }
    string_of(s.as_slice())
}


/// The folders a repository marker's build tooling fills with output.
pub open spec fn marker_dirs(m: Seq<char>) -> Seq<Seq<char>> {
    if m == "Cargo.toml"@ {
        seq!["target"@]
    } else if m == "package.json"@ {
        seq!["node_modules"@, "dist"@, "build"@]
    } else if m == "pyproject.toml"@ {
        seq!["__pycache__"@, "venv"@, ".venv"@, "dist"@, "build"@]
    } else if m == "go.mod"@ {
        seq!["vendor"@]
    } else if m == "pom.xml"@ {
        seq!["target"@]
    } else if m == "build.gradle"@ {
        seq!["build"@, ".gradle"@]
    } else if m == "*.sln"@ {
        seq!["bin"@, "obj"@]
    } else {
        seq![]
    }
}

fn lits(items: &[&str]) -> (r: Vec<String>)
    ensures
        r@.len() == items@.len(),
        forall|i: int| 0 <= i < items@.len() ==> #[trigger] r@[i]@ == items@[i]@,
{
    let mut out: Vec<String> = Vec::new();
    let mut i: usize = 0;
    while i < items.len()
        invariant
            i <= items.len(),
            out@.len() == i,
            forall|k: int| 0 <= k < i ==> #[trigger] out@[k]@ == items@[k]@,
        decreases items.len() - i,
    {
        out.push(crate::text::str_of_lit(items[i]));
        i = i + 1;
    }
    out
}

fn marker_dirs_of(m: &str) -> (r: Vec<String>)
    ensures
        strs(r@) == marker_dirs(m@),
{
    let r = if str_eq(m, "Cargo.toml") {
        lits(&["target"])
    } else if str_eq(m, "package.json") {
        lits(&["node_modules", "dist", "build"])
    } else if str_eq(m, "pyproject.toml") {
        lits(&["__pycache__", "venv", ".venv", "dist", "build"])
    } else if str_eq(m, "go.mod") {
        lits(&["vendor"])
    } else if str_eq(m, "pom.xml") {
        lits(&["target"])
    } else if str_eq(m, "build.gradle") {
        lits(&["build", ".gradle"])
    } else if str_eq(m, "*.sln") {
        lits(&["bin", "obj"])
    } else {
        Vec::new()
    };
    assert(strs(r@) =~= marker_dirs(m@));
    r
}

/// `out` with `<dir>/` added for each of the first `n` dirs not yet in it.
pub open spec fn add_dirs(out: Seq<Seq<char>>, dirs: Seq<Seq<char>>, n: int) -> Seq<Seq<char>>
    decreases n,
{
    if n <= 0 {
        out
    } else {
        let prev = add_dirs(out, dirs, n - 1);
        let e = dirs[n - 1] + "/"@;
        if prev.contains(e) {
            prev
        } else {
            prev.push(e)
        }
    }
}

/// The build-output folders the first `n` markers imply, each once, in
/// marker order.
pub open spec fn marker_excludes_upto(markers: Seq<Seq<char>>, n: int) -> Seq<Seq<char>>
    decreases n,
{
    if n <= 0 {
        seq![]
    } else {
        let prev = marker_excludes_upto(markers, n - 1);
        add_dirs(prev, marker_dirs(markers[n - 1]), marker_dirs(markers[n - 1]).len() as int)
    }
}

fn contains_string(v: &Vec<String>, s: &Vec<char>) -> (r: bool)
    ensures
        r == strs(v@).contains(s@),
{
    let mut i: usize = 0;
    while i < v.len()
        invariant
            i <= v.len(),
            forall|k: int| 0 <= k < i ==> v@[k]@ != s@,
        decreases v.len() - i,
    {
        if vec_eq(&chars_of(v[i].as_str()), s) {
            assert(strs(v@)[i as int] == s@);
            return true;
        }
        i = i + 1;
    }
    proof {
        if strs(v@).contains(s@) {
            let k = choose|k: int| 0 <= k < strs(v@).len() && strs(v@)[k] == s@;
            assert(v@[k]@ == s@);
        }
    }
    false
}

/// The build-output folders (`<dir>/`) the scan's repository markers
/// imply, each once, in marker order.
pub fn marker_excludes(stats: &ScanStats) -> (r: Vec<String>)
    ensures
        strs(r@) == marker_excludes_upto(strs(stats.markers@), stats.markers@.len() as int),
{
    let ghost ms = strs(stats.markers@);
    let mut out: Vec<String> = Vec::new();
    let mut i: usize = 0;
    while i < stats.markers.len()
        invariant
            i <= stats.markers@.len(),
            ms == strs(stats.markers@),
            strs(out@) == marker_excludes_upto(ms, i as int),
        decreases stats.markers.len() - i,
    {
        assert(ms[i as int] == stats.markers@[i as int]@);
        let dirs = marker_dirs_of(stats.markers[i].as_str());
        let ghost base = strs(out@);
        let mut k: usize = 0;
        while k < dirs.len()
            invariant
                k <= dirs@.len(),
                strs(out@) == add_dirs(base, strs(dirs@), k as int),
            decreases dirs.len() - k,
        {
            let mut e = chars_of(dirs[k].as_str());
            e.push('/');
            assert(e@ =~= strs(dirs@)[k as int] + "/"@) by {
                reveal_strlit("/");
            }
            if !contains_string(&out, &e) {
                let ghost before = strs(out@);
                out.push(string_of(e.as_slice()));
                assert(strs(out@) =~= before.push(e@));
            }
            k = k + 1;
        }
        i = i + 1;
    }
    out
}

/// The programming language an extension is written in, if it names one.
pub open spec fn ext_language(ext: Seq<char>) -> Option<Seq<char>> {
    if ext == "rs"@ {
        Some("Rust"@)
    } else if ext == "ts"@ {
        Some("TypeScript"@)
    } else if ext == "tsx"@ {
        Some("TypeScript"@)
    } else if ext == "js"@ {
        Some("JavaScript"@)
    } else if ext == "jsx"@ {
        Some("JavaScript"@)
    } else if ext == "mjs"@ {
        Some("JavaScript"@)
    } else if ext == "cjs"@ {
        Some("JavaScript"@)
    } else if ext == "py"@ {
        Some("Python"@)
    } else if ext == "go"@ {
        Some("Go"@)
    } else if ext == "java"@ {
        Some("Java"@)
    } else if ext == "c"@ {
        Some("C"@)
    } else if ext == "h"@ {
        Some("C"@)
    } else if ext == "cc"@ {
        Some("C++"@)
    } else if ext == "cpp"@ {
        Some("C++"@)
    } else if ext == "hpp"@ {
        Some("C++"@)
    } else if ext == "cs"@ {
        Some("C#"@)
    } else if ext == "rb"@ {
        Some("Ruby"@)
    } else if ext == "php"@ {
        Some("PHP"@)
    } else if ext == "swift"@ {
        Some("Swift"@)
    } else if ext == "kt"@ {
        Some("Kotlin"@)
    } else if ext == "kts"@ {
        Some("Kotlin"@)
    } else if ext == "sql"@ {
        Some("SQL"@)
    } else if ext == "sh"@ {
        Some("Shell"@)
    } else if ext == "bash"@ {
        Some("Shell"@)
    } else if ext == "ps1"@ {
        Some("PowerShell"@)
    } else if ext == "svelte"@ {
        Some("Svelte"@)
    } else if ext == "vue"@ {
        Some("Vue"@)
    } else {
        None
    }
}

fn language_of(ext: &str) -> (r: Option<&'static str>)
    ensures
        match r {
            Some(l) => ext_language(ext@) == Some(l@),
            None => ext_language(ext@).is_none(),
        },
{
    if str_eq(ext, "rs") {
        Some("Rust")
    } else if str_eq(ext, "ts") {
        Some("TypeScript")
    } else if str_eq(ext, "tsx") {
        Some("TypeScript")
    } else if str_eq(ext, "js") {
        Some("JavaScript")
    } else if str_eq(ext, "jsx") {
        Some("JavaScript")
    } else if str_eq(ext, "mjs") {
        Some("JavaScript")
    } else if str_eq(ext, "cjs") {
        Some("JavaScript")
    } else if str_eq(ext, "py") {
        Some("Python")
    } else if str_eq(ext, "go") {
        Some("Go")
    } else if str_eq(ext, "java") {
        Some("Java")
    } else if str_eq(ext, "c") {
        Some("C")
    } else if str_eq(ext, "h") {
        Some("C")
    } else if str_eq(ext, "cc") {
        Some("C++")
    } else if str_eq(ext, "cpp") {
        Some("C++")
    } else if str_eq(ext, "hpp") {
        Some("C++")
    } else if str_eq(ext, "cs") {
        Some("C#")
    } else if str_eq(ext, "rb") {
        Some("Ruby")
    } else if str_eq(ext, "php") {
        Some("PHP")
    } else if str_eq(ext, "swift") {
        Some("Swift")
    } else if str_eq(ext, "kt") {
        Some("Kotlin")
    } else if str_eq(ext, "kts") {
        Some("Kotlin")
    } else if str_eq(ext, "sql") {
        Some("SQL")
    } else if str_eq(ext, "sh") {
        Some("Shell")
    } else if str_eq(ext, "bash") {
        Some("Shell")
    } else if str_eq(ext, "ps1") {
        Some("PowerShell")
    } else if str_eq(ext, "svelte") {
        Some("Svelte")
    } else if str_eq(ext, "vue") {
        Some("Vue")
    } else {
        None
    }
}

/// Sizes of every extension entry, added up over the first `n`.
pub open spec fn ext_bytes(exts: Seq<(String, ExtStat)>, n: int) -> int
    decreases n,
{
    if n <= 0 {
        0
    } else {
        ext_bytes(exts, n - 1) + exts[n - 1].1.bytes
    }
}

/// Bytes per language over the first `n` extension entries, each
/// language where it first occurred.
pub open spec fn lang_groups(exts: Seq<(String, ExtStat)>, n: int) -> Seq<(Seq<char>, int)>
    decreases n,
{
    if n <= 0 {
        seq![]
    } else {
        let prev = lang_groups(exts, n - 1);
        match ext_language(exts[n - 1].0@) {
            Some(l) => dir_step(prev, l, exts[n - 1].1.bytes as int),
            None => prev,
        }
    }
}

/// The languages a profile names: at most this many.
pub const MAX_LANGUAGES: usize = 6;

/// The scan's programming languages, most bytes first (ties by name), at
/// most [`MAX_LANGUAGES`].
pub fn guess_languages(stats: &ScanStats) -> (r: Vec<String>)
    requires
        ext_bytes(stats.extensions@, stats.extensions@.len() as int) <= u64::MAX,
    ensures
        exists|top: Seq<(Seq<char>, int)>|
            top_head(lang_groups(stats.extensions@, stats.extensions@.len() as int), top, MAX_LANGUAGES as nat)
                && #[trigger] strs(r@) == top.map_values(|p: (Seq<char>, int)| p.0),
{
    let ghost exts = stats.extensions@;
    let mut groups: Vec<(String, u64)> = Vec::new();
    let mut total: u64 = 0;
    assert(dir_view(groups@) =~= lang_groups(exts, 0));
    let mut i: usize = 0;
    while i < stats.extensions.len()
        invariant
            i <= stats.extensions@.len(),
            exts == stats.extensions@,
            ext_bytes(exts, exts.len() as int) <= u64::MAX,
            total == ext_bytes(exts, i as int),
            dir_view(groups@) == lang_groups(exts, i as int),
            distinct_keys(dir_view(groups@)),
            forall|k: int| 0 <= k < groups@.len() ==> (#[trigger] groups@[k]).1 <= total,
        decreases stats.extensions.len() - i,
    {
        proof {
            lemma_ext_bytes_mono(exts, i + 1, exts.len() as int);
        }
        let b = stats.extensions[i].1.bytes;
        total = total + b;
        match language_of(stats.extensions[i].0.as_str()) {
            Some(lang) => {
                let key = chars_of(lang);
                let ghost before = dir_view(groups@);
                match key_pos_dir(&groups, &key) {
                    Some(k) => {
                        proof {
                            lemma_key_at_some(before, key@, 0);
                        }
                        let old = groups[k].1;
                        groups.set(k, (string_of(key.as_slice()), old + b));
                        assert(dir_view(groups@) =~= before.update(k as int, (key@, before[k as int].1 + b)));
                        assert forall|a: int, c: int| 0 <= a < c < dir_view(groups@).len() implies #[trigger] dir_view(groups@)[a].0
                            != #[trigger] dir_view(groups@)[c].0 by {
                            assert(before[a].0 != before[c].0);
                        }
                    },
                    None => {
                        proof {
                            lemma_key_at_none(before, key@, 0);
                        }
                        groups.push((string_of(key.as_slice()), b));
                        assert(dir_view(groups@) =~= before.push((key@, b as int)));
                    },
                }
            },
            None => {},
        }
        i = i + 1;
    }
    let top = top_by_bytes(&groups, MAX_LANGUAGES);
    let mut out: Vec<String> = Vec::new();
    let mut k: usize = 0;
    while k < top.len()
        invariant
            k <= top@.len(),
            out@.len() == k,
            forall|j: int| 0 <= j < k ==> #[trigger] out@[j]@ == dir_view(top@)[j].0,
        decreases top.len() - k,
    {
        out.push(top[k].0.clone());
        k = k + 1;
    }
    assert(strs(out@) =~= dir_view(top@).map_values(|p: (Seq<char>, int)| p.0));
    out
}

proof fn lemma_ext_bytes_mono(exts: Seq<(String, ExtStat)>, n: int, m: int)
    requires
        0 <= n <= m,
    ensures
        ext_bytes(exts, n) <= ext_bytes(exts, m),
    decreases m - n,
{
    if n < m {
        lemma_ext_bytes_mono(exts, n, m - 1);
    }
}

// ---------------------------------------------------------------------
// Chunking by extension pattern
// ---------------------------------------------------------------------

/// One extension pattern (`*.<ext>`) and the chunking profile `P` files
/// matching it get.
#[derive(Debug, Clone, PartialEq, Eq)]
pub struct PatternProfile<P> {
    pub pattern: String,
    pub profile: P,
}

/// What follows the last `.` of `rel`, or all of `rel` when it has none,
/// lower-cased.
pub open spec fn chunk_ext(rel: Seq<char>) -> Seq<char> {
    lower_s(
        match last_index(rel, '.', rel.len() as int) {
            Some(k) => rel.skip(k + 1),
            None => rel,
        },
    )
}

/// `pattern` is `*.` followed by `ext`, ignoring ASCII case.
pub open spec fn pattern_matches(pattern: Seq<char>, ext: Seq<char>) -> bool {
    pattern.len() >= 2 && pattern[0] == '*' && pattern[1] == '.' && lower_s(pattern.skip(2)) == lower_s(ext)
}

/// The first of `ps` whose pattern matches `ext`.
pub open spec fn first_pattern<P>(ps: Seq<PatternProfile<P>>, ext: Seq<char>) -> Option<int>
    decreases ps.len(),
{
    if ps.len() == 0 {
        None
    } else if pattern_matches(ps[0].pattern@, ext) {
        Some(0)
    } else {
        match first_pattern(ps.drop_first(), ext) {
            Some(i) => Some(i + 1),
            None => None,
        }
    }
}

proof fn lemma_first_pattern_range<P>(ps: Seq<PatternProfile<P>>, ext: Seq<char>)
    ensures
        first_pattern(ps, ext) matches Some(i) ==> 0 <= i < ps.len(),
    decreases ps.len(),
{
    if ps.len() > 0 {
        lemma_first_pattern_range(ps.drop_first(), ext);
    }
}

proof fn lemma_lower_idem(s: Seq<char>)
    ensures
        lower_s(lower_s(s)) == lower_s(s),
{
    assert forall|i: int| 0 <= i < s.len() implies lower_c(lower_c(s[i])) == lower_c(s[i]) by {}
    assert(lower_s(lower_s(s)) =~= lower_s(s));
}

proof fn lemma_last_index_range(s: Seq<char>, c: char, n: int)
    ensures
        last_index(s, c, n) matches Some(k) ==> 0 <= k < n && k < s.len() && s[k] == c,
    decreases n,
{
    if n > 0 && n <= s.len() && s[n - 1] != c {
        lemma_last_index_range(s, c, n - 1);
    }
}

fn last_dot(v: &Vec<char>) -> (r: Option<usize>)
    ensures
        match r {
            Some(k) => k < v@.len() && last_index(v@, '.', v@.len() as int) == Some(k as int),
            None => last_index(v@, '.', v@.len() as int).is_none(),
        },
{
    let mut n: usize = v.len();
    while n > 0
        invariant
            n <= v.len(),
            last_index(v@, '.', v@.len() as int) == last_index(v@, '.', n as int),
        decreases n,
    {
        if v[n - 1] == '.' {
            return Some(n - 1);
        }
        n = n - 1;
    }
    None
}

/// The chunking profile for `rel_path`: that of the first pattern whose
/// extension equals the path's, ignoring ASCII case; none when the path
/// ends in a `.` or no pattern matches.
pub fn chunking_for<P: Copy>(chunking: &[PatternProfile<P>], rel_path: &str) -> (r: Option<P>)
    ensures
        chunk_ext(rel_path@).len() == 0 ==> r.is_none(),
        chunk_ext(rel_path@).len() > 0 ==> match first_pattern(chunking@, chunk_ext(rel_path@)) {
            Some(i) => 0 <= i < chunking@.len() && r == Some(chunking@[i].profile),
            None => r.is_none(),
        },
{
    proof {
        lemma_first_pattern_range(chunking@, chunk_ext(rel_path@));
    }
    let v = chars_of(rel_path);
    let seg = match last_dot(&v) {
        Some(k) => sub_vec(&v, k + 1, v.len()),
        None => sub_vec(&v, 0, v.len()),
    };
    proof {
        assert(v@.subrange(0, v@.len() as int) =~= v@);
        if let Some(k) = last_index(v@, '.', v@.len() as int) {
            lemma_last_index_range(v@, '.', v@.len() as int);
            assert(v@.subrange(k + 1, v@.len() as int) =~= v@.skip(k + 1));
        }
    }
    let ext = lower_vec(&seg);
    if ext.len() == 0 {
        return None;
    }
    let ghost e = ext@;
    proof {
        lemma_lower_idem(seg@);
        assert(chunking@.skip(0) =~= chunking@);
    }
    let mut i: usize = 0;
    while i < chunking.len()
        invariant
            i <= chunking.len(),
            e == ext@,
            e == chunk_ext(rel_path@),
            e.len() > 0,
            lower_s(e) == e,
            first_pattern(chunking@, e) == match first_pattern(chunking@.skip(i as int), e) {
                Some(j) => Some(j + i),
                None => None,
            },
        decreases chunking.len() - i,
    {
        let ghost rest = chunking@.skip(i as int);
        assert(rest.drop_first() =~= chunking@.skip(i + 1));
        assert(rest[0] == chunking@[i as int]);
        let p = chars_of(chunking[i].pattern.as_str());
        let mut matched = false;
        if p.len() >= 2 && p[0] == '*' && p[1] == '.' {
            let tail = lower_vec(&sub_vec(&p, 2, p.len()));
            assert(p@.subrange(2, p@.len() as int) =~= p@.skip(2));
            matched = vec_eq(&tail, &ext);
        }
        proof {
            lemma_lower_idem(seg@);
        }
        if matched {
            return Some(chunking[i].profile);
        }
        i = i + 1;
    }
    assert(chunking@.skip(chunking.len() as int) =~= Seq::<PatternProfile<P>>::empty());
    None
}

} // verus!
