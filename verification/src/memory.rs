//! Long-term memory's places and names, the distillation prompt, and the
//! workspace pseudo-member's reserved id and tier rules.
use vstd::prelude::*;
use crate::error::Error;
use crate::json::{array_at, array_field, json_parse, parse_json, text_at, text_field, text_items, texts_at, JsonValue};
use crate::kenignore::{Rule, Tier};
use crate::paths::{config_sub, config_sub_dir, join_path, path_join};
use vstd::string::StringSliceAdditionalSpecFns;
use vstd::utf8::encode_utf8;
use crate::knowledge_model::{field, json_object_text, json_span, kept_strings};
use crate::pipeline::artifacts::{lex_lt, vec_lt};
use crate::pipeline::graph::strs;
use crate::dates::{parse_iso_date, parse_iso_date_spec};
use crate::text::{
    chars_of, lines_spec, push_all, push_str, split_lines, string_of, sub_vec, trim_start_char,
    trim_start_char_vec, trim_vec, trim_ws, trimmed, str_of_lit, views,
};

verus! {

/// Candidates per distillation run, at most.
pub const MAX_DISTILL_CANDIDATES: usize = 5;

/// Characters of memory injected into a session, at most.
pub const INJECTION_BUDGET_CHARS: usize = 4000;

/// Days after which a journal file is archived.
pub const ARCHIVE_AFTER_DAYS: i64 = 30;

/// The host of every workspace-memory address (`ken://workspace/...`).
pub const WORKSPACE_ADDRESS_ID: &'static str = "workspace";

/// `<root>/.ken-workspace/memory`.
pub fn workspace_memory_dir(workspace_root: &str) -> (r: String)
    ensures
        r@ == config_sub(workspace_root@, "memory"@),
{
    config_sub_dir(workspace_root, "memory")
}

/// `<project>/.ken/memory`.
pub fn project_memory_dir(project_root: &str) -> (r: String)
    ensures
        r@ == join_path(join_path(project_root@, crate::project::CONFIG_DIR@), "memory"@),
{
    let d = path_join(project_root, crate::project::CONFIG_DIR);
    path_join(d.as_str(), "memory")
}

/// `<root>/.ken-workspace/journal`.
pub fn journal_dir(workspace_root: &str) -> (r: String)
    ensures
        r@ == config_sub(workspace_root@, "journal"@),
{
    config_sub_dir(workspace_root, "journal")
}

/// `<root>/.ken-workspace/journal/archive`.
pub fn journal_archive_dir(workspace_root: &str) -> (r: String)
    ensures
        r@ == join_path(config_sub(workspace_root@, "journal"@), "archive"@),
{
    let d = journal_dir(workspace_root);
    path_join(d.as_str(), "archive")
}

/// Where a memory lives: workspace-wide or in one project.
#[derive(Debug, Clone, Copy)]
pub enum MemoryScope<'a> {
    Workspace { workspace_root: &'a str },
    Project { project_root: &'a str },
}

impl<'a> MemoryScope<'a> {
    pub fn memory_dir(&self) -> (r: String)
        ensures
            match *self {
                MemoryScope::Workspace { workspace_root } => r@ == config_sub(workspace_root@, "memory"@),
                MemoryScope::Project { project_root } => r@ == join_path(
                    join_path(project_root@, crate::project::CONFIG_DIR@),
                    "memory"@,
                ),
            },
    {
        match self {
            MemoryScope::Workspace { workspace_root } => workspace_memory_dir(workspace_root),
            MemoryScope::Project { project_root } => project_memory_dir(project_root),
        }
    }
}

/// Whether a write must create a new memory or replace an existing one.
#[derive(Debug, Clone, Copy, PartialEq, Eq, Structural)]
pub enum WriteMode {
    /// The slug must not exist yet.
    Create,
    /// The slug must exist; the body is swapped and `updated` bumped.
    Replace,
}

/// One proposed long-term memory, awaiting approval.
#[derive(Debug, Clone, PartialEq, Eq)]
pub struct DistillCandidate {
    pub slug: String,
    pub description: String,
    pub body: String,
    pub sources: Vec<String>,
}

/// A plain, file-name-safe slug: not blank, no surrounding whitespace, no
/// path separator, not hidden.
pub open spec fn valid_slug(s: Seq<char>) -> bool {
    &&& trim_ws(s).len() > 0
    &&& trim_ws(s) == s
    &&& !s.contains('/')
    &&& !s.contains('\\')
    &&& !(s.len() > 0 && s[0] == '.')
}

pub open spec fn slug_message(s: Seq<char>) -> Seq<char> {
    "'"@ + s + "' is not a valid memory slug — use a simple file-name-safe slug"@
}

fn has_char(v: &Vec<char>, c: char) -> (r: bool)
    ensures
        r == v@.contains(c),
{
    let mut i: usize = 0;
    while i < v.len()
        invariant
            i <= v.len(),
            forall|j: int| 0 <= j < i ==> v@[j] != c,
        decreases v.len() - i,
    {
        if v[i] == c {
            assert(v@[i as int] == c);
            return true;
        }
        i = i + 1;
    }
    false
}

/// Accept a valid slug; refuse anything else with a message naming it.
pub fn validate_slug(slug: &str) -> (r: Result<(), Error>)
    ensures
        r.is_ok() == valid_slug(slug@),
        !valid_slug(slug@) ==> (r matches Err(Error::Other(m)) && m@ == slug_message(slug@)),
{
    let v = chars_of(slug);
    let t = crate::text::trim_vec(&v);
    let ok = t.len() > 0 && crate::text::vec_eq(&t, &v) && !has_char(&v, '/') && !has_char(&v, '\\')
        && !(v.len() > 0 && v[0] == '.');
    if ok {
        return Ok(());
    }
    let mut m: Vec<char> = Vec::new();
    push_str(&mut m, "'");
    push_str(&mut m, slug);
    push_str(&mut m, "' is not a valid memory slug — use a simple file-name-safe slug");
    Err(Error::Other(string_of(m.as_slice())))
}

pub const DISTILL_INTRO: &'static str = "You are Ken, distilling recent journal entries into candidate long-term memories — small, curated notes about ways of working, conventions, or standing decisions that keep recurring. Read the journal window below and propose AT MOST 5 candidates, only for themes that clearly recur or matter going forward; when in doubt, propose nothing.\n\nDo not repeat anything already captured — these memories already exist:\n";

pub const DISTILL_SHAPE: &'static str = "\nOutput ONLY a JSON object — no prose before or after, no code fences — shaped exactly like this:\n{\n  \"candidates\": [\n    {\n      \"slug\": \"kebab-case-file-name\",\n\"description\": \"one-line hook\",\n\"body\": \"the memory's full markdown body\",\n\"sources\": [\"journal/2026-07-24.md\"]\n    }\n  ]\n}\nAn empty \"candidates\" array is a completely valid answer.\n\nJournal window:\n";

/// `- <slug>: <description>` lines, one per existing memory.
pub open spec fn existing_lines(es: Seq<(String, String)>) -> Seq<char>
    decreases es.len(),
{
    if es.len() == 0 {
        seq![]
    } else {
        existing_lines(es.drop_last()) + "- "@ + es.last().0@ + ": "@ + es.last().1@ + "\n"@
    }
}

/// The distillation prompt: the instructions, the existing memories as a
/// dedupe guard (or `- none yet`), the answer's shape, then the journal
/// window.
pub open spec fn distill_prompt(window: Seq<char>, existing: Seq<(String, String)>) -> Seq<char> {
    DISTILL_INTRO@ + (if existing.len() == 0 {
        "- none yet\n"@
    } else {
        seq![]
    }) + existing_lines(existing) + DISTILL_SHAPE@ + window
}

pub fn compose_distill_prompt(journal_window: &str, existing: &[(String, String)]) -> (r: String)
    ensures
        r@ == distill_prompt(journal_window@, existing@),
{
    let mut p: Vec<char> = Vec::new();
    push_str(&mut p, DISTILL_INTRO);
    if existing.len() == 0 {
        push_str(&mut p, "- none yet\n");
    }
    let ghost base = p@;
    let mut i: usize = 0;
    while i < existing.len()
        invariant
            i <= existing.len(),
            p@ == base + existing_lines(existing@.take(i as int)),
        decreases existing.len() - i,
    {
        push_str(&mut p, "- ");
        push_str(&mut p, existing[i].0.as_str());
        push_str(&mut p, ": ");
        push_str(&mut p, existing[i].1.as_str());
        push_str(&mut p, "\n");
        proof {
            assert(existing@.take(i + 1).drop_last() =~= existing@.take(i as int));
        }
        i = i + 1;
    }
    assert(existing@.take(existing.len() as int) =~= existing@);
    push_str(&mut p, DISTILL_SHAPE);
    push_str(&mut p, journal_window);
    assert(p@ =~= distill_prompt(journal_window@, existing@));
    string_of(p.as_slice())
}

/// Built-in tier rules for the workspace pseudo-member's own files:
/// `memory/` full, `journal/` and `tasks/` search-only, `workspace.json`
/// and `kg.sqlite` ignored.
pub fn workspace_builtin_rules() -> (r: Vec<Rule>)
    ensures
        crate::kenignore::rules_view(r@) == seq![
            (Tier::Full, "/memory/"@),
            (Tier::SearchOnly, "/journal/"@),
            (Tier::SearchOnly, "/tasks/"@),
            (Tier::Ignore, "/workspace.json"@),
            (Tier::Ignore, "/kg.sqlite"@),
        ],
{
    let mut v: Vec<Rule> = Vec::new();
    v.push(Rule { tier: Tier::Full, pattern: string_of(chars_of("/memory/").as_slice()) });
    v.push(Rule { tier: Tier::SearchOnly, pattern: string_of(chars_of("/journal/").as_slice()) });
    v.push(Rule { tier: Tier::SearchOnly, pattern: string_of(chars_of("/tasks/").as_slice()) });
    v.push(Rule { tier: Tier::Ignore, pattern: string_of(chars_of("/workspace.json").as_slice()) });
    v.push(Rule { tier: Tier::Ignore, pattern: string_of(chars_of("/kg.sqlite").as_slice()) });
    assert(crate::kenignore::rules_view(v@) =~= seq![
        (Tier::Full, "/memory/"@),
        (Tier::SearchOnly, "/journal/"@),
        (Tier::SearchOnly, "/tasks/"@),
        (Tier::Ignore, "/workspace.json"@),
        (Tier::Ignore, "/kg.sqlite"@),
    ]);
    v
}

// ---------------------------------------------------------------------
// The workspace pseudo-member's reserved id
// ---------------------------------------------------------------------

/// The two seeds ("KEN_MEM1", "KEN_MEM2") of the reserved-id hash.
pub const MEMBER_SEED_1: u64 = 0x4B454E5F4D454D31;

pub const MEMBER_SEED_2: u64 = 0x4B454E5F4D454D32;

/// 64-bit xxHash of `data` under `seed`.
pub uninterp spec fn xxh64(seed: u64, data: Seq<u8>) -> u64;

/// `twox_hash::XxHash64::oneshot(seed, data)`: the crate's 64-bit xxHash,
/// a pure function of the seed and the bytes. Its value is named, not
/// stated.
#[verifier::external_body]
fn xxhash64_oneshot(seed: u64, data: &[u8]) -> (r: u64)
    ensures
        r == xxh64(seed, data@),
{
    twox_hash::XxHash64::oneshot(seed, data)
}

/// Byte `k` (0 = most significant) of `h`.
pub open spec fn be_byte(h: u64, k: int) -> u8 {
    ((h >> ((56 - 8 * k) as u64)) & 0xff) as u8
}

/// The reserved id's bytes: both hashes big-endian, then stamped as a
/// version-8 (custom), RFC 4122 variant identifier.
pub open spec fn member_id_bytes(id: Seq<u8>) -> Seq<u8> {
    let h1 = xxh64(MEMBER_SEED_1, id);
    let h2 = xxh64(MEMBER_SEED_2, id);
    Seq::new(
        16,
        |i: int|
            if i == 6 {
                (be_byte(h1, 6) & 0x0F) | 0x80
            } else if i == 8 {
                (be_byte(h2, 0) & 0x3F) | 0x80
            } else if i < 8 {
                be_byte(h1, i)
            } else {
                be_byte(h2, i - 8)
            },
    )
}

fn be(h: u64, k: u64) -> (r: u8)
    requires
        k < 8,
    ensures
        r == be_byte(h, k as int),
{
    ((h >> (56 - 8 * k)) & 0xff) as u8
}

/// The workspace pseudo-member's reserved project id, derived from the
/// workspace's own id (as bytes).
pub fn workspace_pseudo_member_id(workspace_id: [u8; 16]) -> (r: [u8; 16])
    ensures
        r@ == member_id_bytes(workspace_id@),
{
    let h1 = xxhash64_oneshot(MEMBER_SEED_1, &workspace_id);
    let h2 = xxhash64_oneshot(MEMBER_SEED_2, &workspace_id);
    let r = [
        be(h1, 0),
        be(h1, 1),
        be(h1, 2),
        be(h1, 3),
        be(h1, 4),
        be(h1, 5),
        (be(h1, 6) & 0x0F) | 0x80,
        be(h1, 7),
        (be(h2, 0) & 0x3F) | 0x80,
        be(h2, 1),
        be(h2, 2),
        be(h2, 3),
        be(h2, 4),
        be(h2, 5),
        be(h2, 6),
        be(h2, 7),
    ];
    assert(r@ =~= member_id_bytes(workspace_id@));
    r
}

/// The reserved id always carries version 8 and the RFC 4122 variant, so
/// it can never equal a randomly generated (version 4) id.
pub proof fn law_reserved_id_is_version_8(id: Seq<u8>)
    ensures
        member_id_bytes(id)[6] >> 4 == 8,
        member_id_bytes(id)[8] >> 6 == 2,
{
    let b6 = be_byte(xxh64(MEMBER_SEED_1, id), 6);
    let b8 = be_byte(xxh64(MEMBER_SEED_2, id), 0);
    assert(((b6 & 0x0F) | 0x80) >> 4 == 8) by (bit_vector);
    assert(((b8 & 0x3F) | 0x80) >> 6 == 2) by (bit_vector);
}

// ---------------------------------------------------------------------
// Memories and the injection block
// ---------------------------------------------------------------------

/// A memory file as the library reads it.
#[derive(Debug, Clone, PartialEq, Eq)]
pub struct Memory {
    /// File stem, also the memory's identity.
    pub slug: String,
    /// The explicit description, or the body's first non-empty line.
    pub description: String,
    pub projects: Vec<String>,
    pub created: String,
    pub updated: String,
    pub body: String,
}

/// The first line of `ls` with anything but whitespace on it, trimmed.
pub open spec fn first_nonblank(ls: Seq<Seq<char>>) -> Option<Seq<char>>
    decreases ls.len(),
{
    if ls.len() == 0 {
        None
    } else if trim_ws(ls[0]).len() > 0 {
        Some(trim_ws(ls[0]))
    } else {
        first_nonblank(ls.drop_first())
    }
}

/// The description a body offers: its first non-empty line, a leading
/// markdown heading marker dropped.
pub open spec fn body_headline(body: Seq<char>) -> Seq<char> {
    match first_nonblank(lines_spec(body)) {
        Some(l) => trim_ws(trim_start_char(l, '#')),
        None => seq![],
    }
}

/// The first non-empty line of `body`, trimmed, with leading `#`s
/// dropped: the description of a memory that gives none.
pub fn first_line(body: &str) -> (r: String)
    ensures
        r@ == body_headline(body@),
{
    let lines = split_lines(&chars_of(body));
    let ghost ls = views(lines@);
    let mut i: usize = 0;
    assert(ls.skip(0) =~= ls);
    while i < lines.len()
        invariant
            i <= lines.len(),
            ls == views(lines@),
            ls == lines_spec(body@),
            first_nonblank(ls) == first_nonblank(ls.skip(i as int)),
        decreases lines.len() - i,
    {
        assert(ls.skip(i as int)[0] == lines@[i as int]@);
        assert(ls.skip(i as int).drop_first() =~= ls.skip(i + 1));
        let t = trim_vec(&lines[i]);
        if t.len() > 0 {
            assert(first_nonblank(ls.skip(i as int)) == Some(t@));
            let h = trim_start_char_vec(&t, '#');
            return string_of(trim_vec(&h).as_slice());
        }
        i = i + 1;
    }
    assert(ls.skip(i as int).len() == 0);
    String::new()
}

/// How many bytes `s` takes in UTF-8.
pub open spec fn utf8_bytes(s: Seq<char>) -> int {
    encode_utf8(s).len() as int
}

fn byte_count(s: &String) -> (n: usize)
    ensures
        n == utf8_bytes(s@),
{
    s.as_str().as_bytes().len()
}

/// The whole memory as injected: its heading and trimmed body.
pub open spec fn whole_text(m: Memory) -> Seq<char> {
    "### "@ + m.slug@ + "\n"@ + trim_ws(m.body@) + "\n\n"@
}

/// A memory over budget: its heading and description only.
pub open spec fn brief_text(m: Memory) -> Seq<char> {
    "### "@ + m.slug@ + "\n"@ + m.description@ + "\n\n"@
}

/// The memories in order, whole while they fit in what is left of the
/// budget after `used` bytes, else brief (and still counted).
pub open spec fn inject(ms: Seq<Memory>, used: int) -> Seq<char>
    decreases ms.len(),
{
    if ms.len() == 0 {
        seq![]
    } else {
        let w = whole_text(ms[0]);
        if used + utf8_bytes(w) <= INJECTION_BUDGET_CHARS {
            w + inject(ms.drop_first(), used + utf8_bytes(w))
        } else {
            let b = brief_text(ms[0]);
            b + inject(ms.drop_first(), used + utf8_bytes(b))
        }
    }
}

/// How many leading entries of the (sorted) `s` sort no earlier than `k`
/// in descending order.
pub open spec fn desc_pos(s: Seq<(Seq<char>, int)>, k: Seq<char>) -> nat
    decreases s.len(),
{
    if s.len() == 0 {
        0
    } else if !lex_lt(s[0].0, k) {
        1 + desc_pos(s.drop_first(), k)
    } else {
        0
    }
}

/// A stable sort by key, largest first.
pub open spec fn sort_desc(s: Seq<(Seq<char>, int)>) -> Seq<(Seq<char>, int)>
    decreases s.len(),
{
    if s.len() == 0 {
        seq![]
    } else {
        let r = sort_desc(s.drop_last());
        r.insert(desc_pos(r, s.last().0) as int, s.last())
    }
}

/// The memories, most recently updated first.
pub open spec fn by_recency(ms: Seq<Memory>) -> Seq<Memory> {
    sort_desc(Seq::new(ms.len(), |i: int| (ms[i].updated@, i))).map_values(|p: (Seq<char>, int)| ms[p.1])
}

/// The `## Memories` block for `ms`; empty for no memories.
pub open spec fn injection(ms: Seq<Memory>) -> Seq<char> {
    if ms.len() == 0 {
        seq![]
    } else {
        "## Memories\n\n"@ + inject(by_recency(ms), 0)
    }
}

proof fn lemma_desc_pos_bound(s: Seq<(Seq<char>, int)>, k: Seq<char>)
    ensures
        desc_pos(s, k) <= s.len(),
    decreases s.len(),
{
    if s.len() > 0 && !lex_lt(s[0].0, k) {
        lemma_desc_pos_bound(s.drop_first(), k);
    }
}

proof fn lemma_sort_desc(s: Seq<(Seq<char>, int)>)
    ensures
        sort_desc(s).len() == s.len(),
        forall|j: int| 0 <= j < s.len() ==> s.contains(#[trigger] sort_desc(s)[j]),
    decreases s.len(),
{
    if s.len() > 0 {
        let r = sort_desc(s.drop_last());
        lemma_sort_desc(s.drop_last());
        lemma_desc_pos_bound(r, s.last().0);
        let k = desc_pos(r, s.last().0) as int;
        assert forall|j: int| 0 <= j < s.len() implies s.contains(#[trigger] sort_desc(s)[j]) by {
            if j < k {
                assert(sort_desc(s)[j] == r[j]);
                assert(s.drop_last().contains(r[j]));
                let m = choose|m: int| 0 <= m < s.drop_last().len() && s.drop_last()[m] == r[j];
                assert(s[m] == r[j]);
            } else if j == k {
                assert(s[s.len() - 1] == s.last());
            } else {
                assert(sort_desc(s)[j] == r[j - 1]);
                assert(s.drop_last().contains(r[j - 1]));
                let m = choose|m: int| 0 <= m < s.drop_last().len() && s.drop_last()[m] == r[j - 1];
                assert(s[m] == r[j - 1]);
            }
        }
    }
}

pub open spec fn idx_view(v: Seq<(String, usize)>) -> Seq<(Seq<char>, int)> {
    v.map_values(|p: (String, usize)| (p.0@, p.1 as int))
}

fn sort_recent_first(ms: &[Memory]) -> (r: Vec<(String, usize)>)
    ensures
        idx_view(r@) == sort_desc(Seq::new(ms@.len(), |i: int| (ms@[i].updated@, i))),
        forall|j: int| 0 <= j < r@.len() ==> (#[trigger] r@[j]).1 < ms@.len(),
{
    let ghost all = Seq::new(ms@.len(), |i: int| (ms@[i].updated@, i));
    let mut out: Vec<(String, usize)> = Vec::new();
    let mut i: usize = 0;
    while i < ms.len()
        invariant
            i <= ms.len(),
            all == Seq::new(ms@.len(), |i: int| (ms@[i].updated@, i)),
            idx_view(out@) == sort_desc(all.take(i as int)),
            forall|j: int| 0 <= j < out@.len() ==> (#[trigger] out@[j]).1 < i,
        decreases ms.len() - i,
    {
        let key = chars_of(ms[i].updated.as_str());
        let ghost sorted = idx_view(out@);
        proof {
            lemma_desc_pos_bound(sorted, key@);
            assert(sorted.skip(0) =~= sorted);
        }
        let mut k: usize = 0;
        while k < out.len() && !vec_lt(&chars_of(out[k].0.as_str()), &key)
            invariant
                k <= out.len(),
                idx_view(out@) == sorted,
                desc_pos(sorted, key@) == k + desc_pos(sorted.skip(k as int), key@),
            decreases out.len() - k,
        {
            proof {
                assert(sorted.skip(k as int)[0] == sorted[k as int]);
                assert(sorted.skip(k as int).drop_first() =~= sorted.skip(k + 1));
            }
            k = k + 1;
        }
        proof {
            if k < out.len() {
                assert(sorted.skip(k as int)[0] == sorted[k as int]);
            }
            assert(desc_pos(sorted, key@) == k);
            assert(all.take(i + 1).drop_last() =~= all.take(i as int));
            assert(all.take(i + 1).last() == all[i as int]);
        }
        let ghost old_out = out@;
        let item = (ms[i].updated.clone(), i);
        out.insert(k, item);
        proof {
            assert(idx_view(out@) =~= sorted.insert(k as int, (item.0@, item.1 as int)));
            assert forall|j: int| 0 <= j < out@.len() implies (#[trigger] out@[j]).1 < i + 1 by {
                if j < k {
                    assert(out@[j] == old_out[j]);
                } else if j > k {
                    assert(out@[j] == old_out[j - 1]);
                }
            }
        }
        i = i + 1;
    }
    assert(all.take(ms@.len() as int) =~= all);
    out
}

fn render_with(slug: &String, text: &Vec<char>) -> (r: String)
    ensures
        r@ == "### "@ + slug@ + "\n"@ + text@ + "\n\n"@,
{
    let mut v: Vec<char> = Vec::new();
    push_str(&mut v, "### ");
    push_str(&mut v, slug.as_str());
    push_str(&mut v, "\n");
    push_all(&mut v, text);
    push_str(&mut v, "\n\n");
    string_of(v.as_slice())
}

/// The `## Memories` chat-context block: the memories most recently
/// updated first, each whole while it fits in what is left of the
/// [`INJECTION_BUDGET_CHARS`] budget (counted in bytes), otherwise only
/// its heading and description, and the block goes on. No memories, no
/// block.
pub fn build_injection(memories: &[Memory]) -> (r: String)
    ensures
        r@ == injection(memories@),
{
    if memories.len() == 0 {
        return String::new();
    }
    let order = sort_recent_first(memories);
    let ghost ordered = by_recency(memories@);
    proof {
        let all = Seq::new(memories@.len(), |i: int| (memories@[i].updated@, i));
        lemma_sort_desc(all);
        assert(ordered.len() == order@.len());
        assert forall|j: int| 0 <= j < order@.len() implies #[trigger] ordered[j] == memories@[order@[j].1 as int] by {
            assert(idx_view(order@)[j] == (order@[j].0@, order@[j].1 as int));
        }
        assert(ordered.skip(0) =~= ordered);
    }
    let mut out: Vec<char> = Vec::new();
    push_str(&mut out, "## Memories\n\n");
    let ghost head = out@;
    let ghost mut used_g: int = 0;
    let mut used: usize = 0;
    let mut i: usize = 0;
    while i < order.len()
        invariant
            i <= order.len(),
            ordered.len() == order@.len(),
            forall|j: int| 0 <= j < order@.len() ==> (#[trigger] order@[j]).1 < memories@.len(),
            forall|j: int| 0 <= j < order@.len() ==> #[trigger] ordered[j] == memories@[order@[j].1 as int],
            used_g >= 0,
            used as int == if used_g <= INJECTION_BUDGET_CHARS { used_g } else { INJECTION_BUDGET_CHARS + 1 },
            out@ + inject(ordered.skip(i as int), used_g) == head + inject(ordered, 0),
        decreases order.len() - i,
    {
        let m = &memories[order[i].1];
        let ghost rest = ordered.skip(i as int);
        proof {
            assert(rest[0] == ordered[i as int]);
            assert(rest.drop_first() =~= ordered.skip(i + 1));
        }
        let whole = render_with(&m.slug, &trim_vec(&chars_of(m.body.as_str())));
        let wlen = byte_count(&whole);
        let ghost before = out@;
        if wlen <= INJECTION_BUDGET_CHARS && used <= INJECTION_BUDGET_CHARS - wlen {
            push_str(&mut out, whole.as_str());
            proof {
                assert(out@ + inject(ordered.skip(i + 1), used_g + wlen) =~= before + (whole@ + inject(
                    ordered.skip(i + 1),
                    used_g + wlen,
                )));
                used_g = used_g + wlen;
            }
            used = used + wlen;
        } else {
            let brief = render_with(&m.slug, &chars_of(m.description.as_str()));
            let blen = byte_count(&brief);
            push_str(&mut out, brief.as_str());
            proof {
                assert(out@ + inject(ordered.skip(i + 1), used_g + blen) =~= before + (brief@ + inject(
                    ordered.skip(i + 1),
                    used_g + blen,
                )));
                used_g = used_g + blen;
            }
            used = if blen > INJECTION_BUDGET_CHARS + 1 - used {
                INJECTION_BUDGET_CHARS + 1
            } else {
                used + blen
            };
        }
        i = i + 1;
    }
    proof {
        assert(ordered.skip(order@.len() as int) =~= Seq::<Memory>::empty());
        assert(out@ =~= head + inject(ordered, 0));
    }
    string_of(out.as_slice())
}

// ---------------------------------------------------------------------
// Distillation answers, resolved
// ---------------------------------------------------------------------

/// A distillation candidate as the answer wrote it: each scalar `None`
/// when absent or not a string; one `sources` entry per array element.
#[derive(Debug, Clone, PartialEq, Eq)]
pub struct RawCandidate {
    pub slug: Option<String>,
    pub description: Option<String>,
    pub body: Option<String>,
    pub sources: Vec<Option<String>>,
}

/// A candidate as plain values: slug, description, body, sources.
pub type CandidateView = (Seq<char>, Seq<char>, Seq<char>, Seq<Seq<char>>);

pub open spec fn candidate_view(c: DistillCandidate) -> CandidateView {
    (c.slug@, c.description@, c.body@, strs(c.sources@))
}

/// What one answered candidate contributes: nothing without a valid slug
/// and a body; the description falls back to the body's first line.
pub open spec fn candidate_of(c: RawCandidate) -> Option<CandidateView> {
    candidate_from(c.slug, c.description, c.body, c.sources@)
}

/// A candidate from its answered fields.
pub open spec fn candidate_from(
    slug: Option<String>,
    description: Option<String>,
    body: Option<String>,
    sources: Seq<Option<String>>,
) -> Option<CandidateView> {
    match field(slug) {
        Some(slug) => if !valid_slug(slug) {
            None
        } else {
            match field(body) {
                Some(b) => Some(
                    (
                        slug,
                        match field(description) {
                            Some(d) => d,
                            None => body_headline(b),
                        },
                        b,
                        kept_strings(sources),
                    ),
                ),
                None => None,
            }
        },
        None => None,
    }
}

/// The candidates the first `n` answered ones yield, at most
/// [`MAX_DISTILL_CANDIDATES`].
pub open spec fn candidates(items: Seq<RawCandidate>, n: int) -> Seq<CandidateView>
    decreases n,
{
    if n <= 0 {
        seq![]
    } else {
        let prev = candidates(items, n - 1);
        if prev.len() >= MAX_DISTILL_CANDIDATES {
            prev
        } else {
            match candidate_of(items[n - 1]) {
                Some(c) => prev.push(c),
                None => prev,
            }
        }
    }
}

/// Resolve a distillation answer's candidates: each needs a valid slug
/// and a body, the description defaults to the body's first line, and at
/// most [`MAX_DISTILL_CANDIDATES`] are kept.
pub fn resolve_distill_candidates(items: &[RawCandidate]) -> (r: Vec<DistillCandidate>)
    ensures
        r@.map_values(|c: DistillCandidate| candidate_view(c)) == candidates(items@, items@.len() as int),
{
    let mut out: Vec<DistillCandidate> = Vec::new();
    let mut i: usize = 0;
    while i < items.len()
        invariant
            i <= items.len(),
            out@.len() <= MAX_DISTILL_CANDIDATES,
            out@.map_values(|c: DistillCandidate| candidate_view(c)) == candidates(items@, i as int),
        decreases items.len() - i,
    {
        if out.len() < MAX_DISTILL_CANDIDATES {
            let c = &items[i];
            let slug = match &c.slug {
                Some(s) => crate::pipeline::ticket::non_empty_of(s.as_str()),
                None => None,
            };
            let body = match &c.body {
                Some(s) => crate::pipeline::ticket::non_empty_of(s.as_str()),
                None => None,
            };
            match (slug, body) {
                (Some(slug), Some(body)) => {
                    if validate_slug(slug.as_str()).is_ok() {
                        let description = match &c.description {
                            Some(d) => match crate::pipeline::ticket::non_empty_of(d.as_str()) {
                                Some(d) => d,
                                None => first_line(body.as_str()),
                            },
                            None => first_line(body.as_str()),
                        };
                        let cand = DistillCandidate {
                            slug,
                            description,
                            body,
                            sources: crate::knowledge_model::kept_strings_of(&c.sources),
                        };
                        let ghost before = out@;
                        out.push(cand);
                        assert(out@.map_values(|c: DistillCandidate| candidate_view(c)) =~= before.map_values(
                            |c: DistillCandidate| candidate_view(c),
                        ).push(candidate_view(cand)));
                    }
                },
                _ => {},
            }
        }
        i = i + 1;
    }
    out
}

// ---------------------------------------------------------------------
// Journal entries
// ---------------------------------------------------------------------

/// One `## HH:MM` journal entry: the project and tags lines when given,
/// then the trimmed text.
pub open spec fn entry_text(text: Seq<char>, project: Option<Seq<char>>, tags: Seq<Seq<char>>, time: Seq<char>) -> Seq<char> {
    "## "@ + time + "\n"@ + (match project {
        Some(p) => if trim_ws(p).len() > 0 {
            "Project: "@ + trim_ws(p) + "\n"@
        } else {
            seq![]
        },
        None => seq![],
    }) + (if tags.len() > 0 {
        "Tags: "@ + crate::pipeline::graph::join(tags, ", "@) + "\n"@
    } else {
        seq![]
    }) + trim_ws(text) + "\n"@
}

/// Format a journal entry written at `time_hhmm`.
pub fn journal_entry(text: &str, project: Option<&str>, tags: &[String], time_hhmm: &str) -> (r: String)
    ensures
        r@ == entry_text(
            text@,
            match project {
                Some(p) => Some(p@),
                None => None,
            },
            strs(tags@),
            time_hhmm@,
        ),
{
    let mut v: Vec<char> = Vec::new();
    push_str(&mut v, "## ");
    push_str(&mut v, time_hhmm);
    push_str(&mut v, "\n");
    match project {
        Some(p) => {
            let t = trim_vec(&chars_of(p));
            if t.len() > 0 {
                push_str(&mut v, "Project: ");
                push_all(&mut v, &t);
                push_str(&mut v, "\n");
            }
        },
        None => {},
    }
    if tags.len() > 0 {
        push_str(&mut v, "Tags: ");
        let owned = crate::pipeline::graph::slice_strings(tags);
        push_all(&mut v, &crate::pipeline::graph::join_vec(&owned, ", "));
        push_str(&mut v, "\n");
    }
    push_all(&mut v, &trim_vec(&chars_of(text)));
    push_str(&mut v, "\n");
    string_of(v.as_slice())
}

/// A day's journal text with one more entry: a blank line between
/// entries, and a missing final line break supplied first.
pub open spec fn journal_appended(existing: Seq<char>, entry: Seq<char>) -> Seq<char> {
    if existing.len() == 0 {
        entry
    } else if existing.last() == '\n' {
        existing + "\n"@ + entry
    } else {
        existing + "\n\n"@ + entry
    }
}

/// Append `entry` to a day's journal text.
pub fn journal_with_entry(existing: &str, entry: &str) -> (r: String)
    ensures
        r@ == journal_appended(existing@, entry@),
{
    let mut v = chars_of(existing);
    if v.len() > 0 {
        if v[v.len() - 1] != '\n' {
            v.push('\n');
        }
        v.push('\n');
    }
    push_str(&mut v, entry);
    proof {
        if existing@.len() > 0 {
            reveal_strlit("\n");
            reveal_strlit("\n\n");
        }
    }
    string_of(v.as_slice())
}


/// The date a journal file name carries: `YYYY-MM-DD.md` as a day count.
pub open spec fn journal_file_day(name: Seq<char>) -> Option<int> {
    if name.len() >= 3 && name.skip(name.len() - 3) == ".md"@ {
        parse_iso_date_spec(name.take(name.len() - 3))
    } else {
        None
    }
}

/// Among the first `n` names, those of journal files dated more than
/// [`ARCHIVE_AFTER_DAYS`] days before `today`, in order.
pub open spec fn archive_due(today: int, names: Seq<Seq<char>>, n: int) -> Seq<Seq<char>>
    decreases n,
{
    if n <= 0 {
        seq![]
    } else {
        let prev = archive_due(today, names, n - 1);
        match journal_file_day(names[n - 1]) {
            Some(day) => if today - day > ARCHIVE_AFTER_DAYS {
                prev.push(names[n - 1])
            } else {
                prev
            },
            None => prev,
        }
    }
}

/// Which journal files the archive roll moves, given `today` and the
/// file names in the journal folder: those named for a date more than
/// [`ARCHIVE_AFTER_DAYS`] days earlier, in the order given. Names that
/// are not `YYYY-MM-DD.md` stay. `None` when `today` is no date.
pub fn due_for_archive(today: &str, names: &[String]) -> (r: Option<Vec<String>>)
    ensures
        match parse_iso_date_spec(today@) {
            Some(t) => r matches Some(v) && strs(v@) == archive_due(t, strs(names@), names@.len() as int),
            None => r.is_none(),
        },
{
    let t = match parse_iso_date(today) {
        Some(t) => t,
        None => return None,
    };
    let mut out: Vec<String> = Vec::new();
    let mut i: usize = 0;
    while i < names.len()
        invariant
            i <= names.len(),
            parse_iso_date_spec(today@) == Some(t as int),
            strs(out@) == archive_due(t as int, strs(names@), i as int),
        decreases names.len() - i,
    {
        let name = chars_of(names[i].as_str());
        assert(strs(names@)[i as int] == name@);
        let n = name.len();
        let mut day: Option<i128> = None;
        if n >= 3 && name[n - 3] == '.' && name[n - 2] == 'm' && name[n - 1] == 'd' {
            assert(name@.skip(n - 3) =~= ".md"@) by {
                reveal_strlit(".md");
            }
            let stem = string_of(sub_vec(&name, 0, n - 3).as_slice());
            assert(stem@ =~= name@.take(n - 3));
            day = parse_iso_date(stem.as_str());
        } else {
            assert(journal_file_day(name@).is_none()) by {
                reveal_strlit(".md");
                if n >= 3 && name@.skip(n - 3) == ".md"@ {
                    assert(name@.skip(n - 3)[0] == name@[n - 3]);
                    assert(name@.skip(n - 3)[1] == name@[n - 2]);
                    assert(name@.skip(n - 3)[2] == name@[n - 1]);
                }
            }
        }
        assert(day matches Some(x) ==> journal_file_day(name@) == Some(x as int));
        assert(day is None ==> journal_file_day(name@).is_none());
        match day {
            Some(d) => {
                if t - d > 30 {
                    let ghost before = out@;
                    out.push(names[i].clone());
                    assert(strs(out@) =~= strs(before).push(name@));
                }
            },
            None => {},
        }
        i = i + 1;
    }
    Some(out)
}


/// The name is a journal file dated more than [`ARCHIVE_AFTER_DAYS`]
/// days before `today`.
pub open spec fn is_due(today: int, name: Seq<char>) -> bool {
    match journal_file_day(name) {
        Some(day) => today - day > ARCHIVE_AFTER_DAYS,
        None => false,
    }
}

proof fn lemma_archive_due_holds(today: int, names: Seq<Seq<char>>, n: int, i: int)
    requires
        0 <= i < n <= names.len(),
        is_due(today, names[i]),
    ensures
        archive_due(today, names, n).contains(names[i]),
    decreases n,
{
    if i < n - 1 {
        lemma_archive_due_holds(today, names, n - 1, i);
        let prev = archive_due(today, names, n - 1);
        if is_due(today, names[n - 1]) {
            let k = choose|k: int| 0 <= k < prev.len() && prev[k] == names[i];
            assert(prev.push(names[n - 1])[k] == names[i]);
        }
    } else {
        let prev = archive_due(today, names, n - 1);
        assert(prev.push(names[n - 1])[prev.len() as int] == names[i]);
    }
}

proof fn lemma_none_due(today: int, names: Seq<Seq<char>>, n: int)
    requires
        0 <= n <= names.len(),
        forall|i: int| 0 <= i < n ==> !is_due(today, #[trigger] names[i]),
    ensures
        archive_due(today, names, n) == Seq::<Seq<char>>::empty(),
    decreases n,
{
    if n > 0 {
        lemma_none_due(today, names, n - 1);
        assert(!is_due(today, names[n - 1]));
    }
}

/// Rolling the archive again with the same `today` moves nothing: every
/// journal file the first roll left behind (`rest`, any of the names it
/// did not move) is undated or too recent.
pub proof fn law_archive_roll_idempotent(today: Seq<char>, names: Seq<Seq<char>>, rest: Seq<Seq<char>>)
    requires
        parse_iso_date_spec(today) is Some,
        forall|i: int| 0 <= i < rest.len() ==> names.contains(#[trigger] rest[i]) && !archive_due(
            parse_iso_date_spec(today).unwrap(),
            names,
            names.len() as int,
        ).contains(rest[i]),
    ensures
        archive_due(parse_iso_date_spec(today).unwrap(), rest, rest.len() as int) == Seq::<Seq<char>>::empty(),
{
    let t = parse_iso_date_spec(today).unwrap();
    assert forall|i: int| 0 <= i < rest.len() implies !is_due(t, #[trigger] rest[i]) by {
        if is_due(t, rest[i]) {
            let j = choose|j: int| 0 <= j < names.len() && names[j] == rest[i];
            lemma_archive_due_holds(t, names, names.len() as int, j);
        }
    }
    lemma_none_due(t, rest, rest.len() as int);
}

// ---------------------------------------------------------------------
// Writing a memory
// ---------------------------------------------------------------------

pub open spec fn exists_message(slug: Seq<char>) -> Seq<char> {
    "a memory named '"@ + slug + "' already exists"@
}

pub open spec fn missing_message(slug: Seq<char>) -> Seq<char> {
    "no memory named '"@ + slug + "' exists to replace"@
}

/// Whether a write of `slug` in `mode` may go ahead, `exists` telling
/// whether its file is already there: the slug must be valid; a create
/// needs the file absent, a replace needs it present.
pub fn check_memory_write(slug: &str, mode: WriteMode, exists: bool) -> (r: Result<(), Error>)
    ensures
        !valid_slug(slug@) ==> (r matches Err(Error::Other(m)) && m@ == slug_message(slug@)),
        valid_slug(slug@) && mode == WriteMode::Create && exists ==> (r matches Err(Error::Other(m))
            && m@ == exists_message(slug@)),
        valid_slug(slug@) && mode == WriteMode::Replace && !exists ==> (r matches Err(Error::Other(m))
            && m@ == missing_message(slug@)),
        r.is_ok() == (valid_slug(slug@) && (mode == WriteMode::Create) != exists),
{
    match validate_slug(slug) {
        Err(e) => return Err(e),
        Ok(()) => {},
    }
    match mode {
        WriteMode::Create => if exists {
            let mut m: Vec<char> = Vec::new();
            push_str(&mut m, "a memory named '");
            push_str(&mut m, slug);
            push_str(&mut m, "' already exists");
            assert(m@ =~= exists_message(slug@));
            return Err(Error::Other(string_of(m.as_slice())));
        },
        WriteMode::Replace => if !exists {
            let mut m: Vec<char> = Vec::new();
            push_str(&mut m, "no memory named '");
            push_str(&mut m, slug);
            push_str(&mut m, "' exists to replace");
            assert(m@ =~= missing_message(slug@));
            return Err(Error::Other(string_of(m.as_slice())));
        },
    }
    Ok(())
}

/// A new memory: the trimmed content as body, its first non-empty line
/// as description, no projects, created and updated `today`.
pub fn new_memory(slug: &str, content: &str, today: &str) -> (m: Memory)
    ensures
        m.slug@ == slug@,
        m.body@ == trim_ws(content@),
        m.description@ == body_headline(trim_ws(content@)),
        m.projects@.len() == 0,
        m.created@ == today@,
        m.updated@ == today@,
{
    let body = trimmed(content);
    let description = first_line(body.as_str());
    Memory {
        slug: str_of_lit(slug),
        description,
        projects: Vec::new(),
        created: str_of_lit(today),
        updated: str_of_lit(today),
        body,
    }
}

/// `m` with its body replaced by the trimmed content and `updated` set to
/// `today`. Everything else (slug, description, projects, created)
/// carries over unchanged.
pub fn replaced_memory(m: Memory, content: &str, today: &str) -> (r: Memory)
    ensures
        r.slug == m.slug,
        r.description == m.description,
        r.projects == m.projects,
        r.created == m.created,
        r.body@ == trim_ws(content@),
        r.updated@ == today@,
{
    Memory {
        slug: m.slug,
        description: m.description,
        projects: m.projects,
        created: m.created,
        updated: str_of_lit(today),
        body: trimmed(content),
    }
}

/// What one answered candidate in the JSON contributes.
pub open spec fn json_candidate(item: JsonValue) -> Option<CandidateView> {
    candidate_from(
        text_field(item, "slug"@),
        text_field(item, "description"@),
        text_field(item, "body"@),
        text_items(item, "sources"@),
    )
}

/// The candidates the first `n` answered ones in the JSON yield, at most
/// [`MAX_DISTILL_CANDIDATES`].
pub open spec fn json_candidates(items: Seq<JsonValue>, n: int) -> Seq<CandidateView>
    decreases n,
{
    if n <= 0 {
        seq![]
    } else {
        let prev = json_candidates(items, n - 1);
        if prev.len() >= MAX_DISTILL_CANDIDATES {
            prev
        } else {
            match json_candidate(items[n - 1]) {
                Some(c) => prev.push(c),
                None => prev,
            }
        }
    }
}

proof fn lemma_candidates_agree(raws: Seq<RawCandidate>, items: Seq<JsonValue>, n: int)
    requires
        0 <= n <= raws.len(),
        n <= items.len(),
        forall|k: int| 0 <= k < n ==> candidate_of(#[trigger] raws[k]) == json_candidate(items[k]),
    ensures
        candidates(raws, n) == json_candidates(items, n),
    decreases n,
{
    if n > 0 {
        lemma_candidates_agree(raws, items, n - 1);
        assert(candidate_of(raws[n - 1]) == json_candidate(items[n - 1]));
    }
}

/// Read a distillation answer: the span from the first `{` to the last
/// `}` is read as JSON and its `candidates` array resolved; an answer
/// with no such span, or one that is not valid JSON, proposes nothing.
pub fn parse_distill_candidates(raw: &str) -> (r: Vec<DistillCandidate>)
    ensures
        r@.map_values(|c: DistillCandidate| candidate_view(c)) == match json_span(raw@) {
            Some(t) => match json_parse(t) {
                Ok(v) => json_candidates(array_field(v, "candidates"@), array_field(v, "candidates"@).len() as int),
                Err(_) => Seq::<CandidateView>::empty(),
            },
            None => Seq::<CandidateView>::empty(),
        },
{
    let text = match json_object_text(raw) {
        Some(t) => t,
        None => {
            let r: Vec<DistillCandidate> = Vec::new();
            assert(r@.map_values(|c: DistillCandidate| candidate_view(c)) =~= Seq::<CandidateView>::empty());
            return r;
        },
    };
    match parse_json(text.as_str()) {
        Ok(v) => {
            let items = array_at(&v, "candidates");
            let mut raws: Vec<RawCandidate> = Vec::new();
            let mut i: usize = 0;
            while i < items.len()
                invariant
                    i <= items.len(),
                    items@ == array_field(v, "candidates"@),
                    raws@.len() == i,
                    forall|k: int| 0 <= k < i ==> candidate_of(#[trigger] raws@[k]) == json_candidate(items@[k]),
                decreases items.len() - i,
            {
                let c = RawCandidate {
                    slug: text_at(&items[i], "slug"),
                    description: text_at(&items[i], "description"),
                    body: text_at(&items[i], "body"),
                    sources: texts_at(&items[i], "sources"),
                };
                raws.push(c);
                i = i + 1;
            }
            let r = resolve_distill_candidates(raws.as_slice());
            proof {
                lemma_candidates_agree(raws@, items@, items@.len() as int);
            }
            r
        },
        Err(_) => {
            let r: Vec<DistillCandidate> = Vec::new();
            assert(r@.map_values(|c: DistillCandidate| candidate_view(c)) =~= Seq::<CandidateView>::empty());
            r
        },
    }
}

/// A memory's description: the one its frontmatter declares, or, when
/// that is blank, the first non-empty line of its (trimmed) body.
pub fn memory_description(declared: &str, body: &str) -> (r: String)
    ensures
        r@ == if trim_ws(declared@).len() == 0 {
            body_headline(body@)
        } else {
            declared@
        },
{
    if trim_vec(&chars_of(declared)).len() == 0 {
        first_line(body)
    } else {
        str_of_lit(declared)
    }
}

} // verus!
