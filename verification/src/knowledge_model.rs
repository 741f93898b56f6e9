//! The knowledge model's prompts, the content fingerprint that tells a
//! real edit from sync churn, and the policy that decides when Ken rebuilds
//! the model on its own.
use vstd::prelude::*;
use vstd::string::StringSliceAdditionalSpecFns;
use crate::record::since;
use crate::error::Error;
use crate::json::{array_at, array_field, json_parse, parse_json, text_at, text_field, text_items, texts_at, JsonValue};
use crate::pipeline::graph::{clone_strings, strs};
use crate::pipeline::ticket::{non_empty, non_empty_of, opt_view};
use crate::text::{
    char_is_ws, chars_of, dec, dec_u64, hex, hex_u64, is_ascii_digit, is_ws, pad0, pad0_vec, push_all,
    push_str, str_eq, string_of, sub_vec, trim_start_vec, trim_start_ws, trim_str, trim_vec, trim_ws,
};

verus! {

/// How many indexed paths the corpus prompt lists at most.
pub const MAX_PROMPT_FILES: usize = 400;

/// Per-file caps for incremental extraction.
pub const FILE_MAX_ENTITIES: usize = 40;

pub const FILE_MAX_RELATIONS: usize = 60;

pub const FILE_MAX_EVENTS: usize = 20;

/// The per-file prompt, instructions and document together, stays within
/// this many characters.
pub const EXTRACT_CHAR_BUDGET: usize = 24000;

/// Seconds a corpus-wide extraction may take.
pub const EXTRACTION_TIMEOUT_SECS: u64 = 600;

pub const CORPUS_INTRO: &'static str = "You are Ken, building the knowledge model for this project — the entities (people, organizations, topics, decisions) and dated events that the Map and Timeline views draw.\n\nRead the project's source material listed below (open any of these files as needed; never modify anything). Today's date is ";

pub const CORPUS_RULES: &'static str = ".\n\nOutput ONLY a JSON object — no prose before or after, no code fences — shaped exactly like this:\n{\n\"entities\": [\n{\n\"kind\": \"person|organization|topic|decision|other\",\n\"name\": \"short display name\",\n\"summary\": \"one plain sentence about it\",\n\"sources\": [\"relative/path.md\"],\n\"connections\": [{\"to\": \"another entity's name\", \"label\": \"short relation\"}]\n}\n],\n\"events\": [\n{\n\"date\": \"yyyy-mm-dd\",\n\"category\": \"one lowercase word, e.g. decision, people, vendor\",\n\"text\": \"one plain sentence\",\n\"source\": \"relative/path.md\"\n}\n]\n}\n\nRules:\n- At most 200 entities and 150 events — pick the ones that matter.\n- Only include entities and events actually grounded in the material; never invent.\n- Dates are best effort — use document dates from file names or content; omit events with no inferable date entirely.\n- Every connections.to must exactly name another entity in your list.\n- sources and source are project-relative paths from the list below.\n\nIndexed source files:\n";

pub const FILE_INTRO: &'static str = "You are Ken, extracting the knowledge in ONE document for a project's Map and Timeline. Today's date is ";

pub const FILE_PATH_LEAD: &'static str = ".\n\nRead the document below (path: ";

pub const FILE_RULES: &'static str = ") and output ONLY a JSON object — no prose before or after, no code fences — shaped exactly like this:\n{\n\"entities\": [\n{\"kind\": \"person|organization|topic|decision|other\", \"name\": \"short display name\", \"summary\": \"one plain sentence\"}\n],\n\"relations\": [\n{\"a\": \"one entity's name\", \"b\": \"another entity's name\", \"label\": \"short relation\"}\n],\n\"events\": [\n{\"date\": \"yyyy-mm-dd\", \"category\": \"one lowercase word\", \"text\": \"one plain sentence\"}\n]\n}\n\nRules:\n- At most 40 entities, 60 relations, and 20 events — only what THIS document grounds; never invent.\n- relations.a and relations.b must each name an entity in your list.\n- Dates are best effort — omit events with no inferable yyyy-mm-dd date.\n\nDocument:\n";

/// What a successful build stored.
#[derive(Debug, Clone, Copy, PartialEq, Eq, Structural)]
pub struct ModelCounts {
    pub entities: usize,
    pub edges: usize,
    pub events: usize,
}

// ---------------------------------------------------------------------
// Prompts
// ---------------------------------------------------------------------

/// `- <path>` lines, one per file.
pub open spec fn file_lines(fs: Seq<Seq<char>>) -> Seq<char>
    decreases fs.len(),
{
    if fs.len() == 0 {
        seq![]
    } else {
        file_lines(fs.drop_last()) + "- "@ + fs.last() + "\n"@
    }
}

/// The corpus-wide extraction prompt: the instructions, then at most
/// `MAX_PROMPT_FILES` paths, an honest `- none` for an empty index, and a
/// count of what was left out.
pub open spec fn corpus_prompt(files: Seq<Seq<char>>, today: Seq<char>) -> Seq<char> {
    let shown = if files.len() > 400 {
        400
    } else {
        files.len()
    };
    CORPUS_INTRO@ + today + CORPUS_RULES@ + (if files.len() == 0 {
        "- none\n"@
    } else {
        seq![]
    }) + file_lines(files.take(shown as int)) + (if files.len() > 400 {
        "- …and "@ + dec((files.len() - 400) as nat) + " more\n"@
    } else {
        seq![]
    })
}

pub fn compose_extraction_prompt(files: &[String], today: &str) -> (r: String)
    ensures
        r@ == corpus_prompt(files@.map_values(|f: String| f@), today@),
{
    let ghost fv = files@.map_values(|f: String| f@);
    let mut p: Vec<char> = Vec::new();
    push_str(&mut p, CORPUS_INTRO);
    push_str(&mut p, today);
    push_str(&mut p, CORPUS_RULES);
    if files.len() == 0 {
        push_str(&mut p, "- none\n");
    }
    let ghost base = p@;
    let shown: usize = if files.len() > MAX_PROMPT_FILES {
        MAX_PROMPT_FILES
    } else {
        files.len()
    };
    let mut i: usize = 0;
    while i < shown
        invariant
            i <= shown <= files.len(),
            fv == files@.map_values(|f: String| f@),
            p@ == base + file_lines(fv.take(i as int)),
        decreases shown - i,
    {
        push_str(&mut p, "- ");
        push_str(&mut p, files[i].as_str());
        push_str(&mut p, "\n");
        proof {
            assert(fv.take(i + 1).drop_last() =~= fv.take(i as int));
            assert(fv.take(i + 1).last() == files@[i as int]@);
        }
        i = i + 1;
    }
    if files.len() > MAX_PROMPT_FILES {
        push_str(&mut p, "- …and ");
        let n = dec_u64((files.len() - MAX_PROMPT_FILES) as u64);
        push_all(&mut p, &n);
        push_str(&mut p, " more\n");
    }
    assert(p@ =~= corpus_prompt(fv, today@));
    string_of(p.as_slice())
}

/// The per-file prompt's instructions, which name the document.
pub open spec fn file_head(rel_path: Seq<char>, today: Seq<char>) -> Seq<char> {
    FILE_INTRO@ + today + FILE_PATH_LEAD@ + rel_path + FILE_RULES@
}

/// The characters left for the document once the instructions and the
/// final newline are counted.
pub open spec fn body_budget(head_len: nat) -> nat {
    if head_len + 1 <= 24000 {
        (24000 - (head_len + 1)) as nat
    } else {
        0
    }
}

/// The per-file prompt: the instructions, then the document cut to what
/// the budget leaves, then a newline.
pub open spec fn file_prompt(rel_path: Seq<char>, text: Seq<char>, today: Seq<char>) -> Seq<char> {
    let h = file_head(rel_path, today);
    let b = body_budget(h.len());
    h + (if text.len() > b {
        text.take(b as int)
    } else {
        text
    }) + "\n"@
}

pub fn compose_file_prompt(rel_path: &str, text: &str, today: &str) -> (r: String)
    ensures
        r@ == file_prompt(rel_path@, text@, today@),
        file_head(rel_path@, today@).len() + 1 <= EXTRACT_CHAR_BUDGET ==> r@.len() <= EXTRACT_CHAR_BUDGET,
{
    let mut head: Vec<char> = Vec::new();
    push_str(&mut head, FILE_INTRO);
    push_str(&mut head, today);
    push_str(&mut head, FILE_PATH_LEAD);
    push_str(&mut head, rel_path);
    push_str(&mut head, FILE_RULES);
    let budget: usize = if head.len() < EXTRACT_CHAR_BUDGET {
        EXTRACT_CHAR_BUDGET - (head.len() + 1)
    } else {
        0
    };
    let t = chars_of(text);
    let mut out = head;
    assert(out@ =~= file_head(rel_path@, today@));
    assert(budget == body_budget(out@.len()));
    if t.len() > budget {
        let mut i: usize = 0;
        let ghost h = out@;
        while i < budget
            invariant
                i <= budget < t.len(),
                h == file_head(rel_path@, today@),
                t@ == text@,
                out@ == h + t@.take(i as int),
            decreases budget - i,
        {
            out.push(t[i]);
            i = i + 1;
            assert(out@ =~= h + t@.take(i as int));
        }
        assert(out@ == file_head(rel_path@, today@) + text@.take(budget as int));
    } else {
        push_all(&mut out, &t);
        assert(out@ == file_head(rel_path@, today@) + text@);
    }
    let ghost pre = out@;
    out.push('\n');
    assert(out@ == pre + "\n"@) by {
        reveal_strlit("\n");
    }
    assert(out@ =~= file_prompt(rel_path@, text@, today@));
    string_of(out.as_slice())
}

// ---------------------------------------------------------------------
// Content fingerprint
// ---------------------------------------------------------------------

pub const FNV_OFFSET: u64 = 0xcbf29ce484222325;

pub const FNV_PRIME: u64 = 0x100000001b3;

/// One FNV-1a step: fold the byte in, then multiply modulo 2^64.
pub open spec fn fnv_step(h: u64, b: u8) -> u64 {
    (((h ^ (b as u64)) as nat * FNV_PRIME as nat) % 0x1_0000_0000_0000_0000nat) as u64
}

/// 64-bit FNV-1a of `bytes`.
pub open spec fn fnv1a(bytes: Seq<u8>) -> u64
    decreases bytes.len(),
{
    if bytes.len() == 0 {
        FNV_OFFSET
    } else {
        fnv_step(fnv1a(bytes.drop_last()), bytes.last())
    }
}

/// A deterministic 64-bit FNV-1a of the text's UTF-8 bytes, as sixteen
/// lower-case hex digits.
pub fn content_hash(text: &str) -> (r: String)
    ensures
        r@ == pad0(hex(fnv1a(text.spec_bytes()) as nat), 16),
{
    let bytes = text.as_bytes();
    let mut h: u64 = FNV_OFFSET;
    let mut i: usize = 0;
    while i < bytes.len()
        invariant
            i <= bytes.len(),
            bytes@ == text.spec_bytes(),
            h == fnv1a(bytes@.take(i as int)),
        decreases bytes.len() - i,
    {
        proof {
            assert(bytes@.take(i + 1).drop_last() =~= bytes@.take(i as int));
        }
        h = h ^ (bytes[i] as u64);
        h = h.wrapping_mul(FNV_PRIME);
        i = i + 1;
    }
    assert(bytes@.take(bytes.len() as int) =~= bytes@);
    let v = pad0_vec(hex_u64(h), 16);
    string_of(v.as_slice())
}

// ---------------------------------------------------------------------
// Automatic rebuild policy
// ---------------------------------------------------------------------

/// Milliseconds the index must be quiet before a project's first build.
pub const FIRST_BUILD_SETTLE: u64 = 60000;

/// Milliseconds the index must be quiet before an automatic rebuild.
pub const CHANGE_QUIET: u64 = 300000;

/// Milliseconds between automatic build attempts, successes and failures
/// alike.
pub const MIN_AUTO_INTERVAL: u64 = 1800000;

/// Pending changes this old (in milliseconds) build even without a quiet
/// window.
pub const MAX_DEFER: u64 = 1800000;

/// What the policy needs that the tracker cannot know by itself.
#[derive(Debug, Clone, Copy, PartialEq, Eq, Structural)]
pub struct AutoBuildContext {
    /// The agent CLI was found; without it a build can only fail.
    pub claude_available: bool,
    /// A build is running right now.
    pub in_flight: bool,
    /// Indexed files available to read.
    pub indexed_files: usize,
    /// The project has no stored knowledge model yet.
    pub never_built: bool,
}

/// The full input of the rebuild decision; times are milliseconds.
#[derive(Debug, Clone, Copy, PartialEq, Eq, Structural)]
pub struct AutoBuildState {
    pub claude_available: bool,
    pub in_flight: bool,
    /// The project's scan is still running.
    pub scanning: bool,
    pub indexed_files: usize,
    pub never_built: bool,
    /// Source files changed since the last build started.
    pub dirty: bool,
    pub since_last_change: Option<u64>,
    pub since_first_change: Option<u64>,
    /// Since the last automatic or manual build attempt finished.
    pub since_last_attempt: Option<u64>,
}

/// Quiet for `quiet`, or pending so long that waiting has become the bug.
pub open spec fn settled(s: AutoBuildState, quiet: u64) -> bool {
    match s.since_last_change {
        None => true,
        Some(last) => last >= quiet || (s.since_first_change matches Some(first) && first >= MAX_DEFER),
    }
}

/// Should Ken rebuild the knowledge model right now?
pub open spec fn auto_build(s: AutoBuildState) -> bool {
    if !s.claude_available || s.in_flight || s.scanning || s.indexed_files == 0 {
        false
    } else if s.since_last_attempt matches Some(a) && a < MIN_AUTO_INTERVAL {
        false
    } else if s.never_built {
        settled(s, FIRST_BUILD_SETTLE)
    } else {
        s.dirty && settled(s, CHANGE_QUIET)
    }
}

fn is_settled(s: &AutoBuildState, quiet: u64) -> (r: bool)
    ensures
        r == settled(*s, quiet),
{
    match s.since_last_change {
        None => true,
        Some(last) => last >= quiet || match s.since_first_change {
            Some(first) => first >= MAX_DEFER,
            None => false,
        },
    }
}

/// The rebuild decision as one pure function of observed state.
pub fn should_auto_build(s: &AutoBuildState) -> (r: bool)
    ensures
        r == auto_build(*s),
        // Never a second build over one in flight, never against a
        // half-walked folder, never without the CLI or anything to read.
        s.in_flight || s.scanning || !s.claude_available || s.indexed_files == 0 ==> !r,
        // At most one automatic attempt per cooldown.
        (s.since_last_attempt matches Some(a) && a < MIN_AUTO_INTERVAL) ==> !r,
{
    if !s.claude_available || s.in_flight || s.scanning || s.indexed_files == 0 {
        return false;
    }
    match s.since_last_attempt {
        Some(a) => {
            if a < MIN_AUTO_INTERVAL {
                return false;
            }
        },
        None => {},
    }
    if s.never_built {
        return is_settled(s, FIRST_BUILD_SETTLE);
    }
    s.dirty && is_settled(s, CHANGE_QUIET)
}

/// Change, scan, and build bookkeeping for one open project, over a
/// caller-supplied millisecond clock.
#[derive(Debug, Clone)]
pub struct AutoBuildTracker {
    scanning: bool,
    /// Set by source changes, cleared when a build starts reading them.
    dirty: bool,
    first_change: Option<u64>,
    last_change: Option<u64>,
    last_attempt: Option<u64>,
}

impl AutoBuildTracker {
    pub closed spec fn scanning(&self) -> bool {
        self.scanning
    }

    pub closed spec fn dirty(&self) -> bool {
        self.dirty
    }

    pub closed spec fn first_change(&self) -> Option<u64> {
        self.first_change
    }

    pub closed spec fn last_change(&self) -> Option<u64> {
        self.last_change
    }

    pub closed spec fn last_attempt(&self) -> Option<u64> {
        self.last_attempt
    }

    /// Starts out scanning: no build may run against a half-walked
    /// folder.
    pub fn new() -> (r: Self)
        ensures
            r.scanning(),
            !r.dirty(),
            r.first_change().is_none() && r.last_change().is_none() && r.last_attempt().is_none(),
    {
        AutoBuildTracker {
            scanning: true,
            dirty: false,
            first_change: None,
            last_change: None,
            last_attempt: None,
        }
    }

    pub fn scan_finished(&mut self)
        ensures
            !final(self).scanning(),
            final(self).dirty() == old(self).dirty(),
            final(self).first_change() == old(self).first_change(),
            final(self).last_change() == old(self).last_change(),
            final(self).last_attempt() == old(self).last_attempt(),
    {
        self.scanning = false;
    }

    /// Source files changed at `at`: one pending rebuild, whose quiet
    /// window slides with the last change and whose deferral cap counts
    /// from the first.
    pub fn changed_at(&mut self, at: u64)
        ensures
            final(self).dirty(),
            final(self).first_change() == match old(self).first_change() {
                Some(f) => Some(f),
                None => Some(at),
            },
            final(self).last_change() == Some(at),
            final(self).scanning() == old(self).scanning(),
            final(self).last_attempt() == old(self).last_attempt(),
    {
        self.dirty = true;
        if self.first_change.is_none() {
            self.first_change = Some(at);
        }
        self.last_change = Some(at);
    }

    /// A build is about to read the index: the pending changes are its
    /// input, so only later changes count.
    pub fn build_started(&mut self, at: u64)
        ensures
            !final(self).dirty(),
            final(self).first_change().is_none() && final(self).last_change().is_none(),
            final(self).last_attempt() == Some(at),
            final(self).scanning() == old(self).scanning(),
    {
        self.dirty = false;
        self.first_change = None;
        self.last_change = None;
        self.last_attempt = Some(at);
    }

    /// Stamped for successes and failures alike.
    pub fn build_finished(&mut self, at: u64)
        ensures
            final(self).last_attempt() == Some(at),
            final(self).scanning() == old(self).scanning(),
            final(self).dirty() == old(self).dirty(),
            final(self).first_change() == old(self).first_change(),
            final(self).last_change() == old(self).last_change(),
    {
        self.last_attempt = Some(at);
    }

    pub open spec fn since_opt(now: u64, t: Option<u64>) -> Option<u64> {
        match t {
            Some(x) => Some(since(now, x) as u64),
            None => None,
        }
    }

    pub open spec fn snapshot_spec(&self, ctx: AutoBuildContext, now: u64) -> AutoBuildState {
        AutoBuildState {
            claude_available: ctx.claude_available,
            in_flight: ctx.in_flight,
            scanning: self.scanning(),
            indexed_files: ctx.indexed_files,
            never_built: ctx.never_built,
            dirty: self.dirty(),
            since_last_change: Self::since_opt(now, self.last_change()),
            since_first_change: Self::since_opt(now, self.first_change()),
            since_last_attempt: Self::since_opt(now, self.last_attempt()),
        }
    }

    fn since_of(now: u64, t: Option<u64>) -> (r: Option<u64>)
        ensures
            r == Self::since_opt(now, t),
    {
        match t {
            Some(x) => Some(if now >= x {
                now - x
            } else {
                0
            }),
            None => None,
        }
    }

    /// The decision's input as of `now`.
    pub fn snapshot(&self, ctx: AutoBuildContext, now: u64) -> (r: AutoBuildState)
        ensures
            r == self.snapshot_spec(ctx, now),
    {
        AutoBuildState {
            claude_available: ctx.claude_available,
            in_flight: ctx.in_flight,
            scanning: self.scanning,
            indexed_files: ctx.indexed_files,
            never_built: ctx.never_built,
            dirty: self.dirty,
            since_last_change: Self::since_of(now, self.last_change),
            since_first_change: Self::since_of(now, self.first_change),
            since_last_attempt: Self::since_of(now, self.last_attempt),
        }
    }

    pub fn should_build(&self, ctx: AutoBuildContext, now: u64) -> (r: bool)
        ensures
            r == auto_build(self.snapshot_spec(ctx, now)),
    {
        let s = self.snapshot(ctx, now);
        should_auto_build(&s)
    }
}

impl Default for AutoBuildTracker {
    fn default() -> (r: Self)
        ensures
            r.scanning(),
            !r.dirty(),
            r.first_change().is_none() && r.last_change().is_none() && r.last_attempt().is_none(),
    {
        AutoBuildTracker::new()
    }
}

// ---------------------------------------------------------------------
// The model's answer, resolved
// ---------------------------------------------------------------------

/// The most entities one corpus-wide extraction keeps.
pub const MAX_ENTITIES: usize = 200;

/// The most events one corpus-wide extraction keeps.
pub const MAX_EVENTS: usize = 150;

/// `str::to_lowercase`: Unicode lower-casing of a whole string. Its value
/// is named, not stated: it follows Unicode's case tables.
pub uninterp spec fn lowercase_str(s: Seq<char>) -> Seq<char>;

/// `str::to_lowercase`. The contract names the result
/// [`lowercase_str`] of the input.
#[verifier::external_body]
fn str_to_lowercase(s: &str) -> (r: String)
    ensures
        r@ == lowercase_str(s@),
{
    s.to_lowercase()
}

/// One entity as the store takes it; `connections` point at other
/// entities of the same extraction by position.
#[derive(Debug, Clone, PartialEq, Eq)]
pub struct EntityInput {
    pub kind: String,
    pub name: String,
    pub summary: String,
    pub sources: Vec<String>,
    pub connections: Vec<(usize, String)>,
}

/// One dated event as the store takes it.
#[derive(Debug, Clone, PartialEq, Eq)]
pub struct EventInput {
    pub date: String,
    pub category: String,
    pub text: String,
    pub source: String,
}

/// A resolved extraction, ready to store.
#[derive(Debug, Clone, PartialEq, Eq)]
pub struct Extraction {
    pub entities: Vec<EntityInput>,
    pub events: Vec<EventInput>,
}

/// A connection as the answer wrote it: each field `None` when absent or
/// not a string.
#[derive(Debug, Clone, PartialEq, Eq)]
pub struct RawConnection {
    pub to: Option<String>,
    pub label: Option<String>,
}

/// An entity as the answer wrote it. `sources` holds one entry per array
/// element (`None` for a non-string); a missing array is empty.
#[derive(Debug, Clone, PartialEq, Eq)]
pub struct RawEntity {
    pub kind: Option<String>,
    pub name: Option<String>,
    pub summary: Option<String>,
    pub sources: Vec<Option<String>>,
    pub connections: Vec<RawConnection>,
}

/// An event as the answer wrote it.
#[derive(Debug, Clone, PartialEq, Eq)]
pub struct RawEvent {
    pub date: Option<String>,
    pub category: Option<String>,
    pub text: Option<String>,
    pub source: Option<String>,
}

/// The answer's two arrays, element by element.
#[derive(Debug, Clone, PartialEq, Eq)]
pub struct RawExtraction {
    pub entities: Vec<RawEntity>,
    pub events: Vec<RawEvent>,
}

/// A string field trimmed, absent when missing or blank.
pub open spec fn field(o: Option<String>) -> Option<Seq<char>> {
    match o {
        Some(s) => non_empty(s@),
        None => None,
    }
}

/// A string field trimmed, empty when missing.
pub open spec fn field_or_empty(o: Option<String>) -> Seq<char> {
    match o {
        Some(s) => trim_ws(s@),
        None => seq![],
    }
}

pub open spec fn is_entity_kind(k: Seq<char>) -> bool {
    k == "person"@ || k == "organization"@ || k == "topic"@ || k == "decision"@ || k == "other"@
}

/// The kind, lower-cased; `other` when missing or unknown.
pub open spec fn kind_word(o: Option<String>) -> Seq<char> {
    match o {
        Some(k) => if is_entity_kind(lowercase_str(trim_ws(k@))) {
            lowercase_str(trim_ws(k@))
        } else {
            "other"@
        },
        None => "other"@,
    }
}

/// The usable strings of a list, trimmed, in order.
pub open spec fn kept_strings(xs: Seq<Option<String>>) -> Seq<Seq<char>>
    decreases xs.len(),
{
    if xs.len() == 0 {
        seq![]
    } else {
        match field(xs.last()) {
            Some(s) => kept_strings(xs.drop_last()).push(s),
            None => kept_strings(xs.drop_last()),
        }
    }
}

/// The connections with a usable target: (target name, trimmed label).
pub open spec fn named_links(cs: Seq<RawConnection>) -> Seq<(Seq<char>, Seq<char>)>
    decreases cs.len(),
{
    if cs.len() == 0 {
        seq![]
    } else {
        match field(cs.last().to) {
            Some(t) => named_links(cs.drop_last()).push((t, field_or_empty(cs.last().label))),
            None => named_links(cs.drop_last()),
        }
    }
}

/// An entity before its connections resolve: kind, name, summary,
/// sources, and the named links it asks for.
pub type EntityBase = (Seq<char>, Seq<char>, Seq<char>, Seq<Seq<char>>, Seq<(Seq<char>, Seq<char>)>);

/// What an entity record contributes: nothing without a usable name.
pub open spec fn entity_base(e: RawEntity) -> Option<EntityBase> {
    base_from(e.kind, e.name, e.summary, e.sources@, e.connections@)
}

/// An entity from its answered fields: nothing without a name.
pub open spec fn base_from(
    kind: Option<String>,
    name: Option<String>,
    summary: Option<String>,
    sources: Seq<Option<String>>,
    connections: Seq<RawConnection>,
) -> Option<EntityBase> {
    match field(name) {
        Some(n) => Some(
            (kind_word(kind), n, field_or_empty(summary), kept_strings(sources), named_links(connections)),
        ),
        None => None,
    }
}

/// The entities the first `n` records yield, at most [`MAX_ENTITIES`].
pub open spec fn entity_bases(items: Seq<RawEntity>, n: int) -> Seq<EntityBase>
    decreases n,
{
    if n <= 0 {
        seq![]
    } else {
        let prev = entity_bases(items, n - 1);
        if prev.len() >= MAX_ENTITIES {
            prev
        } else {
            match entity_base(items[n - 1]) {
                Some(b) => prev.push(b),
                None => prev,
            }
        }
    }
}

/// Every requested link, tagged with the entity asking: (from, target
/// name, label), entity by entity.
pub open spec fn link_requests(bs: Seq<EntityBase>) -> Seq<(int, Seq<char>, Seq<char>)>
    decreases bs.len(),
{
    if bs.len() == 0 {
        seq![]
    } else {
        let from = bs.len() - 1;
        link_requests(bs.drop_last()) + bs.last().4.map_values(
            |l: (Seq<char>, Seq<char>)| (from, l.0, l.1),
        )
    }
}

/// The first entity whose lower-cased name is `key`, from `i` on.
pub open spec fn name_index(bs: Seq<EntityBase>, key: Seq<char>, i: int) -> Option<int>
    decreases bs.len() - i,
{
    if i < 0 || i >= bs.len() {
        None
    } else if lowercase_str(bs[i].1) == key {
        Some(i)
    } else {
        name_index(bs, key, i + 1)
    }
}

/// The resolved edges per entity, and the unordered pairs already linked.
pub type LinkState = (Seq<Seq<(int, Seq<char>)>>, Set<(int, int)>);

pub open spec fn pair_of(a: int, b: int) -> (int, int) {
    if a <= b {
        (a, b)
    } else {
        (b, a)
    }
}

/// One request applied: a target naming no entity, the entity itself, or
/// an already-linked pair (either direction) is dropped.
pub open spec fn link_step(bs: Seq<EntityBase>, st: LinkState, req: (int, Seq<char>, Seq<char>)) -> LinkState {
    match name_index(bs, lowercase_str(trim_ws(req.1)), 0) {
        Some(to) => if to == req.0 || st.1.contains(pair_of(req.0, to)) {
            st
        } else {
            (st.0.update(req.0, st.0[req.0].push((to, req.2))), st.1.insert(pair_of(req.0, to)))
        },
        None => st,
    }
}

/// The requests applied in order, from no edges.
pub open spec fn link_all(bs: Seq<EntityBase>, reqs: Seq<(int, Seq<char>, Seq<char>)>) -> LinkState
    decreases reqs.len(),
{
    if reqs.len() == 0 {
        (Seq::new(bs.len(), |i: int| Seq::<(int, Seq<char>)>::empty()), Set::empty())
    } else {
        link_step(bs, link_all(bs, reqs.drop_last()), reqs.last())
    }
}

/// `yyyy-mm-dd`, month 1 to 12, day 1 to 31.
pub open spec fn valid_date(d: Seq<char>) -> bool {
    &&& d.len() == 10
    &&& d[4] == '-'
    &&& d[7] == '-'
    &&& forall|k: int| 0 <= k < 10 && k != 4 && k != 7 ==> #[trigger] is_ascii_digit(d[k])
    &&& 1 <= two_digits(d[5], d[6]) <= 12
    &&& 1 <= two_digits(d[8], d[9]) <= 31
}

pub open spec fn two_digits(a: char, b: char) -> int {
    ((a as u32) - 48) * 10 + ((b as u32) - 48)
}

/// How many leading characters of `s` are not whitespace.
pub open spec fn word_len(s: Seq<char>) -> nat
    decreases s.len(),
{
    if s.len() == 0 || is_ws(s[0]) {
        0
    } else {
        1 + word_len(s.drop_first())
    }
}

/// The first whitespace-separated word of `s`, if any.
pub open spec fn first_word(s: Seq<char>) -> Option<Seq<char>> {
    let t = trim_start_ws(s);
    if t.len() == 0 {
        None
    } else {
        Some(t.take(word_len(t) as int))
    }
}

/// The category as one lower-case word; `other` when missing or blank.
pub open spec fn category_word(o: Option<String>) -> Seq<char> {
    match o {
        Some(c) => match first_word(lowercase_str(c@)) {
            Some(w) => w,
            None => "other"@,
        },
        None => "other"@,
    }
}

/// An event as plain values: date, category, text, source.
pub type EventView = (Seq<char>, Seq<char>, Seq<char>, Seq<char>);

/// What an event record contributes: nothing without text or a valid
/// date.
pub open spec fn event_of(e: RawEvent) -> Option<EventView> {
    match field(e.text) {
        Some(t) => match e.date {
            Some(d) => if valid_date(trim_ws(d@)) {
                Some((trim_ws(d@), category_word(e.category), t, field_or_empty(e.source)))
            } else {
                None
            },
            None => None,
        },
        None => None,
    }
}

/// The events the first `n` records yield, at most [`MAX_EVENTS`].
pub open spec fn event_views(items: Seq<RawEvent>, n: int) -> Seq<EventView>
    decreases n,
{
    if n <= 0 {
        seq![]
    } else {
        let prev = event_views(items, n - 1);
        if prev.len() >= MAX_EVENTS {
            prev
        } else {
            match event_of(items[n - 1]) {
                Some(v) => prev.push(v),
                None => prev,
            }
        }
    }
}

pub open spec fn event_view(e: EventInput) -> EventView {
    (e.date@, e.category@, e.text@, e.source@)
}

pub open spec fn edges_view(v: Seq<(usize, String)>) -> Seq<(int, Seq<char>)> {
    v.map_values(|p: (usize, String)| (p.0 as int, p.1@))
}

/// An entity as plain values: kind, name, summary, sources, edges.
pub type EntityView = (Seq<char>, Seq<char>, Seq<char>, Seq<Seq<char>>, Seq<(int, Seq<char>)>);

pub open spec fn entity_view(e: EntityInput) -> EntityView {
    (e.kind@, e.name@, e.summary@, strs(e.sources@), edges_view(e.connections@))
}

/// The resolved entities: each base with its resolved edges.
pub open spec fn resolved_entities(items: Seq<RawEntity>) -> Seq<EntityView> {
    resolved_from(entity_bases(items, items.len() as int))
}

/// The entities `bs` with their connections resolved.
pub open spec fn resolved_from(bs: Seq<EntityBase>) -> Seq<EntityView> {
    let st = link_all(bs, link_requests(bs));
    Seq::new(bs.len(), |i: int| (bs[i].0, bs[i].1, bs[i].2, bs[i].3, st.0[i]))
}

pub fn field_of(o: &Option<String>) -> (r: Option<String>)
    ensures
        opt_view(r) == field(*o),
{
    match o {
        Some(s) => non_empty_of(s.as_str()),
        None => None,
    }
}

fn field_or_empty_of(o: &Option<String>) -> (r: String)
    ensures
        r@ == field_or_empty(*o),
{
    match o {
        Some(s) => trim_str(s.as_str()),
        None => String::new(),
    }
}

fn lit(s: &str) -> (r: String)
    ensures
        r@ == s@,
{
    string_of(chars_of(s).as_slice())
}

fn kind_of(o: &Option<String>) -> (r: String)
    ensures
        r@ == kind_word(*o),
{
    match o {
        Some(k) => {
            let t = trim_str(k.as_str());
            let l = str_to_lowercase(t.as_str());
            let ls = l.as_str();
            if str_eq(ls, "person") || str_eq(ls, "organization") || str_eq(ls, "topic") || str_eq(
                ls,
                "decision",
            ) || str_eq(ls, "other") {
                l
            } else {
                lit("other")
            }
        },
        None => lit("other"),
    }
}

pub fn kept_strings_of(xs: &Vec<Option<String>>) -> (r: Vec<String>)
    ensures
        strs(r@) == kept_strings(xs@),
{
    let mut out: Vec<String> = Vec::new();
    let mut i: usize = 0;
    while i < xs.len()
        invariant
            i <= xs.len(),
            strs(out@) == kept_strings(xs@.take(i as int)),
        decreases xs.len() - i,
    {
        assert(xs@.take(i + 1).drop_last() =~= xs@.take(i as int));
        let ghost before = out@;
        match field_of(&xs[i]) {
            Some(s) => {
                out.push(s);
                assert(strs(out@) =~= strs(before).push(s@));
            },
            None => {},
        }
        i = i + 1;
    }
    assert(xs@.take(xs@.len() as int) =~= xs@);
    out
}

pub open spec fn links_view(v: Seq<(String, String)>) -> Seq<(Seq<char>, Seq<char>)> {
    v.map_values(|p: (String, String)| (p.0@, p.1@))
}

fn named_links_of(cs: &Vec<RawConnection>) -> (r: Vec<(String, String)>)
    ensures
        links_view(r@) == named_links(cs@),
{
    let mut out: Vec<(String, String)> = Vec::new();
    let mut i: usize = 0;
    while i < cs.len()
        invariant
            i <= cs.len(),
            links_view(out@) == named_links(cs@.take(i as int)),
        decreases cs.len() - i,
    {
        assert(cs@.take(i + 1).drop_last() =~= cs@.take(i as int));
        let ghost before = out@;
        match field_of(&cs[i].to) {
            Some(t) => {
                let label = field_or_empty_of(&cs[i].label);
                let ghost item = (t@, label@);
                out.push((t, label));
                assert(links_view(out@) =~= links_view(before).push(item));
            },
            None => {},
        }
        i = i + 1;
    }
    assert(cs@.take(cs@.len() as int) =~= cs@);
    out
}

/// The base view of a staged entity and the links it asks for.
pub open spec fn staged_view(e: EntityInput, l: Seq<(String, String)>) -> EntityBase {
    (e.kind@, e.name@, e.summary@, strs(e.sources@), links_view(l))
}

pub open spec fn staged(ents: Seq<EntityInput>, reqs: Seq<Vec<(String, String)>>) -> Seq<EntityBase> {
    Seq::new(ents.len(), |k: int| staged_view(ents[k], reqs[k]@))
}

fn stage_entities(items: &Vec<RawEntity>) -> (r: (Vec<EntityInput>, Vec<Vec<(String, String)>>))
    ensures
        r.0@.len() == r.1@.len(),
        staged(r.0@, r.1@) == entity_bases(items@, items@.len() as int),
        r.0@.len() <= MAX_ENTITIES,
{
    let mut ents: Vec<EntityInput> = Vec::new();
    let mut reqs: Vec<Vec<(String, String)>> = Vec::new();
    let mut i: usize = 0;
    while i < items.len()
        invariant
            i <= items.len(),
            ents@.len() == reqs@.len(),
            ents@.len() <= MAX_ENTITIES,
            staged(ents@, reqs@) == entity_bases(items@, i as int),
        decreases items.len() - i,
    {
        if ents.len() < MAX_ENTITIES {
            let e = &items[i];
            match field_of(&e.name) {
                Some(name) => {
                    let ghost before = staged(ents@, reqs@);
                    let entity = EntityInput {
                        kind: kind_of(&e.kind),
                        name,
                        summary: field_or_empty_of(&e.summary),
                        sources: kept_strings_of(&e.sources),
                        connections: Vec::new(),
                    };
                    let links = named_links_of(&e.connections);
                    let ghost b = staged_view(entity, links@);
                    ents.push(entity);
                    reqs.push(links);
                    assert(staged(ents@, reqs@) =~= before.push(b));
                },
                None => {},
            }
        }
        i = i + 1;
    }
    (ents, reqs)
}

/// The unordered pairs recorded in `v`.
pub open spec fn pair_set(v: Seq<(usize, usize)>) -> Set<(int, int)> {
    Set::new(|p: (int, int)| exists|k: int| 0 <= k < v.len() && v[k].0 as int == p.0 && v[k].1 as int == p.1)
}

pub open spec fn edges_views(v: Seq<Vec<(usize, String)>>) -> Seq<Seq<(int, Seq<char>)>> {
    v.map_values(|row: Vec<(usize, String)>| edges_view(row@))
}

fn has_pair(seen: &Vec<(usize, usize)>, a: usize, b: usize) -> (r: bool)
    ensures
        r == pair_set(seen@).contains((a as int, b as int)),
{
    let mut k: usize = 0;
    while k < seen.len()
        invariant
            k <= seen.len(),
            forall|j: int| 0 <= j < k ==> !(seen@[j].0 == a && seen@[j].1 == b),
        decreases seen.len() - k,
    {
        if seen[k].0 == a && seen[k].1 == b {
            assert(seen@[k as int].0 as int == a as int && seen@[k as int].1 as int == b as int);
            return true;
        }
        k = k + 1;
    }
    false
}

fn copy_edges(row: &Vec<(usize, String)>) -> (r: Vec<(usize, String)>)
    ensures
        edges_view(r@) == edges_view(row@),
{
    let mut out: Vec<(usize, String)> = Vec::new();
    let mut i: usize = 0;
    while i < row.len()
        invariant
            i <= row.len(),
            edges_view(out@) == edges_view(row@).take(i as int),
        decreases row.len() - i,
    {
        let ghost before = out@;
        let item = (row[i].0, row[i].1.clone());
        out.push(item);
        assert(edges_view(out@) =~= edges_view(before).push((item.0 as int, item.1@)));
        assert(edges_view(row@).take(i + 1) =~= edges_view(row@).take(i as int).push(edges_view(row@)[i as int]));
        i = i + 1;
    }
    assert(edges_view(row@).take(row@.len() as int) =~= edges_view(row@));
    out
}

fn find_name(lower: &Vec<String>, key: &str, Ghost(bs): Ghost<Seq<EntityBase>>) -> (r: Option<usize>)
    requires
        lower@.len() == bs.len(),
        forall|k: int| 0 <= k < bs.len() ==> (#[trigger] lower@[k])@ == lowercase_str(bs[k].1),
    ensures
        match r {
            Some(k) => name_index(bs, key@, 0) == Some(k as int) && k < bs.len(),
            None => name_index(bs, key@, 0).is_none(),
        },
{
    let mut i: usize = 0;
    while i < lower.len()
        invariant
            i <= lower.len(),
            lower@.len() == bs.len(),
            forall|k: int| 0 <= k < bs.len() ==> (#[trigger] lower@[k])@ == lowercase_str(bs[k].1),
            name_index(bs, key@, 0) == name_index(bs, key@, i as int),
        decreases lower.len() - i,
    {
        if str_eq(lower[i].as_str(), key) {
            return Some(i);
        }
        i = i + 1;
    }
    None
}

pub open spec fn tagged(from: int, ls: Seq<(Seq<char>, Seq<char>)>) -> Seq<(int, Seq<char>, Seq<char>)> {
    ls.map_values(|l: (Seq<char>, Seq<char>)| (from, l.0, l.1))
}

/// Resolve every requested link, in order, into per-entity edges.
fn resolve_links(ents: &Vec<EntityInput>, reqs: &Vec<Vec<(String, String)>>) -> (r: Vec<
    Vec<(usize, String)>,
>)
    requires
        ents@.len() == reqs@.len(),
    ensures
        r@.len() == ents@.len(),
        edges_views(r@) == link_all(staged(ents@, reqs@), link_requests(staged(ents@, reqs@))).0,
{
    let ghost bs = staged(ents@, reqs@);
    let n = ents.len();
    let mut lower: Vec<String> = Vec::new();
    let mut edges: Vec<Vec<(usize, String)>> = Vec::new();
    let mut i: usize = 0;
    while i < n
        invariant
            i <= n,
            n == ents@.len(),
            bs == staged(ents@, reqs@),
            lower@.len() == i,
            edges@.len() == i,
            forall|k: int| 0 <= k < i ==> (#[trigger] lower@[k])@ == lowercase_str(bs[k].1),
            forall|k: int| 0 <= k < i ==> (#[trigger] edges@[k])@.len() == 0,
        decreases n - i,
    {
        lower.push(str_to_lowercase(ents[i].name.as_str()));
        edges.push(Vec::new());
        i = i + 1;
    }
    let mut seen: Vec<(usize, usize)> = Vec::new();
    proof {
        assert(bs.len() == n);
        assert forall|k: int| 0 <= k < n implies #[trigger] edges_views(edges@)[k] =~= Seq::<(int, Seq<char>)>::empty() by {
            assert(edges@[k]@.len() == 0);
        }
        assert(edges_views(edges@) =~= Seq::new(bs.len(), |i: int| Seq::<(int, Seq<char>)>::empty()));
        assert(pair_set(seen@) =~= Set::<(int, int)>::empty());
        assert(bs.take(0) =~= Seq::<EntityBase>::empty());
    }
    let mut from: usize = 0;
    while from < n
        invariant
            from <= n,
            n == ents@.len(),
            n == reqs@.len(),
            bs == staged(ents@, reqs@),
            lower@.len() == n,
            edges@.len() == n,
            forall|k: int| 0 <= k < n ==> (#[trigger] lower@[k])@ == lowercase_str(bs[k].1),
            (edges_views(edges@), pair_set(seen@)) == link_all(bs, link_requests(bs.take(from as int))),
        decreases n - from,
    {
        let row = &reqs[from];
        let ghost base = link_requests(bs.take(from as int));
        let ghost ls = links_view(row@);
        assert(bs[from as int].4 == ls);
        let mut j: usize = 0;
        assert(tagged(from as int, ls.take(0)) =~= Seq::<(int, Seq<char>, Seq<char>)>::empty());
        assert(base + tagged(from as int, ls.take(0)) =~= base);
        while j < row.len()
            invariant
                j <= row.len(),
                from < n,
                n == ents@.len(),
                bs == staged(ents@, reqs@),
                *row == reqs@[from as int],
                ls == links_view(row@),
                lower@.len() == n,
                edges@.len() == n,
                forall|k: int| 0 <= k < n ==> (#[trigger] lower@[k])@ == lowercase_str(bs[k].1),
                (edges_views(edges@), pair_set(seen@)) == link_all(bs, base + tagged(from as int, ls.take(j as int))),
            decreases row.len() - j,
        {
            let ghost prefix = base + tagged(from as int, ls.take(j as int));
            let ghost req = (from as int, row@[j as int].0@, row@[j as int].1@);
            proof {
                assert(base + tagged(from as int, ls.take(j + 1)) =~= prefix.push(req));
                assert(prefix.push(req).drop_last() =~= prefix);
            }
            let trimmed = trim_str(row[j].0.as_str());
            let key = str_to_lowercase(trimmed.as_str());
            match find_name(&lower, key.as_str(), Ghost(bs)) {
                Some(to) => {
                    if to != from {
                        let (a, b) = if from <= to {
                            (from, to)
                        } else {
                            (to, from)
                        };
                        if !has_pair(&seen, a, b) {
                            let ghost ev = edges_views(edges@);
                            let ghost sv = seen@;
                            let mut new_row = copy_edges(&edges[from]);
                            let ghost copied = new_row@;
                            let label = row[j].1.clone();
                            new_row.push((to, label));
                            assert(edges_view(new_row@) =~= edges_view(copied).push((to as int, label@)));
                            edges.set(from, new_row);
                            seen.push((a, b));
                            proof {
                                assert(edges_views(edges@) =~= ev.update(
                                    from as int,
                                    ev[from as int].push((to as int, row@[j as int].1@)),
                                ));
                                assert(pair_set(seen@) =~= pair_set(sv).insert(pair_of(from as int, to as int))) by {
                                    assert forall|p: (int, int)| #[trigger] pair_set(seen@).contains(p) == pair_set(
                                        sv,
                                    ).insert(pair_of(from as int, to as int)).contains(p) by {
                                        if pair_set(seen@).contains(p) {
                                            let k = choose|k: int|
                                                0 <= k < seen@.len() && seen@[k].0 as int == p.0 && seen@[k].1 as int
                                                    == p.1;
                                            if k < sv.len() {
                                                assert(seen@[k] == sv[k]);
                                            }
                                        }
                                        if pair_set(sv).contains(p) {
                                            let k = choose|k: int|
                                                0 <= k < sv.len() && sv[k].0 as int == p.0 && sv[k].1 as int == p.1;
                                            assert(seen@[k] == sv[k]);
                                        }
                                        if p == pair_of(from as int, to as int) {
                                            assert(seen@[sv.len() as int] == (a, b));
                                        }
                                    }
                                }
                            }
                        }
                    }
                },
                None => {},
            }
            j = j + 1;
        }
        proof {
            assert(ls.take(row@.len() as int) =~= ls);
            assert(bs.take(from + 1).drop_last() =~= bs.take(from as int));
            assert(bs.take(from + 1).last() == bs[from as int]);
            assert(link_requests(bs.take(from + 1)) == base + tagged(from as int, ls));
        }
        from = from + 1;
    }
    assert(bs.take(n as int) =~= bs);
    edges
}

fn is_digit_char(c: char) -> (r: bool)
    ensures
        r == is_ascii_digit(c),
{
    '0' <= c && c <= '9'
}

fn valid_date_of(d: &Vec<char>) -> (r: bool)
    ensures
        r == valid_date(d@),
{
    if d.len() != 10 || d[4] != '-' || d[7] != '-' {
        return false;
    }
    let mut k: usize = 0;
    while k < 10
        invariant
            d@.len() == 10,
            k <= 10,
            forall|j: int| 0 <= j < k && j != 4 && j != 7 ==> #[trigger] is_ascii_digit(d@[j]),
        decreases 10 - k,
    {
        if k != 4 && k != 7 && !is_digit_char(d[k]) {
            return false;
        }
        k = k + 1;
    }
    assert(is_ascii_digit(d@[5]) && is_ascii_digit(d@[6]) && is_ascii_digit(d@[8]) && is_ascii_digit(d@[9]));
    let m = ((d[5] as u32) - 48) * 10 + ((d[6] as u32) - 48);
    let day = ((d[8] as u32) - 48) * 10 + ((d[9] as u32) - 48);
    1 <= m && m <= 12 && 1 <= day && day <= 31
}

fn first_word_of(s: &str) -> (r: Option<Vec<char>>)
    ensures
        match r {
            Some(w) => first_word(s@) == Some(w@),
            None => first_word(s@).is_none(),
        },
{
    let t = trim_start_vec(&chars_of(s));
    if t.len() == 0 {
        return None;
    }
    let mut k: usize = 0;
    assert(t@.skip(0) =~= t@);
    while k < t.len() && !char_is_ws(t[k])
        invariant
            k <= t.len(),
            word_len(t@) == k + word_len(t@.skip(k as int)),
        decreases t.len() - k,
    {
        assert(t@.skip(k as int)[0] == t@[k as int]);
        assert(t@.skip(k as int).drop_first() =~= t@.skip(k + 1));
        k = k + 1;
    }
    proof {
        if k < t.len() {
            assert(t@.skip(k as int)[0] == t@[k as int]);
        }
    }
    let w = sub_vec(&t, 0, k);
    assert(w@ =~= t@.take(k as int));
    Some(w)
}

fn category_of(o: &Option<String>) -> (r: String)
    ensures
        r@ == category_word(*o),
{
    match o {
        Some(c) => {
            let l = str_to_lowercase(c.as_str());
            match first_word_of(l.as_str()) {
                Some(w) => string_of(w.as_slice()),
                None => lit("other"),
            }
        },
        None => lit("other"),
    }
}

fn event_from(e: &RawEvent) -> (r: Option<EventInput>)
    ensures
        match event_of(*e) {
            Some(v) => r matches Some(x) && event_view(x) == v,
            None => r.is_none(),
        },
{
    let text = match field_of(&e.text) {
        Some(t) => t,
        None => {
            return None;
        },
    };
    let date = match &e.date {
        Some(d) => trim_str(d.as_str()),
        None => {
            return None;
        },
    };
    if !valid_date_of(&chars_of(date.as_str())) {
        return None;
    }
    Some(EventInput { date, category: category_of(&e.category), text, source: field_or_empty_of(&e.source) })
}

fn collect_events(items: &Vec<RawEvent>) -> (r: Vec<EventInput>)
    ensures
        r@.map_values(|e: EventInput| event_view(e)) == event_views(items@, items@.len() as int),
{
    let mut out: Vec<EventInput> = Vec::new();
    let mut i: usize = 0;
    while i < items.len()
        invariant
            i <= items.len(),
            out@.len() <= MAX_EVENTS,
            out@.map_values(|e: EventInput| event_view(e)) == event_views(items@, i as int),
        decreases items.len() - i,
    {
        if out.len() < MAX_EVENTS {
            match event_from(&items[i]) {
                Some(ev) => {
                    let ghost before = out@;
                    out.push(ev);
                    assert(out@.map_values(|e: EventInput| event_view(e)) =~= before.map_values(
                        |e: EventInput| event_view(e),
                    ).push(event_view(ev)));
                },
                None => {},
            }
        }
        i = i + 1;
    }
    out
}

/// Resolve a parsed answer into what the store takes. Entities without a
/// name are dropped, at most [`MAX_ENTITIES`] are kept, an unknown kind
/// becomes `other`; each connection resolves to the first entity with the
/// same lower-cased name, and a dangling target, a self-reference or a
/// pair already linked in either direction is dropped. Events without
/// text or a valid `yyyy-mm-dd` date are dropped, at most [`MAX_EVENTS`]
/// are kept, and the category becomes one lower-case word (`other` when
/// missing).
pub fn resolve_extraction(raw: &RawExtraction) -> (r: Extraction)
    ensures
        r.entities@.map_values(|e: EntityInput| entity_view(e)) == resolved_entities(raw.entities@),
        r.events@.map_values(|e: EventInput| event_view(e)) == event_views(
            raw.events@,
            raw.events@.len() as int,
        ),
{
    let (ents, reqs) = stage_entities(&raw.entities);
    let edges = resolve_links(&ents, &reqs);
    let ghost bs = staged(ents@, reqs@);
    let ghost st = link_all(bs, link_requests(bs));
    let mut entities: Vec<EntityInput> = Vec::new();
    let mut i: usize = 0;
    while i < ents.len()
        invariant
            i <= ents.len(),
            ents@.len() == reqs@.len(),
            edges@.len() == ents@.len(),
            bs == staged(ents@, reqs@),
            edges_views(edges@) == st.0,
            entities@.len() == i,
            forall|k: int|
                0 <= k < i ==> #[trigger] entity_view(entities@[k]) == (bs[k].0, bs[k].1, bs[k].2, bs[k].3, st.0[k]),
        decreases ents.len() - i,
    {
        let e = &ents[i];
        let entity = EntityInput {
            kind: e.kind.clone(),
            name: e.name.clone(),
            summary: e.summary.clone(),
            sources: clone_strings(&e.sources),
            connections: copy_edges(&edges[i]),
        };
        entities.push(entity);
        i = i + 1;
    }
    proof {
        let want = resolved_entities(raw.entities@);
        assert(bs == entity_bases(raw.entities@, raw.entities@.len() as int));
        assert(entities@.map_values(|e: EntityInput| entity_view(e)) =~= want);
    }
    Extraction { entities, events: collect_events(&raw.events) }
}

/// The first index of `c` in `s`, if any.
pub open spec fn first_index(s: Seq<char>, c: char, i: int) -> Option<int>
    decreases s.len() - i,
{
    if i < 0 || i >= s.len() {
        None
    } else if s[i] == c {
        Some(i)
    } else {
        first_index(s, c, i + 1)
    }
}

/// The last index of `c` in the first `n` characters of `s`, if any.
pub open spec fn last_index(s: Seq<char>, c: char, n: int) -> Option<int>
    decreases n,
{
    if n <= 0 || n > s.len() {
        None
    } else if s[n - 1] == c {
        Some(n - 1)
    } else {
        last_index(s, c, n - 1)
    }
}

/// The span from the first `{` to the last `}` of `raw`, when the last
/// `}` comes after the first `{`: where a model's JSON object sits amid
/// fences or prose.
pub open spec fn json_span(raw: Seq<char>) -> Option<Seq<char>> {
    match first_index(raw, '{', 0) {
        Some(a) => match last_index(raw, '}', raw.len() as int) {
            Some(b) => if b > a {
                Some(raw.subrange(a, b + 1))
            } else {
                None
            },
            None => None,
        },
        None => None,
    }
}

/// The text from the first `{` to the last `}`, prose and code fences
/// around it dropped; `None` when there is no such object.
pub fn json_object_text(raw: &str) -> (r: Option<String>)
    ensures
        match json_span(raw@) {
            Some(t) => r matches Some(x) && x@ == t,
            None => r.is_none(),
        },
{
    let v = chars_of(raw);
    let mut a: usize = 0;
    while a < v.len() && v[a] != '{'
        invariant
            a <= v.len(),
            first_index(v@, '{', 0) == first_index(v@, '{', a as int),
        decreases v.len() - a,
    {
        a = a + 1;
    }
    if a == v.len() {
        return None;
    }
    let mut b: usize = v.len();
    while b > 0 && v[b - 1] != '}'
        invariant
            b <= v.len(),
            last_index(v@, '}', v@.len() as int) == last_index(v@, '}', b as int),
        decreases b,
    {
        b = b - 1;
    }
    if b == 0 || b - 1 <= a {
        return None;
    }
    let t = sub_vec(&v, a, b);
    Some(string_of(t.as_slice()))
}

/// What a corpus-wide answer without a JSON object is told.
pub const NO_JSON_OBJECT: &'static str = "the model's answer contained no JSON object";


/// Every edge of `st` joins two different entities among `n`, its pair is
/// recorded, and no pair is joined twice.
pub open spec fn simple_links(n: int, st: LinkState) -> bool {
    &&& st.0.len() == n
    &&& forall|i: int, k: int|
        0 <= i < n && 0 <= k < st.0[i].len() ==> 0 <= (#[trigger] st.0[i][k]).0 < n && st.0[i][k].0 != i
            && st.1.contains(pair_of(i, st.0[i][k].0))
    &&& forall|i: int, k: int, j: int, l: int|
        0 <= i < n && 0 <= k < st.0[i].len() && 0 <= j < n && 0 <= l < st.0[j].len() && (i != j || k != l)
            ==> pair_of(i, (#[trigger] st.0[i][k]).0) != pair_of(j, (#[trigger] st.0[j][l]).0)
}

proof fn lemma_name_index_bounds(bs: Seq<EntityBase>, key: Seq<char>, i: int)
    requires
        0 <= i,
    ensures
        name_index(bs, key, i) matches Some(t) ==> i <= t < bs.len(),
    decreases bs.len() - i,
{
    if i < bs.len() && lowercase_str(bs[i].1) != key {
        lemma_name_index_bounds(bs, key, i + 1);
    }
}

proof fn lemma_link_requests_from(bs: Seq<EntityBase>)
    ensures
        forall|r: int| 0 <= r < link_requests(bs).len() ==> 0 <= (#[trigger] link_requests(bs)[r]).0 < bs.len(),
    decreases bs.len(),
{
    if bs.len() > 0 {
        let prev = bs.drop_last();
        lemma_link_requests_from(prev);
        let from = bs.len() - 1;
        let tail = bs.last().4.map_values(|l: (Seq<char>, Seq<char>)| (from, l.0, l.1));
        assert forall|r: int| 0 <= r < link_requests(bs).len() implies 0 <= (#[trigger] link_requests(bs)[r]).0 < bs.len() by {
            if r < link_requests(prev).len() {
                assert(link_requests(bs)[r] == link_requests(prev)[r]);
            } else {
                assert(link_requests(bs)[r] == tail[r - link_requests(prev).len()]);
            }
        }
    }
}

proof fn lemma_link_step_simple(bs: Seq<EntityBase>, st: LinkState, req: (int, Seq<char>, Seq<char>))
    requires
        simple_links(bs.len() as int, st),
        0 <= req.0 < bs.len(),
    ensures
        simple_links(bs.len() as int, link_step(bs, st, req)),
{
    let n = bs.len() as int;
    let key = lowercase_str(trim_ws(req.1));
    lemma_name_index_bounds(bs, key, 0);
    match name_index(bs, key, 0) {
        Some(to) => {
            if !(to == req.0 || st.1.contains(pair_of(req.0, to))) {
                let f = req.0;
                let p = pair_of(f, to);
                let nst = link_step(bs, st, req);
                let row = st.0[f].push((to, req.2));
                assert(nst.0 == st.0.update(f, row));
                assert(nst.1 == st.1.insert(p));
                assert forall|i: int, k: int| 0 <= i < n && 0 <= k < nst.0[i].len() implies 0 <= (
                #[trigger] nst.0[i][k]).0 < n && nst.0[i][k].0 != i && nst.1.contains(pair_of(i, nst.0[i][k].0)) by {
                    if i == f && k == st.0[f].len() {
                        assert(nst.0[i][k] == (to, req.2));
                    } else {
                        assert(nst.0[i][k] == st.0[i][k]);
                    }
                }
                assert forall|i: int, k: int, j: int, l: int|
                    0 <= i < n && 0 <= k < nst.0[i].len() && 0 <= j < n && 0 <= l < nst.0[j].len() && (i != j
                        || k != l) implies pair_of(i, (#[trigger] nst.0[i][k]).0) != pair_of(
                    j,
                    (#[trigger] nst.0[j][l]).0,
                ) by {
                    let new_i = i == f && k == st.0[f].len();
                    let new_j = j == f && l == st.0[f].len();
                    if new_i {
                        assert(nst.0[i][k] == (to, req.2));
                        assert(nst.0[j][l] == st.0[j][l]);
                        assert(st.1.contains(pair_of(j, st.0[j][l].0)));
                    } else if new_j {
                        assert(nst.0[j][l] == (to, req.2));
                        assert(nst.0[i][k] == st.0[i][k]);
                        assert(st.1.contains(pair_of(i, st.0[i][k].0)));
                    } else {
                        assert(nst.0[i][k] == st.0[i][k]);
                        assert(nst.0[j][l] == st.0[j][l]);
                    }
                }
            }
        },
        None => {},
    }
}

proof fn lemma_link_all_simple(bs: Seq<EntityBase>, reqs: Seq<(int, Seq<char>, Seq<char>)>)
    requires
        forall|r: int| 0 <= r < reqs.len() ==> 0 <= (#[trigger] reqs[r]).0 < bs.len(),
    ensures
        simple_links(bs.len() as int, link_all(bs, reqs)),
    decreases reqs.len(),
{
    if reqs.len() == 0 {
        let st = link_all(bs, reqs);
        assert forall|i: int| 0 <= i < bs.len() implies #[trigger] st.0[i].len() == 0 by {}
    } else {
        assert forall|r: int| 0 <= r < reqs.drop_last().len() implies 0 <= (#[trigger] reqs.drop_last()[r]).0
            < bs.len() by {
            assert(reqs.drop_last()[r] == reqs[r]);
        }
        lemma_link_all_simple(bs, reqs.drop_last());
        assert(reqs.last() == reqs[reqs.len() - 1]);
        lemma_link_step_simple(bs, link_all(bs, reqs.drop_last()), reqs.last());
    }
}

/// The links an extraction resolves are simple: each joins an entity to
/// a different entity of the list, and no two entities are joined twice,
/// whichever way round the answer wrote them.
pub proof fn law_links_are_simple(items: Seq<RawEntity>)
    ensures
        forall|i: int, k: int|
            0 <= i < resolved_entities(items).len() && 0 <= k < resolved_entities(items)[i].4.len() ==> 0
                <= (#[trigger] resolved_entities(items)[i].4[k]).0 < resolved_entities(items).len()
                && resolved_entities(items)[i].4[k].0 != i,
        forall|i: int, k: int, j: int, l: int|
            0 <= i < resolved_entities(items).len() && 0 <= k < resolved_entities(items)[i].4.len() && 0 <= j
                < resolved_entities(items).len() && 0 <= l < resolved_entities(items)[j].4.len() && (i != j || k
                != l) ==> pair_of(i, (#[trigger] resolved_entities(items)[i].4[k]).0) != pair_of(
                j,
                (#[trigger] resolved_entities(items)[j].4[l]).0,
            ),
{
    let bs = entity_bases(items, items.len() as int);
    lemma_link_requests_from(bs);
    lemma_link_all_simple(bs, link_requests(bs));
    let st = link_all(bs, link_requests(bs));
    let es = resolved_entities(items);
    assert forall|i: int| 0 <= i < es.len() implies #[trigger] es[i].4 == st.0[i] by {}
}


proof fn lemma_entity_bases_cap(items: Seq<RawEntity>, n: int)
    ensures
        entity_bases(items, n).len() <= MAX_ENTITIES,
    decreases n,
{
    if n > 0 {
        lemma_entity_bases_cap(items, n - 1);
    }
}

proof fn lemma_event_views_cap(items: Seq<RawEvent>, n: int)
    ensures
        event_views(items, n).len() <= MAX_EVENTS,
    decreases n,
{
    if n > 0 {
        lemma_event_views_cap(items, n - 1);
    }
}

/// An extraction never keeps more than [`MAX_ENTITIES`] entities or
/// [`MAX_EVENTS`] events, however long the answer.
pub proof fn law_extraction_is_capped(entities: Seq<RawEntity>, events: Seq<RawEvent>)
    ensures
        resolved_entities(entities).len() <= MAX_ENTITIES,
        event_views(events, events.len() as int).len() <= MAX_EVENTS,
{
    lemma_entity_bases_cap(entities, entities.len() as int);
    lemma_event_views_cap(events, events.len() as int);
}

// ---------------------------------------------------------------------
// Reading the answer's JSON
// ---------------------------------------------------------------------

/// The connections an answered entity lists, each field read as a string
/// or `None`.
pub open spec fn json_links(item: JsonValue) -> Seq<RawConnection> {
    array_field(item, "connections"@).map_values(
        |c: JsonValue| RawConnection { to: text_field(c, "to"@), label: text_field(c, "label"@) },
    )
}

/// What one answered entity contributes.
pub open spec fn json_entity_base(item: JsonValue) -> Option<EntityBase> {
    base_from(
        text_field(item, "kind"@),
        text_field(item, "name"@),
        text_field(item, "summary"@),
        text_items(item, "sources"@),
        json_links(item),
    )
}

/// The entities the first `n` answered records yield, at most
/// [`MAX_ENTITIES`].
pub open spec fn json_bases(items: Seq<JsonValue>, n: int) -> Seq<EntityBase>
    decreases n,
{
    if n <= 0 {
        seq![]
    } else {
        let prev = json_bases(items, n - 1);
        if prev.len() >= MAX_ENTITIES {
            prev
        } else {
            match json_entity_base(items[n - 1]) {
                Some(b) => prev.push(b),
                None => prev,
            }
        }
    }
}

/// An answered event, each field read as a string or `None`.
pub open spec fn json_event(item: JsonValue) -> RawEvent {
    RawEvent {
        date: text_field(item, "date"@),
        category: text_field(item, "category"@),
        text: text_field(item, "text"@),
        source: text_field(item, "source"@),
    }
}

/// The entities an answer's JSON `v` yields, connections resolved.
pub open spec fn answer_entities(v: JsonValue) -> Seq<EntityView> {
    let items = array_field(v, "entities"@);
    resolved_from(json_bases(items, items.len() as int))
}

/// The events an answer's JSON `v` yields.
pub open spec fn answer_events(v: JsonValue) -> Seq<EventView> {
    let items = array_field(v, "events"@).map_values(|x: JsonValue| json_event(x));
    event_views(items, items.len() as int)
}

proof fn lemma_bases_agree(raws: Seq<RawEntity>, items: Seq<JsonValue>, n: int)
    requires
        0 <= n <= raws.len(),
        n <= items.len(),
        forall|k: int| 0 <= k < n ==> entity_base(#[trigger] raws[k]) == json_entity_base(items[k]),
    ensures
        entity_bases(raws, n) == json_bases(items, n),
    decreases n,
{
    if n > 0 {
        lemma_bases_agree(raws, items, n - 1);
        assert(entity_base(raws[n - 1]) == json_entity_base(items[n - 1]));
    }
}

/// The answered entity `item`, field by field.
fn raw_entity_of(item: &JsonValue) -> (e: RawEntity)
    ensures
        entity_base(e) == json_entity_base(*item),
{
    let conns = array_at(item, "connections");
    let mut connections: Vec<RawConnection> = Vec::new();
    let mut i: usize = 0;
    while i < conns.len()
        invariant
            i <= conns.len(),
            conns@ == array_field(*item, "connections"@),
            connections@ == conns@.take(i as int).map_values(
                |c: JsonValue| RawConnection { to: text_field(c, "to"@), label: text_field(c, "label"@) },
            ),
        decreases conns.len() - i,
    {
        let c = RawConnection { to: text_at(&conns[i], "to"), label: text_at(&conns[i], "label") };
        connections.push(c);
        assert(conns@.take(i + 1) =~= conns@.take(i as int).push(conns@[i as int]));
        i = i + 1;
    }
    assert(conns@.take(conns.len() as int) =~= conns@);
    RawEntity {
        kind: text_at(item, "kind"),
        name: text_at(item, "name"),
        summary: text_at(item, "summary"),
        sources: texts_at(item, "sources"),
        connections,
    }
}

/// The answer's two arrays as raw records.
fn raw_extraction_of(v: &JsonValue) -> (r: RawExtraction)
    ensures
        r.entities@.len() == array_field(*v, "entities"@).len(),
        forall|k: int|
            0 <= k < r.entities@.len() ==> entity_base(#[trigger] r.entities@[k]) == json_entity_base(
                array_field(*v, "entities"@)[k],
            ),
        r.events@ == array_field(*v, "events"@).map_values(|x: JsonValue| json_event(x)),
{
    let items = array_at(v, "entities");
    let mut entities: Vec<RawEntity> = Vec::new();
    let mut i: usize = 0;
    while i < items.len()
        invariant
            i <= items.len(),
            items@ == array_field(*v, "entities"@),
            entities@.len() == i,
            forall|k: int| 0 <= k < i ==> entity_base(#[trigger] entities@[k]) == json_entity_base(items@[k]),
        decreases items.len() - i,
    {
        entities.push(raw_entity_of(&items[i]));
        i = i + 1;
    }
    let evs = array_at(v, "events");
    let mut events: Vec<RawEvent> = Vec::new();
    let mut j: usize = 0;
    while j < evs.len()
        invariant
            j <= evs.len(),
            evs@ == array_field(*v, "events"@),
            events@ == evs@.take(j as int).map_values(|x: JsonValue| json_event(x)),
        decreases evs.len() - j,
    {
        let e = RawEvent {
            date: text_at(&evs[j], "date"),
            category: text_at(&evs[j], "category"),
            text: text_at(&evs[j], "text"),
            source: text_at(&evs[j], "source"),
        };
        events.push(e);
        assert(evs@.take(j + 1) =~= evs@.take(j as int).push(evs@[j as int]));
        j = j + 1;
    }
    assert(evs@.take(evs.len() as int) =~= evs@);
    RawExtraction { entities, events }
}

/// How an answer that is not valid JSON is reported.
pub open spec fn invalid_json_message(e: Seq<char>) -> Seq<char> {
    "the model's answer wasn't valid JSON: "@ + e
}

/// Parse the model's answer: the span from the first `{` to the last `}`
/// is read as JSON, and its `entities` and `events` arrays are resolved.
/// Only an answer with no such span, or one that is not valid JSON, is
/// an error.
pub fn parse_extraction(raw: &str) -> (r: Result<Extraction, Error>)
    ensures
        json_span(raw@) is None ==> (r matches Err(Error::Other(m)) && m@ == NO_JSON_OBJECT@),
        json_span(raw@) matches Some(t) ==> match json_parse(t) {
            Err(e) => r matches Err(Error::Other(m)) && m@ == invalid_json_message(e),
            Ok(v) => r matches Ok(x) && x.entities@.map_values(|e: EntityInput| entity_view(e))
                == answer_entities(v) && x.events@.map_values(|e: EventInput| event_view(e))
                == answer_events(v),
        },
{
    let text = match json_object_text(raw) {
        Some(t) => t,
        None => return Err(Error::Other(crate::text::str_of_lit(NO_JSON_OBJECT))),
    };
    match parse_json(text.as_str()) {
        Err(e) => {
            let mut m: Vec<char> = Vec::new();
            crate::text::push_str(&mut m, "the model's answer wasn't valid JSON: ");
            crate::text::push_str(&mut m, e.as_str());
            assert(m@ =~= invalid_json_message(e@));
            Err(Error::Other(string_of(m.as_slice())))
        },
        Ok(v) => {
            let raw_x = raw_extraction_of(&v);
            let x = resolve_extraction(&raw_x);
            proof {
                let items = array_field(v, "entities"@);
                lemma_bases_agree(raw_x.entities@, items, items.len() as int);
            }
            Ok(x)
        },
    }
}

} // verus!
