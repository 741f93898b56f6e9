//! Reading a file's YAML frontmatter into the pipeline's models: run
//! records, pipeline definitions and artifact manifests. Every reader is
//! tolerant: a missing or malformed frontmatter reads as no keys at all.
use vstd::prelude::*;
use crate::pipeline::ticket::{
    find_entry, fm_list, fm_lookup, fm_str, map_list, map_str, opt_view, opt_word, opt_word_of, FmEntry,
    FmValue,
};
use crate::pipeline::artifacts::ArtifactManifest;
use crate::pipeline::kinds::{Kickoff, Runner};
use crate::pipeline::lanes::{Lane, Pipeline};
use crate::text::{chars_of, lower_s, parse_u32, parse_u32_spec, trim_vec, trim_ws, trimmed, vec_eq, word_key};

verus! {

// ---------------------------------------------------------------------
// The YAML parse
// ---------------------------------------------------------------------

#[verifier::external_type_specification]
#[verifier::external_body]
pub struct ExYamlValue(serde_yaml::Value);

/// One `serde_yaml::Value` as the library's [`FmValue`], variant by
/// variant. Nothing is claimed of it on its own: it only serves
/// [`parse_yaml_mapping`], whose result is named.
#[verifier::external_body]
fn fm_value_of(v: &serde_yaml::Value) -> FmValue {
    match v {
        serde_yaml::Value::Null => FmValue::Null,
        serde_yaml::Value::Bool(b) => FmValue::Bool(*b),
        serde_yaml::Value::Number(n) => FmValue::Number(n.as_u64(), n.to_string()),
        serde_yaml::Value::String(s) => FmValue::Text(s.clone()),
        serde_yaml::Value::Sequence(items) => FmValue::Sequence(items.iter().map(fm_value_of).collect()),
        serde_yaml::Value::Mapping(m) => FmValue::Mapping(m.iter().map(|(k, x)| (fm_value_of(k), fm_value_of(x))).collect()),
        serde_yaml::Value::Tagged(t) => FmValue::Tagged(t.tag.to_string(), vec![fm_value_of(&t.value)]),
    }
}

/// What `serde_yaml` reads `text` as when asked for a mapping, converted
/// to an [`FmValue::Mapping`]; `None` when it is not one.
pub uninterp spec fn yaml_mapping(text: Seq<char>) -> Option<FmValue>;

/// `serde_yaml::from_str::<serde_yaml::Mapping>`, its entries kept in
/// order and converted variant by variant. The contract names the result
/// [`yaml_mapping`] of the text: the same text always reads the same way.
#[verifier::external_body]
fn parse_yaml_mapping(text: &str) -> (r: Option<FmValue>)
    ensures
        r == yaml_mapping(text@),
{
    match serde_yaml::from_str::<serde_yaml::Mapping>(text) {
        Ok(m) => Some(fm_value_of(&serde_yaml::Value::Mapping(m))),
        Err(_) => None,
    }
}

// ---------------------------------------------------------------------
// Entries
// ---------------------------------------------------------------------

/// The entries of a mapping whose key is a string, in order.
pub open spec fn entries_spec(pairs: Seq<(FmValue, FmValue)>) -> Seq<FmEntry>
    decreases pairs.len(),
{
    if pairs.len() == 0 {
        seq![]
    } else {
        let rest = entries_spec(pairs.drop_first());
        match pairs[0].0 {
            FmValue::Text(k) => seq![FmEntry { key: k, value: pairs[0].1 }] + rest,
            _ => rest,
        }
    }
}

/// The keys a parsed frontmatter holds: those of the mapping, none when
/// the text did not read as one.
pub open spec fn mapping_entries(v: Option<FmValue>) -> Seq<FmEntry> {
    match v {
        Some(FmValue::Mapping(pairs)) => entries_spec(pairs@),
        _ => seq![],
    }
}

/// The first value under the string key `key` among `pairs`.
pub open spec fn pair_lookup(pairs: Seq<(FmValue, FmValue)>, key: Seq<char>) -> Option<FmValue>
    decreases pairs.len(),
{
    if pairs.len() == 0 {
        None
    } else if pairs[0].0 matches FmValue::Text(k) && k@ == key {
        Some(pairs[0].1)
    } else {
        pair_lookup(pairs.drop_first(), key)
    }
}

proof fn lemma_entries_lookup(pairs: Seq<(FmValue, FmValue)>, key: Seq<char>)
    ensures
        fm_lookup(entries_spec(pairs), key) == pair_lookup(pairs, key),
    decreases pairs.len(),
{
    if pairs.len() > 0 {
        lemma_entries_lookup(pairs.drop_first(), key);
        let rest = entries_spec(pairs.drop_first());
        if let FmValue::Text(k) = pairs[0].0 {
            let e = seq![FmEntry { key: k, value: pairs[0].1 }] + rest;
            assert(e[0].key == k);
            assert(e.drop_first() =~= rest);
        }
    }
}

/// The mapping's entries with a string key, moved out in order.
fn string_keyed(pairs: Vec<(FmValue, FmValue)>) -> (r: Vec<FmEntry>)
    ensures
        r@ == entries_spec(pairs@),
{
    let ghost all = pairs@;
    let mut rest = pairs;
    let mut out: Vec<FmEntry> = Vec::new();
    while rest.len() > 0
        invariant
            entries_spec(all) == out@ + entries_spec(rest@),
        decreases rest.len(),
    {
        let ghost before = rest@;
        let (k, v) = rest.remove(0);
        assert(rest@ =~= before.drop_first());
        match k {
            FmValue::Text(s) => {
                let ghost o = out@;
                out.push(FmEntry { key: s, value: v });
                assert(out@ == o.push(FmEntry { key: s, value: v }));
                assert(o + entries_spec(before) =~= out@ + entries_spec(rest@));
            },
            _ => {},
        }
    }
    assert(out@ + entries_spec(rest@) =~= out@);
    out
}

/// The frontmatter text's keys, in order; none when it does not read as
/// a YAML mapping.
pub fn frontmatter_entries(fm_text: &str) -> (r: Vec<FmEntry>)
    ensures
        r@ == mapping_entries(yaml_mapping(fm_text@)),
{
    match parse_yaml_mapping(fm_text) {
        Some(FmValue::Mapping(pairs)) => string_keyed(pairs),
        _ => Vec::new(),
    }
}

/// `(frontmatter, body)` of a file: the text between the opening and
/// closing `---` fences, and what follows; no frontmatter and the whole
/// text when the file does not open with one.
pub open spec fn fm_body(raw: Seq<char>) -> (Option<Seq<char>>, Seq<char>) {
    match crate::recipe::frontmatter_split(raw) {
        Some((fm, body)) => (Some(fm), body),
        None => (None, raw),
    }
}

/// The keys of a file's frontmatter; none without one.
pub open spec fn file_entries(raw: Seq<char>) -> Seq<FmEntry> {
    match fm_body(raw).0 {
        Some(fm) => mapping_entries(yaml_mapping(fm)),
        None => seq![],
    }
}

/// A file's keys and body.
pub fn read_file(raw: &str) -> (r: (Vec<FmEntry>, String))
    ensures
        r.0@ == file_entries(raw@),
        r.1@ == fm_body(raw@).1,
{
    match crate::recipe::split_frontmatter(raw) {
        Some((fm, body)) => (frontmatter_entries(fm.as_str()), body),
        None => (Vec::new(), crate::text::str_of_lit(raw)),
    }
}

// ---------------------------------------------------------------------
// Reading scalars
// ---------------------------------------------------------------------

/// A boolean value: `true`/`false`, or a string reading `true` up to
/// case and surrounding whitespace.
pub open spec fn value_bool(v: Option<FmValue>) -> bool {
    match v {
        Some(FmValue::Bool(b)) => b,
        Some(FmValue::Text(s)) => lower_s(trim_ws(s@)) == "true"@,
        _ => false,
    }
}

/// A count: a whole number (truncated to 32 bits), or a string that
/// parses as one after trimming.
pub open spec fn value_u32(v: Option<FmValue>) -> Option<u32> {
    match v {
        Some(FmValue::Number(Some(n), _)) => Some(n as u32),
        Some(FmValue::Text(s)) => parse_u32_spec(trim_ws(s@)),
        _ => None,
    }
}

pub open spec fn value_str(v: Option<FmValue>) -> Seq<char> {
    match v {
        Some(FmValue::Text(s)) => s@,
        _ => seq![],
    }
}

pub open spec fn fm_bool(m: Seq<FmEntry>, key: Seq<char>) -> bool {
    value_bool(fm_lookup(m, key))
}

pub open spec fn fm_u32(m: Seq<FmEntry>, key: Seq<char>) -> Option<u32> {
    value_u32(fm_lookup(m, key))
}

fn bool_of(v: Option<&FmValue>) -> (r: bool)
    ensures
        r == value_bool(match v {
            Some(x) => Some(*x),
            None => None,
        }),
{
    match v {
        Some(FmValue::Bool(b)) => *b,
        Some(FmValue::Text(s)) => {
            let t = crate::text::lower_vec(&trim_vec(&chars_of(s.as_str())));
            let w = chars_of("true");
            proof {
                reveal_strlit("true");
            }
            vec_eq(&t, &w)
        },
        _ => false,
    }
}

fn u32_of(v: Option<&FmValue>) -> (r: Option<u32>)
    ensures
        r == value_u32(match v {
            Some(x) => Some(*x),
            None => None,
        }),
{
    match v {
        Some(FmValue::Number(Some(n), _)) => Some(*n as u32),
        Some(FmValue::Text(s)) => parse_u32(&trim_vec(&chars_of(s.as_str()))),
        _ => None,
    }
}

fn str_of(v: Option<&FmValue>) -> (r: String)
    ensures
        r@ == value_str(match v {
            Some(x) => Some(*x),
            None => None,
        }),
{
    match v {
        Some(FmValue::Text(s)) => s.clone(),
        _ => String::new(),
    }
}

fn entry_value<'a>(m: &'a Vec<FmEntry>, key: &str) -> (r: Option<&'a FmValue>)
    ensures
        match r {
            Some(x) => fm_lookup(m@, key@) == Some(*x),
            None => fm_lookup(m@, key@).is_none(),
        },
{
    match find_entry(m, key) {
        Some(i) => Some(&m[i].value),
        None => None,
    }
}

fn pair_value<'a>(pairs: &'a Vec<(FmValue, FmValue)>, key: &str) -> (r: Option<&'a FmValue>)
    ensures
        match r {
            Some(x) => pair_lookup(pairs@, key@) == Some(*x),
            None => pair_lookup(pairs@, key@).is_none(),
        },
{
    let mut i: usize = 0;
    assert(pairs@.skip(0) =~= pairs@);
    while i < pairs.len()
        invariant
            i <= pairs.len(),
            pair_lookup(pairs@, key@) == pair_lookup(pairs@.skip(i as int), key@),
        decreases pairs.len() - i,
    {
        assert(pairs@.skip(i as int)[0] == pairs@[i as int]);
        assert(pairs@.skip(i as int).drop_first() =~= pairs@.skip(i + 1));
        match &pairs[i].0 {
            FmValue::Text(k) => {
                if crate::text::str_eq(k.as_str(), key) {
                    return Some(&pairs[i].1);
                }
            },
            _ => {},
        }
        i = i + 1;
    }
    None
}

// ---------------------------------------------------------------------
// Run records
// ---------------------------------------------------------------------

/// The declared value, trimmed, or `fallback` when that is empty.
pub open spec fn or_fallback(declared: Seq<char>, fallback: Seq<char>) -> Seq<char> {
    if trim_ws(declared).len() == 0 {
        fallback
    } else {
        trim_ws(declared)
    }
}

/// `r` is the run record a file with stem `stem`, keys `m` and body
/// `body` reads as: the id (or the stem when it is blank), every scalar
/// trimmed, the outcome parsed from its trimmed text, the lists as
/// written, and the body, trimmed, as the report.
pub open spec fn run_read(r: crate::pipeline::runs::RunRecord, stem: Seq<char>, m: Seq<FmEntry>, body: Seq<char>) -> bool {
    &&& r.id@ == or_fallback(fm_str(m, "id"@), stem)
    &&& r.ticket@ == trim_ws(fm_str(m, "ticket"@))
    &&& r.pipeline@ == trim_ws(fm_str(m, "pipeline"@))
    &&& r.lane@ == trim_ws(fm_str(m, "lane"@))
    &&& r.agent@ == trim_ws(fm_str(m, "agent"@))
    &&& r.model@ == trim_ws(fm_str(m, "model"@))
    &&& crate::pipeline::graph::strs(r.scope@) == fm_list(m, "scope"@)
    &&& r.verify@ == trim_ws(fm_str(m, "verify"@))
    &&& r.started@ == trim_ws(fm_str(m, "started"@))
    &&& r.ended@ == trim_ws(fm_str(m, "ended"@))
    &&& r.outcome_raw@ == trim_ws(fm_str(m, "outcome"@))
    &&& r.outcome == crate::pipeline::kinds::RunOutcome::from_word(
        crate::text::word_key(trim_ws(fm_str(m, "outcome"@))),
    )
    &&& crate::pipeline::graph::strs(r.artifacts@) == fm_list(m, "artifacts"@)
    &&& r.report@ == trim_ws(body)
}

fn trimmed_key(m: &Vec<FmEntry>, key: &str) -> (r: String)
    ensures
        r@ == trim_ws(fm_str(m@, key@)),
{
    let s = map_str(m, key);
    trimmed(s.as_str())
}

fn with_fallback(m: &Vec<FmEntry>, key: &str, fallback: &str) -> (r: String)
    ensures
        r@ == or_fallback(fm_str(m@, key@), fallback@),
{
    let t = trimmed_key(m, key);
    if chars_of(t.as_str()).len() == 0 {
        crate::text::str_of_lit(fallback)
    } else {
        t
    }
}

/// The run record a file with stem `stem` reads as, from its frontmatter
/// keys and body.
pub fn run_from_frontmatter(stem: &str, fm: &Vec<FmEntry>, body: &str) -> (r: crate::pipeline::runs::RunRecord)
    ensures
        run_read(r, stem@, fm@, body@),
{
    let outcome_raw = trimmed_key(fm, "outcome");
    crate::pipeline::runs::RunRecord {
        id: with_fallback(fm, "id", stem),
        ticket: trimmed_key(fm, "ticket"),
        pipeline: trimmed_key(fm, "pipeline"),
        lane: trimmed_key(fm, "lane"),
        agent: trimmed_key(fm, "agent"),
        model: trimmed_key(fm, "model"),
        scope: map_list(fm, "scope"),
        verify: trimmed_key(fm, "verify"),
        started: trimmed_key(fm, "started"),
        ended: trimmed_key(fm, "ended"),
        outcome: crate::pipeline::kinds::RunOutcome::parse(outcome_raw.as_str()),
        outcome_raw,
        artifacts: map_list(fm, "artifacts"),
        report: trimmed(body),
    }
}

/// Parse a run-record file with stem `stem`. A malformed frontmatter
/// reads as no keys; nothing fails.
pub fn parse_run(stem: &str, raw: &str) -> (r: crate::pipeline::runs::RunRecord)
    ensures
        run_read(r, stem@, file_entries(raw@), fm_body(raw@).1),
{
    let (fm, body) = read_file(raw);
    run_from_frontmatter(stem, &fm, body.as_str())
}

/// Parse every `(stem, text)` pair of the ledger, in order.
pub fn scan_runs(files: &[(String, String)]) -> (r: Vec<crate::pipeline::runs::RunRecord>)
    ensures
        r@.len() == files@.len(),
        forall|i: int|
            0 <= i < files@.len() ==> run_read(
                #[trigger] r@[i],
                files@[i].0@,
                file_entries(files@[i].1@),
                fm_body(files@[i].1@).1,
            ),
{
    let mut out: Vec<crate::pipeline::runs::RunRecord> = Vec::new();
    let mut i: usize = 0;
    while i < files.len()
        invariant
            i <= files.len(),
            out@.len() == i,
            forall|k: int|
                0 <= k < i ==> run_read(
                    #[trigger] out@[k],
                    files@[k].0@,
                    file_entries(files@[k].1@),
                    fm_body(files@[k].1@).1,
                ),
        decreases files.len() - i,
    {
        let rec = parse_run(files[i].0.as_str(), files[i].1.as_str());
        out.push(rec);
        i = i + 1;
    }
    out
}

// ---------------------------------------------------------------------
// Pipeline definitions
// ---------------------------------------------------------------------

/// Workers a pipeline runs at once unless its file says otherwise.
pub const DEFAULT_CONCURRENCY_CAP: u32 = 1;

/// Bounces a ticket gets before it is blocked, unless the file says
/// otherwise.
pub const DEFAULT_BOUNCE_CAP: u32 = 3;

/// `l` is the lane a mapping with keys `m` reads as: scalars trimmed,
/// `none` or blank meaning no agent, model or transition; `kickoff`
/// parsed, defaulting to confirm for a lane with an agent and manual for
/// one without; flags read as booleans; the runner parsed, MCP by
/// default.
pub open spec fn lane_read(l: Lane, m: Seq<FmEntry>) -> bool {
    let agent = opt_word(fm_str(m, "agent"@));
    &&& l.id@ == trim_ws(fm_str(m, "id"@))
    &&& l.name@ == trim_ws(fm_str(m, "name"@))
    &&& l.maps_to_raw@ == trim_ws(fm_str(m, "maps_to"@))
    &&& opt_view(l.agent) == agent
    &&& opt_view(l.model) == opt_word(fm_str(m, "model"@))
    &&& l.kickoff_raw@ == trim_ws(fm_str(m, "kickoff"@))
    &&& l.kickoff == match Kickoff::from_word(word_key(trim_ws(fm_str(m, "kickoff"@)))) {
        Some(k) => k,
        None => if agent.is_some() {
            Kickoff::Confirm
        } else {
            Kickoff::Manual
        },
    }
    &&& opt_view(l.on_pass) == opt_word(fm_str(m, "on_pass"@))
    &&& opt_view(l.on_fail) == opt_word(fm_str(m, "on_fail"@))
    &&& l.writes_code == fm_bool(m, "writes_code"@)
    &&& l.human == fm_bool(m, "human"@)
    &&& l.terminal == fm_bool(m, "terminal"@)
    &&& l.generative == fm_bool(m, "generative"@)
    &&& l.blocked == fm_bool(m, "blocked"@)
    &&& l.runner == match Runner::from_word(word_key(fm_str(m, "runner"@))) {
        Some(r) => r,
        None => Runner::Mcp,
    }
}

/// The keys of each mapping among `items`, in order; other items are
/// skipped.
pub open spec fn lane_maps(items: Seq<FmValue>) -> Seq<Seq<FmEntry>>
    decreases items.len(),
{
    if items.len() == 0 {
        seq![]
    } else {
        match items.last() {
            FmValue::Mapping(p) => lane_maps(items.drop_last()).push(entries_spec(p@)),
            _ => lane_maps(items.drop_last()),
        }
    }
}

/// The lane mappings under `lanes`; none unless it is a sequence.
pub open spec fn fm_lanes(m: Seq<FmEntry>) -> Seq<Seq<FmEntry>> {
    match fm_lookup(m, "lanes"@) {
        Some(FmValue::Sequence(items)) => lane_maps(items@),
        _ => seq![],
    }
}

fn pair_str(pairs: &Vec<(FmValue, FmValue)>, key: &str) -> (r: String)
    ensures
        r@ == fm_str(entries_spec(pairs@), key@),
{
    proof {
        lemma_entries_lookup(pairs@, key@);
    }
    str_of(pair_value(pairs, key))
}

fn pair_bool(pairs: &Vec<(FmValue, FmValue)>, key: &str) -> (r: bool)
    ensures
        r == fm_bool(entries_spec(pairs@), key@),
{
    proof {
        lemma_entries_lookup(pairs@, key@);
    }
    bool_of(pair_value(pairs, key))
}

/// The lane a mapping's entries read as.
fn lane_from_pairs(pairs: &Vec<(FmValue, FmValue)>) -> (l: Lane)
    ensures
        lane_read(l, entries_spec(pairs@)),
{
    let agent = opt_word_of(pair_str(pairs, "agent").as_str());
    let kickoff_raw = trimmed(pair_str(pairs, "kickoff").as_str());
    let kickoff = match Kickoff::parse(kickoff_raw.as_str()) {
        Some(k) => k,
        None => if agent.is_some() {
            Kickoff::Confirm
        } else {
            Kickoff::Manual
        },
    };
    let runner = match Runner::parse(pair_str(pairs, "runner").as_str()) {
        Some(r) => r,
        None => Runner::Mcp,
    };
    Lane {
        id: trimmed(pair_str(pairs, "id").as_str()),
        name: trimmed(pair_str(pairs, "name").as_str()),
        maps_to_raw: trimmed(pair_str(pairs, "maps_to").as_str()),
        agent,
        model: opt_word_of(pair_str(pairs, "model").as_str()),
        kickoff,
        kickoff_raw,
        on_pass: opt_word_of(pair_str(pairs, "on_pass").as_str()),
        on_fail: opt_word_of(pair_str(pairs, "on_fail").as_str()),
        writes_code: pair_bool(pairs, "writes_code"),
        human: pair_bool(pairs, "human"),
        terminal: pair_bool(pairs, "terminal"),
        generative: pair_bool(pairs, "generative"),
        blocked: pair_bool(pairs, "blocked"),
        runner,
    }
}

fn lanes_of(fm: &Vec<FmEntry>) -> (r: Vec<Lane>)
    ensures
        r@.len() == fm_lanes(fm@).len(),
        forall|i: int| 0 <= i < r@.len() ==> lane_read(#[trigger] r@[i], fm_lanes(fm@)[i]),
{
    let mut out: Vec<Lane> = Vec::new();
    match entry_value(fm, "lanes") {
        Some(FmValue::Sequence(items)) => {
            let mut i: usize = 0;
            while i < items.len()
                invariant
                    i <= items.len(),
                    out@.len() == lane_maps(items@.take(i as int)).len(),
                    forall|k: int|
                        0 <= k < out@.len() ==> lane_read(#[trigger] out@[k], lane_maps(items@.take(i as int))[k]),
                decreases items.len() - i,
            {
                assert(items@.take(i + 1).drop_last() =~= items@.take(i as int));
                assert(items@.take(i + 1).last() == items@[i as int]);
                match &items[i] {
                    FmValue::Mapping(pairs) => {
                        let l = lane_from_pairs(pairs);
                        out.push(l);
                    },
                    _ => {},
                }
                i = i + 1;
            }
            assert(items@.take(items.len() as int) =~= items@);
        },
        _ => {},
    }
    out
}

/// `p` is the pipeline a file at `path` with stem `stem`, keys `m` and
/// body `body` reads as: the id (or the stem when it is blank), the name
/// (or the id), the master switch, the caps with their defaults, the
/// lanes in order, and the trimmed body.
pub open spec fn pipeline_read(p: Pipeline, path: Seq<char>, stem: Seq<char>, m: Seq<FmEntry>, body: Seq<char>) -> bool {
    let id = or_fallback(fm_str(m, "id"@), stem);
    &&& p.id@ == id
    &&& p.name@ == or_fallback(fm_str(m, "name"@), id)
    &&& p.auto == fm_bool(m, "auto"@)
    &&& p.concurrency_cap == match fm_u32(m, "concurrency_cap"@) {
        Some(n) => n,
        None => DEFAULT_CONCURRENCY_CAP,
    }
    &&& p.bounce_cap == match fm_u32(m, "bounce_cap"@) {
        Some(n) => n,
        None => DEFAULT_BOUNCE_CAP,
    }
    &&& p.lanes@.len() == fm_lanes(m).len()
    &&& forall|i: int| 0 <= i < p.lanes@.len() ==> lane_read(#[trigger] p.lanes@[i], fm_lanes(m)[i])
    &&& p.body@ == trim_ws(body)
    &&& p.path@ == path
}

/// The pipeline definition at `path` (file stem `stem`) reads as, from
/// its frontmatter keys and body.
pub fn pipeline_from_frontmatter(path: &str, stem: &str, fm: &Vec<FmEntry>, body: &str) -> (p: Pipeline)
    ensures
        pipeline_read(p, path@, stem@, fm@, body@),
{
    let id = with_fallback(fm, "id", stem);
    let name = with_fallback(fm, "name", id.as_str());
    let concurrency_cap = match u32_of(entry_value(fm, "concurrency_cap")) {
        Some(n) => n,
        None => DEFAULT_CONCURRENCY_CAP,
    };
    let bounce_cap = match u32_of(entry_value(fm, "bounce_cap")) {
        Some(n) => n,
        None => DEFAULT_BOUNCE_CAP,
    };
    Pipeline {
        id,
        name,
        auto: bool_of(entry_value(fm, "auto")),
        concurrency_cap,
        bounce_cap,
        lanes: lanes_of(fm),
        body: trimmed(body),
        path: crate::text::str_of_lit(path),
    }
}

/// Parse a pipeline definition file at `path` with stem `stem`. A
/// malformed frontmatter reads as no keys; nothing fails.
pub fn parse_pipeline(path: &str, stem: &str, raw: &str) -> (p: Pipeline)
    ensures
        pipeline_read(p, path@, stem@, file_entries(raw@), fm_body(raw@).1),
{
    let (fm, body) = read_file(raw);
    pipeline_from_frontmatter(path, stem, &fm, body.as_str())
}

// ---------------------------------------------------------------------
// Artifact manifests
// ---------------------------------------------------------------------

/// `a` is the manifest a file in folder `dir_name` with keys `m` reads
/// as: the ticket (or the folder's name when it is blank), the dates
/// trimmed, and the file list as written. A `durable` key is read and
/// dropped.
pub open spec fn manifest_read(a: ArtifactManifest, dir_name: Seq<char>, m: Seq<FmEntry>) -> bool {
    &&& a.ticket@ == or_fallback(fm_str(m, "ticket"@), dir_name)
    &&& a.created@ == trim_ws(fm_str(m, "created"@))
    &&& a.expires@ == trim_ws(fm_str(m, "expires"@))
    &&& crate::pipeline::graph::strs(a.files@) == fm_list(m, "files"@)
}

/// The manifest a file in folder `dir_name` reads as, from its
/// frontmatter keys.
pub fn manifest_from_frontmatter(dir_name: &str, fm: &Vec<FmEntry>) -> (a: ArtifactManifest)
    ensures
        manifest_read(a, dir_name@, fm@),
{
    ArtifactManifest {
        ticket: with_fallback(fm, "ticket", dir_name),
        created: trimmed_key(fm, "created"),
        expires: trimmed_key(fm, "expires"),
        files: map_list(fm, "files"),
    }
}

/// Parse a manifest file kept in folder `dir_name`. A malformed
/// frontmatter reads as no keys; nothing fails.
pub fn parse_artifact_manifest(dir_name: &str, raw: &str) -> (a: ArtifactManifest)
    ensures
        manifest_read(a, dir_name@, file_entries(raw@)),
{
    let (fm, _body) = read_file(raw);
    manifest_from_frontmatter(dir_name, &fm)
}

} // verus!
