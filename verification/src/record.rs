//! The meeting recorder's pure half: the recording clock with its pause
//! accounting, the file names and header, and the merge of one or two
//! timed, labelled cue channels into a single markdown transcript.
use vstd::prelude::*;
use crate::text::{
    chars_of, dec, dec_i64_pad, dec_pad, dec_signed_pad, dec_u64, pad0, push_all, push_str,
    string_of, trim_vec, trim_ws,
};

use crate::paths::{first_free, first_free_name, numbered};
use crate::pipeline::graph::strs;

verus! {

/// The two capture channels: `Mic` is labelled "Me", `System` "Them".
#[derive(Debug, Clone, Copy, PartialEq, Eq, Structural)]
pub enum Source {
    Mic,
    System,
}

/// Everything downstream runs at this rate; the transcriber expects
/// 16 kHz mono.
pub const TARGET_RATE: u32 = 16000;

/// Whether a privacy permission is granted. `Unsupported` covers systems
/// without system-audio capture.
#[derive(Debug, Clone, Copy, PartialEq, Eq, Structural)]
pub enum PermissionStatus {
    Granted,
    Denied,
    NotDetermined,
    Unsupported,
}

/// System Settings deep links for the inline permission guidance.
pub const MIC_SETTINGS_URL: &'static str = "x-apple.systempreferences:com.apple.preference.security?Privacy_Microphone";

pub const SCREEN_SETTINGS_URL: &'static str = "x-apple.systempreferences:com.apple.preference.security?Privacy_ScreenCapture";

/// Body used when only the audio is kept.
pub const AUDIO_ONLY_NOTE: &'static str = "_This recording's audio was saved without a transcript._\n";

// ---------------------------------------------------------------------
// Names, durations, header
// ---------------------------------------------------------------------

pub open spec fn two(n: u32) -> Seq<char> {
    pad0(dec(n as nat), 2)
}

/// `YYYY-MM-DD`.
pub open spec fn ymd(y: i32, mo: u32, d: u32) -> Seq<char> {
    dec_signed_pad(y as int, 4) + seq!['-'] + two(mo) + seq!['-'] + two(d)
}

/// `"{y:04}-{mo:02}-{d:02} {h:02}.{mi:02} Recording"`.
pub open spec fn stem_spec(y: i32, mo: u32, d: u32, h: u32, mi: u32) -> Seq<char> {
    ymd(y, mo, d) + seq![' '] + two(h) + seq!['.'] + two(mi) + " Recording"@
}

fn push_ymd(out: &mut Vec<char>, y: i32, mo: u32, d: u32)
    ensures
        final(out)@ == old(out)@ + ymd(y, mo, d),
{
    let yv = dec_i64_pad(y as i64, 4);
    push_all(out, &yv);
    out.push('-');
    let m = dec_pad(mo as u64, 2);
    push_all(out, &m);
    out.push('-');
    let dd = dec_pad(d as u64, 2);
    push_all(out, &dd);
}

/// The base name (no extension) a recording's transcript and audio share.
pub fn recording_stem(y: i32, mo: u32, d: u32, h: u32, mi: u32) -> (r: String)
    ensures
        r@ == stem_spec(y, mo, d, h, mi),
{
    let mut out: Vec<char> = Vec::new();
    push_ymd(&mut out, y, mo, d);
    out.push(' ');
    let hh = dec_pad(h as u64, 2);
    push_all(&mut out, &hh);
    out.push('.');
    let mm = dec_pad(mi as u64, 2);
    push_all(&mut out, &mm);
    push_str(&mut out, " Recording");
    assert(out@ =~= stem_spec(y, mo, d, h, mi));
    string_of(out.as_slice())
}

/// `m:ss`, or `h:mm:ss` from an hour on.
pub open spec fn hms(secs: u64) -> Seq<char> {
    let h = secs / 3600;
    let m = (secs % 3600) / 60;
    let s = secs % 60;
    if h > 0 {
        dec(h as nat) + seq![':'] + pad0(dec(m as nat), 2) + seq![':'] + pad0(dec(s as nat), 2)
    } else {
        dec(m as nat) + seq![':'] + pad0(dec(s as nat), 2)
    }
}

fn push_hms(out: &mut Vec<char>, secs: u64)
    ensures
        final(out)@ == old(out)@ + hms(secs),
{
    let h = secs / 3600;
    let m = (secs % 3600) / 60;
    let s = secs % 60;
    if h > 0 {
        let hv = dec_u64(h);
        push_all(out, &hv);
        out.push(':');
        let mv = dec_pad(m, 2);
        push_all(out, &mv);
    } else {
        let mv = dec_u64(m);
        push_all(out, &mv);
    }
    out.push(':');
    let sv = dec_pad(s, 2);
    push_all(out, &sv);
    assert(final(out)@ =~= old(out)@ + hms(secs)) by {
        assert(out@ =~= old(out)@ + hms(secs));
    }
}

/// The readable duration of `secs` whole seconds.
pub fn dur_hms(secs: u64) -> (r: String)
    ensures
        r@ == hms(secs),
{
    let mut out: Vec<char> = Vec::new();
    push_hms(&mut out, secs);
    assert(out@ =~= hms(secs));
    string_of(out.as_slice())
}

/// Which sources the header names.
pub open spec fn sources_text(mic: bool, system: bool) -> Seq<char> {
    if mic && system {
        "Me (microphone), Them (system audio)"@
    } else if mic {
        "Me (microphone)"@
    } else if system {
        "Them (system audio)"@
    } else {
        "none"@
    }
}

/// The transcript's metadata header, ending in a `---` rule.
pub open spec fn header_spec(
    y: i32,
    mo: u32,
    d: u32,
    h: u32,
    mi: u32,
    secs: u64,
    mic: bool,
    system: bool,
) -> Seq<char> {
    "# Recording — "@ + ymd(y, mo, d) + seq![' '] + two(h) + seq!['.'] + two(mi) + "\n\n- Date: "@
        + ymd(y, mo, d) + seq![' '] + two(h) + seq![':'] + two(mi) + "\n- Duration: "@ + hms(secs)
        + "\n- Sources: "@ + sources_text(mic, system) + "\n\n---\n"@
}

pub fn metadata_header(
    y: i32,
    mo: u32,
    d: u32,
    h: u32,
    mi: u32,
    duration_secs: u64,
    mic: bool,
    system: bool,
) -> (r: String)
    ensures
        r@ == header_spec(y, mo, d, h, mi, duration_secs, mic, system),
{
    let sources = if mic && system {
        "Me (microphone), Them (system audio)"
    } else if mic {
        "Me (microphone)"
    } else if system {
        "Them (system audio)"
    } else {
        "none"
    };
    let hh = dec_pad(h as u64, 2);
    let mm = dec_pad(mi as u64, 2);
    let mut out: Vec<char> = Vec::new();
    push_str(&mut out, "# Recording — ");
    push_ymd(&mut out, y, mo, d);
    out.push(' ');
    push_all(&mut out, &hh);
    out.push('.');
    push_all(&mut out, &mm);
    push_str(&mut out, "\n\n- Date: ");
    push_ymd(&mut out, y, mo, d);
    out.push(' ');
    push_all(&mut out, &hh);
    out.push(':');
    push_all(&mut out, &mm);
    push_str(&mut out, "\n- Duration: ");
    push_hms(&mut out, duration_secs);
    push_str(&mut out, "\n- Sources: ");
    push_str(&mut out, sources);
    push_str(&mut out, "\n\n---\n");
    assert(out@ =~= header_spec(y, mo, d, h, mi, duration_secs, mic, system));
    string_of(out.as_slice())
}

/// The header, a blank line, then the body.
pub fn build_document(header: &str, body: &str) -> (r: String)
    ensures
        r@ == header@ + seq!['\n'] + body@,
{
    let mut out = chars_of(header);
    out.push('\n');
    push_str(&mut out, body);
    string_of(out.as_slice())
}

// ---------------------------------------------------------------------
// Transcript merge
// ---------------------------------------------------------------------

/// One timed piece of transcribed text.
#[derive(Debug, Clone, PartialEq, Eq)]
pub struct Cue {
    pub start_ms: u64,
    pub end_ms: u64,
    pub text: String,
}

/// One channel's cues with an optional speaker label (`None` suppresses
/// labels for a single-source recording).
#[derive(Debug, Clone, Copy)]
pub struct LabeledChannel<'a> {
    pub label: Option<&'a str>,
    pub cues: &'a [Cue],
}

/// A turn: label, start, text.
pub type TurnView = (Option<Seq<char>>, u64, Seq<char>);

struct Turn {
    label: Option<String>,
    start_ms: u64,
    text: String,
}

spec fn turn_view(t: Turn) -> TurnView {
    (
        match t.label {
            Some(l) => Some(l@),
            None => None,
        },
        t.start_ms,
        t.text@,
    )
}

spec fn turns_view(ts: Seq<Turn>) -> Seq<TurnView> {
    ts.map_values(|t: Turn| turn_view(t))
}

pub open spec fn label_view(l: Option<&str>) -> Option<Seq<char>> {
    match l {
        Some(s) => Some(s@),
        None => None,
    }
}

/// The non-blank cues of one channel as turns, trimmed, in cue order.
pub open spec fn channel_turns(label: Option<Seq<char>>, cues: Seq<Cue>) -> Seq<TurnView>
    decreases cues.len(),
{
    if cues.len() == 0 {
        seq![]
    } else {
        let rest = channel_turns(label, cues.drop_last());
        let c = cues.last();
        if trim_ws(c.text@).len() == 0 {
            rest
        } else {
            rest.push((label, c.start_ms, trim_ws(c.text@)))
        }
    }
}

/// Every channel's turns, channel after channel.
pub open spec fn flat_turns(chs: Seq<LabeledChannel>) -> Seq<TurnView>
    decreases chs.len(),
{
    if chs.len() == 0 {
        seq![]
    } else {
        flat_turns(chs.drop_last()) + channel_turns(label_view(chs.last().label), chs.last().cues@)
    }
}

/// How many leading turns of `s` start no later than `t`.
pub open spec fn insert_at(s: Seq<TurnView>, start: u64) -> nat
    decreases s.len(),
{
    if s.len() == 0 {
        0
    } else if s[0].1 <= start {
        1 + insert_at(s.drop_first(), start)
    } else {
        0
    }
}

/// `t` placed after every turn of the (sorted) `s` that starts no later.
pub open spec fn insert_turn(s: Seq<TurnView>, t: TurnView) -> Seq<TurnView> {
    s.insert(insert_at(s, t.1) as int, t)
}

/// A stable sort by start: turns that start together keep their order.
pub open spec fn sort_turns(s: Seq<TurnView>) -> Seq<TurnView>
    decreases s.len(),
{
    if s.len() == 0 {
        seq![]
    } else {
        insert_turn(sort_turns(s.drop_last()), s.last())
    }
}

/// Back-to-back turns of the same labelled speaker joined with a space.
pub open spec fn coalesce_turns(s: Seq<TurnView>) -> Seq<TurnView>
    decreases s.len(),
{
    if s.len() == 0 {
        seq![]
    } else {
        let prev = coalesce_turns(s.drop_last());
        let t = s.last();
        if prev.len() > 0 && t.0.is_some() && prev.last().0 == t.0 {
            prev.update(
                prev.len() - 1,
                (prev.last().0, prev.last().1, prev.last().2 + seq![' '] + t.2),
            )
        } else {
            prev.push(t)
        }
    }
}

/// `**Label** [m:ss] text`, or `[m:ss] text` without a label.
pub open spec fn turn_text(t: TurnView) -> Seq<char> {
    match t.0 {
        Some(l) => "**"@ + l + "** ["@ + hms(t.1 / 1000) + "] "@ + t.2,
        None => "["@ + hms(t.1 / 1000) + "] "@ + t.2,
    }
}

/// Turns separated by a blank line.
pub open spec fn turns_text(s: Seq<TurnView>) -> Seq<char>
    decreases s.len(),
{
    if s.len() == 0 {
        seq![]
    } else if s.len() == 1 {
        turn_text(s[0])
    } else {
        turns_text(s.drop_last()) + "\n\n"@ + turn_text(s.last())
    }
}

/// The merged transcript: empty for no turns, else the turns and a final
/// newline.
pub open spec fn merged(chs: Seq<LabeledChannel>) -> Seq<char> {
    let ts = coalesce_turns(sort_turns(flat_turns(chs)));
    if ts.len() == 0 {
        seq![]
    } else {
        turns_text(ts) + seq!['\n']
    }
}

fn clone_label(l: Option<&str>) -> (r: Option<String>)
    ensures
        match r {
            Some(s) => label_view(l) == Some(s@),
            None => l.is_none(),
        },
{
    match l {
        Some(s) => Some(string_of(chars_of(s).as_slice())),
        None => None,
    }
}

fn flatten(channels: &[LabeledChannel]) -> (r: Vec<Turn>)
    ensures
        turns_view(r@) == flat_turns(channels@),
{
    let mut out: Vec<Turn> = Vec::new();
    let mut ci: usize = 0;
    while ci < channels.len()
        invariant
            ci <= channels.len(),
            turns_view(out@) == flat_turns(channels@.take(ci as int)),
        decreases channels.len() - ci,
    {
        let ch = channels[ci];
        let ghost base = turns_view(out@);
        let mut k: usize = 0;
        while k < ch.cues.len()
            invariant
                k <= ch.cues.len(),
                turns_view(out@) == base + channel_turns(label_view(ch.label), ch.cues@.take(k as int)),
            decreases ch.cues.len() - k,
        {
            let t = trim_vec(&chars_of(ch.cues[k].text.as_str()));
            proof {
                assert(ch.cues@.take(k + 1).drop_last() =~= ch.cues@.take(k as int));
            }
            if t.len() > 0 {
                let ghost before = out@;
                out.push(Turn { label: clone_label(ch.label), start_ms: ch.cues[k].start_ms, text: string_of(t.as_slice()) });
                proof {
                    assert(turns_view(out@) =~= turns_view(before).push(turn_view(out@.last())));
                }
            }
            k = k + 1;
        }
        proof {
            assert(ch.cues@.take(ch.cues.len() as int) =~= ch.cues@);
            assert(channels@.take(ci + 1).drop_last() =~= channels@.take(ci as int));
        }
        ci = ci + 1;
    }
    assert(channels@.take(channels.len() as int) =~= channels@);
    out
}

proof fn lemma_insert_at_bound(s: Seq<TurnView>, start: u64)
    ensures
        insert_at(s, start) <= s.len(),
    decreases s.len(),
{
    if s.len() > 0 && s[0].1 <= start {
        lemma_insert_at_bound(s.drop_first(), start);
    }
}

/// Stable insertion sort by start.
fn sort_by_start(turns: Vec<Turn>) -> (r: Vec<Turn>)
    ensures
        turns_view(r@) == sort_turns(turns_view(turns@)),
{
    let mut out: Vec<Turn> = Vec::new();
    let mut rest = turns;
    let ghost all = turns_view(rest@);
    let mut taken: Vec<Turn> = Vec::new();
    // Move the turns into `taken` in reverse so they can be popped in order.
    while rest.len() > 0
        invariant
            turns_view(rest@) + turns_view(taken@).reverse() == all,
        decreases rest.len(),
    {
        let ghost r0 = rest@;
        let ghost t0 = taken@;
        let t = rest.pop().unwrap();
        taken.push(t);
        proof {
            assert(rest@ == r0.drop_last());
            assert(turns_view(taken@) =~= turns_view(t0).push(turn_view(t)));
            assert(turns_view(taken@).reverse() =~= seq![turn_view(t)] + turns_view(t0).reverse());
            assert(turns_view(r0) =~= turns_view(rest@).push(turn_view(t)));
        }
    }
    assert(turns_view(rest@) =~= Seq::<TurnView>::empty());
    assert(turns_view(taken@).reverse() =~= all);
    let ghost n = all.len();
    while taken.len() > 0
        invariant
            taken@.len() <= n,
            n == all.len(),
            turns_view(taken@).reverse() == all.skip(n - taken@.len()),
            turns_view(out@) == sort_turns(all.take(n - taken@.len())),
        decreases taken.len(),
    {
        let ghost tk0 = taken@;
        let t = taken.pop().unwrap();
        let ghost i = n - tk0.len();
        proof {
            assert(turns_view(tk0).reverse()[0] == turn_view(t));
            assert(all.skip(i)[0] == all[i]);
            assert(all[i] == turn_view(t));
            assert(all.take(i + 1).drop_last() =~= all.take(i));
            assert(all.take(i + 1).last() == all[i]);
            assert(turns_view(taken@).reverse() =~= all.skip(i + 1)) by {
                assert(turns_view(tk0) =~= turns_view(taken@).push(turn_view(t)));
                assert forall|j: int| 0 <= j < turns_view(taken@).len() implies turns_view(taken@).reverse()[j] == all.skip(i + 1)[j] by {
                    assert(turns_view(taken@).reverse()[j] == turns_view(taken@)[turns_view(taken@).len() - 1 - j]);
                    assert(turns_view(tk0).reverse()[j + 1] == turns_view(tk0)[turns_view(tk0).len() - 2 - j]);
                    assert(turns_view(tk0)[turns_view(tk0).len() - 2 - j] == turns_view(taken@)[turns_view(taken@).len() - 1 - j]);
                    assert(all.skip(i)[j + 1] == all[i + 1 + j]);
                }
            }
        }
        // find the insertion point
        let mut k: usize = 0;
        let ghost sorted = turns_view(out@);
        proof {
            lemma_insert_at_bound(sorted, t.start_ms);
            assert(sorted.skip(0) =~= sorted);
        }
        while k < out.len() && out[k].start_ms <= t.start_ms
            invariant
                k <= out.len(),
                turns_view(out@) == sorted,
                insert_at(sorted, t.start_ms) == k + insert_at(sorted.skip(k as int), t.start_ms),
            decreases out.len() - k,
        {
            proof {
                assert(sorted.skip(k as int)[0] == sorted[k as int]);
                assert(sorted.skip(k as int).drop_first() =~= sorted.skip(k + 1));
            }
            k = k + 1;
        }
        proof {
            if k < out.len() {
                assert(sorted.skip(k as int)[0] == sorted[k as int]);
            }
            assert(insert_at(sorted, t.start_ms) == k);
        }
        let ghost tv = turn_view(t);
        out.insert(k, t);
        proof {
            assert(turns_view(out@) =~= sorted.insert(k as int, tv));
        }
    }
    assert(all.take(n as int) =~= all);
    out
}

fn same_label(a: &Option<String>, b: &Option<String>) -> (r: bool)
    ensures
        r == (b.is_some() && match (*a, *b) {
            (Some(x), Some(y)) => x@ == y@,
            _ => false,
        }),
{
    match (a, b) {
        (Some(x), Some(y)) => crate::text::str_eq(x.as_str(), y.as_str()),
        _ => false,
    }
}

fn coalesce(turns: Vec<Turn>) -> (r: Vec<Turn>)
    ensures
        turns_view(r@) == coalesce_turns(turns_view(turns@)),
{
    let ghost all = turns_view(turns@);
    let mut out: Vec<Turn> = Vec::new();
    let mut i: usize = 0;
    while i < turns.len()
        invariant
            i <= turns.len(),
            all == turns_view(turns@),
            turns_view(out@) == coalesce_turns(all.take(i as int)),
        decreases turns.len() - i,
    {
        let t = &turns[i];
        proof {
            assert(all.take(i + 1).drop_last() =~= all.take(i as int));
            assert(all.take(i + 1).last() == turn_view(*t));
        }
        let mut merged_into_last = false;
        if out.len() > 0 && same_label(&out[out.len() - 1].label, &t.label) {
            let last_idx = out.len() - 1;
            let ghost before = turns_view(out@);
            assert(before.last() == turn_view(out@[last_idx as int]));
            let mut txt = chars_of(out[last_idx].text.as_str());
            txt.push(' ');
            push_str(&mut txt, t.text.as_str());
            let lbl = match &out[last_idx].label {
                Some(a) => Some(a.clone()),
                None => None,
            };
            let st = out[last_idx].start_ms;
            let nt = Turn { label: lbl, start_ms: st, text: string_of(txt.as_slice()) };
            proof {
                assert(turn_view(nt) == (before.last().0, before.last().1, before.last().2 + seq![' '] + turn_view(*t).2));
            }
            out.set(last_idx, nt);
            proof {
                assert(turns_view(out@) =~= before.update(before.len() - 1, turn_view(nt)));
            }
            merged_into_last = true;
        } else {
            proof {
                if out@.len() > 0 {
                    assert(turns_view(out@).last() == turn_view(out@[out@.len() - 1]));
                }
            }
        }
        if !merged_into_last {
            let ghost before = turns_view(out@);
            let c = Turn {
                label: match &t.label {
                    Some(a) => Some(a.clone()),
                    None => None,
                },
                start_ms: t.start_ms,
                text: t.text.clone(),
            };
            out.push(c);
            proof {
                assert(turns_view(out@) =~= before.push(turn_view(c)));
            }
        }
        i = i + 1;
    }
    assert(all.take(turns.len() as int) =~= all);
    out
}

fn push_turn(out: &mut Vec<char>, t: &Turn)
    ensures
        final(out)@ == old(out)@ + turn_text(turn_view(*t)),
{
    match &t.label {
        Some(l) => {
            push_str(out, "**");
            push_str(out, l.as_str());
            push_str(out, "** [");
        },
        None => {
            push_str(out, "[");
        },
    }
    push_hms(out, t.start_ms / 1000);
    push_str(out, "] ");
    push_str(out, t.text.as_str());
}

/// Merge one or two labelled, timed channels into one markdown
/// transcript: turns ordered by start (earlier channels first on ties),
/// a labelled speaker's back-to-back turns joined, turns separated by a
/// blank line, and a final newline. No turns gives the empty string.
pub fn merge_transcript(channels: &[LabeledChannel]) -> (r: String)
    ensures
        r@ == merged(channels@),
{
    let flat = flatten(channels);
    let sorted = sort_by_start(flat);
    let turns = coalesce(sorted);
    if turns.len() == 0 {
        return String::new();
    }
    let ghost tv = turns_view(turns@);
    let mut out: Vec<char> = Vec::new();
    let mut i: usize = 0;
    while i < turns.len()
        invariant
            i <= turns.len(),
            tv == turns_view(turns@),
            out@ == turns_text(tv.take(i as int)),
        decreases turns.len() - i,
    {
        if i > 0 {
            push_str(&mut out, "\n\n");
        }
        push_turn(&mut out, &turns[i]);
        proof {
            assert(tv.take(i + 1).drop_last() =~= tv.take(i as int));
            assert(tv.take(i + 1).last() == turn_view(turns@[i as int]));
            if i == 0 {
                assert(tv.take(1) =~= seq![tv[0]]);
            }
        }
        i = i + 1;
    }
    assert(tv.take(turns.len() as int) =~= tv);
    out.push('\n');
    string_of(out.as_slice())
}

// ---------------------------------------------------------------------
// The recording clock
// ---------------------------------------------------------------------

#[derive(Debug, Clone, Copy, PartialEq, Eq, Structural)]
pub enum Phase {
    Idle,
    Recording,
    Paused,
    Stopped,
}

/// The recorder's timing and phase bookkeeping over a caller-supplied
/// monotonic millisecond clock.
#[derive(Debug, Clone)]
pub struct RecorderState {
    pub phase: Phase,
    pub mic: bool,
    pub system: bool,
    banked_ms: u64,
    segment_start: Option<u64>,
}

/// `a - b`, or 0 when `b` is later.
pub open spec fn since(a: u64, b: u64) -> int {
    if a >= b {
        a - b
    } else {
        0
    }
}

impl RecorderState {
    /// The recorder's phase.
    pub closed spec fn cur_phase(&self) -> Phase {
        self.phase
    }

    /// Which sources this recording captures.
    pub closed spec fn sources(&self) -> (bool, bool) {
        (self.mic, self.system)
    }

    /// Milliseconds recorded before the running segment.
    pub closed spec fn banked(&self) -> u64 {
        self.banked_ms
    }

    /// When the running segment started, if one is running.
    pub closed spec fn segment(&self) -> Option<u64> {
        self.segment_start
    }

    /// A segment runs exactly while recording.
    pub closed spec fn wf(&self) -> bool {
        (self.phase == Phase::Recording) == self.segment_start.is_some()
    }

    /// Recorded time as of `now`: the banked time plus the running
    /// segment.
    pub open spec fn elapsed_at(&self, now: u64) -> int {
        self.banked() + match self.segment() {
            Some(s) => since(now, s),
            None => 0,
        }
    }

    pub fn new() -> (r: Self)
        ensures
            r.wf(),
            r.cur_phase() == Phase::Idle,
            r.sources() == (false, false),
            r.banked() == 0,
            r.segment().is_none(),
    {
        RecorderState { phase: Phase::Idle, mic: false, system: false, banked_ms: 0, segment_start: None }
    }

    /// Begin a fresh recording at `now_ms`.
    pub fn start(&mut self, now_ms: u64, mic: bool, system: bool)
        ensures
            final(self).wf(),
            final(self).cur_phase() == Phase::Recording,
            final(self).sources() == (mic, system),
            final(self).banked() == 0,
            final(self).segment() == Some(now_ms),
    {
        self.phase = Phase::Recording;
        self.mic = mic;
        self.system = system;
        self.banked_ms = 0;
        self.segment_start = Some(now_ms);
    }

    /// Pause a running recording: the running segment is banked and the
    /// clock stops. Anything but a running recording is left alone.
    pub fn pause(&mut self, now_ms: u64)
        requires
            old(self).wf(),
            old(self).cur_phase() == Phase::Recording ==> old(self).elapsed_at(now_ms) <= u64::MAX,
        ensures
            final(self).wf(),
            old(self).cur_phase() == Phase::Recording ==> {
                &&& final(self).cur_phase() == Phase::Paused
                &&& final(self).segment().is_none()
                &&& final(self).banked() == old(self).elapsed_at(now_ms)
                &&& forall|t: u64| #[trigger] final(self).elapsed_at(t) == old(self).elapsed_at(now_ms)
            },
            old(self).cur_phase() != Phase::Recording ==> *final(self) == *old(self),
            final(self).sources() == old(self).sources(),
    {
        if self.phase == Phase::Recording {
            match self.segment_start {
                Some(s) => {
                    let d = if now_ms >= s {
                        now_ms - s
                    } else {
                        0
                    };
                    self.banked_ms = self.banked_ms + d;
                },
                None => {},
            }
            self.segment_start = None;
            self.phase = Phase::Paused;
        }
    }

    /// Resume a paused recording at `now_ms`; anything else is left
    /// alone.
    pub fn resume(&mut self, now_ms: u64)
        requires
            old(self).wf(),
        ensures
            final(self).wf(),
            old(self).cur_phase() == Phase::Paused ==> {
                &&& final(self).cur_phase() == Phase::Recording
                &&& final(self).segment() == Some(now_ms)
                &&& final(self).banked() == old(self).banked()
            },
            old(self).cur_phase() != Phase::Paused ==> *final(self) == *old(self),
            final(self).sources() == old(self).sources(),
    {
        if self.phase == Phase::Paused {
            self.segment_start = Some(now_ms);
            self.phase = Phase::Recording;
        }
    }

    /// Stop for good: a running segment is banked, and the clock is
    /// frozen from then on.
    pub fn stop(&mut self, now_ms: u64)
        requires
            old(self).wf(),
            old(self).cur_phase() == Phase::Recording ==> old(self).elapsed_at(now_ms) <= u64::MAX,
        ensures
            final(self).wf(),
            final(self).cur_phase() == Phase::Stopped,
            final(self).segment().is_none(),
            final(self).banked() == old(self).elapsed_at(now_ms),
            forall|t: u64| #[trigger] final(self).elapsed_at(t) == old(self).elapsed_at(now_ms),
            final(self).sources() == old(self).sources(),
    {
        if self.phase == Phase::Recording {
            match self.segment_start {
                Some(s) => {
                    let d = if now_ms >= s {
                        now_ms - s
                    } else {
                        0
                    };
                    self.banked_ms = self.banked_ms + d;
                },
                None => {},
            }
        }
        self.segment_start = None;
        self.phase = Phase::Stopped;
    }

    /// Recorded time as of `now_ms`, paused time excluded.
    pub fn elapsed_ms(&self, now_ms: u64) -> (r: u64)
        requires
            self.elapsed_at(now_ms) <= u64::MAX,
        ensures
            r == self.elapsed_at(now_ms),
    {
        let live = match self.segment_start {
            Some(s) => if now_ms >= s {
                now_ms - s
            } else {
                0
            },
            None => 0,
        };
        self.banked_ms + live
    }

    /// Audio is being captured.
    pub fn is_capturing(&self) -> (r: bool)
        ensures
            r == (self.cur_phase() == Phase::Recording),
    {
        self.phase == Phase::Recording
    }
}

impl Default for RecorderState {
    fn default() -> (r: Self)
        ensures
            r.wf(),
            r.cur_phase() == Phase::Idle,
            r.banked() == 0,
            r.segment().is_none(),
    {
        RecorderState::new()
    }
}

/// Time spent paused is never counted: whatever happens between a pause
/// and a later reading, a paused recorder reads the time it had banked.
pub proof fn law_paused_time_is_not_counted(r: RecorderState, t1: u64, t2: u64)
    requires
        r.wf(),
        r.cur_phase() == Phase::Paused,
    ensures
        r.elapsed_at(t1) == r.elapsed_at(t2),
{
    assert(r.segment().is_none());
}


/// A name for a new `<stem>.<ext>` file that no name in `taken` (the
/// folder's current entries) collides with: `<stem>.<ext>`, else
/// `<stem> 2.<ext>`, `<stem> 3.<ext>`, ..., the first one free.
pub fn unique_name(taken: &[String], stem: &str, ext: &str) -> (r: String)
    requires
        taken@.len() < u64::MAX,
    ensures
        exists|k: nat| first_free(strs(taken@), stem@, " "@, ext@, k) && r@ == numbered(stem@, " "@, ext@, k),
{
    proof {
        reveal_strlit(" ");
    }
    first_free_name(taken, stem, " ", ext)
}

} // verus!
