//! The agent runner's vocabulary, and the cleanup its captured terminal
//! output goes through before a person reads it.
use vstd::prelude::*;
use std::collections::VecDeque;
use crate::pipeline::graph::{join, join_vec, strs};
use crate::text::{lines_spec, split_lines, string_of, views, chars_of, push_str, str_eq, str_of_lit};

verus! {

/// How a session runs: a hidden terminal UI, or headless.
#[derive(Debug, Clone, Copy, PartialEq, Eq, Structural)]
pub enum RunnerMode {
    HiddenTui,
    Headless,
}

/// How to run the agent: its binary, the mode, and the time limit in
/// seconds.
#[derive(Debug, Clone, PartialEq, Eq)]
pub struct RunnerConfig {
    pub binary: String,
    pub mode: RunnerMode,
    pub timeout_secs: u64,
}

/// How a session ended.
#[derive(Debug, Clone, PartialEq, Eq)]
pub enum RunOutcome {
    Completed,
    Cancelled,
    /// Hit the time limit; carries the tail of the session's output.
    TimedOut(String),
    /// The process died before completing; carries diagnostic detail.
    Failed(String),
}

/// `char::is_ascii_alphabetic`.
pub open spec fn ascii_alpha(c: char) -> bool {
    ('a' <= c && c <= 'z') || ('A' <= c && c <= 'Z')
}

/// Where a control sequence that starts its parameters at `j` ends: just
/// past its first ASCII letter, or the end of `s`.
pub open spec fn csi_end(s: Seq<char>, j: int) -> int
    decreases s.len() - j,
{
    if j >= s.len() {
        s.len() as int
    } else if j >= 0 && ascii_alpha(s[j]) {
        j + 1
    } else if j < 0 {
        s.len() as int
    } else {
        csi_end(s, j + 1)
    }
}

pub proof fn lemma_csi_end_bounds(s: Seq<char>, j: int)
    requires
        0 <= j,
    ensures
        j <= csi_end(s, j) <= s.len() || (j > s.len() && csi_end(s, j) == s.len()),
    decreases s.len() - j,
{
    if j < s.len() && !ascii_alpha(s[j]) {
        lemma_csi_end_bounds(s, j + 1);
    }
}

/// `s` from `i` on with escape sequences removed: an `ESC [` sequence
/// through its final letter, or a lone `ESC`.
pub open spec fn strip_from(s: Seq<char>, i: int) -> Seq<char>
    decreases s.len() - i,
{
    if i < 0 || i >= s.len() {
        seq![]
    } else if s[i] == '\u{1b}' {
        if i + 1 < s.len() && s[i + 1] == '[' {
            proof {
                lemma_csi_end_bounds(s, i + 2);
            }
            strip_from(s, csi_end(s, i + 2))
        } else {
            strip_from(s, i + 1)
        }
    } else {
        seq![s[i]] + strip_from(s, i + 1)
    }
}

/// Remove ANSI escape sequences from terminal output.
pub fn strip_ansi(s: &str) -> (r: String)
    ensures
        r@ == strip_from(s@, 0),
{
    let v = chars_of(s);
    let mut out: Vec<char> = Vec::new();
    let mut i: usize = 0;
    while i < v.len()
        invariant
            i <= v.len(),
            v@ == s@,
            out@ + strip_from(v@, i as int) == strip_from(v@, 0),
        decreases v.len() - i,
    {
        let c = v[i];
        if c == '\u{1b}' {
            if i + 1 < v.len() && v[i + 1] == '[' {
                let mut j: usize = i + 2;
                proof {
                    lemma_csi_end_bounds(v@, i + 2);
                }
                while j < v.len() && !(('a' <= v[j] && v[j] <= 'z') || ('A' <= v[j] && v[j] <= 'Z'))
                    invariant
                        i + 2 <= j <= v.len(),
                        csi_end(v@, i + 2) == csi_end(v@, j as int),
                    decreases v.len() - j,
                {
                    j = j + 1;
                }
                let end = if j < v.len() {
                    j + 1
                } else {
                    j
                };
                assert(csi_end(v@, j as int) == end);
                i = end;
            } else {
                i = i + 1;
            }
        } else {
            let ghost before = out@;
            out.push(c);
            assert(out@ + strip_from(v@, i + 1) =~= before + (seq![c] + strip_from(v@, i + 1)));
            i = i + 1;
        }
    }
    assert(out@ =~= strip_from(v@, 0));
    string_of(out.as_slice())
}

/// How many trailing lines of a session's output a timeout reports.
pub const TAIL_LINES: usize = 15;

/// The last [`TAIL_LINES`] lines of `text` with escape sequences removed,
/// joined with line breaks.
pub open spec fn output_tail_spec(text: Seq<char>) -> Seq<char> {
    let ls = lines_spec(strip_from(text, 0));
    join(if ls.len() > TAIL_LINES { ls.skip(ls.len() - TAIL_LINES) } else { ls }, "\n"@)
}

/// The tail of a session's captured output, cleaned for a person to read.
pub fn output_tail(text: &str) -> (r: String)
    ensures
        r@ == output_tail_spec(text@),
{
    let cleaned = strip_ansi(text);
    let lines = split_lines(&chars_of(cleaned.as_str()));
    let start: usize = if lines.len() > TAIL_LINES {
        lines.len() - TAIL_LINES
    } else {
        0
    };
    let mut kept: Vec<String> = Vec::new();
    let mut i: usize = start;
    while i < lines.len()
        invariant
            start <= i <= lines.len(),
            strs(kept@) == views(lines@).subrange(start as int, i as int),
        decreases lines.len() - i,
    {
        let ghost before = kept@;
        let line = string_of(lines[i].as_slice());
        kept.push(line);
        assert(strs(kept@) =~= strs(before).push(line@));
        assert(views(lines@).subrange(start as int, i + 1) =~= views(lines@).subrange(start as int, i as int).push(
            lines@[i as int]@,
        ));
        i = i + 1;
    }
    proof {
        let ls = views(lines@);
        if ls.len() > TAIL_LINES {
            assert(ls.subrange(start as int, ls.len() as int) =~= ls.skip(ls.len() - TAIL_LINES));
        } else {
            assert(ls.subrange(0, ls.len() as int) =~= ls);
        }
    }
    let joined = join_vec(&kept, "\n");
    string_of(joined.as_slice())
}


/// How many bytes of a live session's output are kept for a viewer that
/// attaches late.
pub const BACKLOG_CAP: usize = 204800;

/// The last `n` items of `s` (all of it when it is shorter).
pub open spec fn keep_last(s: Seq<u8>, n: nat) -> Seq<u8> {
    if s.len() <= n {
        s
    } else {
        s.subrange(s.len() - n, s.len() as int)
    }
}

/// The most recent output of a live session, at most [`BACKLOG_CAP`]
/// bytes.
pub struct Backlog {
    bytes: VecDeque<u8>,
}

impl View for Backlog {
    type V = Seq<u8>;

    closed spec fn view(&self) -> Seq<u8> {
        self.bytes@
    }
}

impl Backlog {
    /// An empty backlog.
    pub fn new() -> (r: Backlog)
        ensures
            r@ == Seq::<u8>::empty(),
    {
        Backlog { bytes: VecDeque::new() }
    }

    /// Append a chunk of output, then drop the oldest bytes beyond the
    /// cap.
    pub fn push(&mut self, chunk: &[u8])
        ensures
            final(self)@ == keep_last(old(self)@ + chunk@, BACKLOG_CAP as nat),
    {
        broadcast use vstd::std_specs::vecdeque::group_vec_dequeue_axioms;
        let ghost full = self.bytes@ + chunk@;
        let mut i: usize = 0;
        while i < chunk.len()
            invariant
                i <= chunk.len(),
                full == old(self)@ + chunk@,
                self.bytes@ == old(self)@ + chunk@.take(i as int),
            decreases chunk.len() - i,
        {
            self.bytes.push_back(chunk[i]);
            assert(chunk@.take(i + 1) =~= chunk@.take(i as int).push(chunk@[i as int]));
            i = i + 1;
        }
        assert(chunk@.take(chunk.len() as int) =~= chunk@);
        let ghost mut dropped: int = 0;
        while self.bytes.len() > BACKLOG_CAP
            invariant
                0 <= dropped <= full.len(),
                self.bytes@ == full.subrange(dropped, full.len() as int),
                dropped > 0 ==> full.len() - dropped >= BACKLOG_CAP,
            decreases self.bytes@.len(),
        {
            self.bytes.pop_front();
            proof {
                dropped = dropped + 1;
            }
            assert(self.bytes@ =~= full.subrange(dropped, full.len() as int));
        }
        proof {
            if full.len() <= BACKLOG_CAP {
                assert(dropped == 0);
                assert(self.bytes@ =~= full);
            } else {
                assert(dropped == full.len() - BACKLOG_CAP);
            }
        }
    }

    /// The kept bytes, oldest first.
    pub fn bytes(&self) -> (r: Vec<u8>)
        ensures
            r@ == self@,
    {
        broadcast use vstd::std_specs::vecdeque::group_vec_dequeue_axioms;
        let mut out: Vec<u8> = Vec::new();
        let mut i: usize = 0;
        while i < self.bytes.len()
            invariant
                i <= self.bytes@.len(),
                out@ == self.bytes@.take(i as int),
            decreases self.bytes@.len() - i,
        {
            out.push(self.bytes[i]);
            assert(self.bytes@.take(i + 1) =~= self.bytes@.take(i as int).push(self.bytes@[i as int]));
            i = i + 1;
        }
        assert(self.bytes@.take(self.bytes@.len() as int) =~= self.bytes@);
        out
    }

    /// Whether nothing has been kept.
    pub fn is_empty(&self) -> (r: bool)
        ensures
            r == (self@.len() == 0),
    {
        broadcast use vstd::std_specs::vecdeque::group_vec_dequeue_axioms;
        self.bytes.len() == 0
    }
}

/// A backlog never holds more than the cap, and what it holds is always
/// the newest output: pushing a chunk keeps exactly the last
/// `BACKLOG_CAP` bytes of everything so far.
pub proof fn law_backlog_keeps_newest(before: Seq<u8>, chunk: Seq<u8>)
    ensures
        keep_last(before + chunk, BACKLOG_CAP as nat).len() <= BACKLOG_CAP,
        chunk.len() <= BACKLOG_CAP ==> keep_last(before + chunk, BACKLOG_CAP as nat).subrange(
            keep_last(before + chunk, BACKLOG_CAP as nat).len() - chunk.len(),
            keep_last(before + chunk, BACKLOG_CAP as nat).len() as int,
        ) == chunk,
{
    let full = before + chunk;
    let k = keep_last(full, BACKLOG_CAP as nat);
    if chunk.len() <= BACKLOG_CAP {
        assert(k.subrange(k.len() - chunk.len(), k.len() as int) =~= chunk);
    }
}


/// A path separator, either way round.
pub open spec fn is_sep(c: char) -> bool {
    c == '/' || c == '\\'
}

/// The folder name the agent's tool gives a project's sessions: the
/// project's path with every separator turned into `-`.
pub open spec fn session_folder_spec(root: Seq<char>) -> Seq<char> {
    root.map_values(|c: char| if is_sep(c) { '-' } else { c })
}

/// The folder name, under the tool's projects folder, that holds a
/// project's session files.
pub fn session_folder(canonical_root: &str) -> (r: String)
    ensures
        r@ == session_folder_spec(canonical_root@),
{
    let v = chars_of(canonical_root);
    let mut out: Vec<char> = Vec::new();
    let mut i: usize = 0;
    while i < v.len()
        invariant
            i <= v.len(),
            v@ == canonical_root@,
            out@ == session_folder_spec(canonical_root@).take(i as int),
        decreases v.len() - i,
    {
        let c = v[i];
        if c == '/' || c == '\\' {
            out.push('-');
        } else {
            out.push(c);
        }
        assert(session_folder_spec(canonical_root@).take(i + 1) =~= session_folder_spec(
            canonical_root@,
        ).take(i as int).push(out@[i as int]));
        i = i + 1;
    }
    assert(session_folder_spec(canonical_root@).take(v.len() as int) =~= session_folder_spec(
        canonical_root@,
    ));
    string_of(out.as_slice())
}

// ---------------------------------------------------------------------
// Watching a hidden-terminal session
// ---------------------------------------------------------------------

/// How many seconds after spawning a session its file must exist on disk;
/// a session that has not written it by then is parked at a startup
/// prompt the hidden terminal cannot answer.
pub const GATE_CHECK_SECS: u64 = 60;

/// How long a session asked to exit may linger before it is killed.
pub const EXIT_GRACE_SECS: u64 = 5;

/// What the watcher of a hidden-terminal session remembers between
/// events: whether the startup gate has been checked.
#[derive(Debug, Clone, Copy, PartialEq, Eq, Structural)]
pub struct TuiWatch {
    pub gate_checked: bool,
}

/// One thing the watcher observed.
#[derive(Debug, Clone, PartialEq, Eq)]
pub enum TuiEvent {
    /// The run was cancelled.
    Cancelled,
    /// The startup-gate time has passed; whether the session's file
    /// exists on disk.
    GateDue { session_file_exists: bool },
    /// The session's hooks reported an event, by name.
    Hook(String),
    /// No hook event arrived for a while: the exit status of the process
    /// if it has exited, and whether the time limit has passed.
    Quiet { exit_status: Option<String>, past_deadline: bool },
    /// The hook listener went away.
    ListenerGone,
}

/// What the watcher does next.
#[derive(Debug, Clone, PartialEq, Eq)]
pub enum TuiAction {
    /// Keep watching.
    Wait,
    /// Tell the user the agent is waiting on them, then keep watching.
    NotifyBlocked,
    /// Ask the session to exit, kill it if it lingers past the grace
    /// period, and end the run with the outcome.
    ExitThen(RunOutcome),
    /// Kill the session and end the run with the outcome.
    KillThen(RunOutcome),
    /// The session has already exited: end the run with the outcome.
    End(RunOutcome),
}

impl TuiWatch {
    /// A watcher that has not checked the startup gate yet.
    pub fn new() -> (w: TuiWatch)
        ensures
            !w.gate_checked,
    {
        TuiWatch { gate_checked: false }
    }

    /// Whether the startup gate is due for its single check: it has not
    /// been checked and its time has passed.
    pub fn wants_gate_check(&self, past_gate: bool) -> (r: bool)
        ensures
            r == (!self.gate_checked && past_gate),
    {
        !self.gate_checked && past_gate
    }
}

pub open spec fn early_exit_message(status: Seq<char>, tail: Seq<char>) -> Seq<char> {
    "the agent exited before finishing (status "@ + status + "). Recent output:\n"@ + tail
}

pub open spec fn listener_gone_message() -> Seq<char> {
    "hook listener stopped"@
}

/// The watcher's decision on one event, `tail` being the session's recent
/// output: cancelling kills the session; an unanswered startup gate or a
/// `Notification` hook tells the user the agent is blocked; a `Stop` hook
/// asks the session to exit and completes; a process that exited on its
/// own fails with its status and output; a passed deadline kills the
/// session and times out with its output; a lost hook listener kills the
/// session and fails. Every other event changes nothing.
pub fn tui_step(w: &TuiWatch, ev: &TuiEvent, tail: &str) -> (r: (TuiWatch, TuiAction))
    ensures
        r.0.gate_checked == (w.gate_checked || ev is GateDue),
        match ev {
            TuiEvent::Cancelled => r.1 == TuiAction::KillThen(RunOutcome::Cancelled),
            TuiEvent::GateDue { session_file_exists } => r.1 == if !w.gate_checked && !*session_file_exists {
                TuiAction::NotifyBlocked
            } else {
                TuiAction::Wait
            },
            TuiEvent::Hook(name) => r.1 == if name@ == "Stop"@ {
                TuiAction::ExitThen(RunOutcome::Completed)
            } else if name@ == "Notification"@ {
                TuiAction::NotifyBlocked
            } else {
                TuiAction::Wait
            },
            TuiEvent::Quiet { exit_status, past_deadline } => match exit_status {
                Some(status) => r.1 matches TuiAction::End(RunOutcome::Failed(m)) && m@
                    == early_exit_message(status@, tail@),
                None => if *past_deadline {
                    r.1 matches TuiAction::KillThen(RunOutcome::TimedOut(t)) && t@ == tail@
                } else {
                    r.1 == TuiAction::Wait
                },
            },
            TuiEvent::ListenerGone => r.1 matches TuiAction::KillThen(RunOutcome::Failed(m)) && m@
                == listener_gone_message(),
        },
{
    match ev {
        TuiEvent::Cancelled => (*w, TuiAction::KillThen(RunOutcome::Cancelled)),
        TuiEvent::GateDue { session_file_exists } => {
            let act = if !w.gate_checked && !*session_file_exists {
                TuiAction::NotifyBlocked
            } else {
                TuiAction::Wait
            };
            (TuiWatch { gate_checked: true }, act)
        },
        TuiEvent::Hook(name) => {
            let act = if str_eq(name.as_str(), "Stop") {
                TuiAction::ExitThen(RunOutcome::Completed)
            } else if str_eq(name.as_str(), "Notification") {
                TuiAction::NotifyBlocked
            } else {
                TuiAction::Wait
            };
            (*w, act)
        },
        TuiEvent::Quiet { exit_status, past_deadline } => match exit_status {
            Some(status) => {
                let mut m: Vec<char> = Vec::new();
                push_str(&mut m, "the agent exited before finishing (status ");
                push_str(&mut m, status.as_str());
                push_str(&mut m, "). Recent output:\n");
                push_str(&mut m, tail);
                proof {
                    assert(m@ =~= early_exit_message(status@, tail@));
                }
                (*w, TuiAction::End(RunOutcome::Failed(string_of(m.as_slice()))))
            },
            None => if *past_deadline {
                (*w, TuiAction::KillThen(RunOutcome::TimedOut(str_of_lit(tail))))
            } else {
                (*w, TuiAction::Wait)
            },
        },
        TuiEvent::ListenerGone => (*w, TuiAction::KillThen(RunOutcome::Failed(str_of_lit("hook listener stopped")))),
    }
}

} // verus!
