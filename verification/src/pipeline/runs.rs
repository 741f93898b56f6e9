//! The run ledger's record model and the slot count the admission check reads.
use vstd::prelude::*;
use crate::pipeline::kinds::RunOutcome;
use crate::text::{chars_of, string_of, sub_vec};

verus! {

/// One append-only ledger entry.
#[derive(Debug, Clone, PartialEq, Eq)]
pub struct RunRecord {
    pub id: String,
    pub ticket: String,
    pub pipeline: String,
    pub lane: String,
    pub agent: String,
    pub model: String,
    pub scope: Vec<String>,
    pub verify: String,
    pub started: String,
    pub ended: String,
    pub outcome: Option<RunOutcome>,
    pub outcome_raw: String,
    pub artifacts: Vec<String>,
    /// The agent's report: the file body.
    pub report: String,
}

/// The record is running right now.
pub open spec fn is_live_record(r: RunRecord) -> bool {
    r.outcome == Some(RunOutcome::Running)
}

/// How many records of `rs` are running.
pub open spec fn live_count(rs: Seq<RunRecord>) -> nat
    decreases rs.len(),
{
    if rs.len() == 0 {
        0
    } else {
        live_count(rs.drop_last()) + if is_live_record(rs.last()) {
            1nat
        } else {
            0nat
        }
    }
}

/// How many concurrency slots the ledger currently occupies.
pub fn running_runs(runs: &[RunRecord]) -> (n: usize)
    ensures
        n == live_count(runs@),
{
    let mut n: usize = 0;
    let mut i: usize = 0;
    while i < runs.len()
        invariant
            i <= runs.len(),
            n == live_count(runs@.take(i as int)),
            n <= i,
        decreases runs.len() - i,
    {
        let live = match runs[i].outcome {
            Some(o) => o.is_live(),
            None => false,
        };
        assert(runs@.take(i + 1).drop_last() =~= runs@.take(i as int));
        if live {
            n = n + 1;
        }
        i = i + 1;
    }
    assert(runs@.take(runs.len() as int) =~= runs@);
    n
}

// ---------------------------------------------------------------------
// Month folder
// ---------------------------------------------------------------------

/// Bytes `c` takes in UTF-8.
pub open spec fn utf8_len(c: char) -> nat {
    if (c as u32) < 0x80 {
        1
    } else if (c as u32) < 0x800 {
        2
    } else if (c as u32) < 0x10000 {
        3
    } else {
        4
    }
}

/// The leading characters of `s` that take exactly `n` bytes, if a
/// character boundary falls at byte `n` (`s.get(0..n)`).
pub open spec fn take_bytes(s: Seq<char>, n: int) -> Option<Seq<char>>
    decreases s.len(),
{
    if n == 0 {
        Some(seq![])
    } else if n < 0 || s.len() == 0 || utf8_len(s[0]) > n {
        None
    } else {
        match take_bytes(s.drop_first(), n - utf8_len(s[0])) {
            Some(t) => Some(seq![s[0]] + t),
            None => None,
        }
    }
}

/// The `yyyy-mm` folder for a run started at `started`.
pub open spec fn run_month_spec(started: Seq<char>) -> Seq<char> {
    match take_bytes(started, 7) {
        Some(p) => p,
        None => started,
    }
}

fn utf8_width(c: char) -> (w: u32)
    ensures
        w == utf8_len(c),
{
    let u = c as u32;
    if u < 0x80 {
        1
    } else if u < 0x800 {
        2
    } else if u < 0x10000 {
        3
    } else {
        4
    }
}

spec fn prepend_opt(p: Seq<char>, o: Option<Seq<char>>) -> Option<Seq<char>> {
    match o {
        Some(t) => Some(p + t),
        None => None,
    }
}

/// The `yyyy-mm` folder a run files under: the first seven bytes of its
/// `started` value, or the whole value when that is too short to cut.
pub fn run_month(started: &str) -> (r: String)
    ensures
        r@ == run_month_spec(started@),
{
    let s = chars_of(started);
    let mut rem: u32 = 7;
    let mut i: usize = 0;
    proof {
        assert(s@.skip(0) =~= s@);
        assert(s@.take(0) =~= Seq::<char>::empty());
        match take_bytes(s@, 7) {
            Some(t) => {
                assert(Seq::<char>::empty() + t =~= t);
            },
            None => {},
        }
    }
    while rem > 0 && i < s.len() && utf8_width(s[i]) <= rem
        invariant
            i <= s.len(),
            rem <= 7,
            take_bytes(s@, 7) == prepend_opt(s@.take(i as int), take_bytes(s@.skip(i as int), rem as int)),
        decreases s.len() - i,
    {
        let w = utf8_width(s[i]);
        proof {
            let t = s@.skip(i as int);
            assert(t[0] == s@[i as int]);
            assert(t.drop_first() =~= s@.skip(i + 1));
            assert(s@.take(i + 1) =~= s@.take(i as int) + seq![s@[i as int]]);
            match take_bytes(s@.skip(i + 1), rem - w) {
                Some(u) => {
                    assert(s@.take(i as int) + (seq![s@[i as int]] + u) =~= s@.take(i + 1) + u);
                },
                None => {},
            }
        }
        rem = rem - w;
        i = i + 1;
    }
    if rem == 0 {
        assert(s@.take(i as int) + seq![] =~= s@.take(i as int));
        let p = sub_vec(&s, 0, i);
        assert(p@ =~= s@.take(i as int));
        string_of(p.as_slice())
    } else {
        string_of(s.as_slice())
    }
}

} // verus!
