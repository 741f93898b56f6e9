//! The pipeline's small vocabularies: each is spelled in frontmatter as a
//! lower-case word and read back case- and whitespace-insensitively.
use vstd::prelude::*;
use crate::text::{is_lit, word_key, word_key_of};

verus! {

/// When a lane's agent may start.
#[derive(Debug, Clone, Copy, PartialEq, Eq, Hash, Structural)]
pub enum Kickoff {
    /// Never starts itself.
    Manual,
    /// Ken proposes a run and a human must accept it.
    Confirm,
    /// Starts on lane entry, and only when the pipeline's `auto` switch is on.
    Auto,
}

impl Kickoff {
    /// The lower-case word the frontmatter spells this value with.
    pub open spec fn word(self) -> Seq<char> {
        match self {
            Kickoff::Manual => "manual"@,
            Kickoff::Confirm => "confirm"@,
            Kickoff::Auto => "auto"@,
        }
    }

    /// The value a (trimmed, lower-cased) word names, if any.
    pub open spec fn from_word(w: Seq<char>) -> Option<Self> {
        if w == "manual"@ {
            Some(Kickoff::Manual)
        } else if w == "confirm"@ {
            Some(Kickoff::Confirm)
        } else if w == "auto"@ {
            Some(Kickoff::Auto)
        } else {
            None
        }
    }

    pub fn as_str(self) -> (r: &'static str)
        ensures
            r@ == self.word(),
    {
        match self {
            Kickoff::Manual => "manual",
            Kickoff::Confirm => "confirm",
            Kickoff::Auto => "auto",
        }
    }

    /// Case- and whitespace-insensitive.
    pub fn parse(s: &str) -> (r: Option<Self>)
        ensures
            r == Self::from_word(word_key(s@)),
    {
        let k = word_key_of(s);
        if is_lit(&k, "manual") {
            return Some(Kickoff::Manual);
        }
        if is_lit(&k, "confirm") {
            return Some(Kickoff::Confirm);
        }
        if is_lit(&k, "auto") {
            return Some(Kickoff::Auto);
        }
        None
    }
}

/// Every Kickoff reads back from its own word: `parse(as_str(k)) == Some(k)`,
/// and no two values share a word.
pub proof fn lemma_kickoff_words_round_trip(k: Kickoff)
    ensures
        Kickoff::from_word(word_key(k.word())) == Some(k),
{
    reveal_strlit("manual");
    reveal_strlit("confirm");
    reveal_strlit("auto");
    assert(word_key(k.word()) =~= k.word());
}

/// How a lane's work reaches an agent.
#[derive(Debug, Clone, Copy, PartialEq, Eq, Hash, Structural)]
pub enum Runner {
    /// The agent pulls queued work over MCP.
    Mcp,
    /// A command line; modelled but not acted on.
    Command,
}

impl Runner {
    /// The lower-case word the frontmatter spells this value with.
    pub open spec fn word(self) -> Seq<char> {
        match self {
            Runner::Mcp => "mcp"@,
            Runner::Command => "command"@,
        }
    }

    /// The value a (trimmed, lower-cased) word names, if any.
    pub open spec fn from_word(w: Seq<char>) -> Option<Self> {
        if w == "mcp"@ {
            Some(Runner::Mcp)
        } else if w == "command"@ {
            Some(Runner::Command)
        } else {
            None
        }
    }

    pub fn as_str(self) -> (r: &'static str)
        ensures
            r@ == self.word(),
    {
        match self {
            Runner::Mcp => "mcp",
            Runner::Command => "command",
        }
    }

    /// Case- and whitespace-insensitive.
    pub fn parse(s: &str) -> (r: Option<Self>)
        ensures
            r == Self::from_word(word_key(s@)),
    {
        let k = word_key_of(s);
        if is_lit(&k, "mcp") {
            return Some(Runner::Mcp);
        }
        if is_lit(&k, "command") {
            return Some(Runner::Command);
        }
        None
    }
}

/// Every Runner reads back from its own word: `parse(as_str(k)) == Some(k)`,
/// and no two values share a word.
pub proof fn lemma_runner_words_round_trip(k: Runner)
    ensures
        Runner::from_word(word_key(k.word())) == Some(k),
{
    reveal_strlit("mcp");
    reveal_strlit("command");
    assert(word_key(k.word()) =~= k.word());
}

/// Where a ticket's demo recipe comes from.
#[derive(Debug, Clone, Copy, PartialEq, Eq, Hash, Structural)]
pub enum Target {
    Web,
    Tauri,
    /// A written walkthrough only; the default.
    Walkthrough,
}

impl Target {
    /// The lower-case word the frontmatter spells this value with.
    pub open spec fn word(self) -> Seq<char> {
        match self {
            Target::Web => "web"@,
            Target::Tauri => "tauri"@,
            Target::Walkthrough => "none"@,
        }
    }

    /// The value a (trimmed, lower-cased) word names, if any.
    pub open spec fn from_word(w: Seq<char>) -> Option<Self> {
        if w == "web"@ {
            Some(Target::Web)
        } else if w == "tauri"@ {
            Some(Target::Tauri)
        } else if w == "none"@ {
            Some(Target::Walkthrough)
        } else {
            None
        }
    }

    pub fn as_str(self) -> (r: &'static str)
        ensures
            r@ == self.word(),
    {
        match self {
            Target::Web => "web",
            Target::Tauri => "tauri",
            Target::Walkthrough => "none",
        }
    }

    /// Case- and whitespace-insensitive.
    pub fn parse(s: &str) -> (r: Option<Self>)
        ensures
            r == Self::from_word(word_key(s@)),
    {
        let k = word_key_of(s);
        if is_lit(&k, "web") {
            return Some(Target::Web);
        }
        if is_lit(&k, "tauri") {
            return Some(Target::Tauri);
        }
        if is_lit(&k, "none") {
            return Some(Target::Walkthrough);
        }
        None
    }
}

/// Every Target reads back from its own word: `parse(as_str(k)) == Some(k)`,
/// and no two values share a word.
pub proof fn lemma_target_words_round_trip(k: Target)
    ensures
        Target::from_word(word_key(k.word())) == Some(k),
{
    reveal_strlit("web");
    reveal_strlit("tauri");
    reveal_strlit("none");
    assert(word_key(k.word()) =~= k.word());
}

impl Default for Target {
    fn default() -> (r: Self)
        ensures
            r == Target::Walkthrough,
    {
        Target::Walkthrough
    }
}

/// A run's lifecycle state.
#[derive(Debug, Clone, Copy, PartialEq, Eq, Hash, Structural)]
pub enum RunOutcome {
    Queued,
    Running,
    Pass,
    Fail,
    Blocked,
    Cancelled,
}

impl RunOutcome {
    /// The lower-case word the frontmatter spells this value with.
    pub open spec fn word(self) -> Seq<char> {
        match self {
            RunOutcome::Queued => "queued"@,
            RunOutcome::Running => "running"@,
            RunOutcome::Pass => "pass"@,
            RunOutcome::Fail => "fail"@,
            RunOutcome::Blocked => "blocked"@,
            RunOutcome::Cancelled => "cancelled"@,
        }
    }

    /// The value a (trimmed, lower-cased) word names, if any.
    pub open spec fn from_word(w: Seq<char>) -> Option<Self> {
        if w == "queued"@ {
            Some(RunOutcome::Queued)
        } else if w == "running"@ {
            Some(RunOutcome::Running)
        } else if w == "pass"@ {
            Some(RunOutcome::Pass)
        } else if w == "fail"@ {
            Some(RunOutcome::Fail)
        } else if w == "blocked"@ {
            Some(RunOutcome::Blocked)
        } else if w == "cancelled"@ {
            Some(RunOutcome::Cancelled)
        } else {
            None
        }
    }

    pub fn as_str(self) -> (r: &'static str)
        ensures
            r@ == self.word(),
    {
        match self {
            RunOutcome::Queued => "queued",
            RunOutcome::Running => "running",
            RunOutcome::Pass => "pass",
            RunOutcome::Fail => "fail",
            RunOutcome::Blocked => "blocked",
            RunOutcome::Cancelled => "cancelled",
        }
    }

    /// Case- and whitespace-insensitive.
    pub fn parse(s: &str) -> (r: Option<Self>)
        ensures
            r == Self::from_word(word_key(s@)),
    {
        let k = word_key_of(s);
        if is_lit(&k, "queued") {
            return Some(RunOutcome::Queued);
        }
        if is_lit(&k, "running") {
            return Some(RunOutcome::Running);
        }
        if is_lit(&k, "pass") {
            return Some(RunOutcome::Pass);
        }
        if is_lit(&k, "fail") {
            return Some(RunOutcome::Fail);
        }
        if is_lit(&k, "blocked") {
            return Some(RunOutcome::Blocked);
        }
        if is_lit(&k, "cancelled") {
            return Some(RunOutcome::Cancelled);
        }
        None
    }
}

/// Every RunOutcome reads back from its own word: `parse(as_str(k)) == Some(k)`,
/// and no two values share a word.
pub proof fn lemma_run_outcome_words_round_trip(k: RunOutcome)
    ensures
        RunOutcome::from_word(word_key(k.word())) == Some(k),
{
    reveal_strlit("queued");
    reveal_strlit("running");
    reveal_strlit("pass");
    reveal_strlit("fail");
    reveal_strlit("blocked");
    reveal_strlit("cancelled");
    assert(word_key(k.word()) =~= k.word());
}

impl RunOutcome {
    /// A run occupying a concurrency slot right now.
    pub fn is_live(self) -> (r: bool)
        ensures
            r == (self == RunOutcome::Running),
    {
        match self {
            RunOutcome::Running => true,
            _ => false,
        }
    }
}

/// What a lane's agent reported.
#[derive(Debug, Clone, Copy, PartialEq, Eq, Hash, Structural)]
pub enum AdvanceOutcome {
    Pass,
    Fail,
}

impl AdvanceOutcome {
    /// The lower-case word the frontmatter spells this value with.
    pub open spec fn word(self) -> Seq<char> {
        match self {
            AdvanceOutcome::Pass => "pass"@,
            AdvanceOutcome::Fail => "fail"@,
        }
    }

    /// The value a (trimmed, lower-cased) word names, if any.
    pub open spec fn from_word(w: Seq<char>) -> Option<Self> {
        if w == "pass"@ {
            Some(AdvanceOutcome::Pass)
        } else if w == "fail"@ {
            Some(AdvanceOutcome::Fail)
        } else {
            None
        }
    }

    pub fn as_str(self) -> (r: &'static str)
        ensures
            r@ == self.word(),
    {
        match self {
            AdvanceOutcome::Pass => "pass",
            AdvanceOutcome::Fail => "fail",
        }
    }

    /// Case- and whitespace-insensitive.
    pub fn parse(s: &str) -> (r: Option<Self>)
        ensures
            r == Self::from_word(word_key(s@)),
    {
        let k = word_key_of(s);
        if is_lit(&k, "pass") {
            return Some(AdvanceOutcome::Pass);
        }
        if is_lit(&k, "fail") {
            return Some(AdvanceOutcome::Fail);
        }
        None
    }
}

/// Every AdvanceOutcome reads back from its own word: `parse(as_str(k)) == Some(k)`,
/// and no two values share a word.
pub proof fn lemma_advance_outcome_words_round_trip(k: AdvanceOutcome)
    ensures
        AdvanceOutcome::from_word(word_key(k.word())) == Some(k),
{
    reveal_strlit("pass");
    reveal_strlit("fail");
    assert(word_key(k.word()) =~= k.word());
}

} // verus!
