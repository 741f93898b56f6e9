//! `.kenignore` parsing and tier classification.
//!
//! `parse` turns `.kenignore` text into an ordered list of [`Rule`]s and
//! `classify` folds rule sets (built-ins first, the user file last) against
//! a path with last-match-wins semantics. Glob matching itself belongs to
//! the `ignore` crate's gitignore matcher; everything around it — line
//! syntax, tier prefixes, escapes, hard ignores, the fold — is stated and
//! proved here.
use vstd::prelude::*;
use crate::text::{
    chars_of, has_prefix, lines_spec, push_all, split_lines, string_of, sub_vec, trim_end_vec,
    trim_end_ws, trim_start_char, trim_start_char_vec, views,
};

verus! {

/// How deeply a path is indexed.
#[derive(Debug, Clone, Copy, PartialEq, Eq, PartialOrd, Ord, Hash, Structural)]
pub enum Tier {
    /// Indexed for search and fed to extraction and profiling.
    Full,
    /// Indexed for search only.
    SearchOnly,
    /// Not indexed at all.
    Ignore,
}

/// One parsed `.kenignore` line.
#[derive(Debug, Clone, PartialEq, Eq)]
pub struct Rule {
    /// The tier this rule assigns when it is the last matching rule.
    pub tier: Tier,
    /// The gitignore-style glob, tier prefix stripped and `\~`/`\!`
    /// escapes resolved.
    pub pattern: String,
}

/// A rule as plain values.
pub open spec fn rule_view(r: Rule) -> (Tier, Seq<char>) {
    (r.tier, r.pattern@)
}

pub open spec fn rules_view(rs: Seq<Rule>) -> Seq<(Tier, Seq<char>)> {
    rs.map_values(|r: Rule| rule_view(r))
}

// ---------------------------------------------------------------------
// parse
// ---------------------------------------------------------------------

pub open spec fn bs_tilde() -> Seq<char> {
    seq!['\\', '~']
}

pub open spec fn bs_bang() -> Seq<char> {
    seq!['\\', '!']
}

/// What one line contributes: `None` for blank, comment, or malformed.
pub open spec fn parse_line(line: Seq<char>) -> Option<(Tier, Seq<char>)> {
    let t = trim_end_ws(line);
    if t.len() == 0 || t[0] == '#' {
        None
    } else {
        let tp: (Tier, Seq<char>) = if has_prefix(t, bs_tilde()) {
            (Tier::Ignore, seq!['~'] + t.skip(2))
        } else if has_prefix(t, bs_bang()) {
            (Tier::Ignore, seq!['!'] + t.skip(2))
        } else if t[0] == '~' {
            (Tier::SearchOnly, t.skip(1))
        } else if t[0] == '!' {
            (Tier::Full, t.skip(1))
        } else {
            (Tier::Ignore, t)
        };
        if tp.1.len() == 0 {
            None
        } else {
            Some(tp)
        }
    }
}

pub open spec fn parse_lines(ls: Seq<Seq<char>>) -> Seq<(Tier, Seq<char>)>
    decreases ls.len(),
{
    if ls.len() == 0 {
        seq![]
    } else {
        match parse_line(ls.last()) {
            Some(r) => parse_lines(ls.drop_last()).push(r),
            None => parse_lines(ls.drop_last()),
        }
    }
}

/// The rules a `.kenignore` text declares, in file order.
pub open spec fn parse_spec(text: Seq<char>) -> Seq<(Tier, Seq<char>)> {
    parse_lines(lines_spec(text))
}

fn parse_line_exec(raw: &Vec<char>) -> (r: Option<Rule>)
    ensures
        match r {
            Some(rule) => parse_line(raw@) == Some(rule_view(rule)),
            None => parse_line(raw@).is_none(),
        },
{
    let t = trim_end_vec(raw);
    if t.len() == 0 || t[0] == '#' {
        return None;
    }
    let (tier, pat): (Tier, Vec<char>) = if t.len() >= 2 && t[0] == '\\' && t[1] == '~' {
        let mut p: Vec<char> = Vec::new();
        p.push('~');
        let rest = sub_vec(&t, 2, t.len());
        push_all(&mut p, &rest);
        proof {
            assert(t@.subrange(0, 2) =~= bs_tilde());
            assert(p@ =~= seq!['~'] + t@.skip(2));
        }
        (Tier::Ignore, p)
    } else if t.len() >= 2 && t[0] == '\\' && t[1] == '!' {
        let mut p: Vec<char> = Vec::new();
        p.push('!');
        let rest = sub_vec(&t, 2, t.len());
        push_all(&mut p, &rest);
        proof {
            assert(!has_prefix(t@, bs_tilde())) by {
                assert(t@.subrange(0, 2)[1] != bs_tilde()[1]);
            }
            assert(t@.subrange(0, 2) =~= bs_bang());
            assert(p@ =~= seq!['!'] + t@.skip(2));
        }
        (Tier::Ignore, p)
    } else {
        proof {
            if t.len() >= 2 {
                assert(!has_prefix(t@, bs_tilde())) by {
                    if t@[0] != '\\' {
                        assert(t@.subrange(0, 2)[0] != bs_tilde()[0]);
                    } else {
                        assert(t@.subrange(0, 2)[1] != bs_tilde()[1]);
                    }
                }
                assert(!has_prefix(t@, bs_bang())) by {
                    if t@[0] != '\\' {
                        assert(t@.subrange(0, 2)[0] != bs_bang()[0]);
                    } else {
                        assert(t@.subrange(0, 2)[1] != bs_bang()[1]);
                    }
                }
            }
        }
        if t[0] == '~' {
            let p = sub_vec(&t, 1, t.len());
            assert(p@ =~= t@.skip(1));
            (Tier::SearchOnly, p)
        } else if t[0] == '!' {
            let p = sub_vec(&t, 1, t.len());
            assert(p@ =~= t@.skip(1));
            (Tier::Full, p)
        } else {
            (Tier::Ignore, t)
        }
    };
    if pat.len() == 0 {
        return None;
    }
    Some(Rule { tier, pattern: string_of(pat.as_slice()) })
}

/// Parse `.kenignore`-style text into an ordered list of rules. Blank
/// lines, `#` comments, and a bare `~`/`!` are skipped; order is kept.
pub fn parse(text: &str) -> (rules: Vec<Rule>)
    ensures
        rules_view(rules@) == parse_spec(text@),
{
    let chars = chars_of(text);
    let lines = split_lines(&chars);
    let ghost ls = views(lines@);
    let mut rules: Vec<Rule> = Vec::new();
    let mut i: usize = 0;
    while i < lines.len()
        invariant
            i <= lines.len(),
            ls == views(lines@),
            ls == lines_spec(chars@),
            rules_view(rules@) == parse_lines(ls.take(i as int)),
        decreases lines.len() - i,
    {
        let r = parse_line_exec(&lines[i]);
        assert(ls.take(i + 1).drop_last() =~= ls.take(i as int));
        assert(ls.take(i + 1).last() == lines@[i as int]@);
        match r {
            Some(rule) => {
                rules.push(rule);
                assert(rules_view(rules@) =~= parse_lines(ls.take(i as int)).push(
                    rule_view(rule),
                ));
            },
            None => {},
        }
        i = i + 1;
    }
    assert(ls.take(lines.len() as int) =~= ls);
    rules
}

// ---------------------------------------------------------------------
// malformed_lines
// ---------------------------------------------------------------------

/// A line that is only a tier prefix with no pattern.
pub open spec fn is_malformed(line: Seq<char>) -> bool {
    let t = trim_end_ws(line);
    t == seq!['~'] || t == seq!['!']
}

/// 1-based numbers of the malformed lines among `ls`.
pub open spec fn malformed_spec(ls: Seq<Seq<char>>) -> Seq<usize>
    decreases ls.len(),
{
    if ls.len() == 0 {
        seq![]
    } else if is_malformed(ls.last()) {
        malformed_spec(ls.drop_last()).push(ls.len() as usize)
    } else {
        malformed_spec(ls.drop_last())
    }
}

/// The 1-based line numbers of the lines that [`parse`] skips as
/// malformed (a bare `~` or `!`).
pub fn malformed_lines(text: &str) -> (r: Vec<usize>)
    ensures
        r@ == malformed_spec(lines_spec(text@)),
{
    let chars = chars_of(text);
    let lines = split_lines(&chars);
    let ghost ls = views(lines@);
    let mut out: Vec<usize> = Vec::new();
    let mut i: usize = 0;
    while i < lines.len()
        invariant
            i <= lines.len(),
            ls == views(lines@),
            out@ == malformed_spec(ls.take(i as int)),
        decreases lines.len() - i,
    {
        let t = trim_end_vec(&lines[i]);
        let bad = t.len() == 1 && (t[0] == '~' || t[0] == '!');
        proof {
            assert(ls.take(i + 1).drop_last() =~= ls.take(i as int));
            assert(ls.take(i + 1).last() == lines@[i as int]@);
            if bad {
                if t@[0] == '~' {
                    assert(t@ =~= seq!['~']);
                } else {
                    assert(t@ =~= seq!['!']);
                }
            } else {
                if t@.len() == 1 {
                    assert(t@ != seq!['~']) by {
                        assert(seq!['~'][0] == '~');
                    }
                    assert(t@ != seq!['!']) by {
                        assert(seq!['!'][0] == '!');
                    }
                } else {
                    assert(seq!['~'].len() == 1);
                    assert(seq!['!'].len() == 1);
                }
            }
        }
        if bad {
            out.push(i + 1);
        }
        i = i + 1;
    }
    assert(ls.take(lines.len() as int) =~= ls);
    out
}

// ---------------------------------------------------------------------
// classify
// ---------------------------------------------------------------------

/// Whether the `ignore` crate's gitignore matcher, built from the single
/// line `pattern` rooted at `.`, reports `path` (or one of its parent
/// directories) as ignored. A line the matcher rejects matches nothing.
pub uninterp spec fn gitignore_matches(pattern: Seq<char>, path: Seq<char>, is_dir: bool) -> bool;

/// The input shape on which the matcher panics: once one leading `./` is
/// stripped, the path starts at the root.
pub open spec fn rooted_after_dot(path: Seq<char>) -> bool {
    if has_prefix(path, seq!['.', '/']) {
        path.len() > 2 && path[2] == '/'
    } else {
        path.len() > 0 && path[0] == '/'
    }
}

/// A line `add_line` adds no glob for: a comment, or nothing once
/// trailing whitespace is trimmed.
pub open spec fn adds_no_glob(line: Seq<char>) -> bool {
    (line.len() > 0 && line[0] == '#') || trim_end_ws(line).len() == 0
}

/// `GitignoreBuilder::new(".")`, `add_line`, `build`, then
/// `Gitignore::matched_path_or_any_parents(..).is_ignore()` from the
/// `ignore` crate. The contract names the result [`gitignore_matches`] of
/// the pattern, the path and `is_dir`. A line that adds no glob leaves the
/// matcher empty, which matches nothing and returns before the assert in
/// `matched_path_or_any_parents`; any other line excludes the rooted path
/// shape on which that assert fires.
#[verifier::external_body]
fn glob_rule_matches(pattern: &str, path: &str, is_dir: bool) -> (r: bool)
    requires
        !rooted_after_dot(path@) || adds_no_glob(pattern@),
    ensures
        r == gitignore_matches(pattern@, path@, is_dir),
        adds_no_glob(pattern@) ==> !r,
{
    let mut builder = ignore::gitignore::GitignoreBuilder::new(".");
    if builder.add_line(None, pattern).is_err() {
        return false;
    }
    match builder.build() {
        Ok(m) => m.matched_path_or_any_parents(path, is_dir).is_ignore(),
        Err(_) => false,
    }
}

/// The pattern handed to the matcher: a leading `!` or `#` is re-escaped so
/// gitignore reads it literally.
pub open spec fn escaped(p: Seq<char>) -> Seq<char> {
    if p.len() > 0 && (p[0] == '!' || p[0] == '#') {
        seq!['\\'] + p
    } else {
        p
    }
}

pub open spec fn rule_matches_spec(r: (Tier, Seq<char>), path: Seq<char>, is_dir: bool) -> bool {
    gitignore_matches(escaped(r.1), path, is_dir)
}

/// Last-match-wins over `rules`, `Full` when nothing matches.
pub open spec fn last_match(rules: Seq<(Tier, Seq<char>)>, path: Seq<char>, is_dir: bool) -> Tier
    decreases rules.len(),
{
    if rules.len() == 0 {
        Tier::Full
    } else if rule_matches_spec(rules.last(), path, is_dir) {
        rules.last().0
    } else {
        last_match(rules.drop_last(), path, is_dir)
    }
}

/// The rule sets concatenated in order.
pub open spec fn concat_sets(sets: Seq<Seq<(Tier, Seq<char>)>>) -> Seq<(Tier, Seq<char>)>
    decreases sets.len(),
{
    if sets.len() == 0 {
        seq![]
    } else {
        concat_sets(sets.drop_last()) + sets.last()
    }
}

pub open spec fn sets_view(sets: Seq<&[Rule]>) -> Seq<Seq<(Tier, Seq<char>)>> {
    sets.map_values(|s: &[Rule]| rules_view(s@))
}

/// `name` occurs in `s` as a whole `/`-separated segment.
pub open spec fn segment_at(s: Seq<char>, name: Seq<char>, i: int) -> bool {
    0 <= i && i + name.len() <= s.len() && s.subrange(i, i + name.len()) == name && (i == 0
        || s[i - 1] == '/') && (i + name.len() == s.len() || s[i + name.len()] == '/')
}

pub open spec fn has_segment(s: Seq<char>, name: Seq<char>) -> bool {
    exists|i: int| #[trigger] segment_at(s, name, i)
}

pub open spec fn dot_git() -> Seq<char> {
    seq!['.', 'g', 'i', 't']
}

pub open spec fn node_modules() -> Seq<char> {
    seq!['n', 'o', 'd', 'e', '_', 'm', 'o', 'd', 'u', 'l', 'e', 's']
}

/// Directories never indexed at any tier: `.git` and `node_modules` as a
/// path component.
pub open spec fn hard_ignored(path: Seq<char>) -> bool {
    has_segment(path, dot_git()) || has_segment(path, node_modules())
}

/// The classification of `path` against `sets`.
pub open spec fn classify_spec(path: Seq<char>, is_dir: bool, sets: Seq<Seq<(Tier, Seq<char>)>>) -> Tier {
    let norm = trim_start_char(path, '/');
    if hard_ignored(norm) {
        Tier::Ignore
    } else {
        last_match(concat_sets(sets), norm, is_dir)
    }
}

fn matches_at(s: &Vec<char>, i: usize, p: &Vec<char>) -> (r: bool)
    ensures
        r == (i + p.len() <= s.len() && s@.subrange(i as int, i + p.len()) == p@),
{
    if i > s.len() || p.len() > s.len() - i {
        return false;
    }
    let mut k: usize = 0;
    while k < p.len()
        invariant
            i + p.len() <= s.len(),
            k <= p.len(),
            forall|m: int| 0 <= m < k ==> s@[i + m] == p@[m],
        decreases p.len() - k,
    {
        if s[i + k] != p[k] {
            assert(s@.subrange(i as int, i + p.len())[k as int] != p@[k as int]);
            return false;
        }
        k = k + 1;
    }
    assert(s@.subrange(i as int, i + p.len()) =~= p@);
    true
}

fn has_segment_exec(s: &Vec<char>, name: &Vec<char>) -> (r: bool)
    ensures
        r == has_segment(s@, name@),
{
    let mut i: usize = 0;
    while i <= s.len()
        invariant
            i <= s.len() + 1,
            forall|k: int| 0 <= k < i ==> !#[trigger] segment_at(s@, name@, k),
        decreases s.len() + 1 - i,
    {
        if matches_at(s, i, name) {
            let before = i == 0 || s[i - 1] == '/';
            let after = i + name.len() == s.len() || s[i + name.len()] == '/';
            if before && after {
                assert(segment_at(s@, name@, i as int));
                return true;
            }
        }
        if i == s.len() {
            proof {
                assert forall|k: int| 0 <= k implies !#[trigger] segment_at(s@, name@, k) by {
                    if k > s.len() {
                    }
                }
            }
            return false;
        }
        i = i + 1;
    }
    false
}

fn hard_ignored_exec(path: &Vec<char>) -> (r: bool)
    ensures
        r == hard_ignored(path@),
{
    let git = chars_of(".git");
    let nm = chars_of("node_modules");
    proof {
        reveal_strlit(".git");
        reveal_strlit("node_modules");
        assert(git@ =~= dot_git());
        assert(nm@ =~= node_modules());
    }
    has_segment_exec(path, &git) || has_segment_exec(path, &nm)
}

fn rule_matches(rule: &Rule, path: &str, is_dir: bool) -> (r: bool)
    requires
        !rooted_after_dot(path@) || adds_no_glob(escaped(rule.pattern@)),
    ensures
        r == rule_matches_spec(rule_view(*rule), path@, is_dir),
{
    let pv = chars_of(rule.pattern.as_str());
    let pat = if pv.len() > 0 && (pv[0] == '!' || pv[0] == '#') {
        let mut e: Vec<char> = Vec::new();
        e.push('\\');
        push_all(&mut e, &pv);
        string_of(e.as_slice())
    } else {
        string_of(pv.as_slice())
    };
    glob_rule_matches(pat.as_str(), path, is_dir)
}

/// No rule of `sets` adds a glob to the matcher.
pub open spec fn no_glob_rules(sets: Seq<Seq<(Tier, Seq<char>)>>) -> bool {
    forall|i: int, j: int|
        0 <= i < sets.len() && 0 <= j < sets[i].len() ==> adds_no_glob(escaped(#[trigger] sets[i][j].1))
}

/// Classify `path` against rule sets folded in the given order: the last
/// matching rule across all sets decides, `Full` when none matches, and a
/// `.git` or `node_modules` component is always `Ignore`.
pub fn classify(path: &str, is_dir: bool, rule_sets: &[&[Rule]]) -> (t: Tier)
    requires
        rooted_after_dot(trim_start_char(path@, '/')) ==> (hard_ignored(
            trim_start_char(path@, '/'),
        ) || no_glob_rules(sets_view(rule_sets@))),
    ensures
        t == classify_spec(path@, is_dir, sets_view(rule_sets@)),
{
    let pv = chars_of(path);
    let norm_v = trim_start_char_vec(&pv, '/');
    if hard_ignored_exec(&norm_v) {
        return Tier::Ignore;
    }
    let norm = string_of(norm_v.as_slice());
    let ghost sets = sets_view(rule_sets@);
    let mut result = Tier::Full;
    let mut i: usize = 0;
    while i < rule_sets.len()
        invariant
            i <= rule_sets.len(),
            sets == sets_view(rule_sets@),
            norm@ == trim_start_char(path@, '/'),
            !hard_ignored(norm@),
            rooted_after_dot(norm@) ==> no_glob_rules(sets),
            result == last_match(concat_sets(sets.take(i as int)), norm@, is_dir),
        decreases rule_sets.len() - i,
    {
        let rules: &[Rule] = rule_sets[i];
        let ghost prefix = concat_sets(sets.take(i as int));
        proof {
            assert(sets.take(i + 1).drop_last() =~= sets.take(i as int));
            assert(sets.take(i + 1).last() == rules_view(rules@));
        }
        let mut j: usize = 0;
        while j < rules.len()
            invariant
                i < rule_sets.len(),
                rules@ == rule_sets@[i as int]@,
                j <= rules.len(),
                norm@ == trim_start_char(path@, '/'),
                sets == sets_view(rule_sets@),
                sets[i as int] == rules_view(rules@),
                rooted_after_dot(norm@) ==> no_glob_rules(sets),
                concat_sets(sets.take(i + 1)) == prefix + rules_view(rules@),
                result == last_match(prefix + rules_view(rules@).take(j as int), norm@, is_dir),
            decreases rules.len() - j,
        {
            let ghost before = prefix + rules_view(rules@).take(j as int);
            let ghost after = prefix + rules_view(rules@).take(j + 1);
            assert(after.drop_last() =~= before);
            assert(after.last() == rule_view(rules@[j as int]));
            assert(sets[i as int][j as int] == rule_view(rules@[j as int]));
            assert(sets.len() == rule_sets@.len());
            assert(rooted_after_dot(norm@) ==> adds_no_glob(escaped(sets[i as int][j as int].1)));
            if rule_matches(&rules[j], norm.as_str(), is_dir) {
                result = rules[j].tier;
            }
            j = j + 1;
        }
        assert(rules_view(rules@).take(rules.len() as int) =~= rules_view(rules@));
        i = i + 1;
    }
    assert(sets.take(rule_sets.len() as int) =~= sets);
    result
}

/// Built-in rule sets folded ahead of every user `.kenignore`. Empty on
/// purpose: every built-in rule Ken has is scoped to one member.
pub fn built_in_rule_sets() -> (r: Vec<Rule>)
    ensures
        r@.len() == 0,
{
    Vec::new()
}

// ---------------------------------------------------------------------
// Laws
// ---------------------------------------------------------------------

/// With no rules at all, every path that is not hard-ignored is indexed
/// in full.
pub proof fn law_no_rules_means_full(path: Seq<char>, is_dir: bool, sets: Seq<Seq<(Tier, Seq<char>)>>)
    requires
        forall|i: int| 0 <= i < sets.len() ==> (#[trigger] sets[i]).len() == 0,
        !hard_ignored(trim_start_char(path, '/')),
    ensures
        classify_spec(path, is_dir, sets) == Tier::Full,
{
    lemma_concat_empty(sets);
}

proof fn lemma_concat_empty(sets: Seq<Seq<(Tier, Seq<char>)>>)
    requires
        forall|i: int| 0 <= i < sets.len() ==> (#[trigger] sets[i]).len() == 0,
    ensures
        concat_sets(sets).len() == 0,
    decreases sets.len(),
{
    if sets.len() > 0 {
        assert(sets.last() == sets[sets.len() - 1]);
        assert forall|i: int| 0 <= i < sets.drop_last().len() implies (#[trigger] sets.drop_last()[i]).len()
            == 0 by {
            assert(sets.drop_last()[i] == sets[i]);
        }
        lemma_concat_empty(sets.drop_last());
    }
}

/// A `.git` or `node_modules` component is ignored whatever the rules
/// say, even a rule that asks for it in full.
pub proof fn law_hard_ignored_is_always_ignore(
    path: Seq<char>,
    is_dir: bool,
    sets: Seq<Seq<(Tier, Seq<char>)>>,
)
    requires
        hard_ignored(trim_start_char(path, '/')),
    ensures
        classify_spec(path, is_dir, sets) == Tier::Ignore,
{
}

proof fn lemma_last_match_append(
    a: Seq<(Tier, Seq<char>)>,
    b: Seq<(Tier, Seq<char>)>,
    path: Seq<char>,
    is_dir: bool,
)
    ensures
        last_match(a + b, path, is_dir) == if exists|i: int|
            0 <= i < b.len() && rule_matches_spec(#[trigger] b[i], path, is_dir) {
            last_match(b, path, is_dir)
        } else {
            last_match(a, path, is_dir)
        },
    decreases b.len(),
{
    if b.len() == 0 {
        assert(a + b =~= a);
    } else {
        assert((a + b).drop_last() =~= a + b.drop_last());
        assert((a + b).last() == b.last());
        lemma_last_match_append(a, b.drop_last(), path, is_dir);
        if rule_matches_spec(b.last(), path, is_dir) {
            assert(rule_matches_spec(b[b.len() - 1], path, is_dir));
        } else {
            if exists|i: int| 0 <= i < b.len() && rule_matches_spec(#[trigger] b[i], path, is_dir) {
                let i = choose|i: int| 0 <= i < b.len() && rule_matches_spec(#[trigger] b[i], path, is_dir);
                assert(i != b.len() - 1);
                assert(b.drop_last()[i] == b[i]);
            }
            if exists|i: int|
                0 <= i < b.drop_last().len() && rule_matches_spec(#[trigger] b.drop_last()[i], path, is_dir) {
                let i = choose|i: int|
                    0 <= i < b.drop_last().len() && rule_matches_spec(#[trigger] b.drop_last()[i], path, is_dir);
                assert(b[i] == b.drop_last()[i]);
            }
        }
    }
}

/// Later rule sets override earlier ones: when a rule of the last set
/// matches, the earlier sets no longer matter.
pub proof fn law_later_set_overrides(
    path: Seq<char>,
    is_dir: bool,
    earlier: Seq<Seq<(Tier, Seq<char>)>>,
    last: Seq<(Tier, Seq<char>)>,
)
    requires
        exists|i: int|
            0 <= i < last.len() && rule_matches_spec(#[trigger] last[i], trim_start_char(path, '/'), is_dir),
    ensures
        classify_spec(path, is_dir, earlier.push(last)) == classify_spec(path, is_dir, seq![last]),
{
    let norm = trim_start_char(path, '/');
    assert(earlier.push(last).drop_last() =~= earlier);
    assert(seq![last].drop_last() =~= Seq::<Seq<(Tier, Seq<char>)>>::empty());
    lemma_last_match_append(concat_sets(earlier), last, norm, is_dir);
    lemma_last_match_append(Seq::<(Tier, Seq<char>)>::empty(), last, norm, is_dir);
    assert(concat_sets(seq![last]) == concat_sets(Seq::<Seq<(Tier, Seq<char>)>>::empty()) + last);
}

/// A malformed line (a bare `~` or `!`) contributes no rule.
pub proof fn law_malformed_lines_yield_no_rule(line: Seq<char>)
    requires
        is_malformed(line),
    ensures
        parse_line(line).is_none(),
{
    let t = trim_end_ws(line);
    assert(t.len() == 1);
    if t == seq!['~'] {
        assert(!has_prefix(t, bs_tilde()));
        assert(!has_prefix(t, bs_bang()));
        assert(t.skip(1).len() == 0);
    } else {
        assert(!has_prefix(t, bs_tilde()));
        assert(!has_prefix(t, bs_bang()));
        assert(t.skip(1).len() == 0);
    }
}

/// A line that `parse` drops although it is neither blank nor a comment.
pub open spec fn dropped_line(line: Seq<char>) -> bool {
    let t = trim_end_ws(line);
    t.len() > 0 && t[0] != '#' && parse_line(line).is_none()
}

proof fn lemma_malformed_iff_dropped(line: Seq<char>)
    ensures
        is_malformed(line) <==> dropped_line(line),
{
    let t = trim_end_ws(line);
    if is_malformed(line) {
        law_malformed_lines_yield_no_rule(line);
        assert(t[0] == '~' || t[0] == '!');
    }
    if dropped_line(line) {
        if has_prefix(t, bs_tilde()) {
            assert((seq!['~'] + t.skip(2)).len() > 0);
        } else if has_prefix(t, bs_bang()) {
            assert((seq!['!'] + t.skip(2)).len() > 0);
        } else if t[0] == '~' {
            assert(t.skip(1).len() == 0);
            assert(t =~= seq!['~']);
        } else if t[0] == '!' {
            assert(t.skip(1).len() == 0);
            assert(t =~= seq!['!']);
        }
    }
}

proof fn lemma_malformed_spec_exact(ls: Seq<Seq<char>>)
    requires
        ls.len() <= usize::MAX,
    ensures
        forall|i: int|
            0 <= i < malformed_spec(ls).len() ==> 1 <= #[trigger] malformed_spec(ls)[i] <= ls.len()
                && dropped_line(ls[malformed_spec(ls)[i] - 1]),
        forall|i: int, j: int|
            0 <= i < j < malformed_spec(ls).len() ==> #[trigger] malformed_spec(ls)[i]
                < #[trigger] malformed_spec(ls)[j],
        forall|n: int|
            1 <= n <= ls.len() && #[trigger] dropped_line(ls[n - 1]) ==> malformed_spec(ls).contains(
                n as usize,
            ),
    decreases ls.len(),
{
    if ls.len() > 0 {
        let rest = ls.drop_last();
        lemma_malformed_spec_exact(rest);
        lemma_malformed_iff_dropped(ls.last());
        let m0 = malformed_spec(rest);
        let m = malformed_spec(ls);
        assert forall|k: int| 1 <= k <= rest.len() implies #[trigger] rest[k - 1] == ls[k - 1] by {}
        assert forall|i: int| 0 <= i < m.len() implies 1 <= #[trigger] m[i] <= ls.len() && dropped_line(
            ls[m[i] - 1],
        ) by {
            if i < m0.len() {
                assert(m[i] == m0[i]);
                assert(rest[m0[i] - 1] == ls[m0[i] - 1]);
            }
        }
        assert forall|n: int| 1 <= n <= ls.len() && #[trigger] dropped_line(ls[n - 1]) implies m.contains(
            n as usize,
        ) by {
            if n < ls.len() {
                assert(rest[n - 1] == ls[n - 1]);
                assert(dropped_line(rest[n - 1]));
                let k = choose|k: int| 0 <= k < m0.len() && m0[k] == n as usize;
                assert(m[k] == m0[k]);
            } else {
                assert(m[m.len() - 1] == ls.len() as usize);
            }
        }
    }
}

/// [`malformed_lines`] lists exactly the lines that `parse` drops although
/// they are neither blank nor comments: each listed number is a 1-based
/// line number of such a line, the numbers rise strictly, and every such
/// line is listed.
pub proof fn law_malformed_lines_are_the_dropped_lines(text: Seq<char>)
    requires
        lines_spec(text).len() <= usize::MAX,
    ensures
        forall|i: int|
            0 <= i < malformed_spec(lines_spec(text)).len() ==> 1 <= #[trigger] malformed_spec(
                lines_spec(text),
            )[i] <= lines_spec(text).len() && dropped_line(
                lines_spec(text)[malformed_spec(lines_spec(text))[i] - 1],
            ),
        forall|i: int, j: int|
            0 <= i < j < malformed_spec(lines_spec(text)).len() ==> #[trigger] malformed_spec(
                lines_spec(text),
            )[i] < #[trigger] malformed_spec(lines_spec(text))[j],
        forall|n: int|
            1 <= n <= lines_spec(text).len() && #[trigger] dropped_line(lines_spec(text)[n - 1])
                ==> malformed_spec(lines_spec(text)).contains(n as usize),
{
    lemma_malformed_spec_exact(lines_spec(text));
}

/// `p` has the component `name` starting at `i`: at the start or after a
/// `/`, and ending at the end or at a `/`.
pub open spec fn component_at(p: Seq<char>, name: Seq<char>, i: int) -> bool {
    &&& 0 <= i
    &&& i + name.len() <= p.len()
    &&& p.subrange(i, i + name.len()) == name
    &&& (i == 0 || p[i - 1] == '/')
    &&& (i + name.len() == p.len() || p[i + name.len()] == '/')
}

pub open spec fn git_dir_name() -> Seq<char> {
    seq!['.', 'g', 'i', 't']
}

pub open spec fn dependency_dir_name() -> Seq<char> {
    seq!['n', 'o', 'd', 'e', '_', 'm', 'o', 'd', 'u', 'l', 'e', 's']
}

/// A `.git` or `node_modules` component anywhere in the path, once its
/// leading `/`s are stripped, makes the path `Ignore` whatever the rules
/// say.
pub proof fn law_vcs_and_dependency_folders_are_ignored_anywhere(
    path: Seq<char>,
    is_dir: bool,
    sets: Seq<Seq<(Tier, Seq<char>)>>,
    name: Seq<char>,
    i: int,
)
    requires
        name == git_dir_name() || name == dependency_dir_name(),
        component_at(trim_start_char(path, '/'), name, i),
    ensures
        classify_spec(path, is_dir, sets) == Tier::Ignore,
{
    let p = trim_start_char(path, '/');
    assert(segment_at(p, name, i));
    if name == dot_git() {
        assert(has_segment(p, dot_git()));
    } else {
        assert(has_segment(p, node_modules()));
    }
}

/// Without a `.git` or `node_modules` component anywhere in the path
/// (leading `/`s stripped), the rules alone decide: the last rule across
/// the sets, in order, that matches, or `Full` when none does.
pub proof fn law_other_paths_follow_the_rules(path: Seq<char>, is_dir: bool, sets: Seq<Seq<(Tier, Seq<char>)>>)
    requires
        forall|i: int| !#[trigger] component_at(trim_start_char(path, '/'), git_dir_name(), i),
        forall|i: int| !#[trigger] component_at(trim_start_char(path, '/'), dependency_dir_name(), i),
    ensures
        classify_spec(path, is_dir, sets) == last_match(concat_sets(sets), trim_start_char(path, '/'), is_dir),
{
    let p = trim_start_char(path, '/');
    if has_segment(p, dot_git()) {
        let i = choose|i: int| #[trigger] segment_at(p, dot_git(), i);
        assert(component_at(p, git_dir_name(), i));
    }
    if has_segment(p, node_modules()) {
        let i = choose|i: int| #[trigger] segment_at(p, node_modules(), i);
        assert(component_at(p, dependency_dir_name(), i));
    }
}

} // verus!
