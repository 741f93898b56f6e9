//! Deep research's pure half: the report's file-name slug and the prompt
//! that carries the research contract.
use vstd::prelude::*;
use crate::pipeline::runs::utf8_len;
use crate::error::Error;
use crate::project::{escapes, escapes_project};
use crate::text::{
    chars_of, has_prefix, push_all, push_str, starts_with, str_of_lit, string_of, sub_vec, trim_end_char,
    trim_end_char_vec, trim_start_char, trim_start_char_vec, trim_vec, trim_ws, vec_eq,
};

use crate::paths::{first_free, first_free_name, numbered};
use crate::pipeline::graph::strs;

verus! {

/// Seconds a research session may run.
pub const DEFAULT_TIMEOUT_SECS: u64 = 1800;

/// Bytes a report slug holds at most.
pub const SLUG_MAX: usize = 50;

/// `char::is_alphanumeric`: Unicode's Alphabetic or Numeric property.
pub uninterp spec fn alnum(c: char) -> bool;

/// `char::to_lowercase`: the Unicode lower-case mapping, one or more
/// characters.
pub uninterp spec fn lowercase_of(c: char) -> Seq<char>;

/// `c.is_alphanumeric()`. Its value is named, not stated: it follows
/// Unicode's property tables.
#[verifier::external_body]
fn char_is_alphanumeric(c: char) -> (r: bool)
    ensures
        r == alnum(c),
{
    c.is_alphanumeric()
}

/// `c.to_lowercase()`, collected. Its value is named, not stated: it
/// follows Unicode's case tables.
#[verifier::external_body]
fn char_to_lowercase(c: char) -> (r: Vec<char>)
    ensures
        r@ == lowercase_of(c),
{
    c.to_lowercase().collect()
}

/// Alphanumerics lower-cased; every other run becomes one `-`, never at
/// the start.
pub open spec fn kebab(cs: Seq<char>) -> Seq<char>
    decreases cs.len(),
{
    if cs.len() == 0 {
        seq![]
    } else {
        let out = kebab(cs.drop_last());
        let c = cs.last();
        if alnum(c) {
            out + lowercase_of(c)
        } else if out.len() > 0 && out.last() != '-' {
            out.push('-')
        } else {
            out
        }
    }
}

/// Bytes `s` takes in UTF-8.
pub open spec fn byte_len(s: Seq<char>) -> nat
    decreases s.len(),
{
    if s.len() == 0 {
        0
    } else {
        byte_len(s.drop_last()) + utf8_len(s.last())
    }
}

/// How many leading characters of `s` fit in `budget` bytes.
pub open spec fn fit_chars(s: Seq<char>, budget: int) -> nat
    decreases s.len(),
{
    if s.len() == 0 || utf8_len(s[0]) > budget {
        0
    } else {
        1 + fit_chars(s.drop_first(), budget - utf8_len(s[0]))
    }
}

/// The index of the last `-` of `s`.
pub open spec fn last_dash(s: Seq<char>) -> Option<int>
    decreases s.len(),
{
    if s.len() == 0 {
        None
    } else if s.last() == '-' {
        Some(s.len() - 1)
    } else {
        last_dash(s.drop_last())
    }
}

/// Past the byte cap, cut at the last `-` that fits, or at the cap.
pub open spec fn cap_slug(s: Seq<char>) -> Seq<char> {
    if byte_len(s) > 50 {
        let p = s.take(fit_chars(s, 50) as int);
        match last_dash(p) {
            Some(i) => s.take(i),
            None => p,
        }
    } else {
        s
    }
}

/// The report's file-name stem for `question`; `research` when nothing
/// is left.
pub open spec fn slug_of(question: Seq<char>) -> Seq<char> {
    let s = cap_slug(trim_end_char(trim_start_char(kebab(question), '-'), '-'));
    if s.len() == 0 {
        "research"@
    } else {
        s
    }
}

fn utf8_width(c: char) -> (w: usize)
    ensures
        w == utf8_len(c),
{
    let u = c as u32;
    if u < 0x80 {
        1
    } else if u < 0x800 {
        2
    } else if u < 0x10000 {
        3
    } else {
        4
    }
}

proof fn lemma_byte_len_prefix(s: Seq<char>, i: int)
    requires
        0 <= i <= s.len(),
    ensures
        byte_len(s.take(i)) <= byte_len(s),
    decreases s.len() - i,
{
    if i < s.len() {
        lemma_byte_len_prefix(s, i + 1);
        assert(s.take(i + 1).drop_last() =~= s.take(i));
    } else {
        assert(s.take(i) =~= s);
    }
}

/// Kebab-case file-name stem for a research question, capped at
/// `SLUG_MAX` bytes (cut at a word boundary when there is one).
pub fn slugify(question: &str) -> (r: String)
    ensures
        r@ == slug_of(question@),
{
    let q = chars_of(question);
    let mut out: Vec<char> = Vec::new();
    let mut i: usize = 0;
    while i < q.len()
        invariant
            i <= q.len(),
            out@ == kebab(q@.take(i as int)),
        decreases q.len() - i,
    {
        let c = q[i];
        proof {
            assert(q@.take(i + 1).drop_last() =~= q@.take(i as int));
        }
        if char_is_alphanumeric(c) {
            let l = char_to_lowercase(c);
            push_all(&mut out, &l);
        } else if out.len() > 0 && out[out.len() - 1] != '-' {
            out.push('-');
        }
        i = i + 1;
    }
    assert(q@.take(q.len() as int) =~= q@);
    let front = trim_start_char_vec(&out, '-');
    let mut n: usize = front.len();
    assert(front@.take(n as int) =~= front@);
    while n > 0 && front[n - 1] == '-'
        invariant
            n <= front.len(),
            trim_end_char(front@, '-') == trim_end_char(front@.take(n as int), '-'),
        decreases n,
    {
        assert(front@.take(n as int).drop_last() =~= front@.take(n - 1));
        n = n - 1;
    }
    let slug = sub_vec(&front, 0, n);
    proof {
        assert(slug@ =~= front@.take(n as int));
    }
    assert(slug@ == trim_end_char(front@, '-'));
    // Byte length, up to the cap.
    let mut b: usize = 0;
    let mut k: usize = 0;
    while k < slug.len() && b <= SLUG_MAX
        invariant
            k <= slug.len(),
            b == byte_len(slug@.take(k as int)),
            b <= SLUG_MAX + 4,
        decreases slug.len() - k,
    {
        proof {
            assert(slug@.take(k + 1).drop_last() =~= slug@.take(k as int));
        }
        b = b + utf8_width(slug[k]);
        k = k + 1;
    }
    proof {
        if k == slug.len() {
            assert(slug@.take(k as int) =~= slug@);
        } else {
            lemma_byte_len_prefix(slug@, k as int);
        }
    }
    let capped = if b > SLUG_MAX {
        // How many characters fit.
        let mut rem: usize = SLUG_MAX;
        let mut f: usize = 0;
        assert(slug@.skip(0) =~= slug@);
        while f < slug.len() && utf8_width(slug[f]) <= rem
            invariant
                f <= slug.len(),
                rem <= SLUG_MAX,
                fit_chars(slug@, 50) == f + fit_chars(slug@.skip(f as int), rem as int),
            decreases slug.len() - f,
        {
            proof {
                assert(slug@.skip(f as int)[0] == slug@[f as int]);
                assert(slug@.skip(f as int).drop_first() =~= slug@.skip(f + 1));
            }
            rem = rem - utf8_width(slug[f]);
            f = f + 1;
        }
        proof {
            if f < slug.len() {
                assert(slug@.skip(f as int)[0] == slug@[f as int]);
            }
        }
        // The last dash within them.
        let mut d: usize = f;
        let ghost p = slug@.take(f as int);
        assert(p.take(d as int) =~= p);
        while d > 0 && slug[d - 1] != '-'
            invariant
                d <= f <= slug.len(),
                p == slug@.take(f as int),
                last_dash(p) == last_dash(p.take(d as int)),
            decreases d,
        {
            assert(p.take(d as int).drop_last() =~= p.take(d - 1));
            d = d - 1;
        }
        if d > 0 {
            assert(p.take(d as int).last() == '-');
            sub_vec(&slug, 0, d - 1)
        } else {
            assert(p.take(0) =~= Seq::<char>::empty());
            sub_vec(&slug, 0, f)
        }
    } else {
        slug
    };
    if capped.len() == 0 {
        return string_of(chars_of("research").as_slice());
    }
    string_of(capped.as_slice())
}

pub const RESEARCH_INTRO: &'static str = "You are Ken's research assistant. Research the question below on the web and deliver a cited report.\n\n## Question\n\n";

pub const RESEARCH_METHOD: &'static str = "\n\n## Method\n\n- Break the question into the distinct angles it contains.\n- Run multiple web searches per angle; don't settle for the first results you see.\n- Read the strongest sources you find, not just their summaries.\n- Cross-check every load-bearing claim across at least two independent sources.\n- Where good sources disagree, note the disagreement honestly — don't paper over it.\n\n## Output\n\nWrite ONE markdown report to `";

pub const RESEARCH_OUTPUT: &'static str = "` in this project — the exact absolute path is:\n\nOUTPUT_FILE=";

pub const RESEARCH_RULES: &'static str = "\n\nIt must be a complete document with:\n\n- A title and today's date.\n- An executive summary of 3–5 sentences.\n- Findings organized by theme.\n- A \"What remains uncertain\" section.\n- A \"Sources\" section listing every URL you used, each with a one-line note on what it supported.\n- Inline citation markers like [1] tied to the Sources list.\n\n## Rules\n\n- Prefer primary sources over commentary about them.\n- If the web tools are unavailable or the question can't be researched, still write the report file stating exactly that.\n- The report file is the deliverable — writing it is mandatory.\n- You may ask the user a clarifying question if truly necessary, but prefer stating your assumptions in the report instead.\n";

/// The research harness prompt; its `OUTPUT_FILE=` line is the contract a
/// caller checks.
pub open spec fn research_prompt(question: Seq<char>, rel: Seq<char>, abs: Seq<char>) -> Seq<char> {
    RESEARCH_INTRO@ + question + RESEARCH_METHOD@ + rel + RESEARCH_OUTPUT@ + abs + RESEARCH_RULES@
}

pub fn compose_research_prompt(question: &str, output_rel_path: &str, output_abs: &str) -> (r: String)
    ensures
        r@ == research_prompt(question@, output_rel_path@, output_abs@),
{
    let mut v: Vec<char> = Vec::new();
    push_str(&mut v, RESEARCH_INTRO);
    push_str(&mut v, question);
    push_str(&mut v, RESEARCH_METHOD);
    push_str(&mut v, output_rel_path);
    push_str(&mut v, RESEARCH_OUTPUT);
    push_str(&mut v, output_abs);
    push_str(&mut v, RESEARCH_RULES);
    string_of(v.as_slice())
}


/// The first free report file name among the folder's current entries
/// (`taken`): `<slug>.md`, else `<slug>-2.md`, `<slug>-3.md`, ... Research
/// always writes a new document, never over one.
pub fn unique_report_name(taken: &[String], slug: &str) -> (r: String)
    requires
        taken@.len() < u64::MAX,
    ensures
        exists|k: nat| first_free(strs(taken@), slug@, "-"@, "md"@, k) && r@ == numbered(slug@, "-"@, "md"@, k),
{
    proof {
        reveal_strlit("-");
    }
    first_free_name(taken, slug, "-", "md")
}


/// What a report folder inside `.ken` is told.
pub const KEN_FOLDER_REFUSAL: &'static str = "reports can't be written into Ken's own .ken folder";

/// The chosen report folder as the checks see it: trimmed, trailing
/// slashes dropped, then backslashes read as slashes.
pub open spec fn report_dir(rel_dir: Seq<char>) -> Seq<char> {
    trim_end_char(trim_ws(rel_dir), '/').map_values(|c: char| if c == '\\' { '/' } else { c })
}

/// The folder as a report path starts with: trimmed, trailing slashes
/// dropped.
pub open spec fn report_prefix(rel_dir: Seq<char>) -> Seq<char> {
    trim_end_char(trim_ws(rel_dir), '/')
}

/// Check a report folder: inside the project, and not Ken's own `.ken`
/// folder or anything under it. It need not exist yet. Gives the folder,
/// project-relative, as the caller should resolve it.
pub fn validate_output_dir(rel_dir: &str) -> (r: Result<String, Error>)
    ensures
        ({
            let rel = report_dir(rel_dir@);
            if escapes(rel) {
                r matches Err(Error::PathOutsideProject(p)) && p@ == rel
            } else if rel == ".ken"@ || has_prefix(rel, ".ken/"@) {
                r matches Err(Error::Other(m)) && m@ == KEN_FOLDER_REFUSAL@
            } else {
                r matches Ok(d) && d@ == rel
            }
        }),
{
    let t = trim_vec(&chars_of(rel_dir));
    let e = trim_end_char_vec(&t, '/');
    let mut rel: Vec<char> = Vec::new();
    let mut i: usize = 0;
    while i < e.len()
        invariant
            i <= e.len(),
            e@ == trim_end_char(trim_ws(rel_dir@), '/'),
            rel@ == report_dir(rel_dir@).take(i as int),
        decreases e.len() - i,
    {
        let c = if e[i] == '\\' { '/' } else { e[i] };
        rel.push(c);
        assert(report_dir(rel_dir@).take(i + 1) =~= report_dir(rel_dir@).take(i as int).push(c));
        i = i + 1;
    }
    assert(report_dir(rel_dir@).take(e.len() as int) =~= report_dir(rel_dir@));
    let rel_s = string_of(rel.as_slice());
    if escapes_project(rel_s.as_str()) {
        return Err(Error::PathOutsideProject(rel_s));
    }
    let ken = chars_of(".ken");
    let ken_dir = chars_of(".ken/");
    if vec_eq(&rel, &ken) || starts_with(&rel, &ken_dir) {
        return Err(Error::Other(str_of_lit(KEN_FOLDER_REFUSAL)));
    }
    Ok(rel_s)
}

/// A fresh project-relative path for a new report on `question` in the
/// folder `rel_dir`, whose current entries are `taken`: the folder's
/// check first, then the first free name for the question's slug.
pub fn plan_report(rel_dir: &str, question: &str, taken: &[String]) -> (r: Result<String, Error>)
    requires
        taken@.len() < u64::MAX,
    ensures
        ({
            let rel = report_dir(rel_dir@);
            let pre = report_prefix(rel_dir@);
            if escapes(rel) {
                r matches Err(Error::PathOutsideProject(p)) && p@ == rel
            } else if rel == ".ken"@ || has_prefix(rel, ".ken/"@) {
                r matches Err(Error::Other(m)) && m@ == KEN_FOLDER_REFUSAL@
            } else {
                r matches Ok(path) && exists|k: nat|
                    #[trigger] first_free(strs(taken@), slug_of(question@), "-"@, "md"@, k) && path@ == if pre.len()
                        == 0 {
                        numbered(slug_of(question@), "-"@, "md"@, k)
                    } else {
                        pre + "/"@ + numbered(slug_of(question@), "-"@, "md"@, k)
                    }
            }
        }),
{
    match validate_output_dir(rel_dir) {
        Err(e) => return Err(e),
        Ok(_) => {},
    }
    let slug = slugify(question);
    let name = unique_report_name(taken, slug.as_str());
    let pre = trim_end_char_vec(&trim_vec(&chars_of(rel_dir)), '/');
    if pre.len() == 0 {
        Ok(name)
    } else {
        let mut out = pre.clone();
        push_str(&mut out, "/");
        push_all(&mut out, &chars_of(name.as_str()));
        Ok(string_of(out.as_slice()))
    }
}

proof fn lemma_byte_len_front(s: Seq<char>)
    requires
        s.len() > 0,
    ensures
        byte_len(s) == utf8_len(s[0]) + byte_len(s.drop_first()),
    decreases s.len(),
{
    if s.len() > 1 {
        lemma_byte_len_front(s.drop_last());
        assert(s.drop_last().drop_first() =~= s.drop_first().drop_last());
        assert(s.drop_first().last() == s.last());
    } else {
        assert(s.drop_last() =~= Seq::<char>::empty());
        assert(s.drop_first() =~= Seq::<char>::empty());
    }
}

/// `fit_chars` is the longest prefix within the budget.
proof fn lemma_fit_chars(s: Seq<char>, b: int, j: int)
    requires
        0 <= b,
        0 <= j <= s.len(),
    ensures
        (byte_len(s.take(j)) <= b) == (j <= fit_chars(s, b)),
    decreases s.len(),
{
    if j > 0 {
        let t = s.take(j);
        lemma_byte_len_front(t);
        assert(t.drop_first() =~= s.drop_first().take(j - 1));
        if utf8_len(s[0]) <= b {
            lemma_fit_chars(s.drop_first(), b - utf8_len(s[0]), j - 1);
        }
    } else {
        assert(s.take(0) =~= Seq::<char>::empty());
    }
}

proof fn lemma_last_dash(p: Seq<char>)
    ensures
        match last_dash(p) {
            Some(i) => 0 <= i < p.len() && p[i] == '-' && forall|j: int| i < j < p.len() ==> p[j] != '-',
            None => forall|j: int| 0 <= j < p.len() ==> p[j] != '-',
        },
    decreases p.len(),
{
    if p.len() > 0 && p.last() != '-' {
        lemma_last_dash(p.drop_last());
        assert forall|j: int| 0 <= j < p.len() - 1 implies p.drop_last()[j] == p[j] by {}
    }
}

proof fn lemma_trim_start_first(s: Seq<char>, c: char)
    ensures
        trim_start_char(s, c).len() > 0 ==> trim_start_char(s, c)[0] != c,
    decreases s.len(),
{
    if s.len() > 0 && s[0] == c {
        lemma_trim_start_first(s.drop_first(), c);
    }
}

proof fn lemma_trim_end_prefix(s: Seq<char>, c: char)
    ensures
        trim_end_char(s, c).len() <= s.len(),
        trim_end_char(s, c) == s.take(trim_end_char(s, c).len() as int),
    decreases s.len(),
{
    if s.len() > 0 && s.last() == c {
        lemma_trim_end_prefix(s.drop_last(), c);
        assert(s.drop_last().take(trim_end_char(s, c).len() as int) =~= s.take(trim_end_char(s, c).len() as int));
    } else {
        assert(s.take(s.len() as int) =~= s);
    }
}

/// The kebab-case words of `question`, before the length cap.
pub open spec fn full_slug(question: Seq<char>) -> Seq<char> {
    trim_end_char(trim_start_char(kebab(question), '-'), '-')
}

/// Past 50 bytes, a slug is cut at a word boundary whenever one falls
/// within the first 50 bytes: the result is a prefix of the full slug
/// that a `-` follows, it and that `-` fit in 50 bytes, and no `-` that
/// fits lies beyond it. `k` is any `-` that fits.
pub proof fn law_slug_cuts_at_the_last_word_boundary(question: Seq<char>, k: int)
    requires
        ({
            let s = full_slug(question);
            &&& byte_len(s) > 50
            &&& 0 <= k < s.len()
            &&& s[k] == '-'
            &&& byte_len(s.take(k + 1)) <= 50
        }),
    ensures
        ({
            let s = full_slug(question);
            let r = slug_of(question);
            &&& r.len() < s.len()
            &&& r == s.take(r.len() as int)
            &&& s[r.len() as int] == '-'
            &&& byte_len(s.take(r.len() as int + 1)) <= 50
            &&& k <= r.len()
        }),
{
    let s = full_slug(question);
    let f = fit_chars(s, 50);
    lemma_fit_chars(s, 50, k + 1);
    assert(f <= s.len()) by {
        lemma_fit_le(s, 50);
    }
    let p = s.take(f as int);
    assert(p[k] == '-');
    lemma_last_dash(p);
    let i = last_dash(p).unwrap();
    assert(k <= i);
    assert(p[i] == s[i]);
    lemma_fit_chars(s, 50, i + 1);
    lemma_trim_start_first(kebab(question), '-');
    lemma_trim_end_prefix(trim_start_char(kebab(question), '-'), '-');
    assert(s[0] == trim_start_char(kebab(question), '-')[0]);
    assert(i > 0);
    assert(cap_slug(s) == s.take(i));
}

proof fn lemma_fit_le(s: Seq<char>, b: int)
    ensures
        fit_chars(s, b) <= s.len(),
    decreases s.len(),
{
    if s.len() > 0 && utf8_len(s[0]) <= b {
        lemma_fit_le(s.drop_first(), b - utf8_len(s[0]));
    }
}

/// A slug is `research` when the question has no words, and otherwise a
/// non-empty prefix of the full kebab slug within 50 bytes: the whole of
/// it when it fits, and, past the cap with no word boundary inside it,
/// the longest prefix that fits.
pub proof fn law_slug_is_a_prefix_within_the_cap(question: Seq<char>)
    ensures
        ({
            let s = full_slug(question);
            let r = slug_of(question);
            &&& s.len() == 0 ==> r == "research"@
            &&& s.len() > 0 ==> {
                &&& 0 < r.len() <= s.len()
                &&& r == s.take(r.len() as int)
                &&& byte_len(r) <= 50
                &&& byte_len(s) <= 50 ==> r == s
                &&& (byte_len(s) > 50 && forall|k: int|
                    0 <= k < s.len() && byte_len(#[trigger] s.take(k + 1)) <= 50 ==> s[k] != '-')
                    ==> r.len() < s.len() && byte_len(s.take(r.len() as int + 1)) > 50
            }
        }),
{
    let s = full_slug(question);
    if s.len() > 0 {
        lemma_trim_start_first(kebab(question), '-');
        lemma_trim_end_prefix(trim_start_char(kebab(question), '-'), '-');
        assert(s[0] == trim_start_char(kebab(question), '-')[0]);
    }
    if s.len() > 0 && byte_len(s) > 50 {
        let f = fit_chars(s, 50) as int;
        lemma_fit_le(s, 50);
        let p = s.take(f);
        lemma_fit_chars(s, 50, f);
        if f == s.len() {
            assert(s.take(f) =~= s);
        }
        lemma_fit_chars(s, 50, f + 1);
        lemma_fit_chars(s, 50, 1);
        assert(s.take(1) =~= seq![s[0]]);
        lemma_byte_len_front(seq![s[0]]);
        assert(seq![s[0]].drop_first() =~= Seq::<char>::empty());
        lemma_last_dash(p);
        match last_dash(p) {
            Some(i) => {
                assert(p[i] == s[i]);
                lemma_fit_chars(s, 50, i);
                lemma_fit_chars(s, 50, i + 1);
            },
            None => {},
        }
    }
}

} // verus!
