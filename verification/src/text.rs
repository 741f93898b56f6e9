//! Character-level text helpers shared by every module: whitespace and
//! ASCII case rules, trimming, line splitting, and number rendering, each
//! with the mathematical definition its contract is stated over.
use vstd::prelude::*;

verus! {

// ---------------------------------------------------------------------
// Character classes
// ---------------------------------------------------------------------

/// Unicode `White_Space`, the set `char::is_whitespace` tests.
pub open spec fn is_ws(c: char) -> bool {
    let u = c as u32;
    (9 <= u && u <= 13) || u == 32 || u == 0x85 || u == 0xA0 || u == 0x1680
        || (0x2000 <= u && u <= 0x200A) || u == 0x2028 || u == 0x2029 || u == 0x202F
        || u == 0x205F || u == 0x3000
}

/// Whether `c` is Unicode whitespace.
pub fn char_is_ws(c: char) -> (b: bool)
    ensures
        b == is_ws(c),
{
    let u = c as u32;
    (9 <= u && u <= 13) || u == 32 || u == 0x85 || u == 0xA0 || u == 0x1680 || (0x2000 <= u
        && u <= 0x200A) || u == 0x2028 || u == 0x2029 || u == 0x202F || u == 0x205F || u
        == 0x3000
}

/// Unicode general category `Cc`, the set `char::is_control` tests.
pub open spec fn is_control(c: char) -> bool {
    let u = c as u32;
    u <= 0x1F || (0x7F <= u && u <= 0x9F)
}

pub fn char_is_control(c: char) -> (b: bool)
    ensures
        b == is_control(c),
{
    let u = c as u32;
    u <= 0x1F || (0x7F <= u && u <= 0x9F)
}

pub open spec fn is_ascii_upper(c: char) -> bool {
    65 <= (c as u32) && (c as u32) <= 90
}

pub open spec fn is_ascii_lower(c: char) -> bool {
    97 <= (c as u32) && (c as u32) <= 122
}

pub open spec fn is_ascii_digit(c: char) -> bool {
    48 <= (c as u32) && (c as u32) <= 57
}

/// `char::to_ascii_lowercase`.
pub open spec fn lower_c(c: char) -> char {
    if is_ascii_upper(c) {
        ((c as u32) + 32) as char
    } else {
        c
    }
}

/// `char::to_ascii_uppercase`.
pub open spec fn upper_c(c: char) -> char {
    if is_ascii_lower(c) {
        ((c as u32) - 32) as char
    } else {
        c
    }
}

pub fn ascii_lower(c: char) -> (r: char)
    ensures
        r == lower_c(c),
{
    let u = c as u32;
    if 65 <= u && u <= 90 {
        let b = (u + 32) as u8;
        b as char
    } else {
        c
    }
}

pub fn ascii_upper(c: char) -> (r: char)
    ensures
        r == upper_c(c),
{
    let u = c as u32;
    if 97 <= u && u <= 122 {
        let b = (u - 32) as u8;
        b as char
    } else {
        c
    }
}

pub open spec fn lower_s(s: Seq<char>) -> Seq<char> {
    s.map_values(|c: char| lower_c(c))
}

pub open spec fn upper_s(s: Seq<char>) -> Seq<char> {
    s.map_values(|c: char| upper_c(c))
}

pub fn lower_vec(v: &Vec<char>) -> (r: Vec<char>)
    ensures
        r@ == lower_s(v@),
{
    let mut r: Vec<char> = Vec::new();
    let mut i: usize = 0;
    while i < v.len()
        invariant
            i <= v.len(),
            r@ == lower_s(v@.take(i as int)),
        decreases v.len() - i,
    {
        r.push(ascii_lower(v[i]));
        i = i + 1;
        assert(lower_s(v@.take(i as int)) =~= r@);
    }
    assert(v@.take(v.len() as int) =~= v@);
    r
}

pub fn upper_vec(v: &Vec<char>) -> (r: Vec<char>)
    ensures
        r@ == upper_s(v@),
{
    let mut r: Vec<char> = Vec::new();
    let mut i: usize = 0;
    while i < v.len()
        invariant
            i <= v.len(),
            r@ == upper_s(v@.take(i as int)),
        decreases v.len() - i,
    {
        r.push(ascii_upper(v[i]));
        i = i + 1;
        assert(upper_s(v@.take(i as int)) =~= r@);
    }
    assert(v@.take(v.len() as int) =~= v@);
    r
}

// ---------------------------------------------------------------------
// Conversions between `str`/`String` and character vectors
// ---------------------------------------------------------------------

/// The characters of `s`, in order.
pub fn chars_of(s: &str) -> (v: Vec<char>)
    ensures
        v@ == s@,
{
    let mut v: Vec<char> = Vec::new();
    for c in it: s.chars()
        invariant
            v@ == it.seq().take(it.index() as int),
            it.seq() == s@,
    {
        v.push(c);
    }
    v
}

/// The string made of the characters of `v` (std `FromIterator<char>`).
#[verifier::external_body]
pub fn string_of(v: &[char]) -> (s: String)
    ensures
        s@ == v@,
{
    v.iter().collect()
}

pub fn str_of_lit(s: &str) -> (r: String)
    ensures
        r@ == s@,
{
    let v = chars_of(s);
    string_of(v.as_slice())
}

/// Append the characters of `s` to `out`.
pub fn push_str(out: &mut Vec<char>, s: &str)
    ensures
        final(out)@ == old(out)@ + s@,
{
    let v = chars_of(s);
    push_all(out, &v);
}

pub fn push_all(out: &mut Vec<char>, v: &Vec<char>)
    ensures
        final(out)@ == old(out)@ + v@,
{
    let ghost start = out@;
    let mut i: usize = 0;
    while i < v.len()
        invariant
            i <= v.len(),
            out@ == start + v@.take(i as int),
        decreases v.len() - i,
    {
        out.push(v[i]);
        i = i + 1;
        assert(out@ =~= start + v@.take(i as int));
    }
    assert(v@.take(v.len() as int) =~= v@);
}

/// `v[lo..hi]` as a fresh vector.
pub fn sub_vec(v: &Vec<char>, lo: usize, hi: usize) -> (r: Vec<char>)
    requires
        lo <= hi <= v.len(),
    ensures
        r@ == v@.subrange(lo as int, hi as int),
{
    let mut r: Vec<char> = Vec::new();
    let mut i: usize = lo;
    while i < hi
        invariant
            lo <= i <= hi <= v.len(),
            r@ == v@.subrange(lo as int, i as int),
        decreases hi - i,
    {
        r.push(v[i]);
        i = i + 1;
        assert(r@ =~= v@.subrange(lo as int, i as int));
    }
    r
}

pub fn vec_eq(a: &Vec<char>, b: &Vec<char>) -> (r: bool)
    ensures
        r == (a@ == b@),
{
    if a.len() != b.len() {
        return false;
    }
    let mut i: usize = 0;
    while i < a.len()
        invariant
            a.len() == b.len(),
            i <= a.len(),
            forall|k: int| 0 <= k < i ==> a@[k] == b@[k],
        decreases a.len() - i,
    {
        if a[i] != b[i] {
            return false;
        }
        i = i + 1;
    }
    assert(a@ =~= b@);
    true
}

pub fn str_eq(a: &str, b: &str) -> (r: bool)
    ensures
        r == (a@ == b@),
{
    let va = chars_of(a);
    let vb = chars_of(b);
    vec_eq(&va, &vb)
}

/// Whether `p` is a prefix of `s`.
pub open spec fn has_prefix(s: Seq<char>, p: Seq<char>) -> bool {
    p.len() <= s.len() && s.subrange(0, p.len() as int) == p
}

pub fn starts_with(v: &Vec<char>, p: &Vec<char>) -> (r: bool)
    ensures
        r == has_prefix(v@, p@),
{
    if p.len() > v.len() {
        return false;
    }
    let mut i: usize = 0;
    while i < p.len()
        invariant
            p.len() <= v.len(),
            i <= p.len(),
            forall|k: int| 0 <= k < i ==> v@[k] == p@[k],
        decreases p.len() - i,
    {
        if v[i] != p[i] {
            return false;
        }
        i = i + 1;
    }
    assert(v@.subrange(0, p.len() as int) =~= p@);
    true
}

/// Whether `needle` occurs as a contiguous run inside `s`.
pub open spec fn contains_seq(s: Seq<char>, needle: Seq<char>) -> bool {
    exists|i: int|
        0 <= i && i + needle.len() <= s.len() && #[trigger] s.subrange(i, i + needle.len())
            == needle
}

pub fn contains_vec(s: &Vec<char>, needle: &Vec<char>) -> (r: bool)
    ensures
        r == contains_seq(s@, needle@),
{
    if needle.len() > s.len() {
        return false;
    }
    if needle.len() == 0 {
        let ghost z: int = 0;
        assert(s@.subrange(z, z + needle@.len()) =~= needle@);
        return true;
    }
    let last = s.len() - needle.len();
    let mut i: usize = 0;
    while i <= last
        invariant
            last + needle.len() == s.len(),
            needle.len() > 0,
            i <= last + 1,
            forall|k: int|
                0 <= k < i ==> #[trigger] s@.subrange(k, k + needle.len()) != needle@,
        decreases last + 1 - i,
    {
        let mut j: usize = 0;
        let mut ok = true;
        while j < needle.len()
            invariant
                last + needle.len() == s.len(),
                i <= last,
                j <= needle.len(),
                ok ==> forall|k: int| 0 <= k < j ==> s@[i + k] == needle@[k],
                !ok ==> s@.subrange(i as int, i + needle.len()) != needle@,
            decreases needle.len() - j,
        {
            if s[i + j] != needle[j] {
                ok = false;
                assert(s@.subrange(i as int, i + needle.len())[j as int] != needle@[j as int]);
            }
            j = j + 1;
        }
        if ok {
            assert(s@.subrange(i as int, i + needle.len()) =~= needle@);
            return true;
        }
        i = i + 1;
    }
    proof {
        if contains_seq(s@, needle@) {
            let k = choose|k: int|
                0 <= k && k + needle.len() <= s.len() && #[trigger] s@.subrange(
                    k,
                    k + needle.len(),
                ) == needle@;
            assert(s@.subrange(k, k + needle.len()) != needle@);
        }
    }
    false
}

// ---------------------------------------------------------------------
// Trimming
// ---------------------------------------------------------------------

/// `str::trim_end`.
pub open spec fn trim_end_ws(s: Seq<char>) -> Seq<char>
    decreases s.len(),
{
    if s.len() > 0 && is_ws(s.last()) {
        trim_end_ws(s.drop_last())
    } else {
        s
    }
}

/// `str::trim_start`.
pub open spec fn trim_start_ws(s: Seq<char>) -> Seq<char>
    decreases s.len(),
{
    if s.len() > 0 && is_ws(s[0]) {
        trim_start_ws(s.drop_first())
    } else {
        s
    }
}

/// `str::trim`.
pub open spec fn trim_ws(s: Seq<char>) -> Seq<char> {
    trim_start_ws(trim_end_ws(s))
}

pub proof fn lemma_trim_end_prefix(s: Seq<char>, n: int)
    requires
        0 <= n <= s.len(),
        forall|k: int| n <= k < s.len() ==> is_ws(#[trigger] s[k]),
    ensures
        trim_end_ws(s) == trim_end_ws(s.take(n)),
    decreases s.len(),
{
    if n < s.len() {
        assert(s.drop_last().take(n) =~= s.take(n));
        lemma_trim_end_prefix(s.drop_last(), n);
    } else {
        assert(s.take(n) =~= s);
    }
}

pub proof fn lemma_trim_start_suffix(s: Seq<char>, n: int)
    requires
        0 <= n <= s.len(),
        forall|k: int| 0 <= k < n ==> is_ws(#[trigger] s[k]),
    ensures
        trim_start_ws(s) == trim_start_ws(s.skip(n)),
    decreases n,
{
    if n > 0 {
        assert(s.drop_first().skip(n - 1) =~= s.skip(n));
        assert forall|k: int| 0 <= k < n - 1 implies is_ws(#[trigger] s.drop_first()[k]) by {
            assert(s.drop_first()[k] == s[k + 1]);
        }
        lemma_trim_start_suffix(s.drop_first(), n - 1);
    } else {
        assert(s.skip(0) =~= s);
    }
}

/// Index at which trailing whitespace begins.
pub fn trim_end_len(v: &Vec<char>) -> (n: usize)
    ensures
        n <= v.len(),
        trim_end_ws(v@) == v@.take(n as int),
{
    let mut n = v.len();
    while n > 0 && char_is_ws(v[n - 1])
        invariant
            n <= v.len(),
            forall|k: int| n <= k < v.len() ==> is_ws(#[trigger] v@[k]),
        decreases n,
    {
        n = n - 1;
    }
    proof {
        lemma_trim_end_prefix(v@, n as int);
        let t = v@.take(n as int);
        if n > 0 {
            assert(t.last() == v@[n - 1]);
        }
    }
    n
}

/// Index at which leading whitespace ends.
pub fn trim_start_len(v: &Vec<char>) -> (n: usize)
    ensures
        n <= v.len(),
        trim_start_ws(v@) == v@.skip(n as int),
{
    let mut n: usize = 0;
    while n < v.len() && char_is_ws(v[n])
        invariant
            n <= v.len(),
            forall|k: int| 0 <= k < n ==> is_ws(#[trigger] v@[k]),
        decreases v.len() - n,
    {
        n = n + 1;
    }
    proof {
        lemma_trim_start_suffix(v@, n as int);
        let t = v@.skip(n as int);
        if n < v.len() {
            assert(t[0] == v@[n as int]);
        }
    }
    n
}

pub fn trim_end_vec(v: &Vec<char>) -> (r: Vec<char>)
    ensures
        r@ == trim_end_ws(v@),
{
    let n = trim_end_len(v);
    let r = sub_vec(v, 0, n);
    assert(r@ =~= v@.take(n as int));
    r
}

pub fn trim_start_vec(v: &Vec<char>) -> (r: Vec<char>)
    ensures
        r@ == trim_start_ws(v@),
{
    let n = trim_start_len(v);
    let r = sub_vec(v, n, v.len());
    assert(r@ =~= v@.skip(n as int));
    r
}

pub fn trim_vec(v: &Vec<char>) -> (r: Vec<char>)
    ensures
        r@ == trim_ws(v@),
{
    let e = trim_end_vec(v);
    trim_start_vec(&e)
}

/// `s.trim().to_string()`.
pub fn trim_str(s: &str) -> (r: String)
    ensures
        r@ == trim_ws(s@),
{
    let v = chars_of(s);
    let t = trim_vec(&v);
    string_of(t.as_slice())
}

/// `str::trim_start_matches(c)` for a single character.
pub open spec fn trim_start_char(s: Seq<char>, c: char) -> Seq<char>
    decreases s.len(),
{
    if s.len() > 0 && s[0] == c {
        trim_start_char(s.drop_first(), c)
    } else {
        s
    }
}

/// `s` without trailing `c`s.
pub open spec fn trim_end_char(s: Seq<char>, c: char) -> Seq<char>
    decreases s.len(),
{
    if s.len() > 0 && s.last() == c {
        trim_end_char(s.drop_last(), c)
    } else {
        s
    }
}

/// `str::trim_matches(c)` for a single character.
pub open spec fn trim_char(s: Seq<char>, c: char) -> Seq<char> {
    trim_start_char(trim_end_char(s, c), c)
}

pub proof fn lemma_trim_end_char_prefix(s: Seq<char>, c: char, n: int)
    requires
        0 <= n <= s.len(),
        forall|k: int| n <= k < s.len() ==> #[trigger] s[k] == c,
    ensures
        trim_end_char(s, c) == trim_end_char(s.take(n), c),
    decreases s.len(),
{
    if n < s.len() {
        assert(s.drop_last().take(n) =~= s.take(n));
        lemma_trim_end_char_prefix(s.drop_last(), c, n);
    } else {
        assert(s.take(n) =~= s);
    }
}

pub fn trim_end_char_vec(v: &Vec<char>, c: char) -> (r: Vec<char>)
    ensures
        r@ == trim_end_char(v@, c),
{
    let mut n: usize = v.len();
    while n > 0 && v[n - 1] == c
        invariant
            n <= v.len(),
            forall|k: int| n <= k < v.len() ==> #[trigger] v@[k] == c,
        decreases n,
    {
        n = n - 1;
    }
    proof {
        lemma_trim_end_char_prefix(v@, c, n as int);
        let t = v@.take(n as int);
        if n > 0 {
            assert(t.last() == v@[n - 1]);
        }
    }
    let r = sub_vec(v, 0, n);
    assert(r@ =~= v@.take(n as int));
    r
}

/// `s.trim_matches(c)`, as characters.
pub fn trim_char_str(s: &str, c: char) -> (r: Vec<char>)
    ensures
        r@ == trim_char(s@, c),
{
    let v = chars_of(s);
    let e = trim_end_char_vec(&v, c);
    trim_start_char_vec(&e, c)
}

pub proof fn lemma_trim_start_char_suffix(s: Seq<char>, c: char, n: int)
    requires
        0 <= n <= s.len(),
        forall|k: int| 0 <= k < n ==> #[trigger] s[k] == c,
    ensures
        trim_start_char(s, c) == trim_start_char(s.skip(n), c),
    decreases n,
{
    if n > 0 {
        assert(s.drop_first().skip(n - 1) =~= s.skip(n));
        assert forall|k: int| 0 <= k < n - 1 implies #[trigger] s.drop_first()[k] == c by {
            assert(s.drop_first()[k] == s[k + 1]);
        }
        lemma_trim_start_char_suffix(s.drop_first(), c, n - 1);
    } else {
        assert(s.skip(0) =~= s);
    }
}

pub fn trim_start_char_vec(v: &Vec<char>, c: char) -> (r: Vec<char>)
    ensures
        r@ == trim_start_char(v@, c),
{
    let mut n: usize = 0;
    while n < v.len() && v[n] == c
        invariant
            n <= v.len(),
            forall|k: int| 0 <= k < n ==> #[trigger] v@[k] == c,
        decreases v.len() - n,
    {
        n = n + 1;
    }
    proof {
        lemma_trim_start_char_suffix(v@, c, n as int);
        let t = v@.skip(n as int);
        if n < v.len() {
            assert(t[0] == v@[n as int]);
        }
    }
    let r = sub_vec(v, n, v.len());
    assert(r@ =~= v@.skip(n as int));
    r
}

// ---------------------------------------------------------------------
// Case-insensitive comparison
// ---------------------------------------------------------------------

/// `a.trim().eq_ignore_ascii_case(b.trim())`.
pub open spec fn eq_ci(a: Seq<char>, b: Seq<char>) -> bool {
    lower_s(trim_ws(a)) == lower_s(trim_ws(b))
}

pub fn eq_ci_vec(a: &Vec<char>, b: &Vec<char>) -> (r: bool)
    ensures
        r == eq_ci(a@, b@),
{
    let ta = trim_vec(a);
    let tb = trim_vec(b);
    let la = lower_vec(&ta);
    let lb = lower_vec(&tb);
    vec_eq(&la, &lb)
}

pub fn eq_ci_str(a: &str, b: &str) -> (r: bool)
    ensures
        r == eq_ci(a@, b@),
{
    let va = chars_of(a);
    let vb = chars_of(b);
    eq_ci_vec(&va, &vb)
}

// ---------------------------------------------------------------------
// Lines
// ---------------------------------------------------------------------

/// Index of the first `'\n'` in `s`, or `s.len()` when there is none.
pub open spec fn nl_index(s: Seq<char>) -> nat
    decreases s.len(),
{
    if s.len() == 0 {
        0
    } else if s[0] == '\n' {
        0
    } else {
        1 + nl_index(s.drop_first())
    }
}

pub proof fn lemma_nl_index(s: Seq<char>, j: int)
    requires
        0 <= j <= s.len(),
        forall|k: int| 0 <= k < j ==> #[trigger] s[k] != '\n',
        j == s.len() || s[j] == '\n',
    ensures
        nl_index(s) == j,
    decreases j,
{
    if j > 0 {
        assert forall|k: int| 0 <= k < j - 1 implies #[trigger] s.drop_first()[k] != '\n' by {
            assert(s.drop_first()[k] == s[k + 1]);
        }
        if j < s.len() {
            assert(s.drop_first()[j - 1] == s[j]);
        }
        lemma_nl_index(s.drop_first(), j - 1);
    }
}

/// A line without its trailing `'\r'`, as `str::lines` yields it.
pub open spec fn strip_cr(s: Seq<char>) -> Seq<char> {
    if s.len() > 0 && s.last() == '\r' {
        s.drop_last()
    } else {
        s
    }
}

/// `str::lines`: split at `'\n'`; a `'\r'` just before a `'\n'` is dropped;
/// a final line ending adds no empty line.
pub open spec fn lines_spec(s: Seq<char>) -> Seq<Seq<char>>
    decreases s.len(),
{
    if s.len() == 0 {
        seq![]
    } else {
        let i = nl_index(s);
        if i >= s.len() {
            seq![s]
        } else {
            seq![strip_cr(s.subrange(0, i as int))] + lines_spec(s.subrange((i + 1) as int, s.len() as int))
        }
    }
}

pub open spec fn views(v: Seq<Vec<char>>) -> Seq<Seq<char>> {
    v.map_values(|x: Vec<char>| x@)
}

/// The lines of `v`, each as a character vector.
pub fn split_lines(v: &Vec<char>) -> (r: Vec<Vec<char>>)
    ensures
        views(r@) == lines_spec(v@),
{
    let mut out: Vec<Vec<char>> = Vec::new();
    let mut start: usize = 0;
    assert(v@.subrange(0, v.len() as int) =~= v@);
    assert(views(out@) =~= Seq::<Seq<char>>::empty());
    assert(views(out@) + lines_spec(v@) =~= lines_spec(v@));
    while start < v.len()
        invariant
            start <= v.len(),
            lines_spec(v@) == views(out@) + lines_spec(v@.subrange(start as int, v.len() as int)),
        decreases v.len() - start,
    {
        let ghost rest = v@.subrange(start as int, v.len() as int);
        let mut j = start;
        while j < v.len() && v[j] != '\n'
            invariant
                start <= j <= v.len(),
                forall|k: int| start <= k < j ==> v@[k] != '\n',
            decreases v.len() - j,
        {
            j = j + 1;
        }
        proof {
            assert forall|k: int| 0 <= k < j - start implies #[trigger] rest[k] != '\n' by {
                assert(rest[k] == v@[start + k]);
            }
            if j < v.len() {
                assert(rest[j - start] == v@[j as int]);
            }
            lemma_nl_index(rest, j - start);
        }
        let mut line = sub_vec(v, start, j);
        if j < v.len() {
            assert(rest.subrange(0, j - start) =~= line@);
            if line.len() > 0 && line[line.len() - 1] == '\r' {
                line.pop();
            }
            assert(line@ == strip_cr(rest.subrange(0, j - start)));
            let ghost old_out = out@;
            out.push(line);
            assert(rest.subrange(j - start + 1, rest.len() as int) =~= v@.subrange(
                j + 1,
                v.len() as int,
            ));
            assert(views(out@) =~= views(old_out) + seq![strip_cr(rest.subrange(0, j - start))]);
            start = j + 1;
        } else {
            assert(line@ =~= rest);
            let ghost old_out = out@;
            out.push(line);
            assert(views(out@) =~= views(old_out) + seq![rest]);
            start = v.len();
            assert(v@.subrange(start as int, v.len() as int) =~= Seq::<char>::empty());
            assert(lines_spec(Seq::<char>::empty()) =~= Seq::<Seq<char>>::empty());
        }
    }
    assert(v@.subrange(start as int, v.len() as int) =~= Seq::<char>::empty());
    assert(views(out@) + Seq::<Seq<char>>::empty() =~= views(out@));
    out
}

// ---------------------------------------------------------------------
// Number rendering
// ---------------------------------------------------------------------

pub open spec fn digit_c(d: nat) -> char {
    ((d % 16) + if d % 16 < 10 {
        48nat
    } else {
        87nat
    }) as char
}

/// Decimal digits of `n`, most significant first, no leading zeros.
pub open spec fn dec(n: nat) -> Seq<char>
    decreases n,
{
    if n < 10 {
        seq![digit_c(n)]
    } else {
        dec(n / 10).push(digit_c(n % 10))
    }
}

/// Lower-case hexadecimal digits of `n`, no leading zeros.
pub open spec fn hex(n: nat) -> Seq<char>
    decreases n,
{
    if n < 16 {
        seq![digit_c(n)]
    } else {
        hex(n / 16).push(digit_c(n % 16))
    }
}

/// `s` left-padded with `'0'` to at least `w` characters (`{:0w}`).
pub open spec fn pad0(s: Seq<char>, w: nat) -> Seq<char> {
    if s.len() >= w {
        s
    } else {
        Seq::new((w - s.len()) as nat, |i: int| '0') + s
    }
}

fn digit_exec(d: u64) -> (c: char)
    requires
        d < 16,
    ensures
        c == digit_c(d as nat),
{
    let b: u8 = if d < 10 {
        (d + 48) as u8
    } else {
        (d + 87) as u8
    };
    b as char
}

/// `n` in decimal (`format!("{n}")`).
pub fn dec_u64(n: u64) -> (r: Vec<char>)
    ensures
        r@ == dec(n as nat),
    decreases n,
{
    if n < 10 {
        let mut r = Vec::new();
        r.push(digit_exec(n));
        r
    } else {
        let mut r = dec_u64(n / 10);
        r.push(digit_exec(n % 10));
        r
    }
}

/// `n` in lower-case hexadecimal (`format!("{n:x}")`).
pub fn hex_u64(n: u64) -> (r: Vec<char>)
    ensures
        r@ == hex(n as nat),
    decreases n,
{
    if n < 16 {
        let mut r = Vec::new();
        r.push(digit_exec(n));
        r
    } else {
        let mut r = hex_u64(n / 16);
        r.push(digit_exec(n % 16));
        r
    }
}

pub fn pad0_vec(v: Vec<char>, w: usize) -> (r: Vec<char>)
    ensures
        r@ == pad0(v@, w as nat),
{
    if v.len() >= w {
        v
    } else {
        let mut r: Vec<char> = Vec::new();
        let k = w - v.len();
        let mut i: usize = 0;
        while i < k
            invariant
                i <= k,
                r@ == Seq::new(i as nat, |j: int| '0'),
            decreases k - i,
        {
            r.push('0');
            i = i + 1;
            assert(r@ =~= Seq::new(i as nat, |j: int| '0'));
        }
        let ghost zs = r@;
        push_all(&mut r, &v);
        assert(r@ =~= pad0(v@, w as nat));
        r
    }
}

/// `format!("{n:0w$}")` for an unsigned value.
pub fn dec_pad(n: u64, w: usize) -> (r: Vec<char>)
    ensures
        r@ == pad0(dec(n as nat), w as nat),
{
    pad0_vec(dec_u64(n), w)
}

/// `format!("{n:0w$}")` for a signed value: the sign counts toward the width.
pub open spec fn dec_signed_pad(n: int, w: nat) -> Seq<char> {
    if n < 0 {
        seq!['-'] + pad0(dec((-n) as nat), if w > 0 {
            (w - 1) as nat
        } else {
            0
        })
    } else {
        pad0(dec(n as nat), w)
    }
}

pub fn dec_i64_pad(n: i64, w: usize) -> (r: Vec<char>)
    ensures
        r@ == dec_signed_pad(n as int, w as nat),
{
    if n < 0 {
        let m: u64 = if n == i64::MIN {
            9223372036854775808u64
        } else {
            (-n) as u64
        };
        let body = pad0_vec(dec_u64(m), if w > 0 {
            w - 1
        } else {
            0
        });
        let mut r: Vec<char> = Vec::new();
        r.push('-');
        push_all(&mut r, &body);
        assert(r@ =~= dec_signed_pad(n as int, w as nat));
        r
    } else {
        dec_pad(n as u64, w)
    }
}


// ---------------------------------------------------------------------
// Keyword matching
// ---------------------------------------------------------------------

/// `s.trim().to_ascii_lowercase()`.
pub open spec fn word_key(s: Seq<char>) -> Seq<char> {
    lower_s(trim_ws(s))
}

pub fn word_key_of(s: &str) -> (r: Vec<char>)
    ensures
        r@ == word_key(s@),
{
    let v = chars_of(s);
    let t = trim_vec(&v);
    lower_vec(&t)
}

/// Whether `v` spells exactly `lit`.
pub fn is_lit(v: &Vec<char>, lit: &str) -> (r: bool)
    ensures
        r == (v@ == lit@),
{
    let l = chars_of(lit);
    vec_eq(v, &l)
}

/// `s.trim().is_empty()`.
pub fn is_blank(s: &str) -> (r: bool)
    ensures
        r == (trim_ws(s@).len() == 0),
{
    let v = chars_of(s);
    let t = trim_vec(&v);
    t.len() == 0
}

/// `s.trim().to_string()`.
pub fn trimmed(s: &str) -> (r: String)
    ensures
        r@ == trim_ws(s@),
{
    let v = chars_of(s);
    let t = trim_vec(&v);
    string_of(t.as_slice())
}

/// Append `s` to the string `out`.
pub fn append(out: &mut String, s: &str)
    ensures
        final(out)@ == old(out)@ + s@,
{
    let mut v = chars_of(out.as_str());
    push_str(&mut v, s);
    *out = string_of(v.as_slice());
}

/// Append the characters of `v` to the string `out`.
pub fn append_chars(out: &mut String, v: &Vec<char>)
    ensures
        final(out)@ == old(out)@ + v@,
{
    let mut w = chars_of(out.as_str());
    push_all(&mut w, v);
    *out = string_of(w.as_slice());
}

// ---------------------------------------------------------------------
// Decimal parsing
// ---------------------------------------------------------------------

/// The decimal value of a run of ASCII digits.
pub open spec fn digits_val(s: Seq<char>) -> int
    decreases s.len(),
{
    if s.len() == 0 {
        0
    } else {
        digits_val(s.drop_last()) * 10 + ((s.last() as u32) - 48)
    }
}

pub proof fn lemma_digits_val_nonneg(s: Seq<char>)
    requires
        forall|k: int| 0 <= k < s.len() ==> #[trigger] is_ascii_digit(s[k]),
    ensures
        digits_val(s) >= 0,
    decreases s.len(),
{
    if s.len() > 0 {
        assert forall|k: int| 0 <= k < s.drop_last().len() implies #[trigger] is_ascii_digit(s.drop_last()[k]) by {
            assert(is_ascii_digit(s[k]));
        }
        lemma_digits_val_nonneg(s.drop_last());
        assert(is_ascii_digit(s[s.len() - 1]));
    }
}

pub proof fn lemma_digits_val_mono(s: Seq<char>, i: int)
    requires
        0 <= i <= s.len(),
        forall|k: int| 0 <= k < s.len() ==> #[trigger] is_ascii_digit(s[k]),
    ensures
        digits_val(s.take(i)) <= digits_val(s),
    decreases s.len() - i,
{
    if i < s.len() {
        lemma_digits_val_mono(s, i + 1);
        assert(s.take(i + 1).drop_last() =~= s.take(i));
        assert(is_ascii_digit(s[i]));
        assert forall|k: int| 0 <= k < s.take(i).len() implies #[trigger] is_ascii_digit(s.take(i)[k]) by {
            assert(is_ascii_digit(s[k]));
        }
        lemma_digits_val_nonneg(s.take(i));
    } else {
        assert(s.take(i) =~= s);
    }
}

/// Every character of `s` is an ASCII digit.
pub open spec fn all_digits(s: Seq<char>) -> bool {
    forall|k: int| 0 <= k < s.len() ==> #[trigger] is_ascii_digit(s[k])
}

/// `s` without one leading `+`.
pub open spec fn plus_stripped(s: Seq<char>) -> Seq<char> {
    if s.len() > 0 && s[0] == '+' {
        s.drop_first()
    } else {
        s
    }
}

/// `s.parse::<u32>()`: an optional `+`, then one or more ASCII digits,
/// with a value that fits.
pub open spec fn parse_u32_spec(s: Seq<char>) -> Option<u32> {
    let t = plus_stripped(s);
    if t.len() == 0 || !all_digits(t) {
        None
    } else if digits_val(t) > u32::MAX {
        None
    } else {
        Some(digits_val(t) as u32)
    }
}

pub fn parse_u32(s: &Vec<char>) -> (r: Option<u32>)
    ensures
        r == parse_u32_spec(s@),
{
    let start: usize = if s.len() > 0 && s[0] == '+' {
        1
    } else {
        0
    };
    let ghost t = plus_stripped(s@);
    assert(t =~= s@.skip(start as int));
    if start == s.len() {
        return None;
    }
    let mut v: u64 = 0;
    let mut i: usize = start;
    while i < s.len()
        invariant
            start <= i <= s.len(),
            t == s@.skip(start as int),
            t == plus_stripped(s@),
            forall|k: int| start <= k < i ==> #[trigger] is_ascii_digit(s@[k]),
            v == digits_val(s@.subrange(start as int, i as int)),
            v <= u32::MAX,
        decreases s.len() - i,
    {
        let u = s[i] as u32;
        if !(48 <= u && u <= 57) {
            assert(!is_ascii_digit(t[i - start]));
            assert(!all_digits(t));
            return None;
        }
        assert(s@.subrange(start as int, i + 1).drop_last() =~= s@.subrange(start as int, i as int));
        let nv = v * 10 + ((u - 48) as u64);
        assert(nv == digits_val(s@.subrange(start as int, i + 1)));
        if nv > 4294967295 {
            proof {
                assert(s@.subrange(start as int, i + 1) =~= t.take(i + 1 - start));
                if all_digits(t) {
                    lemma_digits_val_mono(t, i + 1 - start);
                }
            }
            return None;
        }
        v = nv;
        i = i + 1;
    }
    assert(s@.subrange(start as int, s.len() as int) =~= t);
    Some(v as u32)
}

} // verus!
