//! Throwaway-artifact manifests: never durable, expiring a fixed number
//! of days after creation, with expiry a pure predicate over ISO dates.
use vstd::prelude::*;
use crate::text::{
    chars_of, dec, dec_i64_pad, digit_c, digits_val, dec_pad, dec_signed_pad, is_ascii_digit, pad0, push_all, string_of,
    trim_vec, trim_ws,
};

use crate::dates::days_from_civil_spec;

verus! {

/// Days from creation until an artifact folder is offered for pruning.
pub const DEFAULT_ARTIFACT_TTL_DAYS: i64 = 30;

/// One throwaway-artifact folder's manifest. There is no field that could
/// make it durable.
#[derive(Debug, Clone, PartialEq, Eq)]
pub struct ArtifactManifest {
    pub ticket: String,
    pub created: String,
    pub expires: String,
    pub files: Vec<String>,
}

impl ArtifactManifest {
    /// Always `false`.
    pub fn durable(&self) -> (r: bool)
        ensures
            !r,
    {
        false
    }
}

// ---------------------------------------------------------------------
// ISO dates
// ---------------------------------------------------------------------

/// `YYYY-MM-DD` in shape: ten characters, dashes at 4 and 7, digits
/// elsewhere.
pub open spec fn is_iso_date_like(s: Seq<char>) -> bool {
    &&& s.len() == 10
    &&& s[4] == '-'
    &&& s[7] == '-'
    &&& forall|i: int| 0 <= i < 10 && i != 4 && i != 7 ==> #[trigger] is_ascii_digit(s[i])
}

fn iso_date_like(s: &Vec<char>) -> (r: bool)
    ensures
        r == is_iso_date_like(s@),
{
    if s.len() != 10 || s[4] != '-' || s[7] != '-' {
        return false;
    }
    let mut i: usize = 0;
    while i < 10
        invariant
            s@.len() == 10,
            i <= 10,
            forall|j: int| 0 <= j < i && j != 4 && j != 7 ==> #[trigger] is_ascii_digit(s@[j]),
        decreases 10 - i,
    {
        let u = s[i] as u32;
        if i != 4 && i != 7 && !(48 <= u && u <= 57) {
            assert(!is_ascii_digit(s@[i as int]));
            return false;
        }
        i = i + 1;
    }
    true
}

/// `a < b` as strings (code point order, which is also UTF-8 byte order).
pub open spec fn lex_lt(a: Seq<char>, b: Seq<char>) -> bool
    decreases a.len(),
{
    if a.len() == 0 {
        b.len() > 0
    } else if b.len() == 0 {
        false
    } else if a[0] != b[0] {
        (a[0] as int) < (b[0] as int)
    } else {
        lex_lt(a.drop_first(), b.drop_first())
    }
}

/// `lex_lt` is a strict order.
pub proof fn lemma_lex_irreflexive(a: Seq<char>)
    ensures
        !lex_lt(a, a),
    decreases a.len(),
{
    if a.len() > 0 {
        lemma_lex_irreflexive(a.drop_first());
    }
}

pub proof fn lemma_lex_transitive(a: Seq<char>, b: Seq<char>, c: Seq<char>)
    requires
        lex_lt(a, b),
        lex_lt(b, c),
    ensures
        lex_lt(a, c),
    decreases a.len(),
{
    if a.len() > 0 && b.len() > 0 && c.len() > 0 && a[0] == b[0] && b[0] == c[0] {
        lemma_lex_transitive(a.drop_first(), b.drop_first(), c.drop_first());
    }
}

pub proof fn lemma_lex_total(a: Seq<char>, b: Seq<char>)
    requires
        a != b,
    ensures
        lex_lt(a, b) || lex_lt(b, a),
    decreases a.len(),
{
    if a.len() > 0 && b.len() > 0 {
        if a[0] == b[0] {
            assert(a =~= seq![a[0]] + a.drop_first());
            assert(b =~= seq![b[0]] + b.drop_first());
            lemma_lex_total(a.drop_first(), b.drop_first());
        } else {
            assert((a[0] as int) != (b[0] as int));
        }
    } else if a.len() == 0 && b.len() == 0 {
        assert(a =~= b);
    }
}

pub fn vec_lt(a: &Vec<char>, b: &Vec<char>) -> (r: bool)
    ensures
        r == lex_lt(a@, b@),
{
    let mut i: usize = 0;
    assert(a@.skip(0) =~= a@ && b@.skip(0) =~= b@);
    while i < a.len() && i < b.len() && a[i] == b[i]
        invariant
            i <= a.len(),
            i <= b.len(),
            lex_lt(a@, b@) == lex_lt(a@.skip(i as int), b@.skip(i as int)),
        decreases a.len() - i,
    {
        assert(a@.skip(i as int).drop_first() =~= a@.skip(i + 1));
        assert(b@.skip(i as int).drop_first() =~= b@.skip(i + 1));
        i = i + 1;
    }
    let ghost sa = a@.skip(i as int);
    let ghost sb = b@.skip(i as int);
    if i == a.len() {
        assert(sa.len() == 0);
        i < b.len()
    } else if i == b.len() {
        false
    } else {
        assert(sa[0] == a@[i as int] && sb[0] == b@[i as int]);
        a[i] < b[i]
    }
}

/// The manifest has passed `expires` as of `today`: both must be dates
/// (after trimming), and `today == expires` is not yet expired.
pub open spec fn expired(expires: Seq<char>, today: Seq<char>) -> bool {
    let e = trim_ws(expires);
    let t = trim_ws(today);
    date_parts(e).is_some() && date_parts(t).is_some() && lex_lt(e, t)
}

/// Whether `s` is a `YYYY-MM-DD` date with a month in 1..=12 and a day in
/// 1..=31.
fn is_date(s: &Vec<char>) -> (r: bool)
    ensures
        r == date_parts(s@).is_some(),
{
    if !iso_date_like(s) {
        return false;
    }
    let m = digits_at(s, 5, 7);
    let d = digits_at(s, 8, 10);
    1 <= m && m <= 12 && 1 <= d && d <= 31
}

/// Whether `manifest` has passed its `expires` date as of `today`. An
/// unparseable date on either side never reads as expired.
pub fn is_artifact_expired(manifest: &ArtifactManifest, today: &str) -> (r: bool)
    ensures
        r == expired(manifest.expires@, today@),
{
    let e = trim_vec(&chars_of(manifest.expires.as_str()));
    let t = trim_vec(&chars_of(today));
    if !is_date(&e) || !is_date(&t) {
        return false;
    }
    vec_lt(&e, &t)
}

/// `(year, month, day)` of an ISO date, with month in 1..=12 and day in
/// 1..=31 (the day is not checked against the month's length).
pub open spec fn date_parts(s: Seq<char>) -> Option<(int, int, int)> {
    if !is_iso_date_like(s) {
        None
    } else {
        let y = digits_val(s.subrange(0, 4));
        let m = digits_val(s.subrange(5, 7));
        let d = digits_val(s.subrange(8, 10));
        if 1 <= m <= 12 && 1 <= d <= 31 {
            Some((y, m, d))
        } else {
            None
        }
    }
}

/// The date `z` days after 1970-01-01 (Hinnant's `civil_from_days`).
pub open spec fn civil_from_days(z: int) -> (int, int, int) {
    let z2 = z + 719468;
    let era = z2 / 146097;
    let doe = z2 - era * 146097;
    let yoe = (doe - doe / 1460 + doe / 36524 - doe / 146096) / 365;
    let y = yoe + era * 400;
    let doy = doe - (365 * yoe + yoe / 4 - yoe / 100);
    let mp = (5 * doy + 2) / 153;
    let d = doy - (153 * mp + 2) / 5 + 1;
    let m = if mp < 10 {
        mp + 3
    } else {
        mp - 9
    };
    (if m <= 2 {
        y + 1
    } else {
        y
    }, m, d)
}

/// `format!("{y:04}-{m:02}-{d:02}")`.
pub open spec fn iso_text(y: int, m: int, d: int) -> Seq<char> {
    dec_signed_pad(y, 4) + seq!['-'] + pad0(dec(m as nat), 2) + seq!['-'] + pad0(dec(d as nat), 2)
}

/// `date` shifted by `days`, or `None` for an unparseable date.
pub open spec fn shifted(date: Seq<char>, days: int) -> Option<Seq<char>> {
    match date_parts(date) {
        Some((y, m, d)) => {
            let c = civil_from_days(days_from_civil_spec(y, m, d) + days);
            Some(iso_text(c.0, c.1, c.2))
        },
        None => None,
    }
}

/// The shift stays inside the range the day arithmetic can hold.
pub open spec fn shift_fits(date: Seq<char>, days: int) -> bool {
    match date_parts(date) {
        Some((y, m, d)) => i64::MIN + 146096 <= days_from_civil_spec(y, m, d) + days
            && days_from_civil_spec(y, m, d) + days + 719468 <= i64::MAX,
        None => true,
    }
}

fn floor_div(a: i64, b: i64) -> (q: i64)
    requires
        b > 0,
        a > i64::MIN + b,
    ensures
        q == a / b,
{
    if a >= 0 {
        ((a as u64) / (b as u64)) as i64
    } else {
        let n: u64 = ((-a) as u64) + ((b - 1) as u64);
        let c: u64 = n / (b as u64);
        assert(c <= (-a) as int) by (nonlinear_arith)
            requires
                c as int == (n as int) / (b as int),
                n as int == (-a) + b - 1,
                b > 0,
                a < 0,
        ;
        let q = -(c as i64);
        assert(q == a / b) by (nonlinear_arith)
            requires
                c as int == ((-a) + b - 1) / (b as int),
                q as int == -(c as int),
                b > 0,
                a < 0,
        ;
        q
    }
}

fn digits_at(s: &Vec<char>, lo: usize, hi: usize) -> (v: i64)
    requires
        lo <= hi <= s.len(),
        hi - lo <= 4,
        forall|i: int| lo <= i < hi ==> #[trigger] is_ascii_digit(s@[i]),
    ensures
        v == digits_val(s@.subrange(lo as int, hi as int)),
        0 <= v < 10000,
{
    let mut v: i64 = 0;
    let mut i: usize = lo;
    while i < hi
        invariant
            lo <= i <= hi <= s.len(),
            hi - lo <= 4,
            forall|k: int| lo <= k < hi ==> #[trigger] is_ascii_digit(s@[k]),
            v == digits_val(s@.subrange(lo as int, i as int)),
            0 <= v,
            i - lo == 0 ==> v == 0,
            i - lo == 1 ==> v < 10,
            i - lo == 2 ==> v < 100,
            i - lo == 3 ==> v < 1000,
            i - lo == 4 ==> v < 10000,
        decreases hi - i,
    {
        assert(is_ascii_digit(s@[i as int]));
        let dgt = ((s[i] as u32) - 48) as i64;
        assert(s@.subrange(lo as int, i + 1).drop_last() =~= s@.subrange(lo as int, i as int));
        v = v * 10 + dgt;
        i = i + 1;
    }
    v
}

fn days_from_civil_exec(y: i64, m: i64, d: i64) -> (r: i64)
    requires
        0 <= y < 10000,
        1 <= m <= 12,
        1 <= d <= 31,
    ensures
        r == days_from_civil_spec(y as int, m as int, d as int),
{
    let y2 = if m <= 2 {
        y - 1
    } else {
        y
    };
    let era = floor_div(y2, 400);
    let yoe = y2 - era * 400;
    proof {
        vstd::arithmetic::div_mod::lemma_fundamental_div_mod(y2 as int, 400);
    }
    let mp = (m + 9) % 12;
    let doy = (153 * mp + 2) / 5 + d - 1;
    let doe = yoe * 365 + yoe / 4 - yoe / 100 + doy;
    era * 146097 + doe - 719468
}

#[verifier::rlimit(60)]
fn civil_from_days_exec(z: i64) -> (r: (i64, i64, i64))
    requires
        i64::MIN + 146096 <= z,
        z + 719468 <= i64::MAX,
    ensures
        r.0 == civil_from_days(z as int).0,
        r.1 == civil_from_days(z as int).1,
        r.2 == civil_from_days(z as int).2,
        1 <= r.1 <= 12,
        1 <= r.2 <= 31,
{
    let z2 = z + 719468;
    let era = floor_div(z2, 146097);
    let doe = z2 - era * 146097;
    assert(0 <= doe < 146097);
    let yoe = (doe - doe / 1460 + doe / 36524 - doe / 146096) / 365;
    assert(0 <= yoe <= 399);
    let y = yoe + era * 400;
    let doy = doe - (365 * yoe + yoe / 4 - yoe / 100);
    assert(0 <= doy <= 365);
    let mp = (5 * doy + 2) / 153;
    assert(0 <= mp <= 11);
    let d = doy - (153 * mp + 2) / 5 + 1;
    assert(1 <= d <= 31);
    let m = if mp < 10 {
        mp + 3
    } else {
        mp - 9
    };
    (if m <= 2 {
        y + 1
    } else {
        y
    }, m, d)
}

/// `date` (a `YYYY-MM-DD` value) shifted by `days`, which may be
/// negative, as `YYYY-MM-DD`; `None` for an unparseable date.
#[verifier::rlimit(40)]
pub fn shift_iso_date(date: &str, days: i64) -> (r: Option<String>)
    requires
        shift_fits(date@, days as int),
    ensures
        match r {
            Some(s) => shifted(date@, days as int) == Some(s@),
            None => shifted(date@, days as int).is_none(),
        },
{
    let s = chars_of(date);
    if !iso_date_like(&s) {
        return None;
    }
    let y = digits_at(&s, 0, 4);
    let m = digits_at(&s, 5, 7);
    let d = digits_at(&s, 8, 10);
    if !(1 <= m && m <= 12 && 1 <= d && d <= 31) {
        return None;
    }
    let z = days_from_civil_exec(y, m, d) + days;
    let (y2, m2, d2) = civil_from_days_exec(z);
    let mut out = dec_i64_pad(y2, 4);
    out.push('-');
    let mm = dec_pad(m2 as u64, 2);
    push_all(&mut out, &mm);
    out.push('-');
    let dd = dec_pad(d2 as u64, 2);
    push_all(&mut out, &dd);
    assert(out@ =~= iso_text(y2 as int, m2 as int, d2 as int));
    Some(string_of(out.as_slice()))
}

/// A four-digit date shifted by at most a few thousand years stays well
/// inside the day arithmetic's range.
proof fn lemma_four_digit_shift_fits(date: Seq<char>, days: int)
    requires
        -1000000 <= days <= 1000000,
    ensures
        shift_fits(date, days),
{
    if let Some((y, m, d)) = date_parts(date) {
        lemma_parts_iso_text(date);
        assert(0 <= y <= 9999);
        assert(-800000 <= days_from_civil_spec(y, m, d) <= 3000000);
    }
}

/// A fresh manifest whose `expires` is `created` plus the default
/// lifetime, or `created` itself when that is not a `YYYY-MM-DD` date.
pub fn new_artifact_manifest(ticket: &str, created: &str, files: Vec<String>) -> (m: ArtifactManifest)
    ensures
        m.ticket@ == ticket@,
        m.created@ == created@,
        m.expires@ == match shifted(created@, DEFAULT_ARTIFACT_TTL_DAYS as int) {
            Some(e) => e,
            None => created@,
        },
        m.files@ == files@,
{
    proof {
        lemma_four_digit_shift_fits(created@, DEFAULT_ARTIFACT_TTL_DAYS as int);
    }
    let expires = match shift_iso_date(created, DEFAULT_ARTIFACT_TTL_DAYS) {
        Some(e) => e,
        None => string_of(chars_of(created).as_slice()),
    };
    ArtifactManifest {
        ticket: string_of(chars_of(ticket).as_slice()),
        created: string_of(chars_of(created).as_slice()),
        expires,
        files,
    }
}

// ---------------------------------------------------------------------
// The day count and the calendar undo each other
// ---------------------------------------------------------------------

/// A Gregorian leap year.
pub open spec fn leap_year(y: int) -> bool {
    y % 4 == 0 && (y % 100 != 0 || y % 400 == 0)
}

/// The number of days in month `m` of year `y`.
pub open spec fn month_len(y: int, m: int) -> int {
    if m == 2 {
        if leap_year(y) {
            29
        } else {
            28
        }
    } else if m == 4 || m == 6 || m == 9 || m == 11 {
        30
    } else {
        31
    }
}

/// `(y, m, d)` names a day of the calendar.
pub open spec fn real_ymd(y: int, m: int, d: int) -> bool {
    1 <= m <= 12 && 1 <= d <= month_len(y, m)
}

#[verifier::spinoff_prover]
#[verifier::rlimit(100)]
proof fn lemma_yoe_of_doe(doe: int)
    requires
        0 <= doe <= 146096,
    ensures
        ({
            let yoe = (doe - doe / 1460 + doe / 36524 - doe / 146096) / 365;
            &&& 0 <= yoe <= 399
            &&& 0 <= doe - (365 * yoe + yoe / 4 - yoe / 100) <= 365
        }),
{
}

#[verifier::spinoff_prover]
#[verifier::rlimit(100)]
proof fn lemma_doe_of_yoe(y: int, r: int)
    requires
        0 <= y <= 399,
        0 <= r,
        r < 365 + if leap_year(y + 1) {
            1int
        } else {
            0int
        },
    ensures
        ({
            let doe = 365 * y + y / 4 - y / 100 + r;
            (doe - doe / 1460 + doe / 36524 - doe / 146096) / 365 == y
        }),
{
}

#[verifier::spinoff_prover]
#[verifier::rlimit(100)]
proof fn lemma_day_of_year(mp: int, d: int, leap: bool)
    requires
        0 <= mp <= 11,
        1 <= d,
        d <= month_len(if leap { 2000int } else { 2001int }, if mp < 10 { mp + 3 } else { mp - 9 }),
    ensures
        ({
            let doy = (153 * mp + 2) / 5 + d - 1;
            &&& 0 <= doy
            &&& doy < 365 + if leap { 1int } else { 0int }
            &&& (5 * doy + 2) / 153 == mp
        }),
{
}

/// The calendar date `days_from_civil_spec` counts is the one
/// `civil_from_days` gives back.
#[verifier::spinoff_prover]
#[verifier::rlimit(50)]
pub proof fn lemma_civil_round_trip(y: int, m: int, d: int)
    requires
        real_ymd(y, m, d),
    ensures
        civil_from_days(days_from_civil_spec(y, m, d)) == (y, m, d),
{
    let y2 = if m <= 2 { y - 1 } else { y };
    let era = y2 / 400;
    let yoe = y2 % 400;
    let mp = (m + 9) % 12;
    let doy = (153 * mp + 2) / 5 + d - 1;
    let leap = leap_year(yoe + 1);
    assert(y2 == era * 400 + yoe);
    if m <= 2 {
        assert(leap_year(y) == leap);
    }
    assert(month_len(if leap { 2000int } else { 2001int }, if mp < 10 { mp + 3 } else { mp - 9 }) == month_len(y, m) || m > 2);
    lemma_day_of_year(mp, d, leap);
    lemma_doe_of_yoe(yoe, doy);
    let doe = 365 * yoe + yoe / 4 - yoe / 100 + doy;
    assert(0 <= doe <= 146096);
    let z2 = era * 146097 + doe;
    assert(z2 / 146097 == era);
    assert(z2 - era * 146097 == doe);
}

/// `civil_from_days` gives a date `days_from_civil_spec` counts back to
/// the same day, with a month in 1..=12 and a day in 1..=31.
#[verifier::spinoff_prover]
#[verifier::rlimit(100)]
pub proof fn lemma_days_round_trip(z: int)
    ensures
        ({
            let c = civil_from_days(z);
            &&& 1 <= c.1 <= 12
            &&& 1 <= c.2 <= 31
            &&& days_from_civil_spec(c.0, c.1, c.2) == z
        }),
{
    let z2 = z + 719468;
    let era = z2 / 146097;
    let doe = z2 - era * 146097;
    lemma_yoe_of_doe(doe);
    let yoe = (doe - doe / 1460 + doe / 36524 - doe / 146096) / 365;
    let y = yoe + era * 400;
    let doy = doe - (365 * yoe + yoe / 4 - yoe / 100);
    let mp = (5 * doy + 2) / 153;
    assert(0 <= mp <= 11);
    let dd = doy - (153 * mp + 2) / 5 + 1;
    assert(1 <= dd <= 31);
    let m = if mp < 10 { mp + 3 } else { mp - 9 };
    assert((m + 9) % 12 == mp);
    assert(y / 400 == era);
    assert(y % 400 == yoe);
}

/// The last `w` decimal digits of `n`, most significant first.
pub open spec fn digits_fixed(n: int, w: nat) -> Seq<char>
    decreases w,
{
    if w == 0 {
        seq![]
    } else {
        digits_fixed(n / 10, (w - 1) as nat).push(digit_c((n % 10) as nat))
    }
}

proof fn lemma_pad_dec(n: nat, w: nat)
    requires
        (w == 2 && n < 100) || (w == 4 && n < 10000),
    ensures
        pad0(dec(n), w) == digits_fixed(n as int, w),
{
    reveal_with_fuel(dec, 4);
    reveal_with_fuel(digits_fixed, 5);
    if n < 10 {
        assert(pad0(dec(n), w) =~= digits_fixed(n as int, w));
    } else if n < 100 {
        assert(pad0(dec(n), w) =~= digits_fixed(n as int, w));
    } else if n < 1000 {
        assert(pad0(dec(n), w) =~= digits_fixed(n as int, w));
    } else {
        assert(pad0(dec(n), w) =~= digits_fixed(n as int, w));
    }
}

proof fn lemma_fixed_digits(n: int, w: nat)
    requires
        0 <= n,
        (w == 2 && n < 100) || (w == 4 && n < 10000),
    ensures
        digits_val(digits_fixed(n, w)) == n,
        digits_fixed(n, w).len() == w,
        forall|k: int| 0 <= k < w ==> #[trigger] is_ascii_digit(digits_fixed(n, w)[k]),
{
    reveal_with_fuel(digits_fixed, 5);
    reveal_with_fuel(digits_val, 5);
    let s = digits_fixed(n, w);
    if w == 2 {
        assert(s.drop_last() =~= seq![digit_c(((n / 10) % 10) as nat)]);
        assert(s.drop_last().drop_last() =~= Seq::<char>::empty());
    } else {
        assert(s.drop_last().drop_last().drop_last().drop_last() =~= Seq::<char>::empty());
    }
}

proof fn lemma_digit_char(c: char)
    requires
        is_ascii_digit(c),
    ensures
        digit_c(((c as u32) - 48) as nat) == c,
{
}

proof fn lemma_digits_fixed_of(s: Seq<char>)
    requires
        s.len() == 2 || s.len() == 4,
        forall|k: int| 0 <= k < s.len() ==> #[trigger] is_ascii_digit(s[k]),
    ensures
        digits_fixed(digits_val(s), s.len()) == s,
        0 <= digits_val(s) < if s.len() == 2 { 100int } else { 10000int },
{
    reveal_with_fuel(digits_fixed, 5);
    reveal_with_fuel(digits_val, 5);
    let a = (s[0] as u32 - 48) as int;
    let b = (s[1] as u32 - 48) as int;
    assert(is_ascii_digit(s[0]) && is_ascii_digit(s[1]));
    lemma_digit_char(s[0]);
    lemma_digit_char(s[1]);
    if s.len() == 2 {
        assert(s.drop_last().drop_last() =~= Seq::<char>::empty());
        assert(digits_val(s.drop_last()) == a);
        let v = digits_val(s);
        assert(v == 10 * a + b);
        assert(v / 10 == a && v % 10 == b);
        assert((v / 10) / 10 == 0);
        assert(digits_fixed(v, 2) =~= seq![digit_c(a as nat), digit_c(b as nat)]);
        assert(digits_fixed(v, 2) =~= s);
    } else {
        let c = (s[2] as u32 - 48) as int;
        let e = (s[3] as u32 - 48) as int;
        assert(is_ascii_digit(s[2]) && is_ascii_digit(s[3]));
        lemma_digit_char(s[2]);
        lemma_digit_char(s[3]);
        assert(s.drop_last().drop_last().drop_last().drop_last() =~= Seq::<char>::empty());
        assert(s.drop_last().drop_last().drop_last() =~= seq![s[0]]);
        assert(s.drop_last().drop_last() =~= seq![s[0], s[1]]);
        assert(s.drop_last() =~= seq![s[0], s[1], s[2]]);
        let v = digits_val(s);
        assert(v == 1000 * a + 100 * b + 10 * c + e);
        assert(v / 10 == 100 * a + 10 * b + c && v % 10 == e);
        assert(v / 10 / 10 == 10 * a + b && (v / 10) % 10 == c);
        assert(v / 10 / 10 / 10 == a && (v / 10 / 10) % 10 == b);
        assert((v / 10 / 10 / 10) % 10 == a);
        assert(digits_fixed(v, 4) =~= seq![digit_c(a as nat), digit_c(b as nat), digit_c(c as nat), digit_c(e as nat)]);
        assert(digits_fixed(v, 4) =~= s);
    }
}

/// The text of a date with a four-digit year reads back as that date.
proof fn lemma_iso_text_parts(y: int, m: int, d: int)
    requires
        0 <= y <= 9999,
        1 <= m <= 12,
        1 <= d <= 31,
    ensures
        date_parts(iso_text(y, m, d)) == Some((y, m, d)),
{
    lemma_pad_dec(y as nat, 4);
    lemma_pad_dec(m as nat, 2);
    lemma_pad_dec(d as nat, 2);
    lemma_fixed_digits(y, 4);
    lemma_fixed_digits(m, 2);
    lemma_fixed_digits(d, 2);
    let t = iso_text(y, m, d);
    let fy = digits_fixed(y, 4);
    let fm = digits_fixed(m, 2);
    let fd = digits_fixed(d, 2);
    assert(t == fy + seq!['-'] + fm + seq!['-'] + fd);
    assert(t.subrange(0, 4) =~= fy);
    assert(t.subrange(5, 7) =~= fm);
    assert(t.subrange(8, 10) =~= fd);
    assert forall|i: int| 0 <= i < 10 && i != 4 && i != 7 implies #[trigger] is_ascii_digit(t[i]) by {
        if i < 4 {
            assert(t[i] == fy[i]);
        } else if i < 7 {
            assert(t[i] == fm[i - 5]);
        } else {
            assert(t[i] == fd[i - 8]);
        }
    }
}

/// A date's text is the text of its parts.
proof fn lemma_parts_iso_text(date: Seq<char>)
    requires
        date_parts(date).is_some(),
    ensures
        ({
            let (y, m, d) = date_parts(date).unwrap();
            &&& 0 <= y <= 9999
            &&& iso_text(y, m, d) == date
        }),
{
    let sy = date.subrange(0, 4);
    let sm = date.subrange(5, 7);
    let sd = date.subrange(8, 10);
    assert forall|k: int| 0 <= k < 4 implies #[trigger] is_ascii_digit(sy[k]) by {
        assert(sy[k] == date[k]);
    }
    assert forall|k: int| 0 <= k < 2 implies #[trigger] is_ascii_digit(sm[k]) by {
        assert(sm[k] == date[k + 5]);
    }
    assert forall|k: int| 0 <= k < 2 implies #[trigger] is_ascii_digit(sd[k]) by {
        assert(sd[k] == date[k + 8]);
    }
    lemma_digits_fixed_of(sy);
    lemma_digits_fixed_of(sm);
    lemma_digits_fixed_of(sd);
    let (y, m, d) = date_parts(date).unwrap();
    lemma_pad_dec(y as nat, 4);
    lemma_pad_dec(m as nat, 2);
    lemma_pad_dec(d as nat, 2);
    assert(iso_text(y, m, d) =~= date);
}

/// `date` is a `YYYY-MM-DD` day that exists on the calendar.
pub open spec fn real_date(date: Seq<char>) -> bool {
    match date_parts(date) {
        Some((y, m, d)) => real_ymd(y, m, d),
        None => false,
    }
}

/// The year of `date` shifted by `days`.
pub open spec fn shifted_year(date: Seq<char>, days: int) -> int {
    match date_parts(date) {
        Some((y, m, d)) => civil_from_days(days_from_civil_spec(y, m, d) + days).0,
        None => 0,
    }
}

/// Shifting a real date by `days` and the result back by `-days` gives
/// the date again, when the shifted date still has a four-digit year; the
/// shift back stays inside the range the day arithmetic can hold.
pub proof fn law_shift_round_trip(date: Seq<char>, days: int)
    requires
        real_date(date),
        shift_fits(date, days),
        0 <= shifted_year(date, days) <= 9999,
    ensures
        shifted(date, days) matches Some(t) && shift_fits(t, -days) && shifted(t, -days) == Some(date),
{
    let (y, m, d) = date_parts(date).unwrap();
    let z0 = days_from_civil_spec(y, m, d);
    let c = civil_from_days(z0 + days);
    lemma_days_round_trip(z0 + days);
    lemma_iso_text_parts(c.0, c.1, c.2);
    let t = iso_text(c.0, c.1, c.2);
    assert(shifted(date, days) == Some(t));
    assert(days_from_civil_spec(c.0, c.1, c.2) + (-days) == z0);
    lemma_parts_iso_text(date);
    lemma_civil_round_trip(y, m, d);
    assert(0 <= y <= 9999);
    assert(-1000000 <= z0 <= 10000000);
}

} // verus!
