//! Calendar arithmetic for `YYYY-MM-DD` dates: the strict parse and the
//! day count since 1970-01-01 that journal archiving compares.
use vstd::prelude::*;
use vstd::arithmetic::div_mod::{lemma_fundamental_div_mod, lemma_fundamental_div_mod_converse};
use crate::knowledge_model::first_index;
use crate::text::{
    all_digits, chars_of, digits_val, is_ascii_digit, lemma_digits_val_mono, lemma_digits_val_nonneg,
    sub_vec,
};

verus! {

/// Days since 1970-01-01 of the proleptic-Gregorian date `(y, m, d)`,
/// counted from eras of 400 years that begin on the first of March.
pub open spec fn days_from_civil_spec(y: int, m: int, d: int) -> int {
    let y2 = if m <= 2 {
        y - 1
    } else {
        y
    };
    let era = y2 / 400;
    let yoe = y2 % 400;
    let mp = (m + 9) % 12;
    let doy = (153 * mp + 2) / 5 + d - 1;
    let doe = yoe * 365 + yoe / 4 - yoe / 100 + doy;
    era * 146097 + doe - 719468
}

proof fn lemma_shifted_div(y: int, shift: int, q: int, r: int)
    requires
        shift >= 0,
        y + 400 * shift == 400 * q + r,
        0 <= r < 400,
    ensures
        y / 400 == q - shift,
        y % 400 == r,
{
    assert(y == (q - shift) * 400 + r) by (nonlinear_arith)
        requires
            y + 400 * shift == 400 * q + r,
    ;
    lemma_fundamental_div_mod_converse(y, 400, q - shift, r);
}

/// The day count of a date whose month and day are in range; any year
/// an `i64` holds.
pub fn days_from_civil(y: i64, m: i64, d: i64) -> (r: i128)
    requires
        1 <= m <= 12,
        1 <= d <= 31,
    ensures
        r == days_from_civil_spec(y as int, m as int, d as int),
{
    let y2: i128 = if m <= 2 {
        y as i128 - 1
    } else {
        y as i128
    };
    // Shifted by a whole number of eras so that the division is over a
    // non-negative number and rounds down.
    let shift: i128 = 36028797018963968;
    let big: u128 = (y2 + 400 * shift) as u128;
    let q: u128 = big / 400;
    let rem: u128 = big % 400;
    proof {
        lemma_fundamental_div_mod(big as int, 400);
        lemma_shifted_div(y2 as int, shift as int, q as int, rem as int);
    }
    let era: i128 = q as i128 - shift;
    let mp: u64 = ((m as u64) + 9) % 12;
    let doy: i128 = ((153 * mp + 2) / 5) as i128 + d as i128 - 1;
    let doe: i128 = (rem * 365 + rem / 4 - rem / 100) as i128 + doy;
    era * 146097 + doe - 719468
}

/// `s.parse::<i64>()`: an optional `+` or `-`, then one or more ASCII
/// digits, with a value that fits.
pub open spec fn parse_i64_spec(s: Seq<char>) -> Option<int> {
    let signed = s.len() > 0 && (s[0] == '+' || s[0] == '-');
    let t = if signed {
        s.drop_first()
    } else {
        s
    };
    let v = if s.len() > 0 && s[0] == '-' {
        -digits_val(t)
    } else {
        digits_val(t)
    };
    if t.len() == 0 || !all_digits(t) || v < i64::MIN || v > i64::MAX {
        None
    } else {
        Some(v)
    }
}

pub fn parse_i64(s: &Vec<char>) -> (r: Option<i64>)
    ensures
        match r {
            Some(x) => parse_i64_spec(s@) == Some(x as int),
            None => parse_i64_spec(s@).is_none(),
        },
{
    let neg = s.len() > 0 && s[0] == '-';
    let start: usize = if s.len() > 0 && (s[0] == '+' || s[0] == '-') {
        1
    } else {
        0
    };
    let ghost t = if s@.len() > 0 && (s@[0] == '+' || s@[0] == '-') {
        s@.drop_first()
    } else {
        s@
    };
    assert(t =~= s@.skip(start as int));
    if start == s.len() {
        return None;
    }
    let limit: u128 = 9223372036854775808;
    let mut v: u128 = 0;
    let mut i: usize = start;
    while i < s.len()
        invariant
            start <= i <= s.len(),
            t == s@.skip(start as int),
            t == (if s@.len() > 0 && (s@[0] == '+' || s@[0] == '-') {
                s@.drop_first()
            } else {
                s@
            }),
            forall|k: int| start <= k < i ==> #[trigger] is_ascii_digit(s@[k]),
            v == digits_val(s@.subrange(start as int, i as int)),
            v <= 9223372036854775808u128,
        decreases s.len() - i,
    {
        let u = s[i] as u32;
        if !(48 <= u && u <= 57) {
            assert(t[i - start] == s@[i as int]);
            assert(!is_ascii_digit(t[i - start]));
            assert(!all_digits(t));
            return None;
        }
        assert(s@.subrange(start as int, i + 1).drop_last() =~= s@.subrange(start as int, i as int));
        let nv = v * 10 + ((u - 48) as u128);
        assert(nv == digits_val(s@.subrange(start as int, i + 1)));
        if nv > 9223372036854775808u128 {
            proof {
                assert(s@.subrange(start as int, i + 1) =~= t.take(i + 1 - start));
                if all_digits(t) {
                    lemma_digits_val_mono(t, i + 1 - start);
                }
            }
            return None;
        }
        v = nv;
        i = i + 1;
    }
    assert(s@.subrange(start as int, s.len() as int) =~= t);
    assert(v == digits_val(t));
    assert(t.len() > 0);
    assert(all_digits(t)) by {
        assert forall|k: int| 0 <= k < t.len() implies #[trigger] is_ascii_digit(t[k]) by {
            assert(t[k] == s@[start + k]);
        }
    }
    if neg {
        if v == limit {
            Some(-9223372036854775807i64 - 1)
        } else {
            Some(-(v as i64))
        }
    } else {
        if v == limit {
            None
        } else {
            Some(v as i64)
        }
    }
}

/// The three fields of `s.splitn(3, '-')`, when there are three.
pub open spec fn date_fields(s: Seq<char>) -> Option<(Seq<char>, Seq<char>, Seq<char>)> {
    match first_index(s, '-', 0) {
        Some(i) => {
            let rest = s.skip(i + 1);
            match first_index(rest, '-', 0) {
                Some(j) => Some((s.take(i), rest.take(j), rest.skip(j + 1))),
                None => None,
            }
        },
        None => None,
    }
}

/// A strict `YYYY-MM-DD` date as a day count: three `-`-separated
/// integers, the month 1 to 12 and the day 1 to 31.
pub open spec fn parse_iso_date_spec(s: Seq<char>) -> Option<int> {
    match date_fields(s) {
        Some((a, b, c)) => match (parse_i64_spec(a), parse_i64_spec(b), parse_i64_spec(c)) {
            (Some(y), Some(m), Some(d)) => if 1 <= m <= 12 && 1 <= d <= 31 {
                Some(days_from_civil_spec(y, m, d))
            } else {
                None
            },
            _ => None,
        },
        None => None,
    }
}

fn dash_from(v: &Vec<char>, from: usize) -> (r: Option<usize>)
    requires
        from <= v.len(),
    ensures
        r matches Some(a) ==> from <= a < v.len(),
        match first_index(v@.skip(from as int), '-', 0) {
            Some(j) => r matches Some(a) && a == from + j,
            None => r.is_none(),
        },
{
    let ghost w = v@.skip(from as int);
    let mut a: usize = from;
    while a < v.len() && v[a] != '-'
        invariant
            from <= a <= v.len(),
            w == v@.skip(from as int),
            first_index(w, '-', 0) == first_index(w, '-', a - from),
        decreases v.len() - a,
    {
        assert(w[a - from] == v@[a as int]);
        a = a + 1;
    }
    if a == v.len() {
        None
    } else {
        assert(w[a - from] == v@[a as int]);
        Some(a)
    }
}

/// Parse a strict `YYYY-MM-DD` date into its day count since 1970-01-01.
pub fn parse_iso_date(s: &str) -> (r: Option<i128>)
    ensures
        match r {
            Some(x) => parse_iso_date_spec(s@) == Some(x as int),
            None => parse_iso_date_spec(s@).is_none(),
        },
{
    let v = chars_of(s);
    assert(v@.skip(0) =~= v@);
    let i = match dash_from(&v, 0) {
        Some(i) => i,
        None => {
            assert(first_index(s@, '-', 0).is_none());
            return None;
        },
    };
    assert(first_index(s@, '-', 0) == Some(i as int));
    let ghost rest = v@.skip(i + 1);
    let j = match dash_from(&v, i + 1) {
        Some(j) => j,
        None => {
            assert(first_index(rest, '-', 0).is_none());
            return None;
        },
    };
    assert(first_index(rest, '-', 0) == Some(j - i - 1));
    let a = sub_vec(&v, 0, i);
    let b = sub_vec(&v, i + 1, j);
    let c = sub_vec(&v, j + 1, v.len());
    assert(a@ =~= v@.take(i as int));
    assert(b@ =~= rest.take(j - i - 1));
    assert(c@ =~= rest.skip(j - i));
    let y = match parse_i64(&a) {
        Some(y) => y,
        None => return None,
    };
    let m = match parse_i64(&b) {
        Some(m) => m,
        None => return None,
    };
    let d = match parse_i64(&c) {
        Some(d) => d,
        None => return None,
    };
    if !(1 <= m && m <= 12 && 1 <= d && d <= 31) {
        return None;
    }
    Some(days_from_civil(y, m, d))
}

} // verus!
