//! Filesystem paths, held as strings and joined the way `Path::join`
//! joins them, so that every path the library builds is a plain value a
//! caller can compare.
use vstd::prelude::*;
use crate::pipeline::graph::strs;
use crate::text::{chars_of, dec, dec_u64, digits_val, push_all, push_str, string_of, vec_eq};

verus! {

/// The folder, directly under the workspace root, that holds Ken's own
/// state (pipelines, runs, artifacts, memory).
pub const CONFIG_DIR: &'static str = ".ken-workspace";

/// `Path::new(base).join(comp)`: an absolute `comp` replaces `base`;
/// otherwise one `/` separates them unless `base` is empty or already ends
/// in one.
pub open spec fn join_path(base: Seq<char>, comp: Seq<char>) -> Seq<char> {
    if comp.len() > 0 && comp[0] == '/' {
        comp
    } else if base.len() == 0 || base.last() == '/' {
        base + comp
    } else {
        base + seq!['/'] + comp
    }
}

pub fn path_join(base: &str, comp: &str) -> (r: String)
    ensures
        r@ == join_path(base@, comp@),
{
    let c = chars_of(comp);
    if c.len() > 0 && c[0] == '/' {
        return string_of(c.as_slice());
    }
    let mut b = chars_of(base);
    if !(b.len() == 0 || b[b.len() - 1] == '/') {
        b.push('/');
    }
    push_str(&mut b, comp);
    string_of(b.as_slice())
}

/// `<root>/.ken-workspace/<sub>`.
pub open spec fn config_sub(root: Seq<char>, sub: Seq<char>) -> Seq<char> {
    join_path(join_path(root, CONFIG_DIR@), sub)
}

pub fn config_sub_dir(root: &str, sub: &str) -> (r: String)
    ensures
        r@ == config_sub(root@, sub@),
{
    let c = path_join(root, CONFIG_DIR);
    path_join(c.as_str(), sub)
}

/// `format!("{stem}.{ext}")`.
pub open spec fn with_ext(stem: Seq<char>, ext: Seq<char>) -> Seq<char> {
    stem + seq!['.'] + ext
}

pub fn file_name(stem: &str, ext: &str) -> (r: String)
    ensures
        r@ == with_ext(stem@, ext@),
{
    let mut v = chars_of(stem);
    v.push('.');
    push_str(&mut v, ext);
    string_of(v.as_slice())
}


/// The `k`-th name tried for a new file: `<stem>.<ext>` first, then
/// `<stem><sep>2.<ext>`, `<stem><sep>3.<ext>`, and so on.
pub open spec fn numbered(stem: Seq<char>, sep: Seq<char>, ext: Seq<char>, k: nat) -> Seq<char> {
    if k <= 1 {
        stem + "."@ + ext
    } else {
        stem + sep + dec(k) + "."@ + ext
    }
}

/// The first name of that series that `taken` does not hold.
pub open spec fn first_free(taken: Seq<Seq<char>>, stem: Seq<char>, sep: Seq<char>, ext: Seq<char>, k: nat) -> bool {
    &&& k >= 1
    &&& !taken.contains(numbered(stem, sep, ext, k))
    &&& forall|j: nat| 1 <= j < k ==> taken.contains(#[trigger] numbered(stem, sep, ext, j))
}

/// Decimal digits read back give the number.
pub proof fn lemma_dec_digits(n: nat)
    ensures
        digits_val(dec(n)) == n,
        dec(n).len() >= 1,
    decreases n,
{
    if n < 10 {
        assert(n % 16 == n);
        assert(dec(n).drop_last() =~= Seq::<char>::empty());
        assert(dec(n).last() == ((n + 48) as char));
        assert(((n + 48) as char) as u32 == n + 48);
        assert(digits_val(dec(n)) == digits_val(dec(n).drop_last()) * 10 + ((dec(n).last() as u32) - 48));
    } else {
        lemma_dec_digits(n / 10);
        let d = n % 10;
        assert(d % 16 == d);
        assert(dec(n).drop_last() =~= dec(n / 10));
        assert(dec(n).last() == ((d + 48) as char));
        assert(((d + 48) as char) as u32 == d + 48);
        vstd::arithmetic::div_mod::lemma_fundamental_div_mod(n as int, 10);
        assert(digits_val(dec(n)) == digits_val(dec(n / 10)) * 10 + d);
    }
}

proof fn lemma_numbered_injective(stem: Seq<char>, sep: Seq<char>, ext: Seq<char>, a: nat, b: nat)
    requires
        sep.len() == 1,
        sep[0] != '.',
        1 <= a,
        1 <= b,
        a != b,
    ensures
        numbered(stem, sep, ext, a) != numbered(stem, sep, ext, b),
{
    reveal_strlit(".");
    let na = numbered(stem, sep, ext, a);
    let nb = numbered(stem, sep, ext, b);
    if a == 1 || b == 1 {
        let (one, other) = if a == 1 { (na, nb) } else { (nb, na) };
        lemma_dec_digits(if a == 1 { b } else { a });
        assert(one[stem.len() as int] == '.');
        assert(other[stem.len() as int] == sep[0]);
    } else {
        lemma_dec_digits(a);
        lemma_dec_digits(b);
        if na == nb {
            let tail = "."@ + ext;
            assert(na.len() == nb.len());
            assert(dec(a).len() == dec(b).len());
            let lo = stem.len() + 1;
            assert(na.subrange(lo as int, (lo + dec(a).len()) as int) =~= dec(a));
            assert(nb.subrange(lo as int, (lo + dec(b).len()) as int) =~= dec(b));
            assert(dec(a) == dec(b));
        }
    }
}

/// If the first `n` names of the series are all taken, there are at least
/// `n` distinct taken names.
proof fn lemma_taken_bound(taken: Seq<Seq<char>>, stem: Seq<char>, sep: Seq<char>, ext: Seq<char>, n: nat)
    requires
        sep.len() == 1,
        sep[0] != '.',
        forall|j: nat| 1 <= j <= n ==> taken.contains(#[trigger] numbered(stem, sep, ext, j)),
    ensures
        n <= taken.len(),
{
    let x = vstd::set_lib::set_int_range(1, n as int + 1);
    vstd::set_lib::lemma_int_range(1, n as int + 1);
    let f = |k: int| numbered(stem, sep, ext, k as nat);
    assert(vstd::relations::injective_on(f, x)) by {
        assert forall|a: int, b: int| x.contains(a) && x.contains(b) && #[trigger] f(a) == #[trigger] f(b) implies a == b by {
            if a != b {
                lemma_numbered_injective(stem, sep, ext, a as nat, b as nat);
            }
        }
    }
    let y = x.map(f);
    vstd::set_lib::lemma_map_size(x, y, f);
    assert(y.subset_of(taken.to_set())) by {
        assert forall|s: Seq<char>| y.contains(s) implies taken.to_set().contains(s) by {
            let k = choose|k: int| x.contains(k) && f(k) == s;
            assert(taken.contains(numbered(stem, sep, ext, k as nat)));
        }
    }
    taken.lemma_cardinality_of_set();
    vstd::seq_lib::seq_to_set_is_finite(taken);
    vstd::set_lib::lemma_len_subset(y, taken.to_set());
}

fn numbered_name(stem: &str, sep: &str, ext: &str, k: u64) -> (r: Vec<char>)
    ensures
        r@ == numbered(stem@, sep@, ext@, k as nat),
{
    let mut v = chars_of(stem);
    if k > 1 {
        push_str(&mut v, sep);
        push_all(&mut v, &dec_u64(k));
    }
    push_str(&mut v, ".");
    push_str(&mut v, ext);
    v
}

fn holds(taken: &[String], name: &Vec<char>) -> (r: bool)
    ensures
        r == strs(taken@).contains(name@),
{
    let mut i: usize = 0;
    while i < taken.len()
        invariant
            i <= taken.len(),
            forall|k: int| 0 <= k < i ==> taken@[k]@ != name@,
        decreases taken.len() - i,
    {
        if vec_eq(&chars_of(taken[i].as_str()), name) {
            assert(strs(taken@)[i as int] == name@);
            return true;
        }
        i = i + 1;
    }
    proof {
        if strs(taken@).contains(name@) {
            let k = choose|k: int| 0 <= k < strs(taken@).len() && strs(taken@)[k] == name@;
            assert(taken@[k]@ == name@);
        }
    }
    false
}

/// The first name of the series `<stem>.<ext>`, `<stem><sep>2.<ext>`, ...
/// that `taken` does not hold. `sep` is one character other than `.`.
pub fn first_free_name(taken: &[String], stem: &str, sep: &str, ext: &str) -> (r: String)
    requires
        sep@.len() == 1,
        sep@[0] != '.',
        taken@.len() < u64::MAX,
    ensures
        exists|k: nat| first_free(strs(taken@), stem@, sep@, ext@, k) && r@ == numbered(stem@, sep@, ext@, k),
{
    let ghost t = strs(taken@);
    let mut k: u64 = 1;
    let mut name = numbered_name(stem, sep, ext, 1);
    while holds(taken, &name)
        invariant
            1 <= k <= taken@.len() + 1,
            t == strs(taken@),
            taken@.len() < u64::MAX,
            sep@.len() == 1,
            sep@[0] != '.',
            name@ == numbered(stem@, sep@, ext@, k as nat),
            forall|j: nat| 1 <= j < k ==> t.contains(#[trigger] numbered(stem@, sep@, ext@, j)),
        decreases taken@.len() + 1 - k,
    {
        proof {
            assert forall|j: nat| 1 <= j <= k implies t.contains(#[trigger] numbered(stem@, sep@, ext@, j)) by {}
            lemma_taken_bound(t, stem@, sep@, ext@, k as nat);
        }
        k = k + 1;
        name = numbered_name(stem, sep, ext, k);
    }
    string_of(name.as_slice())
}

} // verus!
