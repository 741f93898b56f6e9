//! Project naming and where a project keeps its own configuration.
use vstd::prelude::*;
use crate::error::Error;
use crate::paths::{join_path, path_join};
use crate::pipeline::graph::strs;
use crate::recipe::has_dotdot;
use crate::refresh::in_tree;
use crate::text::{
    chars_of, char_is_control, dec_u64, is_control, push_all, push_str, starts_with, string_of, trim_char,
    trim_char_str, trim_start_char, trim_start_char_vec, trim_vec, trim_ws, vec_eq,
};

verus! {

/// The folder inside a project that holds Ken's state for it.
pub const CONFIG_DIR: &'static str = ".ken";

pub const CONFIG_FILE: &'static str = "project.json";

/// Upper bound on a project name's length, in characters.
pub const NAME_MAX_LEN: usize = 200;

/// `<root>/.ken/project.json`.
pub fn config_path(root: &str) -> (r: String)
    ensures
        r@ == join_path(join_path(root@, CONFIG_DIR@), CONFIG_FILE@),
{
    let d = path_join(root, CONFIG_DIR);
    path_join(d.as_str(), CONFIG_FILE)
}

/// Some character of `s` is a control character.
pub open spec fn has_control(s: Seq<char>) -> bool {
    exists|i: int| 0 <= i < s.len() && #[trigger] is_control(s[i])
}

pub open spec fn too_long_message() -> Seq<char> {
    "project name is too long (max "@ + crate::text::dec(NAME_MAX_LEN as nat) + " characters)"@
}

/// Trim and validate a project name: refused when empty, longer than
/// `NAME_MAX_LEN` characters, or holding a control character (checked in
/// that order); else the trimmed name.
pub fn normalize_name(raw: &str) -> (r: Result<String, Error>)
    ensures
        trim_ws(raw@).len() == 0 ==> (r matches Err(Error::Other(m)) && m@
            == "project name cannot be empty"@),
        trim_ws(raw@).len() > 0 && trim_ws(raw@).len() > NAME_MAX_LEN ==> (r matches Err(
            Error::Other(m),
        ) && m@ == too_long_message()),
        0 < trim_ws(raw@).len() <= NAME_MAX_LEN && has_control(trim_ws(raw@)) ==> (r matches Err(
            Error::Other(m),
        ) && m@ == "project name cannot contain control characters"@),
        0 < trim_ws(raw@).len() <= NAME_MAX_LEN && !has_control(trim_ws(raw@)) ==> (r matches Ok(
            s,
        ) && s@ == trim_ws(raw@)),
{
    let t = trim_vec(&chars_of(raw));
    if t.len() == 0 {
        return Err(Error::Other(string_of(chars_of("project name cannot be empty").as_slice())));
    }
    if t.len() > NAME_MAX_LEN {
        let mut m: Vec<char> = Vec::new();
        push_str(&mut m, "project name is too long (max ");
        let n = dec_u64(NAME_MAX_LEN as u64);
        push_all(&mut m, &n);
        push_str(&mut m, " characters)");
        return Err(Error::Other(string_of(m.as_slice())));
    }
    let mut i: usize = 0;
    while i < t.len()
        invariant
            i <= t.len(),
            t@ == trim_ws(raw@),
            0 < t.len() <= NAME_MAX_LEN,
            forall|j: int| 0 <= j < i ==> !#[trigger] is_control(t@[j]),
        decreases t.len() - i,
    {
        if char_is_control(t[i]) {
            return Err(
                Error::Other(string_of(chars_of("project name cannot contain control characters").as_slice())),
            );
        }
        i = i + 1;
    }
    Ok(string_of(t.as_slice()))
}

/// `rel_path` (leading slashes ignored) lies in an excluded folder;
/// blank entries exclude nothing.
pub open spec fn excluded_by(excluded: Seq<String>, rel_path: Seq<char>) -> bool {
    exists|i: int|
        0 <= i < excluded.len() && trim_char(#[trigger] excluded[i]@, '/').len() > 0 && in_tree(
            trim_start_char(rel_path, '/'),
            trim_char(excluded[i]@, '/'),
        )
}

/// Whether a project-relative path is inside one of the `excluded`
/// folders.
pub fn is_excluded(excluded: &[String], rel_path: &str) -> (r: bool)
    ensures
        r == excluded_by(excluded@, rel_path@),
{
    let rel = trim_start_char_vec(&chars_of(rel_path), '/');
    let mut i: usize = 0;
    while i < excluded.len()
        invariant
            i <= excluded.len(),
            rel@ == trim_start_char(rel_path@, '/'),
            forall|k: int|
                0 <= k < i ==> !(trim_char(#[trigger] excluded@[k]@, '/').len() > 0 && in_tree(
                    trim_start_char(rel_path@, '/'),
                    trim_char(excluded@[k]@, '/'),
                )),
        decreases excluded.len() - i,
    {
        let ex = trim_char_str(excluded[i].as_str(), '/');
        if ex.len() > 0 {
            let mut dir = ex.clone();
            dir.push('/');
            assert(dir@ =~= ex@ + "/"@) by {
                reveal_strlit("/");
            }
            if vec_eq(&rel, &ex) || starts_with(&rel, &dir) {
                return true;
            }
        }
        i = i + 1;
    }
    false
}

/// The exclusion set: the user's own entries, then (when the profiler is
/// on) each profile entry not already present. Additive only.
pub open spec fn union_excludes(user: Seq<Seq<char>>, profile: Seq<Seq<char>>, n: int) -> Seq<Seq<char>>
    decreases n,
{
    if n <= 0 {
        user
    } else {
        let prev = union_excludes(user, profile, n - 1);
        if prev.contains(profile[n - 1]) {
            prev
        } else {
            prev.push(profile[n - 1])
        }
    }
}

fn contains_str(v: &Vec<String>, s: &String) -> (r: bool)
    ensures
        r == strs(v@).contains(s@),
{
    let mut i: usize = 0;
    while i < v.len()
        invariant
            i <= v.len(),
            forall|k: int| 0 <= k < i ==> v@[k]@ != s@,
        decreases v.len() - i,
    {
        if crate::text::str_eq(v[i].as_str(), s.as_str()) {
            assert(strs(v@)[i as int] == s@);
            return true;
        }
        i = i + 1;
    }
    proof {
        if strs(v@).contains(s@) {
            let k = choose|k: int| 0 <= k < strs(v@).len() && strs(v@)[k] == s@;
            assert(v@[k]@ == s@);
        }
    }
    false
}

/// The effective exclusion set: `excluded`, plus the profile's entries
/// when the profiler is enabled, never duplicating an entry.
pub fn effective_excluded(excluded: &[String], profiler_enabled: bool, profile_excludes: &[String]) -> (r: Vec<String>)
    ensures
        strs(r@) == if profiler_enabled {
            union_excludes(strs(excluded@), strs(profile_excludes@), profile_excludes@.len() as int)
        } else {
            strs(excluded@)
        },
{
    let mut set = crate::pipeline::graph::slice_strings(excluded);
    if !profiler_enabled {
        return set;
    }
    let mut i: usize = 0;
    while i < profile_excludes.len()
        invariant
            i <= profile_excludes.len(),
            strs(set@) == union_excludes(strs(excluded@), strs(profile_excludes@), i as int),
        decreases profile_excludes.len() - i,
    {
        let ex = &profile_excludes[i];
        assert(strs(profile_excludes@)[i as int] == ex@);
        if !contains_str(&set, ex) {
            let ghost before = set@;
            set.push(ex.clone());
            assert(strs(set@) =~= strs(before).push(ex@));
        }
        i = i + 1;
    }
    set
}

/// A project-relative path that would leave the project: rooted, or with
/// a `..` component.
pub open spec fn escapes(rel_path: Seq<char>) -> bool {
    (rel_path.len() > 0 && rel_path[0] == '/') || has_dotdot(rel_path)
}

/// Whether resolving `rel_path` against the project root would escape
/// the project.
pub fn escapes_project(rel_path: &str) -> (r: bool)
    ensures
        r == escapes(rel_path@),
{
    let v = chars_of(rel_path);
    (v.len() > 0 && v[0] == '/') || crate::recipe::dotdot_in(&v)
}

} // verus!
