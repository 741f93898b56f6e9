//! Ingest recipes: where they live, their small vocabularies, and the
//! frontmatter split every recipe file goes through.
use vstd::prelude::*;
use crate::paths::{join_path, path_join, with_ext, file_name};
use crate::error::Error;
use crate::text::{chars_of, has_prefix, push_all, push_str, starts_with, string_of, sub_vec, trim_vec, trim_ws};

verus! {

/// Where a project's recipes live, relative to its root.
pub const INGESTS_DIR: &'static str = ".ken/ingests";

#[derive(Debug, Clone, Copy, PartialEq, Eq, Structural)]
pub enum Mode {
    Single,
    Collection,
}

#[derive(Debug, Clone, Copy, PartialEq, Eq, Structural)]
pub enum Refresh {
    OnChange,
    Manual,
}

/// Recipe-level overrides of the review rules.
#[derive(Debug, Clone, Copy, PartialEq, Eq, Structural, Default)]
pub struct RulesOverride {
    pub review_threshold_pct: Option<u8>,
    pub stale_days: Option<u32>,
}

#[derive(Debug, Clone, Copy, PartialEq, Eq, Structural)]
pub struct ResolvedRules {
    pub review_threshold_pct: u8,
    pub stale_days: u32,
}

/// The rules when neither project nor recipe overrides them.
pub fn default_rules() -> (r: ResolvedRules)
    ensures
        r.review_threshold_pct == 20 && r.stale_days == 30,
{
    ResolvedRules { review_threshold_pct: 20, stale_days: 30 }
}

/// `<root>/.ken/ingests`.
pub fn ingests_dir(root: &str) -> (r: String)
    ensures
        r@ == join_path(root@, INGESTS_DIR@),
{
    path_join(root, INGESTS_DIR)
}

/// `<root>/.ken/ingests/<slug>.md`.
pub fn recipe_path(root: &str, slug: &str) -> (r: String)
    ensures
        r@ == join_path(join_path(root@, INGESTS_DIR@), with_ext(slug@, "md"@)),
{
    let d = ingests_dir(root);
    let f = file_name(slug, "md");
    path_join(d.as_str(), f.as_str())
}

/// The first index from `i` at which `"\n---"` starts in `s`.
pub open spec fn fence_from(s: Seq<char>, i: int) -> Option<int>
    decreases s.len() - i,
{
    if i < 0 || i + 4 > s.len() {
        None
    } else if s.subrange(i, i + 4) == "\n---"@ {
        Some(i)
    } else {
        fence_from(s, i + 1)
    }
}

/// `raw` after a leading `---` and one line break (`\n` or `\r\n`).
pub open spec fn after_open(raw: Seq<char>) -> Option<Seq<char>> {
    if raw.len() >= 3 && raw.subrange(0, 3) == "---"@ {
        let rest = raw.skip(3);
        if rest.len() >= 1 && rest[0] == '\n' {
            Some(rest.skip(1))
        } else if rest.len() >= 2 && rest[0] == '\r' && rest[1] == '\n' {
            Some(rest.skip(2))
        } else {
            None
        }
    } else {
        None
    }
}

/// Frontmatter (through its last line break) and body (one line break
/// after the closing `---` dropped), or `None` without both fences.
pub open spec fn frontmatter_split(raw: Seq<char>) -> Option<(Seq<char>, Seq<char>)> {
    match after_open(raw) {
        Some(rest) => match fence_from(rest, 0) {
            Some(end) => {
                let after = rest.skip(end + 4);
                Some(
                    (
                        rest.take(end + 1),
                        if after.len() > 0 && after[0] == '\n' {
                            after.skip(1)
                        } else {
                            after
                        },
                    ),
                )
            },
            None => None,
        },
        None => None,
    }
}

fn fence_at(s: &Vec<char>, i: usize) -> (r: bool)
    requires
        i + 4 <= s.len(),
    ensures
        r == (s@.subrange(i as int, i + 4) == "\n---"@),
{
    proof {
        reveal_strlit("\n---");
    }
    let r = s[i] == '\n' && s[i + 1] == '-' && s[i + 2] == '-' && s[i + 3] == '-';
    let ghost sub = s@.subrange(i as int, i + 4);
    assert(sub[0] == s@[i as int] && sub[1] == s@[i + 1] && sub[2] == s@[i + 2] && sub[3] == s@[i + 3]);
    assert(r ==> sub =~= "\n---"@);
    assert(sub == "\n---"@ ==> r) by {
        if sub == "\n---"@ {
            assert("\n---"@[0] == '\n');
            assert("\n---"@[1] == '-');
        }
    }
    r
}

/// Split a recipe file into its frontmatter and body.
pub fn split_frontmatter(raw: &str) -> (r: Option<(String, String)>)
    ensures
        match r {
            Some((fm, body)) => frontmatter_split(raw@) == Some((fm@, body@)),
            None => frontmatter_split(raw@).is_none(),
        },
{
    proof {
        reveal_strlit("---");
    }
    let v = chars_of(raw);
    if !(v.len() >= 3 && v[0] == '-' && v[1] == '-' && v[2] == '-') {
        assert(!(v@.len() >= 3 && v@.subrange(0, 3) == "---"@) ) by {
            if v@.len() >= 3 && v@.subrange(0, 3) == "---"@ {
                assert(v@.subrange(0, 3)[0] == '-');
                assert(v@.subrange(0, 3)[1] == '-');
                assert(v@.subrange(0, 3)[2] == '-');
            }
        }
        return None;
    }
    assert(v@.subrange(0, 3) =~= "---"@);
    let start: usize = if v.len() >= 4 && v[3] == '\n' {
        4
    } else if v.len() >= 5 && v[3] == '\r' && v[4] == '\n' {
        5
    } else {
        return None;
    };
    let rest = sub_vec(&v, start, v.len());
    assert(rest@ =~= after_open(raw@).unwrap());
    let mut i: usize = 0;
    assert(fence_from(rest@, 0) == fence_from(rest@, 0));
    while i < rest.len() && rest.len() - i >= 4 && !fence_at(&rest, i)
        invariant
            i <= rest.len(),
            fence_from(rest@, 0) == fence_from(rest@, i as int),
        decreases rest.len() - i,
    {
        i = i + 1;
    }
    if i >= rest.len() || rest.len() - i < 4 {
        return None;
    }
    let fm = sub_vec(&rest, 0, i + 1);
    let after = sub_vec(&rest, i + 4, rest.len());
    let body = if after.len() > 0 && after[0] == '\n' {
        sub_vec(&after, 1, after.len())
    } else {
        after
    };
    assert(fm@ =~= rest@.take(i + 1));
    assert(after@ =~= rest@.skip(i + 4));
    proof {
        if after@.len() > 0 && after@[0] == '\n' {
            assert(body@ =~= after@.skip(1));
        }
    }
    Some((string_of(fm.as_slice()), string_of(body.as_slice())))
}

/// One ingest: where it reads, where it writes, and what it asks for.
#[derive(Debug, Clone, PartialEq, Eq)]
pub struct Recipe {
    pub slug: String,
    pub name: String,
    pub description: String,
    /// Source folders (project-relative). Empty: every included folder.
    pub sources: Vec<String>,
    pub output: String,
    pub mode: Mode,
    pub refresh: Refresh,
    pub rules: Option<RulesOverride>,
    pub instruction: String,
}

impl Recipe {
    /// A brand-new recipe.
    pub fn build(
        slug: String,
        name: String,
        description: String,
        sources: Vec<String>,
        output: String,
        mode: Mode,
        refresh: Refresh,
        rules: Option<RulesOverride>,
        instruction: String,
    ) -> (r: Recipe)
        ensures
            r == (Recipe { slug, name, description, sources, output, mode, refresh, rules, instruction }),
    {
        Recipe { slug, name, description, sources, output, mode, refresh, rules, instruction }
    }

    /// Overwrite the form-editable fields, keeping the slug.
    pub fn update_from_form(
        &mut self,
        name: String,
        description: String,
        sources: Vec<String>,
        output: String,
        mode: Mode,
        refresh: Refresh,
        rules: Option<RulesOverride>,
        instruction: String,
    )
        ensures
            *final(self) == (Recipe {
                slug: old(self).slug,
                name,
                description,
                sources,
                output,
                mode,
                refresh,
                rules,
                instruction,
            }),
    {
        self.name = name;
        self.description = description;
        self.sources = sources;
        self.output = output;
        self.mode = mode;
        self.refresh = refresh;
        self.rules = rules;
        self.instruction = instruction;
    }
}

pub const SLUG_PROBLEM: &'static str = "the file name must be a simple slug";
pub const NAME_PROBLEM: &'static str = "name can't be empty";
pub const INSTRUCTION_PROBLEM: &'static str =
    "the instruction can't be empty \u{2014} say what Ken should extract";
pub const OUTPUT_EMPTY_PROBLEM: &'static str = "output location can't be empty";
pub const OUTPUT_OUTSIDE_PROBLEM: &'static str = "output must be a folder or file inside the project";
pub const OUTPUT_KEN_PROBLEM: &'static str = "output can't live inside .ken";
pub const OUTPUT_FOLDER_PROBLEM: &'static str =
    "a single-document ingest needs a file path, not a folder";

/// A `..` component among the `/`-separated parts of `s`.
pub open spec fn has_dotdot(s: Seq<char>) -> bool {
    exists|i: int|
        0 <= i && i + 2 <= s.len() && #[trigger] s[i] == '.' && s[i + 1] == '.' && (i == 0 || s[i - 1]
            == '/') && (i + 2 == s.len() || s[i + 2] == '/')
}

/// What is wrong with a recipe, first problem first, if anything.
pub open spec fn recipe_problem(r: Recipe) -> Option<Seq<char>> {
    let out = trim_ws(r.output@);
    if trim_ws(r.slug@).len() == 0 || r.slug@.contains('/') || has_prefix(r.slug@, "."@) {
        Some(SLUG_PROBLEM@)
    } else if trim_ws(r.name@).len() == 0 {
        Some(NAME_PROBLEM@)
    } else if trim_ws(r.instruction@).len() == 0 {
        Some(INSTRUCTION_PROBLEM@)
    } else if out.len() == 0 {
        Some(OUTPUT_EMPTY_PROBLEM@)
    } else if has_prefix(out, "/"@) || has_dotdot(out) {
        Some(OUTPUT_OUTSIDE_PROBLEM@)
    } else if has_prefix(out, ".ken"@) {
        Some(OUTPUT_KEN_PROBLEM@)
    } else if r.mode == Mode::Single && out.last() == '/' {
        Some(OUTPUT_FOLDER_PROBLEM@)
    } else {
        None
    }
}

fn contains_char(v: &Vec<char>, c: char) -> (r: bool)
    ensures
        r == v@.contains(c),
{
    let mut i: usize = 0;
    while i < v.len()
        invariant
            i <= v.len(),
            forall|k: int| 0 <= k < i ==> v@[k] != c,
        decreases v.len() - i,
    {
        if v[i] == c {
            assert(v@[i as int] == c);
            return true;
        }
        i = i + 1;
    }
    false
}

pub fn dotdot_in(v: &Vec<char>) -> (r: bool)
    ensures
        r == has_dotdot(v@),
{
    let mut i: usize = 0;
    while i < v.len() && v.len() - i >= 2
        invariant
            i <= v.len(),
            forall|k: int|
                0 <= k < i && k + 2 <= v@.len() ==> !(#[trigger] v@[k] == '.' && v@[k + 1] == '.' && (k == 0
                    || v@[k - 1] == '/') && (k + 2 == v@.len() || v@[k + 2] == '/')),
        decreases v.len() - i,
    {
        let left = i == 0 || v[i - 1] == '/';
        let right = i + 2 == v.len() || v[i + 2] == '/';
        if v[i] == '.' && v[i + 1] == '.' && left && right {
            return true;
        }
        i = i + 1;
    }
    false
}

fn lit_prefix(v: &Vec<char>, p: &str) -> (r: bool)
    ensures
        r == has_prefix(v@, p@),
{
    let pv = chars_of(p);
    starts_with(v, &pv)
}

/// Check a recipe before it is saved or used. The error names the recipe
/// and the first problem found.
pub fn validate(recipe: &Recipe) -> (r: Result<(), Error>)
    ensures
        match recipe_problem(*recipe) {
            None => r is Ok,
            Some(reason) => r matches Err(Error::Other(m)) && m@ == "recipe '"@ + recipe.slug@ + "': "@
                + reason,
        },
{
    let slug = chars_of(recipe.slug.as_str());
    let out = trim_vec(&chars_of(recipe.output.as_str()));
    let reason: Option<&str> = if trim_vec(&slug).len() == 0 || contains_char(&slug, '/') || lit_prefix(
        &slug,
        ".",
    ) {
        Some(SLUG_PROBLEM)
    } else if trim_vec(&chars_of(recipe.name.as_str())).len() == 0 {
        Some(NAME_PROBLEM)
    } else if trim_vec(&chars_of(recipe.instruction.as_str())).len() == 0 {
        Some(INSTRUCTION_PROBLEM)
    } else if out.len() == 0 {
        Some(OUTPUT_EMPTY_PROBLEM)
    } else if lit_prefix(&out, "/") || dotdot_in(&out) {
        Some(OUTPUT_OUTSIDE_PROBLEM)
    } else if lit_prefix(&out, ".ken") {
        Some(OUTPUT_KEN_PROBLEM)
    } else if recipe.mode == Mode::Single && out[out.len() - 1] == '/' {
        Some(OUTPUT_FOLDER_PROBLEM)
    } else {
        None
    };
    match reason {
        None => Ok(()),
        Some(why) => {
            let mut m: Vec<char> = Vec::new();
            push_str(&mut m, "recipe '");
            push_all(&mut m, &slug);
            push_str(&mut m, "': ");
            push_str(&mut m, why);
            Err(Error::Other(string_of(m.as_slice())))
        },
    }
}

/// The first of the overrides that sets a value, else the default.
pub open spec fn pick<T>(recipe: Option<T>, project: Option<T>, default: T) -> T {
    match recipe {
        Some(x) => x,
        None => match project {
            Some(y) => y,
            None => default,
        },
    }
}

/// Effective rules: the recipe's override, then the project's defaults,
/// then the built-in ones. `project_rules` is what the project's config
/// sets under `rules`.
pub fn resolve_rules(recipe: &Recipe, project_rules: &RulesOverride) -> (r: ResolvedRules)
    ensures
        ({
            let ro = match recipe.rules {
                Some(o) => o,
                None => RulesOverride { review_threshold_pct: None, stale_days: None },
            };
            r.review_threshold_pct == pick(ro.review_threshold_pct, project_rules.review_threshold_pct, 20u8)
                && r.stale_days == pick(ro.stale_days, project_rules.stale_days, 30u32)
        }),
{
    let d = default_rules();
    let ro = match recipe.rules {
        Some(o) => o,
        None => RulesOverride { review_threshold_pct: None, stale_days: None },
    };
    let review = match ro.review_threshold_pct {
        Some(x) => x,
        None => match project_rules.review_threshold_pct {
            Some(y) => y,
            None => d.review_threshold_pct,
        },
    };
    let stale = match ro.stale_days {
        Some(x) => x,
        None => match project_rules.stale_days {
            Some(y) => y,
            None => d.stale_days,
        },
    };
    ResolvedRules { review_threshold_pct: review, stale_days: stale }
}

} // verus!
