//! The curated catalog of downloadable on-device models, the choice of
//! which one to use per category, and the pure pieces of a download:
//! progress percent, the emit throttle, and the completeness check.
use vstd::prelude::*;
use crate::error::Error;
use crate::paths::{join_path, path_join};
use crate::transcript::{MODEL_FILE, WHISPER_DIR};
use crate::text::{chars_of, dec, dec_u64, push_all, push_str, str_eq, string_of};

verus! {

/// The repository the transcription models live in.
pub const REPO: &'static str = "ggerganov/whisper.cpp";

/// The recommended transcription model: the file the transcriber looks
/// for.
pub const RECOMMENDED_FILE: &'static str = "ggml-base.en.bin";

/// The recommended model's known size: the offline display and the
/// verification floor without a `Content-Length`.
pub const RECOMMENDED_BYTES: u64 = 147951465;

/// The advanced transcription model, Whisper Large v3 Turbo.
pub const WHISPER_LARGE_TURBO_FILE: &'static str = "ggml-large-v3-turbo.bin";

pub const WHISPER_LARGE_TURBO_BYTES: u64 = 1624555275;

/// The recommended language model (a public mirror of the quant, so no
/// credentials are needed).
pub const LANG_4B_FILE: &'static str = "Qwen3-4B-Instruct-2507-Q4_K_M.gguf";

pub const LANG_4B_URL: &'static str = "https://huggingface.co/unsloth/Qwen3-4B-Instruct-2507-GGUF/resolve/main/Qwen3-4B-Instruct-2507-Q4_K_M.gguf";

pub const LANG_4B_BYTES: u64 = 2497281120;

/// The advanced language model.
pub const LANG_8B_FILE: &'static str = "Qwen3-8B-Q4_K_M.gguf";

pub const LANG_8B_URL: &'static str = "https://huggingface.co/Qwen/Qwen3-8B-GGUF/resolve/main/Qwen3-8B-Q4_K_M.gguf";

pub const LANG_8B_BYTES: u64 = 5027783488;

/// The direct download URL of one file of the repository.
pub open spec fn url_for(file: Seq<char>) -> Seq<char> {
    "https://huggingface.co/"@ + REPO@ + "/resolve/main/"@ + file
}

pub fn resolve_url(file: &str) -> (r: String)
    ensures
        r@ == url_for(file@),
{
    let mut v: Vec<char> = Vec::new();
    push_str(&mut v, "https://huggingface.co/");
    push_str(&mut v, REPO);
    push_str(&mut v, "/resolve/main/");
    push_str(&mut v, file);
    string_of(v.as_slice())
}

/// One downloadable model's identity; `id` is its file name.
#[derive(Debug, Clone, PartialEq, Eq)]
pub struct ModelSpec {
    pub id: String,
    pub name: String,
    pub file: String,
    pub url: String,
    pub expected_bytes: u64,
    pub recommended: bool,
}

/// Which use a model serves.
#[derive(Debug, Clone, Copy, PartialEq, Eq, Structural)]
pub enum ModelCategory {
    Transcription,
    Language,
}

/// The two tiers offered per category.
#[derive(Debug, Clone, Copy, PartialEq, Eq, Structural)]
pub enum ModelTier {
    Recommended,
    Advanced,
}

/// One curated model with its category, tier, and Settings blurb.
#[derive(Debug, Clone, PartialEq, Eq)]
pub struct CatalogEntry {
    pub category: ModelCategory,
    pub tier: ModelTier,
    pub blurb: &'static str,
    pub spec: ModelSpec,
}

/// A spec as plain values: id, name, file, url, size, recommended.
pub type SpecView = (Seq<char>, Seq<char>, Seq<char>, Seq<char>, u64, bool);

pub open spec fn spec_view(s: ModelSpec) -> SpecView {
    (s.id@, s.name@, s.file@, s.url@, s.expected_bytes, s.recommended)
}

pub type EntryView = (ModelCategory, ModelTier, Seq<char>, SpecView);

pub open spec fn entry_view(e: CatalogEntry) -> EntryView {
    (e.category, e.tier, e.blurb@, spec_view(e.spec))
}

/// The catalog, in display order: the transcription pair, then the
/// language pair, each recommended first.
pub open spec fn catalog_view() -> Seq<EntryView> {
    seq![
        (ModelCategory::Transcription, ModelTier::Recommended, "fast, accurate for meetings"@,
            (RECOMMENDED_FILE@, "Whisper Base (English)"@, RECOMMENDED_FILE@, url_for(RECOMMENDED_FILE@), RECOMMENDED_BYTES, true)),
        (ModelCategory::Transcription, ModelTier::Advanced, "best accuracy, understands more languages, slower"@,
            (WHISPER_LARGE_TURBO_FILE@, "Whisper Large v3 Turbo"@, WHISPER_LARGE_TURBO_FILE@, url_for(WHISPER_LARGE_TURBO_FILE@), WHISPER_LARGE_TURBO_BYTES, false)),
        (ModelCategory::Language, ModelTier::Recommended, "instant answers, builds your map"@,
            (LANG_4B_FILE@, "Qwen3 4B"@, LANG_4B_FILE@, LANG_4B_URL@, LANG_4B_BYTES, true)),
        (ModelCategory::Language, ModelTier::Advanced, "smarter answers, needs more memory"@,
            (LANG_8B_FILE@, "Qwen3 8B"@, LANG_8B_FILE@, LANG_8B_URL@, LANG_8B_BYTES, false)),
    ]
}

fn make_spec(id: &str, name: &str, url: String, bytes: u64, recommended: bool) -> (s: ModelSpec)
    ensures
        spec_view(s) == (id@, name@, id@, url@, bytes, recommended),
{
    ModelSpec {
        id: string_of(chars_of(id).as_slice()),
        name: string_of(chars_of(name).as_slice()),
        file: string_of(chars_of(id).as_slice()),
        url,
        expected_bytes: bytes,
        recommended,
    }
}

fn copy_spec(s: &ModelSpec) -> (r: ModelSpec)
    ensures
        spec_view(r) == spec_view(*s),
{
    ModelSpec {
        id: s.id.clone(),
        name: s.name.clone(),
        file: s.file.clone(),
        url: s.url.clone(),
        expected_bytes: s.expected_bytes,
        recommended: s.recommended,
    }
}

/// Every curated model, in display order.
pub fn catalog() -> (r: Vec<CatalogEntry>)
    ensures
        r@.map_values(|e: CatalogEntry| entry_view(e)) == catalog_view(),
{
    let mut v: Vec<CatalogEntry> = Vec::new();
    v.push(CatalogEntry {
        category: ModelCategory::Transcription,
        tier: ModelTier::Recommended,
        blurb: "fast, accurate for meetings",
        spec: make_spec(RECOMMENDED_FILE, "Whisper Base (English)", resolve_url(RECOMMENDED_FILE), RECOMMENDED_BYTES, true),
    });
    v.push(CatalogEntry {
        category: ModelCategory::Transcription,
        tier: ModelTier::Advanced,
        blurb: "best accuracy, understands more languages, slower",
        spec: make_spec(WHISPER_LARGE_TURBO_FILE, "Whisper Large v3 Turbo", resolve_url(WHISPER_LARGE_TURBO_FILE), WHISPER_LARGE_TURBO_BYTES, false),
    });
    v.push(CatalogEntry {
        category: ModelCategory::Language,
        tier: ModelTier::Recommended,
        blurb: "instant answers, builds your map",
        spec: make_spec(LANG_4B_FILE, "Qwen3 4B", string_of(chars_of(LANG_4B_URL).as_slice()), LANG_4B_BYTES, true),
    });
    v.push(CatalogEntry {
        category: ModelCategory::Language,
        tier: ModelTier::Advanced,
        blurb: "smarter answers, needs more memory",
        spec: make_spec(LANG_8B_FILE, "Qwen3 8B", string_of(chars_of(LANG_8B_URL).as_slice()), LANG_8B_BYTES, false),
    });
    assert(v@.map_values(|e: CatalogEntry| entry_view(e)) =~= catalog_view());
    v
}

/// The specs of `cat`'s entries among `es`, in order.
pub open spec fn specs_in(es: Seq<EntryView>, cat: ModelCategory) -> Seq<SpecView>
    decreases es.len(),
{
    if es.len() == 0 {
        seq![]
    } else if es.last().0 == cat {
        specs_in(es.drop_last(), cat).push(es.last().3)
    } else {
        specs_in(es.drop_last(), cat)
    }
}

/// The specs in one category, in catalog order.
pub fn category_specs(category: ModelCategory) -> (r: Vec<ModelSpec>)
    ensures
        r@.map_values(|s: ModelSpec| spec_view(s)) == specs_in(catalog_view(), category),
{
    let cat = catalog();
    let ghost cv = catalog_view();
    let mut out: Vec<ModelSpec> = Vec::new();
    let mut i: usize = 0;
    while i < cat.len()
        invariant
            i <= cat.len(),
            cat@.map_values(|e: CatalogEntry| entry_view(e)) == cv,
            cv == catalog_view(),
            out@.map_values(|s: ModelSpec| spec_view(s)) == specs_in(cv.take(i as int), category),
        decreases cat.len() - i,
    {
        proof {
            assert(cv.take(i + 1).drop_last() =~= cv.take(i as int));
            assert(cv.take(i + 1).last() == entry_view(cat@[i as int]));
        }
        if cat[i].category == category {
            let s = copy_spec(&cat[i].spec);
            let ghost before = out@;
            out.push(s);
            assert(out@.map_values(|s: ModelSpec| spec_view(s)) =~= before.map_values(|s: ModelSpec| spec_view(s)).push(spec_view(s)));
        }
        i = i + 1;
    }
    assert(cv.take(cat.len() as int) =~= cv);
    out
}

/// The first spec of `ss` with id `id`.
pub open spec fn spec_with_id(ss: Seq<SpecView>, id: Seq<char>) -> Option<SpecView>
    decreases ss.len(),
{
    if ss.len() == 0 {
        None
    } else if ss[0].0 == id {
        Some(ss[0])
    } else {
        spec_with_id(ss.drop_first(), id)
    }
}

/// Every spec of the catalog, in order.
pub open spec fn all_specs() -> Seq<SpecView> {
    seq![catalog_view()[0].3, catalog_view()[1].3, catalog_view()[2].3, catalog_view()[3].3]
}

fn find_in(specs: &Vec<ModelSpec>, id: &str) -> (r: Option<usize>)
    ensures
        match r {
            Some(i) => i < specs@.len() && spec_with_id(specs@.map_values(|s: ModelSpec| spec_view(s)), id@)
                == Some(spec_view(specs@[i as int])),
            None => spec_with_id(specs@.map_values(|s: ModelSpec| spec_view(s)), id@).is_none(),
        },
{
    let ghost sv = specs@.map_values(|s: ModelSpec| spec_view(s));
    let mut i: usize = 0;
    assert(sv.skip(0) =~= sv);
    while i < specs.len()
        invariant
            i <= specs.len(),
            sv == specs@.map_values(|s: ModelSpec| spec_view(s)),
            spec_with_id(sv, id@) == spec_with_id(sv.skip(i as int), id@),
        decreases specs.len() - i,
    {
        assert(sv.skip(i as int)[0] == sv[i as int]);
        assert(sv.skip(i as int).drop_first() =~= sv.skip(i + 1));
        if str_eq(specs[i].id.as_str(), id) {
            return Some(i);
        }
        i = i + 1;
    }
    None
}

fn all_spec_vec() -> (r: Vec<ModelSpec>)
    ensures
        r@.map_values(|s: ModelSpec| spec_view(s)) == all_specs(),
{
    let cat = catalog();
    assert(cat@.map_values(|e: CatalogEntry| entry_view(e)).len() == cat@.len());
    let mut out: Vec<ModelSpec> = Vec::new();
    let mut i: usize = 0;
    while i < cat.len()
        invariant
            i <= cat.len(),
            cat@.len() == 4,
            cat@.map_values(|e: CatalogEntry| entry_view(e)) == catalog_view(),
            out@.map_values(|s: ModelSpec| spec_view(s)) == all_specs().take(i as int),
        decreases cat.len() - i,
    {
        let s = copy_spec(&cat[i].spec);
        let ghost before = out@;
        out.push(s);
        assert(cat@.map_values(|e: CatalogEntry| entry_view(e))[i as int] == entry_view(cat@[i as int]));
        assert(all_specs()[i as int] == spec_view(s));
        assert(out@.map_values(|s: ModelSpec| spec_view(s)) =~= before.map_values(|s: ModelSpec| spec_view(s)).push(spec_view(s)));
        assert(out@.map_values(|s: ModelSpec| spec_view(s)) =~= all_specs().take(i + 1));
        i = i + 1;
    }
    assert(cat@.len() == catalog_view().len());
    assert(all_specs().take(cat.len() as int) =~= all_specs());
    out
}

/// Locate a spec by its file-name id across the whole catalog.
pub fn find_spec(id: &str) -> (r: Option<ModelSpec>)
    ensures
        match r {
            Some(s) => spec_with_id(all_specs(), id@) == Some(spec_view(s)),
            None => spec_with_id(all_specs(), id@).is_none(),
        },
{
    let all = all_spec_vec();
    match find_in(&all, id) {
        Some(i) => Some(copy_spec(&all[i])),
        None => None,
    }
}

/// The first recommended spec of `ss`.
pub open spec fn first_recommended(ss: Seq<SpecView>) -> Option<SpecView>
    decreases ss.len(),
{
    if ss.len() == 0 {
        None
    } else if ss[0].5 {
        Some(ss[0])
    } else {
        first_recommended(ss.drop_first())
    }
}

fn recommended_in(specs: &Vec<ModelSpec>) -> (r: Option<usize>)
    ensures
        match r {
            Some(i) => i < specs@.len() && first_recommended(specs@.map_values(|s: ModelSpec| spec_view(s)))
                == Some(spec_view(specs@[i as int])),
            None => first_recommended(specs@.map_values(|s: ModelSpec| spec_view(s))).is_none(),
        },
{
    let ghost sv = specs@.map_values(|s: ModelSpec| spec_view(s));
    let mut i: usize = 0;
    assert(sv.skip(0) =~= sv);
    while i < specs.len()
        invariant
            i <= specs.len(),
            sv == specs@.map_values(|s: ModelSpec| spec_view(s)),
            first_recommended(sv) == first_recommended(sv.skip(i as int)),
        decreases specs.len() - i,
    {
        assert(sv.skip(i as int)[0] == sv[i as int]);
        assert(sv.skip(i as int).drop_first() =~= sv.skip(i + 1));
        if specs[i].recommended {
            return Some(i);
        }
        i = i + 1;
    }
    None
}

proof fn lemma_categories_have_recommended(cat: ModelCategory)
    ensures
        first_recommended(specs_in(catalog_view(), cat)).is_some(),
{
    let cv = catalog_view();
    reveal_with_fuel(specs_in, 5);
    assert(cv.drop_last().drop_last().drop_last().drop_last() =~= Seq::<EntryView>::empty());
    match cat {
        ModelCategory::Transcription => {
            assert(specs_in(cv, cat) =~= seq![cv[0].3, cv[1].3]);
        },
        ModelCategory::Language => {
            assert(specs_in(cv, cat) =~= seq![cv[2].3, cv[3].3]);
        },
    }
}

/// The recommended transcription model: the offline fallback and the
/// model the transcript feature gates on.
pub fn recommended() -> (r: ModelSpec)
    ensures
        first_recommended(specs_in(catalog_view(), ModelCategory::Transcription)) == Some(spec_view(r)),
{
    let specs = category_specs(ModelCategory::Transcription);
    proof {
        lemma_categories_have_recommended(ModelCategory::Transcription);
    }
    let i = recommended_in(&specs).unwrap();
    copy_spec(&specs[i])
}

/// Where a model file installs: the transcriber's model folder.
pub open spec fn target_spec(base_dir: Seq<char>, file: Seq<char>) -> Seq<char> {
    join_path(join_path(base_dir, WHISPER_DIR@), file)
}

pub fn target_path(base_dir: &str, spec: &ModelSpec) -> (r: String)
    ensures
        r@ == target_spec(base_dir@, spec.file@),
{
    let d = path_join(base_dir, WHISPER_DIR);
    path_join(d.as_str(), spec.file.as_str())
}

/// The recommended transcription model installs exactly where the
/// transcriber looks for its model.
pub proof fn law_recommended_lands_where_the_transcriber_looks(base_dir: Seq<char>)
    ensures
        first_recommended(specs_in(catalog_view(), ModelCategory::Transcription)) matches Some(s)
            && target_spec(base_dir, s.2) == join_path(join_path(base_dir, WHISPER_DIR@), MODEL_FILE@),
{
    let cv = catalog_view();
    reveal_with_fuel(specs_in, 5);
    assert(specs_in(cv, ModelCategory::Transcription) =~= seq![cv[0].3, cv[1].3]);
    reveal_strlit("ggml-base.en.bin");
}

// ---------------------------------------------------------------------
// Selection
// ---------------------------------------------------------------------

/// The per-category model choice, persisted machine-wide.
#[derive(Debug, Clone, PartialEq, Eq)]
pub struct ModelSelection {
    pub transcription: Option<String>,
    pub language: Option<String>,
}

impl Default for ModelSelection {
    fn default() -> (r: Self)
        ensures
            r.transcription.is_none() && r.language.is_none(),
    {
        ModelSelection { transcription: None, language: None }
    }
}

pub open spec fn chosen_id(sel: ModelSelection, cat: ModelCategory) -> Option<Seq<char>> {
    match cat {
        ModelCategory::Transcription => match sel.transcription {
            Some(s) => Some(s@),
            None => None,
        },
        ModelCategory::Language => match sel.language {
            Some(s) => Some(s@),
            None => None,
        },
    }
}

/// The spec treated as selected: the persisted choice when it is a real
/// entry of the category, else the category's recommended one.
pub open spec fn selected_spec(sel: ModelSelection, cat: ModelCategory) -> SpecView {
    let specs = specs_in(catalog_view(), cat);
    match chosen_id(sel, cat) {
        Some(id) => match spec_with_id(specs, id) {
            Some(s) => s,
            None => first_recommended(specs).unwrap(),
        },
        None => first_recommended(specs).unwrap(),
    }
}

/// The spec the UI treats as selected for a category.
pub fn selected(selection: &ModelSelection, category: ModelCategory) -> (r: ModelSpec)
    ensures
        spec_view(r) == selected_spec(*selection, category),
{
    let specs = category_specs(category);
    let chosen = match category {
        ModelCategory::Transcription => &selection.transcription,
        ModelCategory::Language => &selection.language,
    };
    match chosen {
        Some(id) => match find_in(&specs, id.as_str()) {
            Some(i) => {
                return copy_spec(&specs[i]);
            },
            None => {},
        },
        None => {},
    }
    proof {
        lemma_categories_have_recommended(category);
    }
    let i = recommended_in(&specs).unwrap();
    copy_spec(&specs[i])
}

/// Record a category's choice.
pub fn set_selected(selection: &mut ModelSelection, category: ModelCategory, id: &str)
    ensures
        chosen_id(*final(selection), category) == Some(id@),
        category == ModelCategory::Transcription ==> final(selection).language == old(selection).language,
        category == ModelCategory::Language ==> final(selection).transcription == old(selection).transcription,
{
    let s = string_of(chars_of(id).as_slice());
    match category {
        ModelCategory::Transcription => selection.transcription = Some(s),
        ModelCategory::Language => selection.language = Some(s),
    }
}

/// `id` names one of the installed models.
pub open spec fn is_installed(installed: Seq<String>, id: Seq<char>) -> bool {
    exists|i: int| 0 <= i < installed.len() && #[trigger] installed[i]@ == id
}

/// The first spec of `ss` that is installed.
pub open spec fn first_installed(ss: Seq<SpecView>, installed: Seq<String>) -> Option<SpecView>
    decreases ss.len(),
{
    if ss.len() == 0 {
        None
    } else if is_installed(installed, ss[0].0) {
        Some(ss[0])
    } else {
        first_installed(ss.drop_first(), installed)
    }
}

fn installed_has(installed: &[String], id: &str) -> (r: bool)
    ensures
        r == is_installed(installed@, id@),
{
    let mut i: usize = 0;
    while i < installed.len()
        invariant
            i <= installed.len(),
            forall|j: int| 0 <= j < i ==> #[trigger] installed@[j]@ != id@,
        decreases installed.len() - i,
    {
        if str_eq(installed[i].as_str(), id) {
            return true;
        }
        i = i + 1;
    }
    false
}

/// The path of the model to use for a category, given which catalog ids
/// are installed: the selected model if installed, else the first
/// installed model of the category, else none.
pub fn selected_model_path(
    base_dir: &str,
    selection: &ModelSelection,
    category: ModelCategory,
    installed: &[String],
) -> (r: Option<String>)
    ensures
        match r {
            Some(p) => if is_installed(installed@, selected_spec(*selection, category).0) {
                p@ == target_spec(base_dir@, selected_spec(*selection, category).2)
            } else {
                first_installed(specs_in(catalog_view(), category), installed@) matches Some(s)
                    && p@ == target_spec(base_dir@, s.2)
            },
            None => !is_installed(installed@, selected_spec(*selection, category).0)
                && first_installed(specs_in(catalog_view(), category), installed@).is_none(),
        },
{
    let chosen = selected(selection, category);
    if installed_has(installed, chosen.id.as_str()) {
        return Some(target_path(base_dir, &chosen));
    }
    let specs = category_specs(category);
    let ghost sv = specs@.map_values(|s: ModelSpec| spec_view(s));
    let mut i: usize = 0;
    assert(sv.skip(0) =~= sv);
    while i < specs.len()
        invariant
            i <= specs.len(),
            sv == specs@.map_values(|s: ModelSpec| spec_view(s)),
            sv == specs_in(catalog_view(), category),
            spec_view(chosen) == selected_spec(*selection, category),
            !is_installed(installed@, chosen.id@),
            first_installed(sv, installed@) == first_installed(sv.skip(i as int), installed@),
        decreases specs.len() - i,
    {
        assert(sv.skip(i as int)[0] == sv[i as int]);
        assert(sv.skip(i as int).drop_first() =~= sv.skip(i + 1));
        if installed_has(installed, specs[i].id.as_str()) {
            return Some(target_path(base_dir, &specs[i]));
        }
        i = i + 1;
    }
    None
}

// ---------------------------------------------------------------------
// Progress
// ---------------------------------------------------------------------

/// Completion as a percent: clamped to 100, and 0 for an unknown total.
pub open spec fn percent(downloaded: u64, total: u64) -> int {
    if total == 0 {
        0
    } else {
        (if downloaded < total {
            downloaded as int
        } else {
            total as int
        }) * 100 / (total as int)
    }
}

pub fn progress_percent(downloaded: u64, total: u64) -> (r: u8)
    ensures
        r == percent(downloaded, total),
        r <= 100,
{
    if total == 0 {
        return 0;
    }
    let d: u128 = if downloaded < total {
        downloaded as u128
    } else {
        total as u128
    };
    let t = total as u128;
    assert(d * 100 <= t * 100) by (nonlinear_arith)
        requires
            d <= t,
    ;
    let p = (d * 100) / t;
    assert(p <= 100) by (nonlinear_arith)
        requires
            p as int == (d as int * 100) / (t as int),
            d <= t,
            t > 0,
    ;
    p as u8
}

/// Rate-limits progress emits: the first sample, then a percent step or
/// enough elapsed time.
pub struct ProgressThrottle {
    last_pct: i32,
    last_emit_ms: u64,
    min_pct_step: i32,
    min_interval_ms: u64,
}

impl ProgressThrottle {
    /// The last emitted percent, or -1 before the first emit.
    pub closed spec fn last_pct(&self) -> i32 {
        self.last_pct
    }

    pub closed spec fn last_emit(&self) -> u64 {
        self.last_emit_ms
    }

    pub closed spec fn step(&self) -> i32 {
        self.min_pct_step
    }

    pub closed spec fn interval(&self) -> u64 {
        self.min_interval_ms
    }

    pub closed spec fn wf(&self) -> bool {
        -1 <= self.last_pct <= 100
    }

    /// Emit on a one-percent step or after 250 ms, whichever comes first.
    pub fn new() -> (r: Self)
        ensures
            r.wf(),
            r.last_pct() == -1,
            r.last_emit() == 0,
            r.step() == 1,
            r.interval() == 250,
    {
        ProgressThrottle { last_pct: -1, last_emit_ms: 0, min_pct_step: 1, min_interval_ms: 250 }
    }

    /// Whether this sample should be emitted; an emitted sample becomes
    /// the new reference point.
    pub fn should_emit(&mut self, downloaded: u64, total: u64, now_ms: u64) -> (r: bool)
        requires
            old(self).wf(),
        ensures
            final(self).wf(),
            final(self).step() == old(self).step(),
            final(self).interval() == old(self).interval(),
            r == (old(self).last_pct() < 0 || percent(downloaded, total) - old(self).last_pct()
                >= old(self).step() || crate::record::since(now_ms, old(self).last_emit())
                >= old(self).interval()),
            r ==> final(self).last_pct() == percent(downloaded, total) && final(self).last_emit()
                == now_ms,
            !r ==> final(self).last_pct() == old(self).last_pct() && final(self).last_emit()
                == old(self).last_emit(),
    {
        let pct = progress_percent(downloaded, total) as i32;
        let first = self.last_pct < 0;
        let stepped = pct - self.last_pct >= self.min_pct_step;
        let gap = if now_ms >= self.last_emit_ms {
            now_ms - self.last_emit_ms
        } else {
            0
        };
        let timed = gap >= self.min_interval_ms;
        if first || stepped || timed {
            self.last_pct = pct;
            self.last_emit_ms = now_ms;
            true
        } else {
            false
        }
    }
}

impl Default for ProgressThrottle {
    fn default() -> (r: Self)
        ensures
            r.wf(),
            r.last_pct() == -1,
            r.last_emit() == 0,
            r.step() == 1,
            r.interval() == 250,
    {
        ProgressThrottle::new()
    }
}

/// The message for a download that came up short.
pub open spec fn incomplete_message(actual: u64, total: Option<u64>) -> Seq<char> {
    match total {
        Some(t) => "the download was incomplete ("@ + dec(actual as nat) + " of "@ + dec(t as nat)
            + " bytes) — check your connection and try again"@,
        None => "the download was incomplete ("@ + dec(actual as nat)
            + " bytes) — check your connection and try again"@,
    }
}

/// A finished download is complete when it matches the length the
/// server promised, or, without one, is at least the model's known size.
pub fn verify_download(actual: u64, server_total: Option<u64>, spec: &ModelSpec) -> (r: Result<(), Error>)
    ensures
        r.is_ok() == match server_total {
            Some(t) => actual == t,
            None => actual >= spec.expected_bytes,
        },
        r matches Err(Error::Other(m)) ==> m@ == incomplete_message(actual, server_total),
{
    let short = match server_total {
        Some(t) => actual != t,
        None => actual < spec.expected_bytes,
    };
    if !short {
        return Ok(());
    }
    let mut v: Vec<char> = Vec::new();
    push_str(&mut v, "the download was incomplete (");
    let a = dec_u64(actual);
    push_all(&mut v, &a);
    match server_total {
        Some(t) => {
            push_str(&mut v, " of ");
            let tv = dec_u64(t);
            push_all(&mut v, &tv);
        },
        None => {},
    }
    push_str(&mut v, " bytes) — check your connection and try again");
    assert(v@ =~= incomplete_message(actual, server_total));
    Err(Error::Other(string_of(v.as_slice())))
}

} // verus!
