//! The scanner's rules: which folders and files never enter the index,
//! which indexed files deserve another read, and how a scan reconciles
//! the index with the folder.
use vstd::prelude::*;
use crate::text::{chars_of, contains_seq, contains_vec, has_prefix, lower_s, lower_vec, starts_with, str_eq};

verus! {

/// Machine-generated folders no knowledge project wants indexed.
pub const JUNK_DIRS: [&'static str; 6] = ["node_modules", "target", "dist", "build", "__pycache__", "venv"];

/// File status values stored in the index.
pub const STATUS_INDEXED: &'static str = "indexed";

pub const STATUS_METADATA_ONLY: &'static str = "metadata_only";

pub const STATUS_FAILED: &'static str = "failed";

/// In the cloud but not downloaded, so its bytes were never read.
pub const STATUS_CLOUD_ONLY: &'static str = "cloud_only";

/// What one scan changed.
#[derive(Debug, Clone, PartialEq, Eq)]
pub struct ScanStats {
    pub added: usize,
    pub updated: usize,
    pub removed: usize,
    pub failed: usize,
    pub unchanged: usize,
    /// Paths added, updated, or removed this scan.
    pub changed_paths: Vec<String>,
    /// Videos indexed this scan that still have no transcript.
    pub videos_needing_transcript: Vec<String>,
}

impl Default for ScanStats {
    fn default() -> (r: Self)
        ensures
            r.added == 0 && r.updated == 0 && r.removed == 0 && r.failed == 0 && r.unchanged == 0,
            r.changed_paths@.len() == 0 && r.videos_needing_transcript@.len() == 0,
    {
        ScanStats {
            added: 0,
            updated: 0,
            removed: 0,
            failed: 0,
            unchanged: 0,
            changed_paths: Vec::new(),
            videos_needing_transcript: Vec::new(),
        }
    }
}

/// One of the junk folder names, exactly.
pub open spec fn junk_dir(name: Seq<char>) -> bool {
    name == "node_modules"@ || name == "target"@ || name == "dist"@ || name == "build"@ || name
        == "__pycache__"@ || name == "venv"@
}

pub fn is_junk_dir_name(name: &str) -> (r: bool)
    ensures
        r == junk_dir(name@),
{
    str_eq(name, "node_modules") || str_eq(name, "target") || str_eq(name, "dist") || str_eq(name, "build")
        || str_eq(name, "__pycache__") || str_eq(name, "venv")
}

/// An Office lock file, `~$<document>`.
pub fn is_office_lock_name(name: &str) -> (r: bool)
    ensures
        r == has_prefix(name@, "~$"@),
{
    let v = chars_of(name);
    let p = chars_of("~$");
    starts_with(&v, &p)
}

/// A failure worth another read: the provider stalled or timed out.
pub open spec fn transient_error(e: Seq<char>) -> bool {
    let l = lower_s(e);
    contains_seq(l, "timed out"@) || contains_seq(l, "i/o error"@) || contains_seq(l, "io error"@)
}

fn is_transient_error(error: &str) -> (r: bool)
    ensures
        r == transient_error(error@),
{
    let l = lower_vec(&chars_of(error));
    contains_vec(&l, &chars_of("timed out")) || contains_vec(&l, &chars_of("i/o error")) || contains_vec(
        &l,
        &chars_of("io error"),
    )
}

/// Should a rescan re-read a file whose size and time are unchanged? A
/// cloud-only file once its bytes have arrived; a failed file only when
/// the failure was transient and the file is still a placeholder.
pub open spec fn retry_rule(status: Seq<char>, error: Option<Seq<char>>, dataless_now: bool) -> bool {
    if status == STATUS_CLOUD_ONLY@ {
        !dataless_now
    } else if status == STATUS_FAILED@ {
        dataless_now && match error {
            Some(e) => transient_error(e),
            None => false,
        }
    } else {
        false
    }
}

pub fn needs_retry(status: &str, error: Option<&str>, dataless_now: bool) -> (r: bool)
    ensures
        r == retry_rule(
            status@,
            match error {
                Some(e) => Some(e@),
                None => None,
            },
            dataless_now,
        ),
{
    if str_eq(status, STATUS_CLOUD_ONLY) {
        !dataless_now
    } else if str_eq(status, STATUS_FAILED) {
        dataless_now && match error {
            Some(e) => is_transient_error(e),
            None => false,
        }
    } else {
        false
    }
}

// ---------------------------------------------------------------------
// Reconciling the index with the folder
// ---------------------------------------------------------------------

/// A file found on disk: its project-relative path, size, modification
/// time, and whether it is a cloud placeholder whose bytes are absent.
#[derive(Debug, Clone, PartialEq, Eq)]
pub struct DiskEntry {
    pub rel: String,
    pub size: i64,
    pub mtime: i64,
    pub dataless: bool,
}

/// A file the index already holds.
#[derive(Debug, Clone, PartialEq, Eq)]
pub struct IndexedEntry {
    pub rel: String,
    pub size: i64,
    pub mtime: i64,
    pub status: String,
    pub error: Option<String>,
}

/// A file the scan must (re)index; `is_new` when the index lacks it.
#[derive(Debug, Clone, PartialEq, Eq)]
pub struct PlannedFile {
    pub rel: String,
    pub size: i64,
    pub mtime: i64,
    pub dataless: bool,
    pub is_new: bool,
}

/// What a scan does before touching the index: the paths to remove, the
/// files to index in order, and how many files stay as they are.
#[derive(Debug, Clone, PartialEq, Eq)]
pub struct ScanPlan {
    pub removals: Vec<String>,
    pub to_index: Vec<PlannedFile>,
    pub unchanged: usize,
}

/// What indexing one planned file stored: its status, and whether the
/// file is a video.
#[derive(Debug, Clone, PartialEq, Eq)]
pub struct IndexOutcome {
    pub status: String,
    pub is_video: bool,
}

pub type PlannedView = (Seq<char>, i64, i64, bool, bool);

pub open spec fn planned_view(p: PlannedFile) -> PlannedView {
    (p.rel@, p.size, p.mtime, p.dataless, p.is_new)
}

/// The first index entry for `rel`.
pub open spec fn find_indexed(indexed: Seq<IndexedEntry>, rel: Seq<char>) -> Option<IndexedEntry>
    decreases indexed.len(),
{
    if indexed.len() == 0 {
        None
    } else if indexed[0].rel@ == rel {
        Some(indexed[0])
    } else {
        find_indexed(indexed.drop_first(), rel)
    }
}

/// Some file on disk has path `rel`.
pub open spec fn on_disk_has(on_disk: Seq<DiskEntry>, rel: Seq<char>) -> bool {
    exists|i: int| 0 <= i < on_disk.len() && #[trigger] on_disk[i].rel@ == rel
}

/// The index entry still describes the file: same size and time, and no
/// reason to read it again.
pub open spec fn still_current(d: DiskEntry, e: IndexedEntry) -> bool {
    e.size == d.size && e.mtime == d.mtime && !retry_rule(e.status@, opt_string(e.error), d.dataless)
}

pub open spec fn opt_string(o: Option<String>) -> Option<Seq<char>> {
    match o {
        Some(s) => Some(s@),
        None => None,
    }
}

/// Indexed paths no longer on disk, in index order.
pub open spec fn removals_spec(indexed: Seq<IndexedEntry>, on_disk: Seq<DiskEntry>) -> Seq<Seq<char>>
    decreases indexed.len(),
{
    if indexed.len() == 0 {
        seq![]
    } else if on_disk_has(on_disk, indexed.last().rel@) {
        removals_spec(indexed.drop_last(), on_disk)
    } else {
        removals_spec(indexed.drop_last(), on_disk).push(indexed.last().rel@)
    }
}

/// Files on disk that are new or changed, in disk order.
pub open spec fn to_index_spec(on_disk: Seq<DiskEntry>, indexed: Seq<IndexedEntry>) -> Seq<PlannedView>
    decreases on_disk.len(),
{
    if on_disk.len() == 0 {
        seq![]
    } else {
        let d = on_disk.last();
        let rest = to_index_spec(on_disk.drop_last(), indexed);
        match find_indexed(indexed, d.rel@) {
            Some(e) => if still_current(d, e) {
                rest
            } else {
                rest.push((d.rel@, d.size, d.mtime, d.dataless, false))
            },
            None => rest.push((d.rel@, d.size, d.mtime, d.dataless, true)),
        }
    }
}

/// How many files on disk the index still describes.
pub open spec fn unchanged_spec(on_disk: Seq<DiskEntry>, indexed: Seq<IndexedEntry>) -> nat
    decreases on_disk.len(),
{
    if on_disk.len() == 0 {
        0
    } else {
        let d = on_disk.last();
        unchanged_spec(on_disk.drop_last(), indexed) + match find_indexed(indexed, d.rel@) {
            Some(e) => if still_current(d, e) {
                1nat
            } else {
                0nat
            },
            None => 0nat,
        }
    }
}

fn find_indexed_exec(indexed: &[IndexedEntry], rel: &str) -> (r: Option<usize>)
    ensures
        match r {
            Some(i) => i < indexed@.len() && find_indexed(indexed@, rel@) == Some(indexed@[i as int]),
            None => find_indexed(indexed@, rel@).is_none(),
        },
{
    let mut i: usize = 0;
    assert(indexed@.skip(0) =~= indexed@);
    while i < indexed.len()
        invariant
            i <= indexed.len(),
            find_indexed(indexed@.skip(i as int), rel@) == find_indexed(indexed@, rel@),
        decreases indexed.len() - i,
    {
        assert(indexed@.skip(i as int).drop_first() =~= indexed@.skip(i + 1));
        assert(indexed@.skip(i as int)[0] == indexed@[i as int]);
        if str_eq(indexed[i].rel.as_str(), rel) {
            return Some(i);
        }
        i = i + 1;
    }
    None
}

fn on_disk_has_exec(on_disk: &[DiskEntry], rel: &str) -> (r: bool)
    ensures
        r == on_disk_has(on_disk@, rel@),
{
    let mut i: usize = 0;
    while i < on_disk.len()
        invariant
            i <= on_disk.len(),
            forall|j: int| 0 <= j < i ==> on_disk@[j].rel@ != rel@,
        decreases on_disk.len() - i,
    {
        if str_eq(on_disk[i].rel.as_str(), rel) {
            return true;
        }
        i = i + 1;
    }
    false
}

fn opt_str_ref(o: &Option<String>) -> (r: Option<&str>)
    ensures
        match r {
            Some(s) => opt_string(*o) == Some(s@),
            None => o.is_none(),
        },
{
    match o {
        Some(s) => Some(s.as_str()),
        None => None,
    }
}

/// Compare the files on disk with the index: indexed paths gone from disk
/// are removed; a file the index lacks is added; one whose size, time or
/// retry rule says it changed is updated; the rest are unchanged.
pub fn plan_scan(on_disk: &[DiskEntry], indexed: &[IndexedEntry]) -> (p: ScanPlan)
    ensures
        p.removals@.map_values(|s: String| s@) == removals_spec(indexed@, on_disk@),
        p.to_index@.map_values(|f: PlannedFile| planned_view(f)) == to_index_spec(on_disk@, indexed@),
        p.unchanged == unchanged_spec(on_disk@, indexed@),
{
    let mut removals: Vec<String> = Vec::new();
    let mut i: usize = 0;
    while i < indexed.len()
        invariant
            i <= indexed.len(),
            removals@.map_values(|s: String| s@) == removals_spec(indexed@.take(i as int), on_disk@),
        decreases indexed.len() - i,
    {
        assert(indexed@.take(i + 1).drop_last() =~= indexed@.take(i as int));
        let ghost before = removals@;
        if !on_disk_has_exec(on_disk, indexed[i].rel.as_str()) {
            removals.push(indexed[i].rel.clone());
            assert(removals@.map_values(|s: String| s@) =~= before.map_values(|s: String| s@).push(
                indexed@[i as int].rel@,
            ));
        }
        i = i + 1;
    }
    assert(indexed@.take(indexed.len() as int) =~= indexed@);
    let mut to_index: Vec<PlannedFile> = Vec::new();
    let mut unchanged: usize = 0;
    let mut j: usize = 0;
    while j < on_disk.len()
        invariant
            j <= on_disk.len(),
            to_index@.map_values(|f: PlannedFile| planned_view(f)) == to_index_spec(
                on_disk@.take(j as int),
                indexed@,
            ),
            unchanged == unchanged_spec(on_disk@.take(j as int), indexed@),
            unchanged <= j,
        decreases on_disk.len() - j,
    {
        let d = &on_disk[j];
        assert(on_disk@.take(j + 1).drop_last() =~= on_disk@.take(j as int));
        assert(on_disk@.take(j + 1).last() == *d);
        let ghost before = to_index@;
        match find_indexed_exec(indexed, d.rel.as_str()) {
            Some(k) => {
                let e = &indexed[k];
                if e.size == d.size && e.mtime == d.mtime && !needs_retry(
                    e.status.as_str(),
                    opt_str_ref(&e.error),
                    d.dataless,
                ) {
                    unchanged = unchanged + 1;
                } else {
                    let f = PlannedFile {
                        rel: d.rel.clone(),
                        size: d.size,
                        mtime: d.mtime,
                        dataless: d.dataless,
                        is_new: false,
                    };
                    to_index.push(f);
                    assert(to_index@.map_values(|f: PlannedFile| planned_view(f)) =~= before.map_values(
                        |f: PlannedFile| planned_view(f),
                    ).push(planned_view(f)));
                }
            },
            None => {
                let f = PlannedFile {
                    rel: d.rel.clone(),
                    size: d.size,
                    mtime: d.mtime,
                    dataless: d.dataless,
                    is_new: true,
                };
                to_index.push(f);
                assert(to_index@.map_values(|f: PlannedFile| planned_view(f)) =~= before.map_values(
                    |f: PlannedFile| planned_view(f),
                ).push(planned_view(f)));
            },
        }
        j = j + 1;
    }
    assert(on_disk@.take(on_disk.len() as int) =~= on_disk@);
    ScanPlan { removals, to_index, unchanged }
}

pub open spec fn count_new(fs: Seq<PlannedFile>, is_new: bool) -> nat
    decreases fs.len(),
{
    if fs.len() == 0 {
        0
    } else {
        count_new(fs.drop_last(), is_new) + if fs.last().is_new == is_new {
            1nat
        } else {
            0nat
        }
    }
}

pub open spec fn count_failed(os: Seq<IndexOutcome>) -> nat
    decreases os.len(),
{
    if os.len() == 0 {
        0
    } else {
        count_failed(os.drop_last()) + if os.last().status@ == STATUS_FAILED@ {
            1nat
        } else {
            0nat
        }
    }
}

/// The planned paths whose indexing left a video with no transcript
/// (stored as metadata only).
pub open spec fn videos_spec(fs: Seq<PlannedFile>, os: Seq<IndexOutcome>) -> Seq<Seq<char>>
    decreases fs.len(),
{
    if fs.len() == 0 || os.len() != fs.len() {
        seq![]
    } else if os.last().status@ == STATUS_METADATA_ONLY@ && os.last().is_video {
        videos_spec(fs.drop_last(), os.drop_last()).push(fs.last().rel@)
    } else {
        videos_spec(fs.drop_last(), os.drop_last())
    }
}

/// The scan's tally once every planned file has been indexed, `outcomes[i]`
/// being what indexing `plan.to_index[i]` stored.
pub fn tally_scan(plan: &ScanPlan, outcomes: &[IndexOutcome]) -> (s: ScanStats)
    requires
        outcomes@.len() == plan.to_index@.len(),
    ensures
        s.added == count_new(plan.to_index@, true),
        s.updated == count_new(plan.to_index@, false),
        s.removed == plan.removals@.len(),
        s.failed == count_failed(outcomes@),
        s.unchanged == plan.unchanged,
        s.changed_paths@.map_values(|x: String| x@) == plan.removals@.map_values(|x: String| x@)
            + plan.to_index@.map_values(|f: PlannedFile| f.rel@),
        s.videos_needing_transcript@.map_values(|x: String| x@) == videos_spec(plan.to_index@, outcomes@),
{
    let mut changed: Vec<String> = Vec::new();
    let mut i: usize = 0;
    while i < plan.removals.len()
        invariant
            i <= plan.removals.len(),
            changed@.map_values(|x: String| x@) == plan.removals@.take(i as int).map_values(|x: String| x@),
        decreases plan.removals.len() - i,
    {
        let ghost before = changed@;
        changed.push(plan.removals[i].clone());
        assert(changed@.map_values(|x: String| x@) =~= before.map_values(|x: String| x@).push(
            plan.removals@[i as int]@,
        ));
        assert(plan.removals@.take(i + 1).map_values(|x: String| x@) =~= plan.removals@.take(
            i as int,
        ).map_values(|x: String| x@).push(plan.removals@[i as int]@));
        i = i + 1;
    }
    assert(plan.removals@.take(plan.removals.len() as int) =~= plan.removals@);
    let ghost rem = plan.removals@.map_values(|x: String| x@);
    let ghost fs = plan.to_index@;
    let mut added: usize = 0;
    let mut updated: usize = 0;
    let mut failed: usize = 0;
    let mut videos: Vec<String> = Vec::new();
    let mut j: usize = 0;
    while j < plan.to_index.len()
        invariant
            j <= plan.to_index.len(),
            fs == plan.to_index@,
            outcomes@.len() == fs.len(),
            rem == plan.removals@.map_values(|x: String| x@),
            changed@.map_values(|x: String| x@) == rem + fs.take(j as int).map_values(|f: PlannedFile| f.rel@),
            added == count_new(fs.take(j as int), true),
            updated == count_new(fs.take(j as int), false),
            failed == count_failed(outcomes@.take(j as int)),
            added + updated == j,
            failed <= j,
            videos@.map_values(|x: String| x@) == videos_spec(fs.take(j as int), outcomes@.take(j as int)),
        decreases plan.to_index.len() - j,
    {
        let f = &plan.to_index[j];
        let o = &outcomes[j];
        assert(fs.take(j + 1).drop_last() =~= fs.take(j as int));
        assert(fs.take(j + 1).last() == *f);
        assert(outcomes@.take(j + 1).drop_last() =~= outcomes@.take(j as int));
        assert(outcomes@.take(j + 1).last() == *o);
        if f.is_new {
            added = added + 1;
        } else {
            updated = updated + 1;
        }
        if str_eq(o.status.as_str(), STATUS_FAILED) {
            failed = failed + 1;
        }
        let ghost vb = videos@;
        if str_eq(o.status.as_str(), STATUS_METADATA_ONLY) && o.is_video {
            videos.push(f.rel.clone());
            assert(videos@.map_values(|x: String| x@) =~= vb.map_values(|x: String| x@).push(f.rel@));
        }
        let ghost cb = changed@;
        changed.push(f.rel.clone());
        assert(changed@.map_values(|x: String| x@) =~= cb.map_values(|x: String| x@).push(f.rel@));
        assert(fs.take(j + 1).map_values(|f: PlannedFile| f.rel@) =~= fs.take(j as int).map_values(
            |f: PlannedFile| f.rel@,
        ).push(f.rel@));
        j = j + 1;
    }
    assert(fs.take(fs.len() as int) =~= fs);
    assert(outcomes@.take(fs.len() as int) =~= outcomes@);
    ScanStats {
        added,
        updated,
        removed: plan.removals.len(),
        failed,
        unchanged: plan.unchanged,
        changed_paths: changed,
        videos_needing_transcript: videos,
    }
}

/// Every file on disk is accounted for exactly once: it either stays as
/// the index has it or is planned for indexing.
pub proof fn law_scan_accounts_for_every_file(on_disk: Seq<DiskEntry>, indexed: Seq<IndexedEntry>)
    ensures
        unchanged_spec(on_disk, indexed) + to_index_spec(on_disk, indexed).len() == on_disk.len(),
    decreases on_disk.len(),
{
    if on_disk.len() > 0 {
        law_scan_accounts_for_every_file(on_disk.drop_last(), indexed);
    }
}

/// An index entry is removed exactly when no file on disk has its path.
pub proof fn law_scan_removes_exactly_the_vanished(indexed: Seq<IndexedEntry>, on_disk: Seq<DiskEntry>, rel: Seq<char>)
    requires
        exists|i: int| 0 <= i < indexed.len() && #[trigger] indexed[i].rel@ == rel,
    ensures
        removals_spec(indexed, on_disk).contains(rel) == !on_disk_has(on_disk, rel),
{
    lemma_removals_members(indexed, on_disk, rel);
}

proof fn lemma_removals_members(indexed: Seq<IndexedEntry>, on_disk: Seq<DiskEntry>, rel: Seq<char>)
    ensures
        removals_spec(indexed, on_disk).contains(rel) == (!on_disk_has(on_disk, rel) && exists|i: int|
            0 <= i < indexed.len() && #[trigger] indexed[i].rel@ == rel),
    decreases indexed.len(),
{
    if indexed.len() > 0 {
        let init = indexed.drop_last();
        lemma_removals_members(init, on_disk, rel);
        let r0 = removals_spec(init, on_disk);
        let r = removals_spec(indexed, on_disk);
        if exists|i: int| 0 <= i < init.len() && #[trigger] init[i].rel@ == rel {
            let i = choose|i: int| 0 <= i < init.len() && #[trigger] init[i].rel@ == rel;
            assert(indexed[i].rel@ == rel);
        }
        if exists|i: int| 0 <= i < indexed.len() && #[trigger] indexed[i].rel@ == rel {
            let i = choose|i: int| 0 <= i < indexed.len() && #[trigger] indexed[i].rel@ == rel;
            if i < init.len() {
                assert(init[i].rel@ == rel);
            }
        }
        if r0.contains(rel) {
            let k = choose|k: int| 0 <= k < r0.len() && r0[k] == rel;
            if !on_disk_has(on_disk, indexed.last().rel@) {
                assert(r[k] == rel);
            }
        }
        if !on_disk_has(on_disk, indexed.last().rel@) {
            assert(r[r.len() - 1] == indexed.last().rel@);
            if r.contains(rel) && !r0.contains(rel) {
                let k = choose|k: int| 0 <= k < r.len() && r[k] == rel;
                if k < r0.len() {
                    assert(r0[k] == rel);
                }
            }
        }
    }
}

} // verus!
