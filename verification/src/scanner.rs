use crate::ignore::IgnoreFilter;
use crate::text::{extension_spec, extension_range, lower_seq, range_lower_eq};
use crate::seqs::lemma_filter_subset;
use vstd::prelude::*;

verus! {

/// Identity of a file as the scanner records it: its path, modification
/// time in epoch seconds, and size in bytes.
pub struct FileMetadata {
    pub path: String,
    pub modified_time: i64,
    pub file_size: i64,
}

/// The outcome of an incremental scan: the observed files, what is new or
/// modified, what disappeared, the counts, and how long the scan took.
pub struct ScanResult {
    pub files: Vec<FileMetadata>,
    pub new_files: Vec<String>,
    pub deleted_files: Vec<String>,
    pub total_count: usize,
    pub new_count: usize,
    pub deleted_count: usize,
    pub unchanged_count: usize,
    pub duration_ms: u128,
}

/// A summary of a finished scan, for display.
pub struct ScanProgress {
    pub total_files: usize,
    pub new_files: usize,
    pub deleted_files: usize,
    pub duration_ms: u128,
}

/// Whether some previous record carries this path with this modification
/// time.
pub open spec fn prev_has_same(prev: Seq<(String, i64, i64)>, path: Seq<char>, mtime: i64) -> bool {
    exists|j: int| 0 <= j < prev.len() && prev[j].0@ == path && prev[j].1 == mtime
}

/// Whether the observed file counts as unchanged against the previous
/// records: some record has its path with the same modification time.
pub open spec fn is_unchanged(prev: Seq<(String, i64, i64)>, f: FileMetadata) -> bool {
    prev_has_same(prev, f.path@, f.modified_time)
}

/// The added paths of a diff: paths of observed files that are new or
/// modified — no previous record carries the path with the same time — in
/// scan order. A modified file is treated as added: its record is replaced
/// whole, never patched.
pub open spec fn added_paths(prev: Seq<(String, i64, i64)>, files: Seq<FileMetadata>) -> Seq<
    Seq<char>,
> {
    files.filter(|f: FileMetadata| !is_unchanged(prev, f)).map_values(
        |f: FileMetadata| f.path@,
    )
}

/// Whether some observed file carries the path.
pub open spec fn files_have_path(files: Seq<FileMetadata>, path: Seq<char>) -> bool {
    exists|j: int| 0 <= j < files.len() && files[j].path@ == path
}

/// The removed paths of a diff: paths recorded previously that no observed
/// file carries, in record order.
pub open spec fn removed_paths(prev: Seq<(String, i64, i64)>, files: Seq<FileMetadata>) -> Seq<
    Seq<char>,
> {
    prev.filter(|x: (String, i64, i64)| !files_have_path(files, x.0@)).map_values(
        |x: (String, i64, i64)| x.0@,
    )
}

/// One more observed file extends the added paths exactly when no previous
/// record matches it.
proof fn lemma_added_paths_push(
    prev: Seq<(String, i64, i64)>,
    files: Seq<FileMetadata>,
    f: FileMetadata,
)
    ensures
        added_paths(prev, files.push(f)) == if is_unchanged(prev, f) {
            added_paths(prev, files)
        } else {
            added_paths(prev, files).push(f.path@)
        },
{
    broadcast use vstd::prelude::Seq::lemma_filter_push;

    let pred = |x: FileMetadata| !is_unchanged(prev, x);
    let m = |x: FileMetadata| x.path@;
    assert(files.push(f).filter(pred) == if pred(f) {
        files.filter(pred).push(f)
    } else {
        files.filter(pred)
    });
    if pred(f) {
        assert(files.filter(pred).push(f).map_values(m) =~= files.filter(pred).map_values(
            m,
        ).push(f.path@));
    }
}

/// One more previous record extends the removed paths exactly when no
/// observed file carries its path.
proof fn lemma_removed_paths_push(
    prev: Seq<(String, i64, i64)>,
    files: Seq<FileMetadata>,
    x: (String, i64, i64),
)
    ensures
        removed_paths(prev.push(x), files) == if files_have_path(files, x.0@) {
            removed_paths(prev, files)
        } else {
            removed_paths(prev, files).push(x.0@)
        },
{
    broadcast use vstd::prelude::Seq::lemma_filter_push;

    let pred = |y: (String, i64, i64)| !files_have_path(files, y.0@);
    let m = |y: (String, i64, i64)| y.0@;
    assert(prev.push(x).filter(pred) == if pred(x) {
        prev.filter(pred).push(x)
    } else {
        prev.filter(pred)
    });
    if pred(x) {
        assert(prev.filter(pred).push(x).map_values(m) =~= prev.filter(pred).map_values(m).push(
            x.0@,
        ));
    }
}

/// Whether some previous record carries the file's path with the same
/// modification time.
fn prev_lookup(prev: &Vec<(String, i64, i64)>, f: &FileMetadata) -> (r: bool)
    ensures
        r == is_unchanged(prev@, *f),
{
    let mut j: usize = 0;
    while j < prev.len()
        invariant
            j <= prev@.len(),
            forall|k: int|
                0 <= k < j ==> !((#[trigger] prev@[k]).0@ == f.path@ && prev@[k].1
                    == f.modified_time),
        decreases prev@.len() - j,
    {
        if prev[j].0.eq(&f.path) && prev[j].1 == f.modified_time {
            return true;
        }
        j = j + 1;
    }
    false
}

/// Whether some observed file carries the path.
fn files_lookup(files: &Vec<FileMetadata>, path: &String) -> (r: bool)
    ensures
        r == files_have_path(files@, path@),
{
    let mut j: usize = 0;
    while j < files.len()
        invariant
            j <= files@.len(),
            forall|k: int| 0 <= k < j ==> (#[trigger] files@[k]).path@ != path@,
        decreases files@.len() - j,
    {
        if files[j].path.eq(path) {
            return true;
        }
        j = j + 1;
    }
    false
}

/// Classify the observed files against the previous records, one pass over
/// each: a file whose path is unrecorded, or recorded with another
/// modification time, is added; a recorded path that no observed file
/// carries is removed; the rest are unchanged. Added and removed paths are
/// disjoint, and added plus unchanged cover the observed files.
pub fn diff_against_previous(
    files: Vec<FileMetadata>,
    previous_files: Vec<(String, i64, i64)>,
    duration_ms: u128,
) -> (r: ScanResult)
    ensures
        r.files == files,
        r.new_files.deep_view() == added_paths(previous_files@, files@),
        r.deleted_files.deep_view() == removed_paths(previous_files@, files@),
        r.total_count == files@.len(),
        r.new_count == r.new_files@.len(),
        r.deleted_count == r.deleted_files@.len(),
        r.unchanged_count + r.new_files@.len() == files@.len(),
        r.duration_ms == duration_ms,
        forall|p: Seq<char>|
            added_paths(previous_files@, files@).contains(p) ==> !removed_paths(
                previous_files@,
                files@,
            ).contains(p),
{
    let mut new_files: Vec<String> = Vec::new();
    let mut unchanged_count: usize = 0;
    let mut i: usize = 0;
    proof {
        assert(files@.subrange(0, 0) =~= Seq::<FileMetadata>::empty());
        assert(added_paths(previous_files@, files@.subrange(0, 0)) =~= Seq::<Seq<char>>::empty())
            by {
            broadcast use vstd::prelude::Seq::lemma_filter_len;

        }
    }
    while i < files.len()
        invariant
            i <= files@.len(),
            new_files.deep_view() =~= added_paths(previous_files@, files@.subrange(0, i as int)),
            unchanged_count + new_files@.len() == i,
        decreases files@.len() - i,
    {
        let ghost pre_added = new_files.deep_view();
        let unchanged = prev_lookup(&previous_files, &files[i]);
        if unchanged {
            unchanged_count = unchanged_count + 1;
        } else {
            let p = files[i].path.clone();
            new_files.push(p);
        }
        proof {
            let prefix = files@.subrange(0, i as int);
            assert(files@.subrange(0, i as int + 1) =~= prefix.push(files@[i as int]));
            lemma_added_paths_push(previous_files@, prefix, files@[i as int]);
            if !unchanged {
                assert(new_files.deep_view() =~= pre_added.push(files@[i as int].path@));
            }
            assert(new_files.deep_view() =~= added_paths(
                previous_files@,
                files@.subrange(0, i as int + 1),
            ));
        }
        i = i + 1;
    }
    proof {
        assert(files@.subrange(0, files@.len() as int) =~= files@);
    }
    let mut deleted_files: Vec<String> = Vec::new();
    let mut j: usize = 0;
    proof {
        assert(previous_files@.subrange(0, 0) =~= Seq::<(String, i64, i64)>::empty());
        assert(removed_paths(previous_files@.subrange(0, 0), files@) =~= Seq::<
            Seq<char>,
        >::empty()) by {
            broadcast use vstd::prelude::Seq::lemma_filter_len;

        }
    }
    while j < previous_files.len()
        invariant
            j <= previous_files@.len(),
            deleted_files.deep_view() =~= removed_paths(
                previous_files@.subrange(0, j as int),
                files@,
            ),
        decreases previous_files@.len() - j,
    {
        let ghost pre_removed = deleted_files.deep_view();
        let present = files_lookup(&files, &previous_files[j].0);
        if !present {
            let p = previous_files[j].0.clone();
            deleted_files.push(p);
        }
        proof {
            let prefix = previous_files@.subrange(0, j as int);
            assert(previous_files@.subrange(0, j as int + 1) =~= prefix.push(
                previous_files@[j as int],
            ));
            lemma_removed_paths_push(prefix, files@, previous_files@[j as int]);
            if !present {
                assert(deleted_files.deep_view() =~= pre_removed.push(
                    previous_files@[j as int].0@,
                ));
            }
            assert(deleted_files.deep_view() =~= removed_paths(
                previous_files@.subrange(0, j as int + 1),
                files@,
            ));
        }
        j = j + 1;
    }
    proof {
        assert(previous_files@.subrange(0, previous_files@.len() as int) =~= previous_files@);
        let added = added_paths(previous_files@, files@);
        let removed = removed_paths(previous_files@, files@);
        let fpred = |f: FileMetadata| !is_unchanged(previous_files@, f);
        let ppred = |y: (String, i64, i64)| !files_have_path(files@, y.0@);
        assert forall|p: Seq<char>| added.contains(p) implies !removed.contains(p) by {
            let ai = choose|ai: int| 0 <= ai < added.len() && added[ai] == p;
            lemma_filter_subset(files@, fpred);
            assert(files@.contains(files@.filter(fpred)[ai]));
            assert(files@.filter(fpred)[ai].path@ == p);
            let fj = choose|fj: int|
                0 <= fj < files@.len() && files@[fj] == files@.filter(fpred)[ai];
            assert(files_have_path(files@, p));
            if removed.contains(p) {
                let ri = choose|ri: int| 0 <= ri < removed.len() && removed[ri] == p;
                broadcast use vstd::prelude::Seq::lemma_filter_pred;

                assert(ppred(previous_files@.filter(ppred)[ri]));
                assert(previous_files@.filter(ppred)[ri].0@ == p);
            }
        }
    }
    let total_count = files.len();
    let new_count = new_files.len();
    let deleted_count = deleted_files.len();
    ScanResult {
        files,
        new_files,
        deleted_files,
        total_count,
        new_count,
        deleted_count,
        unchanged_count,
        duration_ms,
    }
}

/// The recognized image file extensions, in lower case.
pub open spec fn is_image_ext(e: Seq<char>) -> bool {
    ||| e == "jpg"@
    ||| e == "jpeg"@
    ||| e == "png"@
    ||| e == "gif"@
    ||| e == "bmp"@
    ||| e == "webp"@
    ||| e == "tiff"@
    ||| e == "tif"@
}

/// Whether the path names an image: its extension, taken to lower case, is
/// a recognized image extension.
pub open spec fn is_image_path(p: Seq<char>) -> bool {
    match extension_spec(p) {
        Some(e) => is_image_ext(lower_seq(e)),
        None => false,
    }
}

/// The walk-side filter of the scanner: recognized image extensions,
/// restricted by the exclusion rules.
pub struct ImageScanner {
    pub ignore_filter: IgnoreFilter,
}

impl ImageScanner {
    /// A scanner that applies the given exclusion rules.
    pub fn new(ignore_filter: IgnoreFilter) -> (r: ImageScanner)
        ensures
            r.ignore_filter == ignore_filter,
    {
        ImageScanner { ignore_filter }
    }

    /// Whether the path's extension, case set aside, is a recognized image
    /// extension.
    pub fn is_image_file(&self, path: &str) -> (r: bool)
        ensures
            r == is_image_path(path@),
    {
        match extension_range(path) {
            None => false,
            Some(range) => {
                let (a, b) = range;
                range_lower_eq(path, a, b, "jpg") || range_lower_eq(path, a, b, "jpeg")
                    || range_lower_eq(path, a, b, "png") || range_lower_eq(path, a, b, "gif")
                    || range_lower_eq(path, a, b, "bmp") || range_lower_eq(path, a, b, "webp")
                    || range_lower_eq(path, a, b, "tiff") || range_lower_eq(path, a, b, "tif")
            },
        }
    }

    /// Whether the scanner keeps the path: a recognized image that the
    /// exclusion rules do not match.
    pub fn accepts(&self, path: &str) -> (r: bool)
        ensures
            r == (is_image_path(path@) && !self.ignore_filter.is_ignored_spec(path@)),
    {
        self.is_image_file(path) && !self.ignore_filter.is_ignored(path)
    }
}

/// Whether the progress sink is due a report after this many processed
/// files: at every hundredth file and once at completion, so the caller
/// can render progress without per-file overhead.
pub fn progress_due(processed: usize, total: usize) -> (r: bool)
    ensures
        r == (processed % 100 == 0 || processed == total),
{
    processed % 100 == 0 || processed == total
}

impl ScanResult {
    /// The display summary of this result.
    pub fn progress(&self) -> (r: ScanProgress)
        ensures
            r.total_files == self.total_count,
            r.new_files == self.new_count,
            r.deleted_files == self.deleted_count,
            r.duration_ms == self.duration_ms,
    {
        ScanProgress {
            total_files: self.total_count,
            new_files: self.new_count,
            deleted_files: self.deleted_count,
            duration_ms: self.duration_ms,
        }
    }
}

} // verus!
