//! The decisions of a filesystem scan: sorting the entries of a directory
//! into file and directory rows, the directories to scan next, and the
//! totals of the scan.

use vstd::prelude::*;

use crate::fs_models::{
    FsDirectoryDbRow, FsFileDbRow, FsMetadataBasic, FsScanDatasourceDirsResult, FsScanDatasourceResult, ScanDatasourceArgs,
    fs_directory_scan_result,
};
use crate::identifier::DatabaseIdentifier;
use crate::paths::{file_name_of, parent_path_of};
use crate::strord::{sort_dedup, strictly_increasing, views_of};

verus! {

/// The entries that are files, in order.
pub open spec fn file_entries(cs: Seq<FsMetadataBasic>) -> Seq<FsMetadataBasic>
    decreases cs.len(),
{
    if cs.len() == 0 {
        Seq::empty()
    } else if cs.last().is_file {
        file_entries(cs.drop_last()).push(cs.last())
    } else {
        file_entries(cs.drop_last())
    }
}

/// The entries that are directories (and not files), in order.
pub open spec fn dir_entries(cs: Seq<FsMetadataBasic>) -> Seq<FsMetadataBasic>
    decreases cs.len(),
{
    if cs.len() == 0 {
        Seq::empty()
    } else if !cs.last().is_file && cs.last().is_dir {
        dir_entries(cs.drop_last()).push(cs.last())
    } else {
        dir_entries(cs.drop_last())
    }
}

/// The total size of the files among the entries.
pub open spec fn file_bytes(cs: Seq<FsMetadataBasic>) -> int
    decreases cs.len(),
{
    if cs.len() == 0 {
        0
    } else if cs.last().is_file {
        file_bytes(cs.drop_last()) + cs.last().size_bytes
    } else {
        file_bytes(cs.drop_last())
    }
}

/// The sum of the sizes of the entries.
pub open spec fn sizes_sum(cs: Seq<FsMetadataBasic>) -> int
    decreases cs.len(),
{
    if cs.len() == 0 {
        0
    } else {
        sizes_sum(cs.drop_last()) + cs.last().size_bytes
    }
}

/// The bytes counted for a directory's entries are the sizes of its files
/// and of nothing else: the sum of the sizes of the file entries.
pub proof fn lemma_file_bytes_are_file_sizes(cs: Seq<FsMetadataBasic>)
    ensures
        file_bytes(cs) == sizes_sum(file_entries(cs)),
    decreases cs.len(),
{
    if cs.len() > 0 {
        lemma_file_bytes_are_file_sizes(cs.drop_last());
        if cs.last().is_file {
            let fe = file_entries(cs.drop_last());
            assert(fe.push(cs.last()).drop_last() =~= fe);
        }
    }
}

/// One more entry adds its size to the bytes counted when it is a file,
/// and nothing when it is not (a directory's own size is never counted).
pub proof fn lemma_file_bytes_step(cs: Seq<FsMetadataBasic>, c: FsMetadataBasic)
    ensures
        !c.is_file ==> file_bytes(cs.push(c)) == file_bytes(cs),
        c.is_file ==> file_bytes(cs.push(c)) == file_bytes(cs) + c.size_bytes,
{
    assert(cs.push(c).drop_last() =~= cs);
    assert(cs.push(c).last() == c);
}

/// An entry of a scan is not both a file and a directory, and a file entry
/// has a directory and a name.
pub open spec fn file_entry_has_name(m: FsMetadataBasic) -> bool {
    &&& !(m.is_file && m.is_dir)
    &&& m.is_file ==> parent_path_of(m.path@) is Some && file_name_of(m.path@) is Some
}

/// `row` is the file row of entry `m` of datasource `ds`.
pub open spec fn is_file_row_of(row: FsFileDbRow, ds: Seq<char>, m: FsMetadataBasic) -> bool {
    &&& row.datasource_id@ == ds
    &&& Some(row.parent_dir_path@) == parent_path_of(m.path@)
    &&& Some(row.file_name@) == file_name_of(m.path@)
    &&& row.size_bytes == m.size_bytes as i64
    &&& row.fs_modified == m.modified
    &&& row.fs_created == m.created
}

/// `row` is the directory row of entry `m` of datasource `ds`.
pub open spec fn is_dir_row_of(row: FsDirectoryDbRow, ds: Seq<char>, m: FsMetadataBasic) -> bool {
    &&& row.datasource_id@ == ds
    &&& row.path@ == m.path@
    &&& row.size_bytes == m.size_bytes as i64
    &&& row.fs_modified == m.modified
    &&& row.fs_created == m.created
    &&& row.scan_children == (fs_directory_scan_result { file_count: 0, dir_count: 0, file_size_bytes: 0, errors: 0 })
    &&& row.scan_total == (fs_directory_scan_result { file_count: 0, dir_count: 0, file_size_bytes: 0, errors: 0 })
}

/// What a scan of one directory found.
#[derive(Debug, Clone, PartialEq, Eq)]
pub struct DirScanOutcome {
    /// Rows of the files found.
    pub files: Vec<FsFileDbRow>,
    /// Rows of the subdirectories found.
    pub dirs: Vec<FsDirectoryDbRow>,
    /// Totals of the directory's direct children.
    pub result: FsScanDatasourceResult,
    /// Subdirectories to scan next, sorted and without repeats.
    pub next_paths: Vec<String>,
}

/// Sorts the entries of a directory: files become file rows, directories
/// become directory rows and the directories to scan next; other entries
/// are skipped. The totals count the files, their bytes and the directories.
pub fn scan_entries(ds: &DatabaseIdentifier, children: &Vec<FsMetadataBasic>) -> (r: DirScanOutcome)
    requires
        forall|i: int| 0 <= i < children@.len() ==> #[trigger] file_entry_has_name(children@[i]),
        file_bytes(children@) <= u64::MAX,
    ensures
        r.files@.len() == file_entries(children@).len(),
        forall|i: int| 0 <= i < r.files@.len() ==> #[trigger] is_file_row_of(r.files@[i], ds@, file_entries(children@)[i]),
        r.dirs@.len() == dir_entries(children@).len(),
        forall|i: int| 0 <= i < r.dirs@.len() ==> #[trigger] is_dir_row_of(r.dirs@[i], ds@, dir_entries(children@)[i]),
        r.result.file_count == file_entries(children@).len(),
        r.result.dir_count == dir_entries(children@).len(),
        r.result.file_size_bytes == file_bytes(children@),
        r.result.file_size_bytes == sizes_sum(file_entries(children@)),
        r.result.errors == 0,
        strictly_increasing(views_of(r.next_paths@)),
        views_of(r.next_paths@).to_set() == dir_entries(children@).map_values(|m: FsMetadataBasic| m.path@).to_set(),
{
    let mut files: Vec<FsFileDbRow> = Vec::new();
    let mut dirs: Vec<FsDirectoryDbRow> = Vec::new();
    let mut paths: Vec<String> = Vec::new();
    let mut file_count: u64 = 0;
    let mut dir_count: u64 = 0;
    let mut file_size_bytes: u64 = 0;
    let n = children.len();
    let mut i: usize = 0;
    while i < n
        invariant
            n == children@.len(),
            i <= n,
            forall|k: int| 0 <= k < children@.len() ==> #[trigger] file_entry_has_name(children@[k]),
            file_bytes(children@) <= u64::MAX,
            files@.len() == file_entries(children@.subrange(0, i as int)).len(),
            forall|k: int| 0 <= k < files@.len() ==> #[trigger] is_file_row_of(files@[k], ds@, file_entries(children@.subrange(0, i as int))[k]),
            dirs@.len() == dir_entries(children@.subrange(0, i as int)).len(),
            forall|k: int| 0 <= k < dirs@.len() ==> #[trigger] is_dir_row_of(dirs@[k], ds@, dir_entries(children@.subrange(0, i as int))[k]),
            views_of(paths@) == dir_entries(children@.subrange(0, i as int)).map_values(|m: FsMetadataBasic| m.path@),
            file_count == files@.len(),
            dir_count == dirs@.len(),
            files@.len() <= i,
            dirs@.len() <= i,
            file_size_bytes == file_bytes(children@.subrange(0, i as int)),
        decreases n - i,
    {
        let ghost pre = children@.subrange(0, i as int);
        let ghost cur = children@.subrange(0, i + 1);
        proof {
            assert(cur.drop_last() =~= pre);
            assert(cur.last() == children@[i as int]);
            lemma_file_bytes_prefix(children@, i + 1);
            lemma_entries_len(pre);
        }
        let c = &children[i];
        if c.is_file {
            assert(file_entry_has_name(children@[i as int]));
            let row = FsFileDbRow::from_basic_meta(ds, c);
            let ghost fprev = files@;
            files.push(row);
            file_count = file_count + 1;
            file_size_bytes = file_size_bytes + c.size_bytes;
            proof {
                assert(file_entries(cur) == file_entries(pre).push(*c));
                assert forall|k: int| 0 <= k < files@.len() implies #[trigger] is_file_row_of(files@[k], ds@, file_entries(cur)[k]) by {
                    if k < fprev.len() {
                        assert(files@[k] == fprev[k]);
                    }
                }
                assert(dir_entries(cur) == dir_entries(pre));
            }
        } else if c.is_dir {
            let row = FsDirectoryDbRow::from_basic_meta(ds, c);
            let ghost dprev = dirs@;
            let ghost pprev = paths@;
            dirs.push(row);
            paths.push(c.path.clone());
            dir_count = dir_count + 1;
            proof {
                assert(dir_entries(cur) == dir_entries(pre).push(*c));
                assert forall|k: int| 0 <= k < dirs@.len() implies #[trigger] is_dir_row_of(dirs@[k], ds@, dir_entries(cur)[k]) by {
                    if k < dprev.len() {
                        assert(dirs@[k] == dprev[k]);
                    }
                }
                assert(views_of(paths@) =~= views_of(pprev).push(c.path@));
                assert(dir_entries(cur).map_values(|m: FsMetadataBasic| m.path@) =~= dir_entries(pre).map_values(|m: FsMetadataBasic| m.path@).push(c.path@));
                assert(file_entries(cur) == file_entries(pre));
            }
        } else {
            proof {
                assert(file_entries(cur) == file_entries(pre));
                assert(dir_entries(cur) == dir_entries(pre));
            }
        }
        i = i + 1;
    }
    proof {
        assert(children@.subrange(0, n as int) =~= children@);
    }
    let next_paths = sort_dedup(paths);
    proof {
        lemma_file_bytes_are_file_sizes(children@);
    }
    DirScanOutcome {
        files,
        dirs,
        result: FsScanDatasourceResult { file_count, dir_count, file_size_bytes, errors: 0 },
        next_paths,
    }
}

proof fn lemma_entries_len(cs: Seq<FsMetadataBasic>)
    ensures
        file_entries(cs).len() <= cs.len(),
        dir_entries(cs).len() <= cs.len(),
    decreases cs.len(),
{
    if cs.len() > 0 {
        lemma_entries_len(cs.drop_last());
    }
}

/// The total size of files never shrinks as entries are added.
proof fn lemma_file_bytes_prefix(cs: Seq<FsMetadataBasic>, k: int)
    requires
        0 <= k <= cs.len(),
    ensures
        0 <= file_bytes(cs.subrange(0, k)) <= file_bytes(cs),
    decreases cs.len() - k,
{
    if k < cs.len() {
        lemma_file_bytes_prefix(cs, k + 1);
        assert(cs.subrange(0, k + 1).drop_last() =~= cs.subrange(0, k));
    } else {
        assert(cs.subrange(0, k) =~= cs);
    }
    lemma_file_bytes_nonneg(cs.subrange(0, k));
}

proof fn lemma_file_bytes_nonneg(cs: Seq<FsMetadataBasic>)
    ensures
        file_bytes(cs) >= 0,
    decreases cs.len(),
{
    if cs.len() > 0 {
        lemma_file_bytes_nonneg(cs.drop_last());
    }
}

/// Sorts the entries of a directory as [`scan_entries`] does, or `None`
/// when a file entry lacks a directory or a name, or the file sizes add up
/// beyond `u64`.
pub fn try_scan_entries(ds: &DatabaseIdentifier, children: &Vec<FsMetadataBasic>) -> (r: Option<DirScanOutcome>)
    ensures
        r is None <==> (exists|i: int| 0 <= i < children@.len() && !#[trigger] file_entry_has_name(children@[i]))
            || file_bytes(children@) > u64::MAX,
        r matches Some(o) ==> {
            &&& o.files@.len() == file_entries(children@).len()
            &&& forall|i: int| 0 <= i < o.files@.len() ==> #[trigger] is_file_row_of(o.files@[i], ds@, file_entries(children@)[i])
            &&& o.dirs@.len() == dir_entries(children@).len()
            &&& forall|i: int| 0 <= i < o.dirs@.len() ==> #[trigger] is_dir_row_of(o.dirs@[i], ds@, dir_entries(children@)[i])
            &&& o.result.file_count == file_entries(children@).len()
            &&& o.result.dir_count == dir_entries(children@).len()
            &&& o.result.file_size_bytes == file_bytes(children@)
            &&& o.result.file_size_bytes == sizes_sum(file_entries(children@))
            &&& o.result.errors == 0
            &&& strictly_increasing(views_of(o.next_paths@))
            &&& views_of(o.next_paths@).to_set() == dir_entries(children@).map_values(|m: FsMetadataBasic| m.path@).to_set()
        },
{
    let n = children.len();
    let mut i: usize = 0;
    let mut total: u64 = 0;
    while i < n
        invariant
            n == children@.len(),
            i <= n,
            forall|k: int| 0 <= k < i ==> #[trigger] file_entry_has_name(children@[k]),
            total == file_bytes(children@.subrange(0, i as int)),
        decreases n - i,
    {
        let c = &children[i];
        proof {
            assert(children@.subrange(0, i + 1).drop_last() =~= children@.subrange(0, i as int));
            lemma_file_bytes_prefix(children@, i + 1);
        }
        if c.is_file {
            let p = crate::paths::path_parent(c.path.as_str());
            let f = crate::paths::path_file_name(c.path.as_str());
            if c.is_dir || p.is_none() || f.is_none() {
                assert(!file_entry_has_name(children@[i as int]));
                return None;
            }
            if total > u64::MAX - c.size_bytes {
                proof {
                    lemma_file_bytes_prefix(children@, i + 1);
                }
                return None;
            }
            total = total + c.size_bytes;
        }
        i = i + 1;
    }
    proof {
        assert(children@.subrange(0, n as int) =~= children@);
    }
    Some(scan_entries(ds, children))
}

/// The stored totals of a directory's direct children after its scan.
pub fn children_scan_totals(r: &FsScanDatasourceResult) -> (s: fs_directory_scan_result)
    ensures
        s.file_count == r.file_count as i32,
        s.dir_count == r.dir_count as i32,
        s.file_size_bytes == r.file_size_bytes as i64,
        s.errors == 0,
{
    fs_directory_scan_result {
        file_count: #[verifier::truncate] (r.file_count as i32),
        dir_count: #[verifier::truncate] (r.dir_count as i32),
        file_size_bytes: #[verifier::truncate] (r.file_size_bytes as i64),
        errors: 0,
    }
}

/// The outcome of the sub-scans, `None` for one that failed.
pub open spec fn merged_scan(base: FsScanDatasourceResult, rs: Seq<Option<FsScanDatasourceResult>>) -> (int, int, int, int)
    decreases rs.len(),
{
    if rs.len() == 0 {
        (base.file_count as int, base.dir_count as int, base.file_size_bytes as int, base.errors as int)
    } else {
        let m = merged_scan(base, rs.drop_last());
        match rs.last() {
            Some(r) => (m.0 + r.file_count, m.1 + r.dir_count, m.2 + r.file_size_bytes, m.3 + r.errors),
            None => (m.0, m.1, m.2, m.3 + 1),
        }
    }
}

/// Merging one more successful sub-scan adds each of its four totals to
/// the merged ones (its files, its directories, its bytes and its errors);
/// merging a failed one adds one error and nothing else; merging none
/// gives the base.
pub proof fn lemma_merge_adds_every_total(
    base: FsScanDatasourceResult,
    rs: Seq<Option<FsScanDatasourceResult>>,
    r: FsScanDatasourceResult,
)
    ensures
        merged_scan(base, Seq::empty()) == (base.file_count as int, base.dir_count as int, base.file_size_bytes as int, base.errors as int),
        merged_scan(base, rs.push(Some(r))).0 == merged_scan(base, rs).0 + r.file_count,
        merged_scan(base, rs.push(Some(r))).1 == merged_scan(base, rs).1 + r.dir_count,
        merged_scan(base, rs.push(Some(r))).2 == merged_scan(base, rs).2 + r.file_size_bytes,
        merged_scan(base, rs.push(Some(r))).3 == merged_scan(base, rs).3 + r.errors,
        merged_scan(base, rs.push(None)).0 == merged_scan(base, rs).0,
        merged_scan(base, rs.push(None)).1 == merged_scan(base, rs).1,
        merged_scan(base, rs.push(None)).2 == merged_scan(base, rs).2,
        merged_scan(base, rs.push(None)).3 == merged_scan(base, rs).3 + 1,
{
    assert(rs.push(Some(r)).drop_last() =~= rs);
    assert(rs.push(None::<FsScanDatasourceResult>).drop_last() =~= rs);
}

/// Each merged total is the base's plus that of the merged sub-scans alone:
/// the base directory's files and directories are counted once, whatever
/// the sub-scans.
pub proof fn lemma_merge_base_adds(base: FsScanDatasourceResult, rs: Seq<Option<FsScanDatasourceResult>>)
    ensures
        merged_scan(base, rs).0 == base.file_count + merged_scan(no_scan_totals(), rs).0,
        merged_scan(base, rs).1 == base.dir_count + merged_scan(no_scan_totals(), rs).1,
        merged_scan(base, rs).2 == base.file_size_bytes + merged_scan(no_scan_totals(), rs).2,
        merged_scan(base, rs).3 == base.errors + merged_scan(no_scan_totals(), rs).3,
    decreases rs.len(),
{
    if rs.len() > 0 {
        lemma_merge_base_adds(base, rs.drop_last());
    }
}

/// Totals of nothing.
pub open spec fn no_scan_totals() -> FsScanDatasourceResult {
    FsScanDatasourceDirsResult { file_count: 0, dir_count: 0, file_size_bytes: 0, errors: 0 }
}

/// The four totals fit in `u64`.
pub open spec fn merged_fits(m: (int, int, int, int)) -> bool {
    m.0 <= u64::MAX && m.1 <= u64::MAX && m.2 <= u64::MAX && m.3 <= u64::MAX
}

proof fn lemma_merged_monotone(base: FsScanDatasourceResult, rs: Seq<Option<FsScanDatasourceResult>>, k: int)
    requires
        0 <= k <= rs.len(),
    ensures
        ({
            let a = merged_scan(base, rs.subrange(0, k));
            let b = merged_scan(base, rs);
            &&& a.0 <= b.0 && a.1 <= b.1 && a.2 <= b.2 && a.3 <= b.3
            &&& a.0 >= 0 && a.1 >= 0 && a.2 >= 0 && a.3 >= 0
        }),
    decreases rs.len() - k,
{
    if k < rs.len() {
        lemma_merged_monotone(base, rs, k + 1);
        assert(rs.subrange(0, k + 1).drop_last() =~= rs.subrange(0, k));
    } else {
        assert(rs.subrange(0, k) =~= rs);
    }
    lemma_merged_nonneg(base, rs.subrange(0, k));
}

proof fn lemma_merged_nonneg(base: FsScanDatasourceResult, rs: Seq<Option<FsScanDatasourceResult>>)
    ensures
        ({
            let a = merged_scan(base, rs);
            a.0 >= 0 && a.1 >= 0 && a.2 >= 0 && a.3 >= 0
        }),
    decreases rs.len(),
{
    if rs.len() > 0 {
        lemma_merged_nonneg(base, rs.drop_last());
    }
}

/// Adds the totals of the sub-scans to `base`; a failed sub-scan counts as
/// one error.
pub fn merge_scan_results(base: FsScanDatasourceResult, results: &Vec<Option<FsScanDatasourceResult>>) -> (r: FsScanDatasourceResult)
    requires
        merged_fits(merged_scan(base, results@)),
    ensures
        (r.file_count as int, r.dir_count as int, r.file_size_bytes as int, r.errors as int) == merged_scan(base, results@),
{
    let mut acc = base;
    let n = results.len();
    let mut i: usize = 0;
    while i < n
        invariant
            n == results@.len(),
            i <= n,
            merged_fits(merged_scan(base, results@)),
            (acc.file_count as int, acc.dir_count as int, acc.file_size_bytes as int, acc.errors as int) == merged_scan(base, results@.subrange(0, i as int)),
        decreases n - i,
    {
        proof {
            lemma_merged_monotone(base, results@, i + 1);
            assert(results@.subrange(0, i + 1).drop_last() =~= results@.subrange(0, i as int));
        }
        match &results[i] {
            Some(r) => {
                acc.file_count = acc.file_count + r.file_count;
                acc.dir_count = acc.dir_count + r.dir_count;
                acc.file_size_bytes = acc.file_size_bytes + r.file_size_bytes;
                acc.errors = acc.errors + r.errors;
            },
            None => {
                acc.errors = acc.errors + 1;
            },
        }
        i = i + 1;
    }
    proof {
        assert(results@.subrange(0, n as int) =~= results@);
    }
    acc
}

/// Directories of a scan with this many subdirectories or more are scanned
/// in groups.
pub const SCAN_GROUP_THRESHOLD: usize = 10;

/// The arguments for scanning each subdirectory found, in order, in the
/// same collection and datasource.
pub fn scan_child_args(args: &ScanDatasourceArgs, next_paths: Vec<String>) -> (r: Vec<ScanDatasourceArgs>)
    ensures
        r@.len() == next_paths@.len(),
        forall|i: int| 0 <= i < r@.len() ==> {
            &&& (#[trigger] r@[i]).collection_id@ == args.collection_id@
            &&& r@[i].datasource_id@ == args.datasource_id@
            &&& r@[i].path == Some(next_paths@[i])
        },
{
    let ghost all = next_paths@;
    let mut r: Vec<ScanDatasourceArgs> = Vec::new();
    for p in it: next_paths.into_iter()
        invariant
            it.seq() == all,
            r@.len() == it.index(),
            forall|i: int| 0 <= i < r@.len() ==> {
                &&& (#[trigger] r@[i]).collection_id@ == args.collection_id@
                &&& r@[i].datasource_id@ == args.datasource_id@
                &&& r@[i].path == Some(all[i])
            },
    {
        r.push(ScanDatasourceArgs {
            collection_id: args.collection_id.clone(),
            datasource_id: args.datasource_id.clone(),
            path: Some(p),
        });
    }
    r
}

} // verus!
