//! The file hashing plan: chunks of files grouped by directory.

use vstd::prelude::*;

use crate::chunking::{
    chunk_by_size, chunk_limits_ok, chunked, lemma_chunks_fit, prefix_totals_fit, sized_by,
    total_size, vec_views,
};
use crate::chunking::{chunk_vec, chunks_count, count_in, flatten_vecs, lemma_chunked_partition, lemma_count_in_concat};
use crate::fs_models::{FsFileDbRow, HashFileArgs};
use crate::identifier::{CollectionId, DatabaseIdentifier};
use crate::strord::{lex_lt, lemma_lex_total, lemma_lex_transitive, str_compare};

verus! {

/// Files of one directory: names with sizes.
pub open spec fn files_view(v: Seq<(String, i64)>) -> Seq<(Seq<char>, i64)> {
    v.map_values(|p: (String, i64)| (p.0@, p.1))
}

/// The files of `files` that lie in directory `d`, in order, with sizes.
pub open spec fn files_in_dir(files: Seq<FsFileDbRow>, d: Seq<char>) -> Seq<(Seq<char>, i64)>
    decreases files.len(),
{
    if files.len() == 0 {
        Seq::empty()
    } else if files.last().parent_dir_path@ == d {
        files_in_dir(files.drop_last(), d).push((files.last().file_name@, files.last().size_bytes))
    } else {
        files_in_dir(files.drop_last(), d)
    }
}

/// Some file of `files` lies in directory `d`.
pub open spec fn has_dir(files: Seq<FsFileDbRow>, d: Seq<char>) -> bool {
    exists|i: int| 0 <= i < files.len() && #[trigger] files[i].parent_dir_path@ == d
}

/// The sum of the file sizes.
pub open spec fn files_size(files: Seq<FsFileDbRow>) -> int
    decreases files.len(),
{
    if files.len() == 0 {
        0
    } else {
        files_size(files.drop_last()) + files.last().size_bytes
    }
}

/// Every prefix of the files has a total size that fits in `i64`.
pub open spec fn prefix_sizes_fit(files: Seq<FsFileDbRow>) -> bool {
    forall|k: int| 0 <= k <= files.len() ==> i64::MIN <= #[trigger] files_size(files.subrange(0, k)) <= i64::MAX
}

/// A chunk of the file hashing plan.
#[derive(Debug, Clone, PartialEq, Eq)]
pub struct FileHashPlanChunk {
    /// Total size of the files of the chunk.
    pub chunk_size: i64,
    /// Directories, in increasing order, each with its files in plan order.
    pub dirs: Vec<(String, Vec<(String, i64)>)>,
}

/// The plan chunk describes exactly the given files.
pub open spec fn plan_chunk_of(c: FileHashPlanChunk, files: Seq<FsFileDbRow>) -> bool {
    plan_parts_of(c.chunk_size, c.dirs@, files)
}

/// A total size and a list of directories with their files describe exactly
/// the given files: the size is their sum, the directories are those of the
/// files, each once and in increasing order, and each lists its files in order.
pub open spec fn plan_parts_of(size: i64, dirs: Seq<(String, Vec<(String, i64)>)>, files: Seq<FsFileDbRow>) -> bool {
    &&& size == files_size(files)
    &&& forall|i: int, j: int| 0 <= i < j < dirs.len() ==> lex_lt(#[trigger] dirs[i].0@, #[trigger] dirs[j].0@)
    &&& forall|i: int| 0 <= i < dirs.len() ==> files_view(#[trigger] dirs[i].1@) =~= files_in_dir(files, dirs[i].0@)
    &&& forall|i: int| 0 <= i < dirs.len() ==> has_dir(files, #[trigger] dirs[i].0@)
    &&& forall|d: Seq<char>| has_dir(files, d) ==> exists|i: int| 0 <= i < dirs.len() && #[trigger] dirs[i].0@ == d
}

/// Where directory `d` belongs among the increasing directories.
fn find_dir(dirs: &Vec<(String, Vec<(String, i64)>)>, d: &str) -> (res: (usize, bool))
    ensures
        res.0 <= dirs@.len(),
        forall|j: int| 0 <= j < res.0 ==> lex_lt(#[trigger] dirs@[j].0@, d@),
        res.1 ==> res.0 < dirs@.len() && dirs@[res.0 as int].0@ == d@,
        !res.1 ==> res.0 == dirs@.len() || lex_lt(d@, dirs@[res.0 as int].0@),
{
    let n = dirs.len();
    let mut pos: usize = 0;
    while pos < n
        invariant
            n == dirs@.len(),
            pos <= n,
            forall|j: int| 0 <= j < pos ==> lex_lt(#[trigger] dirs@[j].0@, d@),
        decreases n - pos,
    {
        let c = str_compare(dirs[pos].0.as_str(), d);
        if c == 0 {
            return (pos, true);
        }
        if c == 1 {
            return (pos, false);
        }
        pos = pos + 1;
    }
    (pos, false)
}

/// Groups the files of a chunk by directory and sums their sizes.
pub fn plan_chunk_from_files(files: &Vec<FsFileDbRow>) -> (r: FileHashPlanChunk)
    requires
        prefix_sizes_fit(files@),
    ensures
        plan_chunk_of(r, files@),
{
    let mut dirs: Vec<(String, Vec<(String, i64)>)> = Vec::new();
    let mut chunk_size: i64 = 0;
    let n = files.len();
    let mut i: usize = 0;
    proof {
        assert(files@.subrange(0, 0) =~= Seq::<FsFileDbRow>::empty());
    }
    while i < n
        invariant
            n == files@.len(),
            i <= n,
            prefix_sizes_fit(files@),
            plan_parts_of(chunk_size, dirs@, files@.subrange(0, i as int)),
        decreases n - i,
    {
        let ghost pre = files@.subrange(0, i as int);
        let ghost cur = files@.subrange(0, i + 1);
        let f = &files[i];
        proof {
            assert(cur.drop_last() =~= pre);
            assert(cur =~= pre.push(*f));
            assert(cur.last() == *f);
            assert(files_size(cur) == files_size(pre) + f.size_bytes);
            assert(i64::MIN <= files_size(files@.subrange(0, i + 1)) <= i64::MAX);
        }
        let ghost before = dirs@;
        proof {
            assert(plan_parts_of(chunk_size, before, pre));
        }
        chunk_size = chunk_size + f.size_bytes;
        let (pos, found) = find_dir(&dirs, f.parent_dir_path.as_str());
        let entry = (f.file_name.clone(), f.size_bytes);
        if found {
            let (key, mut list) = dirs.remove(pos);
            let ghost lold = list@;
            list.push(entry);
            dirs.insert(pos, (key, list));
            proof {
                assert(dirs@ =~= before.update(pos as int, dirs@[pos as int]));
                assert(before[pos as int].1@ == lold);
                lemma_files_in_dir_push(pre, *f, f.parent_dir_path@);
                assert(cur =~= pre.push(*f));
                assert forall|a: int, b: int| 0 <= a < b < dirs@.len() implies lex_lt(#[trigger] dirs@[a].0@, #[trigger] dirs@[b].0@) by {
                    assert(before[a].0@ == dirs@[a].0@);
                    assert(before[b].0@ == dirs@[b].0@);
                }
                assert(files_view(list@) =~= files_view(lold).push((f.file_name@, f.size_bytes)));
                assert forall|k: int| 0 <= k < dirs@.len() implies files_view(#[trigger] dirs@[k].1@) == files_in_dir(cur, dirs@[k].0@) by {
                    lemma_files_in_dir_push(pre, *f, dirs@[k].0@);
                    if k != pos as int {
                        assert(dirs@[k] == before[k]);
                        assert(before[k].0@ != f.parent_dir_path@) by {
                            if k < pos as int {
                                assert(lex_lt(before[k].0@, before[pos as int].0@));
                            } else {
                                assert(lex_lt(before[pos as int].0@, before[k].0@));
                            }
                            crate::strord::lemma_lex_irreflexive(f.parent_dir_path@);
                        }
                    }
                }
                assert forall|k: int| 0 <= k < dirs@.len() implies has_dir(cur, #[trigger] dirs@[k].0@) by {
                    assert(has_dir(pre, before[k].0@));
                    let w = choose|w: int| 0 <= w < pre.len() && #[trigger] pre[w].parent_dir_path@ == before[k].0@;
                    assert(cur[w] == pre[w]);
                }
                assert forall|d: Seq<char>| has_dir(cur, d) implies exists|k: int| 0 <= k < dirs@.len() && #[trigger] dirs@[k].0@ == d by {
                    let w = choose|w: int| 0 <= w < cur.len() && #[trigger] cur[w].parent_dir_path@ == d;
                    if w < pre.len() {
                        assert(pre[w] == cur[w]);
                        assert(has_dir(pre, d));
                        let k = choose|k: int| 0 <= k < before.len() && #[trigger] before[k].0@ == d;
                        assert(dirs@[k].0@ == d);
                    } else {
                        assert(dirs@[pos as int].0@ == d);
                    }
                }
            }
        } else {
            let mut list: Vec<(String, i64)> = Vec::new();
            list.push(entry);
            let ghost key = f.parent_dir_path@;
            dirs.insert(pos, (f.parent_dir_path.clone(), list));
            proof {
                assert(!has_dir(pre, key)) by {
                    if has_dir(pre, key) {
                        let k = choose|k: int| 0 <= k < before.len() && #[trigger] before[k].0@ == key;
                        crate::strord::lemma_lex_irreflexive(key);
                        if k > pos as int {
                            assert(lex_lt(before[pos as int].0@, before[k].0@));
                            lemma_lex_transitive(key, before[pos as int].0@, before[k].0@);
                        }
                    }
                }
                assert(files_in_dir(pre, key) =~= Seq::<(Seq<char>, i64)>::empty()) by {
                    lemma_files_in_dir_empty(pre, key);
                }
                assert(files_view(list@) =~= seq![(f.file_name@, f.size_bytes)]);
                assert forall|a: int, b: int| 0 <= a < b < dirs@.len() implies lex_lt(#[trigger] dirs@[a].0@, #[trigger] dirs@[b].0@) by {
                    if b == pos as int {
                        assert(lex_lt(before[a].0@, key));
                    } else if a == pos as int {
                        assert(lex_lt(key, before[pos as int].0@));
                        if b - 1 > pos as int {
                            lemma_lex_transitive(key, before[pos as int].0@, before[b - 1].0@);
                        }
                    } else if a < pos as int && b > pos as int {
                        assert(lex_lt(before[a].0@, before[b - 1].0@));
                    } else if a > pos as int {
                        assert(lex_lt(before[a - 1].0@, before[b - 1].0@));
                    }
                }
                assert forall|k: int| 0 <= k < dirs@.len() implies files_view(#[trigger] dirs@[k].1@) == files_in_dir(cur, dirs@[k].0@) by {
                    lemma_files_in_dir_push(pre, *f, dirs@[k].0@);
                    if k < pos as int {
                        assert(dirs@[k] == before[k]);
                        crate::strord::lemma_lex_irreflexive(key);
                    } else if k > pos as int {
                        assert(dirs@[k] == before[k - 1]);
                        crate::strord::lemma_lex_irreflexive(key);
                        if k - 1 > pos as int {
                            lemma_lex_transitive(key, before[pos as int].0@, before[k - 1].0@);
                        }
                    }
                }
                assert forall|k: int| 0 <= k < dirs@.len() implies has_dir(cur, #[trigger] dirs@[k].0@) by {
                    if k == pos as int {
                        assert(cur[i as int].parent_dir_path@ == key);
                    } else {
                        let kk = if k < pos as int { k } else { k - 1 };
                        assert(dirs@[k] == before[kk]);
                        assert(has_dir(pre, before[kk].0@));
                        let w = choose|w: int| 0 <= w < pre.len() && #[trigger] pre[w].parent_dir_path@ == before[kk].0@;
                        assert(cur[w] == pre[w]);
                    }
                }
                assert forall|d: Seq<char>| has_dir(cur, d) implies exists|k: int| 0 <= k < dirs@.len() && #[trigger] dirs@[k].0@ == d by {
                    let w = choose|w: int| 0 <= w < cur.len() && #[trigger] cur[w].parent_dir_path@ == d;
                    if w < pre.len() {
                        assert(pre[w] == cur[w]);
                        assert(has_dir(pre, d));
                        let k = choose|k: int| 0 <= k < before.len() && #[trigger] before[k].0@ == d;
                        if k < pos as int {
                            assert(dirs@[k].0@ == d);
                        } else {
                            assert(dirs@[k + 1].0@ == d);
                        }
                    } else {
                        assert(dirs@[pos as int].0@ == d);
                    }
                }
            }
        }
        i = i + 1;
    }
    proof {
        assert(files@.subrange(0, n as int) =~= files@);
    }
    FileHashPlanChunk { chunk_size, dirs }
}

proof fn lemma_files_in_dir_push(pre: Seq<FsFileDbRow>, f: FsFileDbRow, d: Seq<char>)
    ensures
        files_in_dir(pre.push(f), d) == (if f.parent_dir_path@ == d {
            files_in_dir(pre, d).push((f.file_name@, f.size_bytes))
        } else {
            files_in_dir(pre, d)
        }),
{
    assert(pre.push(f).drop_last() =~= pre);
}

proof fn lemma_files_in_dir_empty(files: Seq<FsFileDbRow>, d: Seq<char>)
    requires
        !has_dir(files, d),
    ensures
        files_in_dir(files, d) == Seq::<(Seq<char>, i64)>::empty(),
    decreases files.len(),
{
    if files.len() > 0 {
        assert(!has_dir(files.drop_last(), d)) by {
            if has_dir(files.drop_last(), d) {
                let w = choose|w: int| 0 <= w < files.drop_last().len() && #[trigger] files.drop_last()[w].parent_dir_path@ == d;
                assert(files[w] == files.drop_last()[w]);
            }
        }
        lemma_files_in_dir_empty(files.drop_last(), d);
        assert(files.last() == files[files.len() - 1]);
    }
}

/// The files of a plan chunk as (directory, name, size), directory by
/// directory in plan order.
pub open spec fn plan_entries(dirs: Seq<(String, Vec<(String, i64)>)>) -> Seq<(Seq<char>, Seq<char>, i64)>
    decreases dirs.len(),
{
    if dirs.len() == 0 {
        Seq::empty()
    } else {
        plan_entries(dirs.drop_last()) + files_view(dirs.last().1@).map_values(
            |p: (Seq<char>, i64)| (dirs.last().0@, p.0, p.1),
        )
    }
}

/// Lists the files of a plan chunk, directory by directory.
pub fn plan_files(chunk: &FileHashPlanChunk) -> (r: Vec<(String, String, i64)>)
    ensures
        r@.map_values(|t: (String, String, i64)| (t.0@, t.1@, t.2)) == plan_entries(chunk.dirs@),
{
    let mut r: Vec<(String, String, i64)> = Vec::new();
    let n = chunk.dirs.len();
    let mut i: usize = 0;
    while i < n
        invariant
            n == chunk.dirs@.len(),
            i <= n,
            r@.map_values(|t: (String, String, i64)| (t.0@, t.1@, t.2)) == plan_entries(chunk.dirs@.subrange(0, i as int)),
        decreases n - i,
    {
        let dir = &chunk.dirs[i].0;
        let list = &chunk.dirs[i].1;
        let ghost start = r@.map_values(|t: (String, String, i64)| (t.0@, t.1@, t.2));
        let m = list.len();
        let mut j: usize = 0;
        while j < m
            invariant
                m == list@.len(),
                j <= m,
                r@.map_values(|t: (String, String, i64)| (t.0@, t.1@, t.2)) == start + files_view(list@.subrange(0, j as int)).map_values(
                    |p: (Seq<char>, i64)| (dir@, p.0, p.1),
                ),
            decreases m - j,
        {
            let ghost rv = r@;
            r.push((dir.clone(), list[j].0.clone(), list[j].1));
            proof {
                assert(r@.map_values(|t: (String, String, i64)| (t.0@, t.1@, t.2)) =~= rv.map_values(|t: (String, String, i64)| (t.0@, t.1@, t.2)).push((dir@, list@[j as int].0@, list@[j as int].1)));
                assert(files_view(list@.subrange(0, j + 1)).map_values(|p: (Seq<char>, i64)| (dir@, p.0, p.1)) =~= files_view(list@.subrange(0, j as int)).map_values(|p: (Seq<char>, i64)| (dir@, p.0, p.1)).push((dir@, list@[j as int].0@, list@[j as int].1)));
            }
            j = j + 1;
        }
        proof {
            assert(list@.subrange(0, m as int) =~= list@);
            assert(chunk.dirs@.subrange(0, i + 1).drop_last() =~= chunk.dirs@.subrange(0, i as int));
            assert(chunk.dirs@.subrange(0, i + 1).last() == chunk.dirs@[i as int]);
        }
        i = i + 1;
    }
    proof {
        assert(chunk.dirs@.subrange(0, n as int) =~= chunk.dirs@);
    }
    r
}

/// A file as (directory, name, size).
pub open spec fn file_triple(f: FsFileDbRow) -> (Seq<char>, Seq<char>, i64) {
    (f.parent_dir_path@, f.file_name@, f.size_bytes)
}

/// The files of all the chunks of a plan, chunk after chunk, each chunk
/// listed as by [`plan_files`].
pub open spec fn plan_listing(r: Seq<FileHashPlanChunk>) -> Seq<(Seq<char>, Seq<char>, i64)>
    decreases r.len(),
{
    if r.len() == 0 {
        Seq::empty()
    } else {
        plan_listing(r.drop_last()) + plan_entries(r.last().dirs@)
    }
}

/// How often (name, size) occurs among the files listed under directory `d`.
spec fn dirs_count(dirs: Seq<(String, Vec<(String, i64)>)>, d: Seq<char>, e: (Seq<char>, i64)) -> nat
    decreases dirs.len(),
{
    if dirs.len() == 0 {
        0
    } else {
        dirs_count(dirs.drop_last(), d, e) + (if dirs.last().0@ == d {
            count_in(files_view(dirs.last().1@), e)
        } else {
            0nat
        })
    }
}

proof fn lemma_count_tagged(l: Seq<(Seq<char>, i64)>, k: Seq<char>, d: Seq<char>, e: (Seq<char>, i64))
    ensures
        count_in(l.map_values(|p: (Seq<char>, i64)| (k, p.0, p.1)), (d, e.0, e.1))
            == (if k == d { count_in(l, e) } else { 0nat }),
    decreases l.len(),
{
    if l.len() > 0 {
        lemma_count_tagged(l.drop_last(), k, d, e);
        assert(l.map_values(|p: (Seq<char>, i64)| (k, p.0, p.1)).drop_last()
            =~= l.drop_last().map_values(|p: (Seq<char>, i64)| (k, p.0, p.1)));
    }
}

proof fn lemma_plan_entries_count(dirs: Seq<(String, Vec<(String, i64)>)>, d: Seq<char>, e: (Seq<char>, i64))
    ensures
        count_in(plan_entries(dirs), (d, e.0, e.1)) == dirs_count(dirs, d, e),
    decreases dirs.len(),
{
    if dirs.len() > 0 {
        lemma_plan_entries_count(dirs.drop_last(), d, e);
        let k = dirs.last().0@;
        let tail = files_view(dirs.last().1@).map_values(|p: (Seq<char>, i64)| (k, p.0, p.1));
        lemma_count_in_concat(plan_entries(dirs.drop_last()), tail, (d, e.0, e.1));
        lemma_count_tagged(files_view(dirs.last().1@), k, d, e);
    }
}

proof fn lemma_dirs_count_sorted(dirs: Seq<(String, Vec<(String, i64)>)>, d: Seq<char>, e: (Seq<char>, i64))
    requires
        forall|i: int, j: int| 0 <= i < j < dirs.len() ==> lex_lt(#[trigger] dirs[i].0@, #[trigger] dirs[j].0@),
    ensures
        (forall|i: int| 0 <= i < dirs.len() ==> #[trigger] dirs[i].0@ != d) ==> dirs_count(dirs, d, e) == 0,
        forall|i: int| 0 <= i < dirs.len() && #[trigger] dirs[i].0@ == d ==> dirs_count(dirs, d, e) == count_in(files_view(dirs[i].1@), e),
    decreases dirs.len(),
{
    if dirs.len() > 0 {
        let p = dirs.drop_last();
        lemma_dirs_count_sorted(p, d, e);
        let last = dirs.len() - 1;
        assert(dirs.last() == dirs[last]);
        if forall|i: int| 0 <= i < dirs.len() ==> #[trigger] dirs[i].0@ != d {
            assert forall|i: int| 0 <= i < p.len() implies #[trigger] p[i].0@ != d by {
                assert(p[i] == dirs[i]);
            }
        }
        assert forall|i: int| 0 <= i < dirs.len() && #[trigger] dirs[i].0@ == d implies dirs_count(dirs, d, e) == count_in(files_view(dirs[i].1@), e) by {
            if i < last {
                assert(p[i] == dirs[i]);
                assert(lex_lt(dirs[i].0@, dirs[last].0@));
                crate::strord::lemma_lex_irreflexive(d);
            } else {
                assert forall|j: int| 0 <= j < p.len() implies #[trigger] p[j].0@ != d by {
                    assert(p[j] == dirs[j]);
                    assert(lex_lt(dirs[j].0@, dirs[last].0@));
                    crate::strord::lemma_lex_irreflexive(d);
                }
            }
        }
    }
}

proof fn lemma_files_in_dir_count(files: Seq<FsFileDbRow>, d: Seq<char>, e: (Seq<char>, i64))
    ensures
        count_in(files_in_dir(files, d), e) == count_in(files.map_values(|f: FsFileDbRow| file_triple(f)), (d, e.0, e.1)),
    decreases files.len(),
{
    if files.len() > 0 {
        lemma_files_in_dir_count(files.drop_last(), d, e);
        assert(files.map_values(|f: FsFileDbRow| file_triple(f)).drop_last()
            =~= files.drop_last().map_values(|f: FsFileDbRow| file_triple(f)));
        if files.last().parent_dir_path@ == d {
            let fd = files_in_dir(files.drop_last(), d);
            let x = (files.last().file_name@, files.last().size_bytes);
            assert(fd.push(x).drop_last() =~= fd);
        }
    }
}

/// A plan chunk lists each of its files once: every (directory, name, size)
/// occurs among its entries as often as among the files it describes.
pub proof fn lemma_plan_chunk_lists_files(c: FileHashPlanChunk, files: Seq<FsFileDbRow>, t: (Seq<char>, Seq<char>, i64))
    requires
        plan_chunk_of(c, files),
    ensures
        count_in(plan_entries(c.dirs@), t) == count_in(files.map_values(|f: FsFileDbRow| file_triple(f)), t),
{
    let dirs = c.dirs@;
    let d = t.0;
    let e = (t.1, t.2);
    assert(t == (d, e.0, e.1));
    lemma_plan_entries_count(dirs, d, e);
    lemma_dirs_count_sorted(dirs, d, e);
    lemma_files_in_dir_count(files, d, e);
    if has_dir(files, d) {
        let i = choose|i: int| 0 <= i < dirs.len() && #[trigger] dirs[i].0@ == d;
        assert(files_view(dirs[i].1@) =~= files_in_dir(files, d));
    } else {
        assert forall|i: int| 0 <= i < dirs.len() implies #[trigger] dirs[i].0@ != d by {
            assert(has_dir(files, dirs[i].0@));
        }
        lemma_files_in_dir_empty(files, d);
    }
}

proof fn lemma_plan_listing_count(r: Seq<FileHashPlanChunk>, cs: Seq<Seq<FsFileDbRow>>, t: (Seq<char>, Seq<char>, i64))
    requires
        r.len() == cs.len(),
        forall|i: int| 0 <= i < r.len() ==> plan_chunk_of(#[trigger] r[i], cs[i]),
    ensures
        count_in(plan_listing(r), t) == chunks_count(cs, |f: FsFileDbRow| file_triple(f), t),
    decreases r.len(),
{
    if r.len() > 0 {
        let n = r.len() - 1;
        assert forall|i: int| 0 <= i < r.drop_last().len() implies plan_chunk_of(#[trigger] r.drop_last()[i], cs.drop_last()[i]) by {
            assert(r.drop_last()[i] == r[i]);
            assert(plan_chunk_of(r[i], cs[i]));
        }
        lemma_plan_listing_count(r.drop_last(), cs.drop_last(), t);
        lemma_count_in_concat(plan_listing(r.drop_last()), plan_entries(r.last().dirs@), t);
        assert(plan_chunk_of(r[n], cs[n]));
        lemma_plan_chunk_lists_files(r.last(), cs.last(), t);
    }
}

/// Smallest size a file counts for when chunks are filled (8 KiB).
pub const HASH_PLAN_MIN_READ_SIZE: i64 = 8192;

/// Size above which a hashing chunk is closed (64 MiB).
pub const HASH_PLAN_MAX_CHUNK_SIZE: i64 = 67108864;

/// The size of a file.
pub open spec fn file_size(f: FsFileDbRow) -> i64 {
    f.size_bytes
}

/// Each file paired with its size.
pub open spec fn sized_files(files: Seq<FsFileDbRow>) -> Seq<(FsFileDbRow, i64)> {
    files.map_values(|f: FsFileDbRow| (f, f.size_bytes))
}

proof fn lemma_files_size_total(files: Seq<FsFileDbRow>)
    ensures
        files_size(files) == total_size(files, |f: FsFileDbRow| file_size(f)),
    decreases files.len(),
{
    if files.len() > 0 {
        lemma_files_size_total(files.drop_last());
    }
}

/// The hashing plan of files listed in order: they are grouped into chunks
/// of about 64 MiB (each file counting at least 8 KiB, a file of over
/// 32 MiB making a chunk of its own), and each chunk is grouped by
/// directory.
pub fn file_hash_plan(files: Vec<FsFileDbRow>) -> (r: Vec<FileHashPlanChunk>)
    requires
        forall|i: int| 0 <= i < files@.len() ==> (#[trigger] files@[i]).size_bytes >= 0,
    ensures
        r@.len() == chunked(sized_files(files@), HASH_PLAN_MIN_READ_SIZE, HASH_PLAN_MAX_CHUNK_SIZE).len(),
        forall|i: int| 0 <= i < r@.len() ==> plan_chunk_of(#[trigger] r@[i], chunked(sized_files(files@), HASH_PLAN_MIN_READ_SIZE, HASH_PLAN_MAX_CHUNK_SIZE)[i]),
        forall|t: (Seq<char>, Seq<char>, i64)| #[trigger] count_in(plan_listing(r@), t)
            == count_in(files@.map_values(|f: FsFileDbRow| file_triple(f)), t),
{
    let ghost all = files@;
    let mut sized: Vec<(FsFileDbRow, i64)> = Vec::new();
    for f in it: files.into_iter()
        invariant
            it.seq() == all,
            sized@ == sized_files(all.take(it.index() as int)),
    {
        let ghost idx = it.index();
        let k = f.size_bytes;
        sized.push((f, k));
        proof {
            assert(sized_files(all.take(idx + 1)) =~= sized_files(all.take(idx as int)).push((f, k)));
        }
    }
    proof {
        assert(all.take(all.len() as int) =~= all);
        assert(chunk_limits_ok(HASH_PLAN_MIN_READ_SIZE, HASH_PLAN_MAX_CHUNK_SIZE));
        assert(sized_by(sized@, |f: FsFileDbRow| file_size(f))) by {
            assert forall|i: int| 0 <= i < sized@.len() implies #[trigger] sized@[i].1 == (|f: FsFileDbRow| file_size(f))(sized@[i].0) && sized@[i].1 >= 0 by {
                assert(sized@[i] == (all[i], all[i].size_bytes));
            }
        }
        lemma_chunks_fit(sized@, |f: FsFileDbRow| file_size(f), HASH_PLAN_MIN_READ_SIZE, HASH_PLAN_MAX_CHUNK_SIZE);
        crate::chunking::lemma_chunk_totals_fit(sized@, |f: FsFileDbRow| file_size(f), HASH_PLAN_MIN_READ_SIZE, HASH_PLAN_MAX_CHUNK_SIZE);
    }
    let chunks = chunk_by_size(sized, HASH_PLAN_MIN_READ_SIZE, HASH_PLAN_MAX_CHUNK_SIZE);
    let ghost cs = chunked(sized_files(all), HASH_PLAN_MIN_READ_SIZE, HASH_PLAN_MAX_CHUNK_SIZE);
    let mut r: Vec<FileHashPlanChunk> = Vec::new();
    let ghost chunk_views = vec_views(chunks@);
    for c in it: chunks.into_iter()
        invariant
            chunk_views == cs,
            it.seq().map_values(|v: Vec<FsFileDbRow>| v@) == cs,
            forall|j: int| 0 <= j < cs.len() ==> prefix_totals_fit(#[trigger] cs[j], |f: FsFileDbRow| file_size(f)),
            r@.len() == it.index(),
            forall|j: int| 0 <= j < r@.len() ==> plan_chunk_of(#[trigger] r@[j], cs[j]),
    {
        let ghost idx = it.index();
        proof {
            assert(it.seq().map_values(|v: Vec<FsFileDbRow>| v@)[idx as int] == c@);
            let ch = cs[idx as int];
            assert(prefix_totals_fit(ch, |f: FsFileDbRow| file_size(f)));
            assert forall|k: int| 0 <= k <= ch.len() implies i64::MIN <= #[trigger] files_size(ch.subrange(0, k)) <= i64::MAX by {
                lemma_files_size_total(ch.take(k));
                assert(ch.subrange(0, k) == ch.take(k));
            }
        }
        let page = plan_chunk_from_files(&c);
        r.push(page);
    }
    proof {
        assert forall|t: (Seq<char>, Seq<char>, i64)| #[trigger] count_in(plan_listing(r@), t)
            == count_in(all.map_values(|f: FsFileDbRow| file_triple(f)), t) by {
            lemma_plan_listing_count(r@, cs, t);
            lemma_chunked_partition(sized_files(all), HASH_PLAN_MIN_READ_SIZE, HASH_PLAN_MAX_CHUNK_SIZE, |f: FsFileDbRow| file_triple(f), t);
            assert(sized_files(all).map_values(|p: (FsFileDbRow, i64)| (|f: FsFileDbRow| file_triple(f))(p.0))
                =~= all.map_values(|f: FsFileDbRow| file_triple(f)));
        }
    }
    r
}

/// Plan chunks hashed by one group of workflows.
pub const HASH_GROUP_SIZE: usize = 300;

/// Splits the plan chunk ids into consecutive groups of 300 (the last
/// holding what remains), each hashed by one group of workflows.
pub fn hash_plan_groups(plan_chunk_ids: &Vec<i32>) -> (r: Vec<Vec<i32>>)
    ensures
        flatten_vecs(r@) == plan_chunk_ids@,
        forall|i: int| 0 <= i < r@.len() ==> #[trigger] r@[i]@.len() > 0,
        forall|i: int| 0 <= i < r@.len() - 1 ==> #[trigger] r@[i]@.len() == HASH_GROUP_SIZE,
        r@.len() > 0 ==> r@.last()@.len() <= HASH_GROUP_SIZE,
{
    chunk_vec(plan_chunk_ids, HASH_GROUP_SIZE)
}

/// The arguments for hashing each plan chunk of a group, in order.
pub fn hash_file_args(collection_id: &CollectionId, datasource_id: &DatabaseIdentifier, plan_chunk_ids: &Vec<i32>) -> (r: Vec<HashFileArgs>)
    ensures
        r@.len() == plan_chunk_ids@.len(),
        forall|i: int| 0 <= i < r@.len() ==> {
            &&& (#[trigger] r@[i]).plan_chunk_id == plan_chunk_ids@[i]
            &&& r@[i].collection_id@ == collection_id@
            &&& r@[i].datasource_id@ == datasource_id@
        },
{
    let mut r: Vec<HashFileArgs> = Vec::new();
    let n = plan_chunk_ids.len();
    let mut i: usize = 0;
    while i < n
        invariant
            n == plan_chunk_ids@.len(),
            i <= n,
            r@.len() == i,
            forall|j: int| 0 <= j < i ==> {
                &&& (#[trigger] r@[j]).plan_chunk_id == plan_chunk_ids@[j]
                &&& r@[j].collection_id@ == collection_id@
                &&& r@[j].datasource_id@ == datasource_id@
            },
        decreases n - i,
    {
        r.push(HashFileArgs {
            collection_id: collection_id.clone(),
            datasource_id: datasource_id.clone(),
            plan_chunk_id: plan_chunk_ids[i],
        });
        i = i + 1;
    }
    r
}

} // verus!
