//! The blob processing plan: hashed blobs, roughly ordered by size, are
//! grouped into plan pages of similar total size.

use vstd::prelude::*;
use vstd::multiset::Multiset;

use crate::chunking::{
    chunk_by_size, chunk_limits_ok, chunked, lemma_chunks_fit, prefix_totals_fit, reorder_by_key,
    reorder_outcome, reordered, sized_by, total_size, vec_views, zip_keys,
};
use crate::chunking::{
    chunks_count, count_in, lemma_chunked_partition, lemma_count_in_concat, lemma_count_in_map_same_items,
};
use crate::fs_models::{BlobProcessingPlan, BlobProcessingPlanPageBlobs, FsBlobHashesDbRow};

verus! {

broadcast use {vstd::seq_lib::group_to_multiset_ensures, vstd::multiset::group_multiset_axioms};

/// The inner result, or the first error.
pub fn flatten_result<T, E>(r: Result<Result<T, E>, E>) -> (out: Result<T, E>)
    ensures
        out == (match r {
            Ok(Ok(v)) => Ok::<T, E>(v),
            Ok(Err(e)) => Err(e),
            Err(e) => Err(e),
        }),
{
    match r {
        Ok(Ok(v)) => Ok(v),
        Ok(Err(e)) => Err(e),
        Err(e) => Err(e),
    }
}

/// The largest plan page id, or 0 if it is larger than all of them.
pub open spec fn max_page_id(plans: Seq<BlobProcessingPlan>) -> i32
    decreases plans.len(),
{
    if plans.len() == 0 {
        0
    } else {
        let m = max_page_id(plans.drop_last());
        if plans.last().plan_page_id > m {
            plans.last().plan_page_id
        } else {
            m
        }
    }
}

/// The largest existing plan page id; 0 when there is no page.
pub fn max_plan_page_id(plans: &Vec<BlobProcessingPlan>) -> (r: i32)
    ensures
        r == max_page_id(plans@),
        r >= 0,
        forall|i: int| 0 <= i < plans@.len() ==> #[trigger] plans@[i].plan_page_id <= r,
{
    let mut max_id: i32 = 0;
    let n = plans.len();
    let mut i: usize = 0;
    while i < n
        invariant
            n == plans@.len(),
            i <= n,
            max_id == max_page_id(plans@.take(i as int)),
            max_id >= 0,
            forall|j: int| 0 <= j < i ==> #[trigger] plans@[j].plan_page_id <= max_id,
        decreases n - i,
    {
        proof {
            assert(plans@.take(i + 1).drop_last() =~= plans@.take(i as int));
            assert(plans@.take(i + 1).last() == plans@[i as int]);
        }
        if plans[i].plan_page_id > max_id {
            max_id = plans[i].plan_page_id;
        }
        i = i + 1;
    }
    proof {
        assert(plans@.take(n as int) =~= plans@);
    }
    max_id
}

/// One page of the blob processing plan.
pub struct BlobProcessingPlanChunk {
    /// The sha3-256 hashes of the blobs of the page, in order.
    pub blob_hashes: Vec<String>,
    /// The total size of the blobs.
    pub chunk_size: i64,
}

/// The size of a blob.
pub open spec fn blob_size(b: FsBlobHashesDbRow) -> i64 {
    b.size_bytes
}

/// A plan page as plain values: the hashes of its blobs and their total
/// size.
pub open spec fn plan_chunk_view(c: BlobProcessingPlanChunk) -> (Seq<Seq<char>>, int) {
    (c.blob_hashes@.map_values(|h: String| h@), c.chunk_size as int)
}

/// The plan page of the given blobs.
pub open spec fn plan_chunk_of(blobs: Seq<FsBlobHashesDbRow>) -> (Seq<Seq<char>>, int) {
    (blobs.map_values(|b: FsBlobHashesDbRow| b.blob_sha3_256@), total_size(blobs, |b: FsBlobHashesDbRow| blob_size(b)))
}

/// Makes the plan page of a chunk of blobs: their hashes in order and their
/// total size (every partial total fitting in `i64`).
pub fn blob_plan_chunk(chunk: Vec<FsBlobHashesDbRow>) -> (r: BlobProcessingPlanChunk)
    requires
        prefix_totals_fit(chunk@, |b: FsBlobHashesDbRow| blob_size(b)),
    ensures
        plan_chunk_view(r) == plan_chunk_of(chunk@),
{
    let ghost size = |b: FsBlobHashesDbRow| blob_size(b);
    let mut chunk_size: i64 = 0;
    let mut blob_hashes: Vec<String> = Vec::new();
    let n = chunk.len();
    let mut i: usize = 0;
    while i < n
        invariant
            n == chunk@.len(),
            i <= n,
            size == (|b: FsBlobHashesDbRow| blob_size(b)),
            prefix_totals_fit(chunk@, size),
            chunk_size == total_size(chunk@.take(i as int), size),
            blob_hashes@.map_values(|h: String| h@) == chunk@.take(i as int).map_values(|b: FsBlobHashesDbRow| b.blob_sha3_256@),
        decreases n - i,
    {
        proof {
            assert(chunk@.take(i + 1).drop_last() =~= chunk@.take(i as int));
            assert(chunk@.take(i + 1).last() == chunk@[i as int]);
            assert(i64::MIN <= total_size(chunk@.take(i + 1), size) <= i64::MAX);
        }
        let ghost before = blob_hashes@;
        blob_hashes.push(chunk[i].blob_sha3_256.clone());
        chunk_size = chunk_size + chunk[i].size_bytes;
        proof {
            assert(blob_hashes@.map_values(|h: String| h@) =~= before.map_values(|h: String| h@).push(chunk@[i as int].blob_sha3_256@));
            assert(chunk@.take(i + 1).map_values(|b: FsBlobHashesDbRow| b.blob_sha3_256@) =~= chunk@.take(i as int).map_values(|b: FsBlobHashesDbRow| b.blob_sha3_256@).push(chunk@[i as int].blob_sha3_256@));
        }
        i = i + 1;
    }
    proof {
        assert(chunk@.take(n as int) =~= chunk@);
    }
    BlobProcessingPlanChunk { blob_hashes, chunk_size }
}

/// Smallest size a blob counts for when pages are filled (8 KiB).
pub const PLAN_MIN_READ_SIZE: i64 = 8192;

/// Size above which a plan page is closed (64 MiB).
pub const PLAN_MAX_CHUNK_SIZE: i64 = 67108864;

/// How many blobs wait to be reordered by size.
pub const PLAN_REORDER_BUFFER: usize = 1000;

/// Each blob keyed by its size.
pub open spec fn keyed_by_size(blobs: Seq<FsBlobHashesDbRow>) -> Seq<(i64, FsBlobHashesDbRow)> {
    blobs.map_values(|b: FsBlobHashesDbRow| (b.size_bytes, b))
}

/// Each blob paired with its size.
pub open spec fn sized_blobs(blobs: Seq<FsBlobHashesDbRow>) -> Seq<(FsBlobHashesDbRow, i64)> {
    blobs.map_values(|b: FsBlobHashesDbRow| (b, b.size_bytes))
}

/// The plan pages of blobs taken in the given order.
pub open spec fn plan_chunks_of(order: Seq<FsBlobHashesDbRow>) -> Seq<(Seq<Seq<char>>, int)> {
    chunked(sized_blobs(order), PLAN_MIN_READ_SIZE, PLAN_MAX_CHUNK_SIZE).map_values(
        |c: Seq<FsBlobHashesDbRow>| plan_chunk_of(c),
    )
}

proof fn lemma_reordered_sizes(order: Seq<FsBlobHashesDbRow>, blobs: Seq<FsBlobHashesDbRow>)
    requires
        reorder_outcome(order, keyed_by_size(blobs), PLAN_REORDER_BUFFER as nat),
        forall|i: int| 0 <= i < blobs.len() ==> (#[trigger] blobs[i]).size_bytes >= 0,
    ensures
        forall|i: int| 0 <= i < order.len() ==> (#[trigger] order[i]).size_bytes >= 0,
{
    let ks = choose|ks: Seq<i64>| crate::chunking::reordered_with_keys(ks, order, keyed_by_size(blobs), PLAN_REORDER_BUFFER as nat);
    assert forall|i: int| 0 <= i < order.len() implies (#[trigger] order[i]).size_bytes >= 0 by {
        let z = zip_keys(ks, order);
        assert(z[i] == (ks[i], order[i]));
        assert(z.to_multiset().count(z[i]) > 0) by {
            assert(z.contains(z[i]));
        }
        assert(keyed_by_size(blobs).to_multiset().count(z[i]) > 0);
        assert(keyed_by_size(blobs).contains(z[i]));
        let j = choose|j: int| 0 <= j < keyed_by_size(blobs).len() && keyed_by_size(blobs)[j] == z[i];
        assert(keyed_by_size(blobs)[j] == (blobs[j].size_bytes, blobs[j]));
    }
}

/// The hash of a blob.
pub open spec fn blob_hash(b: FsBlobHashesDbRow) -> Seq<char> {
    b.blob_sha3_256@
}

/// The hashes of the blobs of all the plan pages, page after page.
pub open spec fn planned_hashes(r: Seq<BlobProcessingPlanChunk>) -> Seq<Seq<char>>
    decreases r.len(),
{
    if r.len() == 0 {
        Seq::empty()
    } else {
        planned_hashes(r.drop_last()) + r.last().blob_hashes@.map_values(|h: String| h@)
    }
}

proof fn lemma_planned_hashes_count(r: Seq<BlobProcessingPlanChunk>, cs: Seq<Seq<FsBlobHashesDbRow>>, h: Seq<char>)
    requires
        r.map_values(|c: BlobProcessingPlanChunk| plan_chunk_view(c)) == cs.map_values(|c: Seq<FsBlobHashesDbRow>| plan_chunk_of(c)),
    ensures
        count_in(planned_hashes(r), h) == chunks_count(cs, |b: FsBlobHashesDbRow| blob_hash(b), h),
    decreases r.len(),
{
    let rv = r.map_values(|c: BlobProcessingPlanChunk| plan_chunk_view(c));
    let cv = cs.map_values(|c: Seq<FsBlobHashesDbRow>| plan_chunk_of(c));
    assert(rv.len() == cv.len());
    if r.len() > 0 {
        let n = r.len() - 1;
        assert(r.drop_last().map_values(|c: BlobProcessingPlanChunk| plan_chunk_view(c)) =~= rv.drop_last());
        assert(cs.drop_last().map_values(|c: Seq<FsBlobHashesDbRow>| plan_chunk_of(c)) =~= cv.drop_last());
        lemma_planned_hashes_count(r.drop_last(), cs.drop_last(), h);
        assert(rv[n] == cv[n]);
        assert(r.last().blob_hashes@.map_values(|x: String| x@)
            =~= cs.last().map_values(|b: FsBlobHashesDbRow| blob_hash(b)));
        lemma_count_in_concat(planned_hashes(r.drop_last()), r.last().blob_hashes@.map_values(|x: String| x@), h);
    }
}

/// Plans the processing of blobs: reorders them roughly by size through a
/// buffer of 1000 blobs (the smallest waiting blob leaving whenever more
/// than 1000 wait), groups them into pages of about 64 MiB (each blob
/// counting at least 8 KiB, a blob of over 32 MiB making a page of its
/// own), and makes each page from its blobs.
pub fn blob_processing_plan(blobs: Vec<FsBlobHashesDbRow>) -> (r: Vec<BlobProcessingPlanChunk>)
    requires
        forall|i: int| 0 <= i < blobs@.len() ==> (#[trigger] blobs@[i]).size_bytes >= 0,
    ensures
        r@.map_values(|c: BlobProcessingPlanChunk| plan_chunk_view(c)) == plan_chunks_of(
            reordered(keyed_by_size(blobs@), PLAN_REORDER_BUFFER as nat),
        ),
        forall|h: Seq<char>| #[trigger] count_in(planned_hashes(r@), h)
            == count_in(blobs@.map_values(|b: FsBlobHashesDbRow| blob_hash(b)), h),
{
    let ghost all = blobs@;
    let mut keyed: Vec<(i64, FsBlobHashesDbRow)> = Vec::new();
    for b in it: blobs.into_iter()
        invariant
            it.seq() == all,
            keyed@ == keyed_by_size(all.take(it.index() as int)),
    {
        let ghost idx = it.index();
        let k = b.size_bytes;
        keyed.push((k, b));
        proof {
            assert(keyed_by_size(all.take(idx + 1)) =~= keyed_by_size(all.take(idx as int)).push((k, b)));
        }
    }
    proof {
        assert(all.take(all.len() as int) =~= all);
    }
    let order = reorder_by_key(keyed, PLAN_REORDER_BUFFER);
    let ghost ord = order@;
    proof {
        lemma_reordered_sizes(ord, all);
    }
    let mut sized: Vec<(FsBlobHashesDbRow, i64)> = Vec::new();
    for b in it: order.into_iter()
        invariant
            it.seq() == ord,
            sized@ == sized_blobs(ord.take(it.index() as int)),
    {
        let ghost idx = it.index();
        let k = b.size_bytes;
        sized.push((b, k));
        proof {
            assert(sized_blobs(ord.take(idx + 1)) =~= sized_blobs(ord.take(idx as int)).push((b, k)));
        }
    }
    proof {
        assert(ord.take(ord.len() as int) =~= ord);
        assert(chunk_limits_ok(PLAN_MIN_READ_SIZE, PLAN_MAX_CHUNK_SIZE));
        assert(sized_by(sized@, |b: FsBlobHashesDbRow| blob_size(b))) by {
            assert forall|i: int| 0 <= i < sized@.len() implies #[trigger] sized@[i].1 == (|b: FsBlobHashesDbRow| blob_size(b))(sized@[i].0) && sized@[i].1 >= 0 by {
                assert(sized@[i] == (ord[i], ord[i].size_bytes));
            }
        }
        lemma_chunks_fit(sized@, |b: FsBlobHashesDbRow| blob_size(b), PLAN_MIN_READ_SIZE, PLAN_MAX_CHUNK_SIZE);
        crate::chunking::lemma_chunk_totals_fit(sized@, |b: FsBlobHashesDbRow| blob_size(b), PLAN_MIN_READ_SIZE, PLAN_MAX_CHUNK_SIZE);
    }
    let chunks = chunk_by_size(sized, PLAN_MIN_READ_SIZE, PLAN_MAX_CHUNK_SIZE);
    let ghost cs = chunked(sized_blobs(ord), PLAN_MIN_READ_SIZE, PLAN_MAX_CHUNK_SIZE);
    let mut r: Vec<BlobProcessingPlanChunk> = Vec::new();
    let ghost chunk_views = vec_views(chunks@);
    for c in it: chunks.into_iter()
        invariant
            chunk_views == cs,
            it.seq().map_values(|v: Vec<FsBlobHashesDbRow>| v@) == cs,
            forall|j: int| 0 <= j < cs.len() ==> prefix_totals_fit(#[trigger] cs[j], |b: FsBlobHashesDbRow| blob_size(b)),
            r@.map_values(|x: BlobProcessingPlanChunk| plan_chunk_view(x)) == cs.take(it.index() as int).map_values(
                |c: Seq<FsBlobHashesDbRow>| plan_chunk_of(c),
            ),
    {
        let ghost idx = it.index();
        proof {
            assert(it.seq().map_values(|v: Vec<FsBlobHashesDbRow>| v@)[idx as int] == c@);
            assert(prefix_totals_fit(cs[idx as int], |b: FsBlobHashesDbRow| blob_size(b)));
        }
        let ghost before = r@;
        let page = blob_plan_chunk(c);
        r.push(page);
        proof {
            assert(r@.map_values(|x: BlobProcessingPlanChunk| plan_chunk_view(x)) =~= before.map_values(|x: BlobProcessingPlanChunk| plan_chunk_view(x)).push(plan_chunk_view(page)));
            assert(cs.take(idx + 1).map_values(|c: Seq<FsBlobHashesDbRow>| plan_chunk_of(c)) =~= cs.take(idx as int).map_values(|c: Seq<FsBlobHashesDbRow>| plan_chunk_of(c)).push(plan_chunk_of(cs[idx as int])));
        }
    }
    proof {
        assert(cs.take(cs.len() as int) =~= cs);
        assert(r@.map_values(|x: BlobProcessingPlanChunk| plan_chunk_view(x)) == plan_chunks_of(ord));
        let ks = choose|ks: Seq<i64>| crate::chunking::reordered_with_keys(ks, ord, keyed_by_size(all), PLAN_REORDER_BUFFER as nat);
        let z = zip_keys(ks, ord);
        assert forall|h: Seq<char>| #[trigger] count_in(planned_hashes(r@), h)
            == count_in(all.map_values(|b: FsBlobHashesDbRow| blob_hash(b)), h) by {
            lemma_planned_hashes_count(r@, cs, h);
            lemma_chunked_partition(sized_blobs(ord), PLAN_MIN_READ_SIZE, PLAN_MAX_CHUNK_SIZE, |b: FsBlobHashesDbRow| blob_hash(b), h);
            assert(sized_blobs(ord).map_values(|p: (FsBlobHashesDbRow, i64)| (|b: FsBlobHashesDbRow| blob_hash(b))(p.0))
                =~= ord.map_values(|b: FsBlobHashesDbRow| blob_hash(b)));
            lemma_count_in_map_same_items(z, keyed_by_size(all), |p: (i64, FsBlobHashesDbRow)| blob_hash(p.1), h);
            assert(z.map_values(|p: (i64, FsBlobHashesDbRow)| blob_hash(p.1)) =~= ord.map_values(|b: FsBlobHashesDbRow| blob_hash(b)));
            assert(keyed_by_size(all).map_values(|p: (i64, FsBlobHashesDbRow)| blob_hash(p.1))
                =~= all.map_values(|b: FsBlobHashesDbRow| blob_hash(b)));
        }
    }
    r
}

/// The plan page row for a page of blobs, not yet started.
pub fn plan_page_row(plan_page_id: i32, chunk: &BlobProcessingPlanChunk) -> (r: BlobProcessingPlan)
    ensures
        r.plan_page_id == plan_page_id,
        r.file_count == chunk.blob_hashes@.len() as i32,
        r.size_bytes == chunk.chunk_size,
        !r.is_started,
{
    BlobProcessingPlan {
        plan_page_id,
        file_count: chunk.blob_hashes.len() as i32,
        size_bytes: chunk.chunk_size,
        is_started: false,
    }
}

/// The rows that put each blob of a page on that page, in order.
pub fn plan_page_blob_rows(plan_page_id: i32, chunk: &BlobProcessingPlanChunk) -> (r: Vec<BlobProcessingPlanPageBlobs>)
    ensures
        r@.len() == chunk.blob_hashes@.len(),
        forall|i: int| 0 <= i < r@.len() ==> (#[trigger] r@[i]).plan_page_id == plan_page_id
            && r@[i].blob_sha3_256@ == chunk.blob_hashes@[i]@,
{
    let mut rows: Vec<BlobProcessingPlanPageBlobs> = Vec::new();
    let n = chunk.blob_hashes.len();
    let mut i: usize = 0;
    while i < n
        invariant
            n == chunk.blob_hashes@.len(),
            i <= n,
            rows@.len() == i,
            forall|j: int| 0 <= j < i ==> (#[trigger] rows@[j]).plan_page_id == plan_page_id
                && rows@[j].blob_sha3_256@ == chunk.blob_hashes@[j]@,
        decreases n - i,
    {
        rows.push(BlobProcessingPlanPageBlobs { plan_page_id, blob_sha3_256: chunk.blob_hashes[i].clone() });
        i = i + 1;
    }
    rows
}

/// Totals of a blob processing plan.
#[derive(Debug, Clone, Copy, PartialEq, Eq)]
pub struct ProcessingPlanResult {
    /// Plan pages created.
    pub new_page_count: u32,
    /// Blobs put on the new pages.
    pub total_blob_count: u32,
    /// Total size of those blobs.
    pub total_blob_size_bytes: u64,
}

impl ProcessingPlanResult {
    /// No page yet.
    pub fn new() -> (r: Self)
        ensures
            r.new_page_count == 0,
            r.total_blob_count == 0,
            r.total_blob_size_bytes == 0,
    {
        ProcessingPlanResult { new_page_count: 0, total_blob_count: 0, total_blob_size_bytes: 0 }
    }

    /// Counts one more page with its blobs and their size (the size taken
    /// as `u64`, the count as `u32`, each cut to its width).
    pub fn add_page(&mut self, chunk: &BlobProcessingPlanChunk)
        requires
            old(self).new_page_count < u32::MAX,
            old(self).total_blob_count + (chunk.blob_hashes@.len() as u32) <= u32::MAX,
            old(self).total_blob_size_bytes + (chunk.chunk_size as u64) <= u64::MAX,
        ensures
            final(self).new_page_count == old(self).new_page_count + 1,
            final(self).total_blob_count == old(self).total_blob_count + (chunk.blob_hashes@.len() as u32),
            final(self).total_blob_size_bytes == old(self).total_blob_size_bytes + (chunk.chunk_size as u64),
    {
        self.total_blob_size_bytes = self.total_blob_size_bytes + chunk.chunk_size as u64;
        self.total_blob_count = self.total_blob_count + chunk.blob_hashes.len() as u32;
        self.new_page_count = self.new_page_count + 1;
    }
}

/// The pages of a plan from its chunks: empty chunks are skipped, the
/// others numbered in order from one past the largest existing page id,
/// each with the rows of its blobs; the totals count them all.
pub fn plan_pages_from_chunks(max_existing_id: i32, chunks: &Vec<BlobProcessingPlanChunk>) -> (r: (
    Vec<BlobProcessingPlan>,
    Vec<Vec<BlobProcessingPlanPageBlobs>>,
    ProcessingPlanResult,
))
    requires
        max_existing_id + 1 + nonempty_chunks(chunks@) <= i32::MAX,
        nonempty_chunks(chunks@) < u32::MAX,
        total_blobs(chunks@) <= u32::MAX,
        total_bytes(chunks@) <= u64::MAX,
        forall|i: int| 0 <= i < chunks@.len() ==> (#[trigger] chunks@[i]).chunk_size >= 0,
    ensures
        r.0@.len() == nonempty_chunks(chunks@),
        r.1@.len() == r.0@.len(),
        r.0@.len() == nonempty_of(chunks@).len(),
        forall|k: int| 0 <= k < r.0@.len() ==> is_page_of(#[trigger] r.0@[k], r.1@[k]@, nonempty_of(chunks@)[k], max_existing_id + 1 + k),
        r.2.new_page_count == nonempty_chunks(chunks@),
        r.2.total_blob_count == total_blobs(chunks@),
        r.2.total_blob_size_bytes == total_bytes(chunks@),
{
    let mut plans: Vec<BlobProcessingPlan> = Vec::new();
    let mut blob_rows: Vec<Vec<BlobProcessingPlanPageBlobs>> = Vec::new();
    let mut totals = ProcessingPlanResult::new();
    proof {
        lemma_chunk_totals_grow(chunks@, 0);
    }
    let mut next_id: i32 = max_existing_id + 1;
    let n = chunks.len();
    let mut i: usize = 0;
    while i < n
        invariant
            n == chunks@.len(),
            i <= n,
            max_existing_id + 1 + nonempty_chunks(chunks@) <= i32::MAX,
            nonempty_chunks(chunks@) < u32::MAX,
            total_blobs(chunks@) <= u32::MAX,
            total_bytes(chunks@) <= u64::MAX,
            forall|j: int| 0 <= j < chunks@.len() ==> (#[trigger] chunks@[j]).chunk_size >= 0,
            plans@.len() == nonempty_chunks(chunks@.take(i as int)),
            blob_rows@.len() == plans@.len(),
            next_id == max_existing_id + 1 + plans@.len(),
            plans@.len() == nonempty_of(chunks@.take(i as int)).len(),
            forall|k: int| 0 <= k < plans@.len() ==> is_page_of(#[trigger] plans@[k], blob_rows@[k]@, nonempty_of(chunks@.take(i as int))[k], max_existing_id + 1 + k),
            totals.new_page_count == nonempty_chunks(chunks@.take(i as int)),
            totals.total_blob_count == total_blobs(chunks@.take(i as int)),
            totals.total_blob_size_bytes == total_bytes(chunks@.take(i as int)),
        decreases n - i,
    {
        proof {
            assert(chunks@.take(i + 1).drop_last() =~= chunks@.take(i as int));
            assert(chunks@.take(i + 1).last() == chunks@[i as int]);
            lemma_chunk_totals_grow(chunks@, i + 1);
        }
        let chunk = &chunks[i];
        proof {
            lemma_nonempty_len(chunks@.take(i + 1));
            lemma_nonempty_len(chunks@.take(i as int));
        }
        if chunk.blob_hashes.len() > 0 {
            let plan = plan_page_row(next_id, chunk);
            let rows = plan_page_blob_rows(next_id, chunk);
            totals.add_page(chunk);
            plans.push(plan);
            blob_rows.push(rows);
            next_id = next_id + 1;
        }
        i = i + 1;
    }
    proof {
        assert(chunks@.take(n as int) =~= chunks@);
    }
    (plans, blob_rows, totals)
}

/// The chunks that hold at least one blob, in order.
pub open spec fn nonempty_of(chunks: Seq<BlobProcessingPlanChunk>) -> Seq<BlobProcessingPlanChunk>
    decreases chunks.len(),
{
    if chunks.len() == 0 {
        Seq::empty()
    } else if chunks.last().blob_hashes@.len() > 0 {
        nonempty_of(chunks.drop_last()).push(chunks.last())
    } else {
        nonempty_of(chunks.drop_last())
    }
}

/// Page `p` with blob rows `rows` is the page of chunk `c` with id `id`.
pub open spec fn is_page_of(p: BlobProcessingPlan, rows: Seq<BlobProcessingPlanPageBlobs>, c: BlobProcessingPlanChunk, id: int) -> bool {
    &&& p.plan_page_id == id
    &&& p.file_count == c.blob_hashes@.len() as i32
    &&& p.size_bytes == c.chunk_size
    &&& !p.is_started
    &&& rows.len() == c.blob_hashes@.len()
    &&& forall|j: int| 0 <= j < rows.len() ==> (#[trigger] rows[j]).plan_page_id == id && rows[j].blob_sha3_256@ == c.blob_hashes@[j]@
}

/// How many chunks hold at least one blob.
pub open spec fn nonempty_chunks(chunks: Seq<BlobProcessingPlanChunk>) -> int
    decreases chunks.len(),
{
    if chunks.len() == 0 {
        0
    } else {
        nonempty_chunks(chunks.drop_last()) + (if chunks.last().blob_hashes@.len() > 0 { 1int } else { 0int })
    }
}

/// The number of blobs of the chunks that hold some.
pub open spec fn total_blobs(chunks: Seq<BlobProcessingPlanChunk>) -> int
    decreases chunks.len(),
{
    if chunks.len() == 0 {
        0
    } else {
        total_blobs(chunks.drop_last()) + chunks.last().blob_hashes@.len()
    }
}

/// The total size of the chunks that hold blobs.
pub open spec fn total_bytes(chunks: Seq<BlobProcessingPlanChunk>) -> int
    decreases chunks.len(),
{
    if chunks.len() == 0 {
        0
    } else {
        total_bytes(chunks.drop_last()) + (if chunks.last().blob_hashes@.len() > 0 { chunks.last().chunk_size as int } else { 0int })
    }
}

proof fn lemma_nonempty_len(chunks: Seq<BlobProcessingPlanChunk>)
    ensures
        nonempty_of(chunks).len() == nonempty_chunks(chunks),
    decreases chunks.len(),
{
    if chunks.len() > 0 {
        lemma_nonempty_len(chunks.drop_last());
    }
}

proof fn lemma_chunk_totals_grow(chunks: Seq<BlobProcessingPlanChunk>, k: int)
    requires
        0 <= k <= chunks.len(),
        forall|j: int| 0 <= j < chunks.len() ==> (#[trigger] chunks[j]).chunk_size >= 0,
    ensures
        0 <= nonempty_chunks(chunks.take(k)) <= nonempty_chunks(chunks),
        0 <= total_blobs(chunks.take(k)) <= total_blobs(chunks),
        0 <= total_bytes(chunks.take(k)) <= total_bytes(chunks),
    decreases chunks.len() - k,
{
    if k < chunks.len() {
        lemma_chunk_totals_grow(chunks, k + 1);
        assert(chunks.take(k + 1).drop_last() =~= chunks.take(k));
        assert(chunks.take(k + 1).last() == chunks[k]);
        assert forall|j: int| 0 <= j < chunks.take(k).len() implies (#[trigger] chunks.take(k)[j]).chunk_size >= 0 by {
            assert(chunks.take(k)[j] == chunks[j]);
        }
        lemma_chunk_totals_nonneg(chunks.take(k));
    } else {
        assert(chunks.take(k) =~= chunks);
        lemma_chunk_totals_nonneg(chunks);
    }
}

proof fn lemma_chunk_totals_nonneg(chunks: Seq<BlobProcessingPlanChunk>)
    requires
        forall|j: int| 0 <= j < chunks.len() ==> (#[trigger] chunks[j]).chunk_size >= 0,
    ensures
        0 <= nonempty_chunks(chunks),
        0 <= total_blobs(chunks),
        0 <= total_bytes(chunks),
    decreases chunks.len(),
{
    if chunks.len() > 0 {
        assert forall|j: int| 0 <= j < chunks.drop_last().len() implies (#[trigger] chunks.drop_last()[j]).chunk_size >= 0 by {
            assert(chunks.drop_last()[j] == chunks[j]);
        }
        lemma_chunk_totals_nonneg(chunks.drop_last());
        assert(chunks.last() == chunks[chunks.len() - 1]);
    }
}

} // verus!
