//! Grouping a stream of sized items into chunks of similar total size, so
//! that work (hashing files, processing blobs) can be split evenly.

use vstd::prelude::*;
use vstd::multiset::Multiset;

verus! {

broadcast use {vstd::seq_lib::group_to_multiset_ensures, vstd::multiset::group_multiset_axioms};

/// The size an item counts for: its size, but at least `min_read_size`.
pub open spec fn effective_size(size: i64, min_read_size: i64) -> int {
    if size < min_read_size {
        min_read_size as int
    } else {
        size as int
    }
}

/// The sum of a sequence of sizes.
pub open spec fn sum_sizes(s: Seq<int>) -> int
    decreases s.len(),
{
    if s.len() == 0 {
        0
    } else {
        sum_sizes(s.drop_last()) + s.last()
    }
}

/// The limits that a chunker accepts: sizes at least zero, a positive
/// maximum, and room in `i64` for a full chunk plus one more small item.
pub open spec fn chunk_limits_ok(min_read_size: i64, max_chunk_size: i64) -> bool {
    &&& 0 <= min_read_size
    &&& 0 < max_chunk_size
    &&& max_chunk_size + max_chunk_size / 2 <= i64::MAX
}

/// The limits a chunker runs with: a positive maximum, and room in `i64`
/// for a full chunk plus one more small item.
pub open spec fn chunker_limits_ok(max_chunk_size: i64) -> bool {
    &&& 0 < max_chunk_size
    &&& max_chunk_size + max_chunk_size / 2 <= i64::MAX
}

/// Splits a stream of sized items into chunks. An item whose effective
/// size exceeds half the maximum forms a chunk of its own at once; the other
/// items gather in order into a pending chunk, which is handed out as soon
/// as its total effective size exceeds the maximum.
pub struct SizeChunker<T> {
    min_read_size: i64,
    max_chunk_size: i64,
    chunk: Vec<T>,
    chunk_size: i64,
    sizes: Ghost<Seq<int>>,
}

impl<T> SizeChunker<T> {
    /// The smallest size an item counts for.
    pub closed spec fn min_read_size(&self) -> i64 {
        self.min_read_size
    }

    /// The size above which the pending chunk is handed out.
    pub closed spec fn max_chunk_size(&self) -> i64 {
        self.max_chunk_size
    }

    /// The items gathered and not yet handed out, in arrival order.
    pub closed spec fn pending(&self) -> Seq<T> {
        self.chunk@
    }

    /// The total effective size of the pending items.
    pub closed spec fn pending_size(&self) -> int {
        self.chunk_size as int
    }

    /// The chunker's internal consistency.
    pub closed spec fn wf(&self) -> bool {
        &&& chunker_limits_ok(self.max_chunk_size)
        &&& self.chunk@.len() == self.sizes@.len()
        &&& self.chunk_size == sum_sizes(self.sizes@)
        &&& self.chunk_size <= self.max_chunk_size
        &&& forall|i: int|
            0 <= i < self.sizes@.len() ==> #[trigger] self.sizes@[i] <= self.max_chunk_size
                / 2
    }

    /// A chunker with nothing pending.
    pub fn new(min_read_size: i64, max_chunk_size: i64) -> (r: Self)
        requires
            chunker_limits_ok(max_chunk_size),
        ensures
            r.wf(),
            r.min_read_size() == min_read_size,
            r.max_chunk_size() == max_chunk_size,
            r.pending() == Seq::<T>::empty(),
            r.pending_size() == 0,
    {
        SizeChunker {
            min_read_size,
            max_chunk_size,
            chunk: Vec::new(),
            chunk_size: 0,
            sizes: Ghost(Seq::empty()),
        }
    }

    /// Takes the next item with its size; returns the chunk handed out, if any.
    pub fn push(&mut self, item: T, size: i64) -> (out: Option<Vec<T>>)
        requires
            old(self).wf(),
            effective_size(size, old(self).min_read_size()) <= old(self).max_chunk_size() / 2
                ==> old(self).pending_size() + effective_size(size, old(self).min_read_size()) >= i64::MIN,
        ensures
            final(self).wf(),
            final(self).min_read_size() == old(self).min_read_size(),
            final(self).max_chunk_size() == old(self).max_chunk_size(),
            ({
                let eff = effective_size(size, old(self).min_read_size());
                let max = old(self).max_chunk_size() as int;
                if eff > max / 2 {
                    &&& out matches Some(v) && v@ == seq![item]
                    &&& final(self).pending() == old(self).pending()
                    &&& final(self).pending_size() == old(self).pending_size()
                } else if old(self).pending_size() + eff > max {
                    &&& out matches Some(v) && v@ == old(self).pending().push(item)
                    &&& final(self).pending() == Seq::<T>::empty()
                    &&& final(self).pending_size() == 0
                } else {
                    &&& out is None
                    &&& final(self).pending() == old(self).pending().push(item)
                    &&& final(self).pending_size() == old(self).pending_size() + eff
                }
            }),
    {
        let eff: i64 = if size < self.min_read_size {
            self.min_read_size
        } else {
            size
        };
        if eff > self.max_chunk_size / 2 {
            let mut v: Vec<T> = Vec::new();
            v.push(item);
            return Some(v);
        }
        let total: i64 = self.chunk_size + eff;
        if total > self.max_chunk_size {
            let mut out: Vec<T> = Vec::new();
            std::mem::swap(&mut out, &mut self.chunk);
            out.push(item);
            self.chunk_size = 0;
            self.sizes = Ghost(Seq::empty());
            Some(out)
        } else {
            self.chunk.push(item);
            self.chunk_size = total;
            proof {
                let old_sizes = self.sizes@;
                self.sizes@ = old_sizes.push(eff as int);
                assert(self.sizes@.drop_last() =~= old_sizes);
            }
            None
        }
    }

    /// Ends the stream: hands out the pending chunk unless it is empty.
    pub fn finish(self) -> (out: Option<Vec<T>>)
        requires
            self.wf(),
        ensures
            if self.pending().len() == 0 {
                out is None
            } else {
                out matches Some(v) && v@ == self.pending()
            },
    {
        if self.chunk.len() == 0 {
            None
        } else {
            Some(self.chunk)
        }
    }
}

/// What one step of a chunker keeps: the items pending before, with the
/// new item, are the items handed out and the items pending after.
pub proof fn lemma_chunker_step_keeps_items<T>(
    before: Seq<T>,
    item: T,
    out: Option<Seq<T>>,
    after: Seq<T>,
)
    requires
        (out == Some(seq![item]) && after == before) || (out == Some(before.push(item))
            && after == Seq::<T>::empty()) || (out is None && after == before.push(item)),
    ensures
        before.push(item).to_multiset() == (match out {
            Some(o) => o.to_multiset(),
            None => Multiset::empty(),
        }).add(after.to_multiset()),
{
    if out == Some(seq![item]) && after == before {
        assert(seq![item] =~= Seq::<T>::empty().push(item));
        assert(Seq::<T>::empty().to_multiset() =~= Multiset::empty());
        assert(before.push(item).to_multiset() =~= before.to_multiset().insert(item));
    } else if out is None {
        assert(Seq::<T>::empty().to_multiset() =~= Multiset::empty());
    } else {
        assert(Seq::<T>::empty().to_multiset() =~= Multiset::empty());
    }
}

/// All items of a sequence of chunks, counted with multiplicity.
pub open spec fn chunks_items<T>(chunks: Seq<Vec<T>>) -> Multiset<T>
    decreases chunks.len(),
{
    if chunks.len() == 0 {
        Multiset::empty()
    } else {
        chunks_items(chunks.drop_last()).add(chunks.last()@.to_multiset())
    }
}

/// The items of a sequence of sized items, counted with multiplicity.
pub open spec fn sized_items<T>(items: Seq<(T, i64)>) -> Multiset<T> {
    items.map_values(|p: (T, i64)| p.0).to_multiset()
}

/// The state of a chunker as a value: chunks handed out, pending items and
/// their total effective size.
pub type ChunkState<T> = (Seq<Seq<T>>, Seq<T>, int);

/// One step of a chunker on a state, as [`SizeChunker::push`] performs it.
pub open spec fn chunk_step<T>(st: ChunkState<T>, item: T, size: i64, min_read_size: i64, max_chunk_size: i64) -> ChunkState<T> {
    let eff = effective_size(size, min_read_size);
    let max = max_chunk_size as int;
    if eff > max / 2 {
        (st.0.push(seq![item]), st.1, st.2)
    } else if st.2 + eff > max {
        (st.0.push(st.1.push(item)), Seq::empty(), 0)
    } else {
        (st.0, st.1.push(item), st.2 + eff)
    }
}

/// The state of a chunker after taking the given items in order.
pub open spec fn chunk_run<T>(items: Seq<(T, i64)>, min_read_size: i64, max_chunk_size: i64) -> ChunkState<T>
    decreases items.len(),
{
    if items.len() == 0 {
        (Seq::empty(), Seq::empty(), 0)
    } else {
        chunk_step(
            chunk_run(items.drop_last(), min_read_size, max_chunk_size),
            items.last().0,
            items.last().1,
            min_read_size,
            max_chunk_size,
        )
    }
}

/// The chunks of the given items: those handed out while taking them, then
/// the pending chunk unless it is empty.
pub open spec fn chunked<T>(items: Seq<(T, i64)>, min_read_size: i64, max_chunk_size: i64) -> Seq<Seq<T>> {
    let st = chunk_run(items, min_read_size, max_chunk_size);
    if st.1.len() == 0 {
        st.0
    } else {
        st.0.push(st.1)
    }
}

/// The contents of a sequence of vectors.
pub open spec fn vec_views<T>(vs: Seq<Vec<T>>) -> Seq<Seq<T>> {
    vs.map_values(|v: Vec<T>| v@)
}

/// The sum of the sizes of items, by a size function.
pub open spec fn total_size<T>(s: Seq<T>, size: spec_fn(T) -> i64) -> int
    decreases s.len(),
{
    if s.len() == 0 {
        0
    } else {
        total_size(s.drop_last(), size) + size(s.last())
    }
}

/// The sum of the effective sizes of items, by a size function.
pub open spec fn total_effective_size<T>(s: Seq<T>, size: spec_fn(T) -> i64, min_read_size: i64) -> int
    decreases s.len(),
{
    if s.len() == 0 {
        0
    } else {
        total_effective_size(s.drop_last(), size, min_read_size) + effective_size(size(s.last()), min_read_size)
    }
}

/// Every prefix of the items has a total size that fits in `i64`.
pub open spec fn prefix_totals_fit<T>(s: Seq<T>, size: spec_fn(T) -> i64) -> bool {
    forall|k: int| 0 <= k <= s.len() ==> i64::MIN <= #[trigger] total_size(s.take(k), size) <= i64::MAX
}

/// Each item is paired with its size, which is not negative.
pub open spec fn sized_by<T>(items: Seq<(T, i64)>, size: spec_fn(T) -> i64) -> bool {
    forall|i: int| 0 <= i < items.len() ==> #[trigger] items[i].1 == size(items[i].0) && items[i].1 >= 0
}

proof fn lemma_totals_bounded<T>(s: Seq<T>, size: spec_fn(T) -> i64, min_read_size: i64)
    requires
        0 <= min_read_size,
        forall|i: int| 0 <= i < s.len() ==> size(#[trigger] s[i]) >= 0,
    ensures
        0 <= total_size(s, size) <= total_effective_size(s, size, min_read_size),
        forall|k: int| 0 <= k <= s.len() ==> #[trigger] total_effective_size(s.take(k), size, min_read_size) <= total_effective_size(s, size, min_read_size),
        forall|k: int| 0 <= k <= s.len() ==> 0 <= #[trigger] total_size(s.take(k), size) <= total_effective_size(s.take(k), size, min_read_size),
    decreases s.len(),
{
    if s.len() > 0 {
        let p = s.drop_last();
        assert forall|i: int| 0 <= i < p.len() implies size(#[trigger] p[i]) >= 0 by {
            assert(p[i] == s[i]);
        }
        lemma_totals_bounded(p, size, min_read_size);
        assert(size(s[s.len() - 1]) >= 0);
        assert forall|k: int| 0 <= k <= s.len() implies #[trigger] total_effective_size(s.take(k), size, min_read_size) <= total_effective_size(s, size, min_read_size) by {
            if k == s.len() {
                assert(s.take(k) =~= s);
            } else {
                assert(s.take(k) =~= p.take(k));
            }
        }
        assert forall|k: int| 0 <= k <= s.len() implies 0 <= #[trigger] total_size(s.take(k), size) <= total_effective_size(s.take(k), size, min_read_size) by {
            if k == s.len() {
                assert(s.take(k) =~= s);
            } else {
                assert(s.take(k) =~= p.take(k));
            }
        }
    } else {
        assert forall|k: int| 0 <= k <= s.len() implies #[trigger] total_effective_size(s.take(k), size, min_read_size) <= total_effective_size(s, size, min_read_size) by {
            assert(s.take(k) =~= s);
        }
        assert forall|k: int| 0 <= k <= s.len() implies 0 <= #[trigger] total_size(s.take(k), size) <= total_effective_size(s.take(k), size, min_read_size) by {
            assert(s.take(k) =~= s);
        }
    }
}

/// What a chunker keeps true while it runs over sized items whose sizes are
/// not negative: the pending items weigh what the state counts, at most
/// the maximum, each at most half of it, and every chunk handed out either
/// holds a single item or weighs at most one and a half times the maximum.
pub open spec fn chunk_run_bounded<T>(st: ChunkState<T>, size: spec_fn(T) -> i64, min_read_size: i64, max_chunk_size: i64) -> bool {
    &&& st.2 == total_effective_size(st.1, size, min_read_size)
    &&& 0 <= st.2 <= max_chunk_size
    &&& forall|i: int| 0 <= i < st.1.len() ==> 0 <= size(#[trigger] st.1[i]) && effective_size(size(st.1[i]), min_read_size) <= max_chunk_size / 2
    &&& forall|c: int| 0 <= c < st.0.len() ==> {
        ||| (#[trigger] st.0[c]).len() == 1 && size(st.0[c][0]) >= 0
        ||| (total_effective_size(st.0[c], size, min_read_size) <= max_chunk_size + max_chunk_size / 2
            && forall|i: int| 0 <= i < st.0[c].len() ==> size(#[trigger] st.0[c][i]) >= 0)
    }
}

proof fn lemma_chunk_run_bounded<T>(items: Seq<(T, i64)>, size: spec_fn(T) -> i64, min_read_size: i64, max_chunk_size: i64)
    requires
        chunk_limits_ok(min_read_size, max_chunk_size),
        sized_by(items, size),
    ensures
        chunk_run_bounded(chunk_run(items, min_read_size, max_chunk_size), size, min_read_size, max_chunk_size),
    decreases items.len(),
{
    if items.len() > 0 {
        let p = items.drop_last();
        assert forall|i: int| 0 <= i < p.len() implies #[trigger] p[i].1 == size(p[i].0) && p[i].1 >= 0 by {
            assert(p[i] == items[i]);
        }
        lemma_chunk_run_bounded(p, size, min_read_size, max_chunk_size);
        let st = chunk_run(p, min_read_size, max_chunk_size);
        let item = items.last().0;
        assert(items.last() == items[items.len() - 1]);
        let eff = effective_size(items.last().1, min_read_size);
        let max = max_chunk_size as int;
        let nst = chunk_run(items, min_read_size, max_chunk_size);
        if eff > max / 2 {
            assert(seq![item][0] == item);
            assert forall|c: int| 0 <= c < nst.0.len() implies {
                ||| (#[trigger] nst.0[c]).len() == 1 && size(nst.0[c][0]) >= 0
                ||| (total_effective_size(nst.0[c], size, min_read_size) <= max_chunk_size + max_chunk_size / 2
                    && forall|i: int| 0 <= i < nst.0[c].len() ==> size(#[trigger] nst.0[c][i]) >= 0)
            } by {
                if c < st.0.len() {
                    assert(nst.0[c] == st.0[c]);
                }
            }
        } else if st.2 + eff > max {
            let chunk = st.1.push(item);
            assert(chunk.drop_last() =~= st.1);
            assert(total_effective_size(chunk, size, min_read_size) == st.2 + eff);
            assert forall|c: int| 0 <= c < nst.0.len() implies {
                ||| (#[trigger] nst.0[c]).len() == 1 && size(nst.0[c][0]) >= 0
                ||| (total_effective_size(nst.0[c], size, min_read_size) <= max_chunk_size + max_chunk_size / 2
                    && forall|i: int| 0 <= i < nst.0[c].len() ==> size(#[trigger] nst.0[c][i]) >= 0)
            } by {
                if c < st.0.len() {
                    assert(nst.0[c] == st.0[c]);
                } else {
                    assert(nst.0[c] == chunk);
                    assert forall|i: int| 0 <= i < chunk.len() implies size(#[trigger] chunk[i]) >= 0 by {
                        if i < st.1.len() {
                            assert(chunk[i] == st.1[i]);
                        }
                    }
                }
            }
            assert(nst.1 =~= Seq::<T>::empty());
        } else {
            let pend = st.1.push(item);
            assert(pend.drop_last() =~= st.1);
            assert forall|i: int| 0 <= i < pend.len() implies 0 <= size(#[trigger] pend[i]) && effective_size(size(pend[i]), min_read_size) <= max_chunk_size / 2 by {
                if i < st.1.len() {
                    assert(pend[i] == st.1[i]);
                }
            }
        }
    } else {
        assert(total_effective_size(Seq::<T>::empty(), size, min_read_size) == 0);
    }
}

/// Every chunk of items whose sizes are not negative has prefix totals
/// that fit in `i64`, when the limits leave room for one and a half
/// chunks.
pub proof fn lemma_chunks_fit<T>(items: Seq<(T, i64)>, size: spec_fn(T) -> i64, min_read_size: i64, max_chunk_size: i64)
    requires
        chunk_limits_ok(min_read_size, max_chunk_size),
        sized_by(items, size),
    ensures
        forall|c: int| 0 <= c < chunked(items, min_read_size, max_chunk_size).len() ==> prefix_totals_fit(
            #[trigger] chunked(items, min_read_size, max_chunk_size)[c],
            size,
        ),
{
    lemma_chunk_run_bounded(items, size, min_read_size, max_chunk_size);
    let st = chunk_run(items, min_read_size, max_chunk_size);
    let cs = chunked(items, min_read_size, max_chunk_size);
    assert forall|c: int| 0 <= c < cs.len() implies prefix_totals_fit(#[trigger] cs[c], size) by {
        let ch = cs[c];
        if c < st.0.len() {
            assert(ch == st.0[c]);
            if ch.len() == 1 && size(ch[0]) >= 0 {
                assert forall|k: int| 0 <= k <= ch.len() implies i64::MIN <= #[trigger] total_size(ch.take(k), size) <= i64::MAX by {
                    if k == 0 {
                        assert(ch.take(k) =~= Seq::<T>::empty());
                    } else {
                        assert(ch.take(k).drop_last() =~= Seq::<T>::empty());
                        assert(ch.take(k).last() == ch[0]);
                        assert(total_size(Seq::<T>::empty(), size) == 0);
                        assert(total_size(ch.take(k), size) == total_size(ch.take(k).drop_last(), size) + size(ch.take(k).last()));
                    }
                }
            } else {
                assert forall|i: int| 0 <= i < ch.len() implies size(#[trigger] ch[i]) >= 0 by {
                }
                lemma_totals_bounded(ch, size, min_read_size);
            }
        } else {
            assert(ch == st.1);
            lemma_totals_bounded(ch, size, min_read_size);
        }
    }
}

/// How many times `x` occurs in `s`.
pub open spec fn count_in<A>(s: Seq<A>, x: A) -> nat
    decreases s.len(),
{
    if s.len() == 0 {
        0
    } else {
        count_in(s.drop_last(), x) + (if s.last() == x { 1nat } else { 0nat })
    }
}

/// Occurrences in a concatenation add up.
pub proof fn lemma_count_in_concat<A>(a: Seq<A>, b: Seq<A>, x: A)
    ensures
        count_in(a + b, x) == count_in(a, x) + count_in(b, x),
    decreases b.len(),
{
    if b.len() == 0 {
        assert(a + b =~= a);
    } else {
        assert((a + b).drop_last() =~= a + b.drop_last());
        assert((a + b).last() == b.last());
        lemma_count_in_concat(a, b.drop_last(), x);
    }
}

/// Removing the item at `j` takes away its one occurrence.
pub proof fn lemma_count_in_remove<A>(s: Seq<A>, j: int, y: A)
    requires
        0 <= j < s.len(),
    ensures
        count_in(s, y) == count_in(s.remove(j), y) + (if s[j] == y { 1nat } else { 0nat }),
{
    let front = s.subrange(0, j);
    let back = s.subrange(j + 1, s.len() as int);
    let one = seq![s[j]];
    assert(s =~= front + one + back);
    assert(s.remove(j) =~= front + back);
    lemma_count_in_concat(front + one, back, y);
    lemma_count_in_concat(front, one, y);
    lemma_count_in_concat(front, back, y);
    assert(one.drop_last() =~= Seq::<A>::empty());
    assert(count_in(Seq::<A>::empty(), y) == 0);
    assert(count_in(one, y) == (if s[j] == y { 1nat } else { 0nat }));
}

/// Two sequences holding the same items, each as often, hold the same
/// images under any function, each as often.
pub proof fn lemma_count_in_map_same_items<A, B>(a: Seq<A>, b: Seq<A>, f: spec_fn(A) -> B, y: B)
    requires
        a.to_multiset() == b.to_multiset(),
    ensures
        count_in(a.map_values(f), y) == count_in(b.map_values(f), y),
    decreases a.len(),
{
    if a.len() == 0 {
        assert(b.len() == b.to_multiset().len());
        assert(a.map_values(f) =~= Seq::<B>::empty());
        assert(b.map_values(f) =~= Seq::<B>::empty());
    } else {
        let x = a.last();
        let p = a.drop_last();
        assert(a =~= p.push(x));
        assert(a.to_multiset() =~= p.to_multiset().insert(x));
        assert(b.to_multiset().count(x) > 0);
        assert(b.contains(x));
        let j = choose|j: int| 0 <= j < b.len() && b[j] == x;
        assert(b.remove(j).to_multiset() =~= b.to_multiset().remove(x));
        assert(p.to_multiset() =~= b.remove(j).to_multiset());
        lemma_count_in_map_same_items(p, b.remove(j), f, y);
        assert(a.map_values(f).drop_last() =~= p.map_values(f));
        lemma_count_in_remove(b.map_values(f), j, y);
        assert(b.map_values(f).remove(j) =~= b.remove(j).map_values(f));
    }
}

/// How many times `y` occurs among the images by `f` of the items of all
/// the chunks.
pub open spec fn chunks_count<T, U>(cs: Seq<Seq<T>>, f: spec_fn(T) -> U, y: U) -> nat
    decreases cs.len(),
{
    if cs.len() == 0 {
        0
    } else {
        chunks_count(cs.drop_last(), f, y) + count_in(cs.last().map_values(f), y)
    }
}

proof fn lemma_count_in_push_map<T, U>(s: Seq<T>, x: T, f: spec_fn(T) -> U, y: U)
    ensures
        count_in(s.push(x).map_values(f), y) == count_in(s.map_values(f), y) + (if f(x) == y { 1nat } else { 0nat }),
{
    assert(s.push(x).map_values(f).drop_last() =~= s.map_values(f));
}

proof fn lemma_chunk_run_counts<T, U>(items: Seq<(T, i64)>, min_read_size: i64, max_chunk_size: i64, f: spec_fn(T) -> U, y: U)
    ensures
        ({
            let st = chunk_run(items, min_read_size, max_chunk_size);
            chunks_count(st.0, f, y) + count_in(st.1.map_values(f), y)
                == count_in(items.map_values(|p: (T, i64)| f(p.0)), y)
        }),
    decreases items.len(),
{
    let g = |p: (T, i64)| f(p.0);
    if items.len() == 0 {
        assert(chunk_run(items, min_read_size, max_chunk_size).1.map_values(f) =~= Seq::<U>::empty());
        assert(items.map_values(g) =~= Seq::<U>::empty());
    } else {
        let p = items.drop_last();
        lemma_chunk_run_counts(p, min_read_size, max_chunk_size, f, y);
        let st = chunk_run(p, min_read_size, max_chunk_size);
        let x = items.last().0;
        assert(items.map_values(g).drop_last() =~= p.map_values(g));
        assert(items.map_values(g).last() == f(x));
        let nst = chunk_run(items, min_read_size, max_chunk_size);
        let eff = effective_size(items.last().1, min_read_size);
        if eff > max_chunk_size as int / 2 {
            assert(nst.0.drop_last() =~= st.0);
            lemma_count_in_push_map(Seq::<T>::empty(), x, f, y);
            assert(seq![x] =~= Seq::<T>::empty().push(x));
            assert(Seq::<T>::empty().map_values(f) =~= Seq::<U>::empty());
        } else if st.2 + eff > max_chunk_size {
            assert(nst.0.drop_last() =~= st.0);
            lemma_count_in_push_map(st.1, x, f, y);
            assert(nst.1.map_values(f) =~= Seq::<U>::empty());
        } else {
            lemma_count_in_push_map(st.1, x, f, y);
        }
    }
}

/// Chunking loses no item and repeats none: every value occurs among the
/// images of the chunks' items as often as among those of the items.
pub proof fn lemma_chunked_partition<T, U>(items: Seq<(T, i64)>, min_read_size: i64, max_chunk_size: i64, f: spec_fn(T) -> U, y: U)
    ensures
        chunks_count(chunked(items, min_read_size, max_chunk_size), f, y)
            == count_in(items.map_values(|p: (T, i64)| f(p.0)), y),
{
    lemma_chunk_run_counts(items, min_read_size, max_chunk_size, f, y);
    let st = chunk_run(items, min_read_size, max_chunk_size);
    if st.1.len() == 0 {
        assert(st.1.map_values(f) =~= Seq::<U>::empty());
    } else {
        assert(st.0.push(st.1).drop_last() =~= st.0);
    }
}

/// No pending total of a chunker run over the items falls below
/// `i64::MIN` when an item joins it.
pub open spec fn chunk_totals_fit<T>(items: Seq<(T, i64)>, min_read_size: i64, max_chunk_size: i64) -> bool {
    forall|k: int| 0 <= k < items.len()
        && effective_size(#[trigger] items[k].1, min_read_size) <= max_chunk_size / 2
        ==> chunk_run(items.take(k), min_read_size, max_chunk_size).2 + effective_size(items[k].1, min_read_size) >= i64::MIN
}

/// Items whose sizes are not negative, chunked with a minimum that is not
/// negative, never bring a pending total below zero.
pub proof fn lemma_chunk_totals_fit<T>(items: Seq<(T, i64)>, size: spec_fn(T) -> i64, min_read_size: i64, max_chunk_size: i64)
    requires
        chunk_limits_ok(min_read_size, max_chunk_size),
        sized_by(items, size),
    ensures
        chunk_totals_fit(items, min_read_size, max_chunk_size),
{
    assert forall|k: int| 0 <= k < items.len()
        && effective_size(#[trigger] items[k].1, min_read_size) <= max_chunk_size / 2
        implies chunk_run(items.take(k), min_read_size, max_chunk_size).2 + effective_size(items[k].1, min_read_size) >= i64::MIN by {
        let p = items.take(k);
        assert forall|i: int| 0 <= i < p.len() implies #[trigger] p[i].1 == size(p[i].0) && p[i].1 >= 0 by {
            assert(p[i] == items[i]);
        }
        lemma_chunk_run_bounded(p, size, min_read_size, max_chunk_size);
    }
}

/// Splits sized items into chunks with a [`SizeChunker`]: every chunk is
/// nonempty, and the chunks together hold exactly the given items.
pub fn chunk_by_size<T>(items: Vec<(T, i64)>, min_read_size: i64, max_chunk_size: i64) -> (r: Vec<
    Vec<T>,
>)
    requires
        chunker_limits_ok(max_chunk_size),
        chunk_totals_fit(items@, min_read_size, max_chunk_size),
    ensures
        vec_views(r@) == chunked(items@, min_read_size, max_chunk_size),
        forall|i: int| 0 <= i < r@.len() ==> #[trigger] r@[i]@.len() > 0,
        chunks_items(r@) == sized_items(items@),
{
    let ghost all = items@;
    let mut chunker: SizeChunker<T> = SizeChunker::new(min_read_size, max_chunk_size);
    let mut out: Vec<Vec<T>> = Vec::new();
    for pair in it: items.into_iter()
        invariant
            chunker.wf(),
            chunker.min_read_size() == min_read_size,
            chunker.max_chunk_size() == max_chunk_size,
            it.seq() == all,
            chunk_totals_fit(all, min_read_size, max_chunk_size),
            forall|i: int| 0 <= i < out@.len() ==> #[trigger] out@[i]@.len() > 0,
            chunks_items(out@).add(chunker.pending().to_multiset()) == sized_items(
                all.take(it.index() as int),
            ),
            chunk_run(all.take(it.index() as int), min_read_size, max_chunk_size) == (
            vec_views(out@),
            chunker.pending(),
            chunker.pending_size(),
            ),
    {
        let (item, size) = pair;
        let ghost before = chunker.pending();
        let ghost prev = out@;
        let ghost idx = it.index();
        proof {
            assert(all[idx as int] == (item, size));
        }
        let res = chunker.push(item, size);
        proof {
            let o: Option<Seq<T>> = match &res {
                Some(v) => Some(v@),
                None => None,
            };
            lemma_chunker_step_keeps_items(before, item, o, chunker.pending());
            assert(all.take(idx + 1) =~= all.take(idx as int).push((item, size)));
            assert(all.take(idx + 1).drop_last() =~= all.take(idx as int));
            assert(all.take(idx + 1).map_values(|p: (T, i64)| p.0) =~= all.take(
                idx as int,
            ).map_values(|p: (T, i64)| p.0).push(item));
        }
        match res {
            Some(c) => {
                out.push(c);
                proof {
                    assert(out@.drop_last() =~= prev);
                    assert(vec_views(out@) =~= vec_views(prev).push(out@.last()@));
                }
            },
            None => {},
        }
        proof {
            assert(chunks_items(out@).add(chunker.pending().to_multiset()) =~= sized_items(
                all.take(idx + 1),
            ));
        }
    }
    let ghost before_finish = out@;
    let ghost pend = chunker.pending();
    match chunker.finish() {
        Some(c) => {
            out.push(c);
            proof {
                assert(out@.drop_last() =~= before_finish);
                assert(vec_views(out@) =~= vec_views(before_finish).push(pend));
            }
        },
        None => {
            proof {
                assert(pend =~= Seq::<T>::empty());
                assert(pend.to_multiset() =~= Multiset::empty());
            }
        },
    }
    proof {
        assert(all.take(all.len() as int) =~= all);
    }
    out
}

/// The concatenation of a sequence of vectors.
pub open spec fn flatten_vecs<T>(vs: Seq<Vec<T>>) -> Seq<T>
    decreases vs.len(),
{
    if vs.len() == 0 {
        Seq::empty()
    } else {
        flatten_vecs(vs.drop_last()) + vs.last()@
    }
}

/// Splits `v` into consecutive pieces of `size` items, the last piece
/// holding what remains, as `slice::chunks` does: the pieces in order are
/// `v`, and every piece but the last has exactly `size` items.
pub fn chunk_vec<T: Copy>(v: &Vec<T>, size: usize) -> (r: Vec<Vec<T>>)
    requires
        size > 0,
    ensures
        flatten_vecs(r@) == v@,
        forall|i: int| 0 <= i < r@.len() ==> #[trigger] r@[i]@.len() > 0,
        forall|i: int| 0 <= i < r@.len() - 1 ==> #[trigger] r@[i]@.len() == size,
        r@.len() > 0 ==> r@.last()@.len() <= size,
        r@.len() == (v@.len() + size - 1) / size as int,
{
    let n = v.len();
    let mut r: Vec<Vec<T>> = Vec::new();
    let mut start: usize = 0;
    while start < n
        invariant
            n == v@.len(),
            size > 0,
            start <= n,
            flatten_vecs(r@) == v@.subrange(0, start as int),
            forall|i: int| 0 <= i < r@.len() ==> #[trigger] r@[i]@.len() == size,
            start == r@.len() * size,
            start < n || r@.len() == 0,
        decreases n - start,
    {
        let end: usize = if n - start > size {
            start + size
        } else {
            n
        };
        let mut piece: Vec<T> = Vec::new();
        let mut j: usize = start;
        while j < end
            invariant
                start <= j <= end <= n,
                n == v@.len(),
                piece@ == v@.subrange(start as int, j as int),
            decreases end - j,
        {
            piece.push(v[j]);
            proof {
                assert(v@.subrange(start as int, j + 1) =~= v@.subrange(start as int, j as int).push(v@[j as int]));
            }
            j = j + 1;
        }
        let ghost prev = r@;
        r.push(piece);
        proof {
            assert(r@.drop_last() =~= prev);
            assert(v@.subrange(0, end as int) =~= v@.subrange(0, start as int) + v@.subrange(start as int, end as int));
        }
        if end == n {
            proof {
                assert(v@.subrange(0, n as int) =~= v@);
                assert(r@.len() == (n + size - 1) / size as int) by (nonlinear_arith)
                    requires
                        r@.len() == prev.len() + 1,
                        start == prev.len() * size,
                        start < n <= start + size,
                        size > 0,
                ;
                assert forall|i: int| 0 <= i < r@.len() implies #[trigger] r@[i]@.len() > 0 by {
                    if i < prev.len() {
                        assert(r@[i] == prev[i]);
                    }
                }
                assert forall|i: int| 0 <= i < r@.len() - 1 implies #[trigger] r@[i]@.len() == size by {
                    assert(r@[i] == prev[i]);
                }
            }
            return r;
        }
        proof {
            assert(r@.len() * size == prev.len() * size + size) by (nonlinear_arith)
                requires r@.len() == prev.len() + 1;
        }
        start = end;
    }
    proof {
        assert(v@.subrange(0, n as int) =~= v@);
        assert(n == 0);
        assert((0 + size - 1) / size as int == 0) by (nonlinear_arith)
            requires size > 0;
    }
    r
}

/// Whether `k` is at most the key of every entry.
pub open spec fn key_at_most_all<T>(k: i64, entries: Seq<(i64, T)>) -> bool {
    forall|j: int| 0 <= j < entries.len() ==> k <= #[trigger] entries[j].0
}

/// Whether a sequence of keys never decreases.
pub open spec fn keys_nondecreasing(ks: Seq<i64>) -> bool {
    forall|i: int, j: int| 0 <= i <= j < ks.len() ==> ks[i] <= ks[j]
}

/// Pairs each key with the item at the same position.
pub open spec fn zip_keys<T>(ks: Seq<i64>, items: Seq<T>) -> Seq<(i64, T)> {
    Seq::new(items.len(), |i: int| (ks[i], items[i]))
}

/// The position of the first entry of smallest key.
pub open spec fn first_min<T>(b: Seq<(i64, T)>) -> int
    decreases b.len(),
{
    if b.len() <= 1 {
        0
    } else {
        let m = first_min(b.drop_last());
        if b.last().0 < b[m].0 {
            b.len() - 1
        } else {
            m
        }
    }
}

/// The buffer and the items handed out after one item arrives: the item
/// joins the buffer, and when the buffer then holds more than `cap` items,
/// its first entry of smallest key leaves.
pub open spec fn reorder_push<T>(st: (Seq<(i64, T)>, Seq<T>), x: (i64, T), cap: nat) -> (Seq<(i64, T)>, Seq<T>) {
    let b = st.0.push(x);
    if b.len() > cap {
        let m = first_min(b);
        (b.remove(m), st.1.push(b[m].1))
    } else {
        (b, st.1)
    }
}

/// The buffer and the items handed out after the given items arrive.
pub open spec fn reorder_run<T>(items: Seq<(i64, T)>, cap: nat) -> (Seq<(i64, T)>, Seq<T>)
    decreases items.len(),
{
    if items.len() == 0 {
        (Seq::empty(), Seq::empty())
    } else {
        reorder_push(reorder_run(items.drop_last(), cap), items.last(), cap)
    }
}

/// The items of a buffer in the order it is drained: each time its first
/// entry of smallest key.
pub open spec fn drain_order<T>(b: Seq<(i64, T)>) -> Seq<T>
    decreases b.len(),
{
    if b.len() == 0 {
        Seq::empty()
    } else {
        let m = first_min(b);
        proof {
            lemma_first_min_bounds(b);
        }
        seq![b[m].1] + drain_order(b.remove(m))
    }
}

/// The items as reordering through a buffer of `cap` hands them out:
/// those that leave while items arrive, then the buffer drained.
pub open spec fn reordered<T>(items: Seq<(i64, T)>, cap: nat) -> Seq<T> {
    let st = reorder_run(items, cap);
    st.1 + drain_order(st.0)
}

/// The first entry of smallest key is an entry, and no key is smaller.
pub proof fn lemma_first_min_bounds<T>(b: Seq<(i64, T)>)
    requires
        b.len() > 0,
    ensures
        0 <= first_min(b) < b.len(),
        forall|j: int| 0 <= j < b.len() ==> b[first_min(b)].0 <= #[trigger] b[j].0,
    decreases b.len(),
{
    if b.len() > 1 {
        lemma_first_min_bounds(b.drop_last());
        let m = first_min(b.drop_last());
        assert forall|j: int| 0 <= j < b.len() implies b[first_min(b)].0 <= #[trigger] b[j].0 by {
            if j < b.len() - 1 {
                assert(b[j] == b.drop_last()[j]);
            }
            assert(b[m] == b.drop_last()[m]);
        }
    }
}

/// Reorders a stream of keyed items within a window: items wait in a
/// buffer, and once the buffer holds more than `buffer_size` items the one
/// with the smallest key (the first of them, on a tie) leaves. Draining the buffer hands out the rest in
/// order of key.
pub struct ReorderBuffer<T> {
    buffer: Vec<(i64, T)>,
    buffer_size: usize,
}

impl<T> ReorderBuffer<T> {
    /// The items waiting, with their keys.
    pub closed spec fn entries(&self) -> Seq<(i64, T)> {
        self.buffer@
    }

    /// The number of items that may wait.
    pub closed spec fn capacity(&self) -> nat {
        self.buffer_size as nat
    }

    /// An empty buffer that lets `buffer_size` items wait.
    pub fn new(buffer_size: usize) -> (r: Self)
        ensures
            r.entries() == Seq::<(i64, T)>::empty(),
            r.capacity() == buffer_size,
    {
        ReorderBuffer { buffer: Vec::new(), buffer_size }
    }

    /// Removes an entry of smallest key.
    fn pop_min(&mut self) -> (r: (i64, T))
        requires
            old(self).entries().len() > 0,
        ensures
            final(self).capacity() == old(self).capacity(),
            old(self).entries().to_multiset() == final(self).entries().to_multiset().insert(r),
            final(self).entries().len() + 1 == old(self).entries().len(),
            key_at_most_all(r.0, old(self).entries()),
            r == old(self).entries()[first_min(old(self).entries())],
            final(self).entries() == old(self).entries().remove(first_min(old(self).entries())),
    {
        let n = self.buffer.len();
        let mut best: usize = 0;
        let mut i: usize = 1;
        while i < n
            invariant
                n == self.buffer@.len(),
                n > 0,
                best < n,
                best < i,
                1 <= i <= n,
                forall|j: int| 0 <= j < i ==> self.buffer@[best as int].0 <= #[trigger] self.buffer@[j].0,
                best == first_min(self.buffer@.take(i as int)),
            decreases n - i,
        {
            proof {
                assert(self.buffer@.take(i + 1).drop_last() =~= self.buffer@.take(i as int));
                assert(self.buffer@.take(i as int)[best as int] == self.buffer@[best as int]);
            }
            if self.buffer[i].0 < self.buffer[best].0 {
                best = i;
            }
            i = i + 1;
        }
        proof {
            assert(self.buffer@.take(n as int) =~= self.buffer@);
        }
        let ghost before = self.buffer@;
        let r = self.buffer.remove(best);
        proof {
            assert(before.remove(best as int).to_multiset() =~= before.to_multiset().remove(
                before[best as int],
            ));
            assert(before.to_multiset().count(before[best as int]) > 0) by {
                assert(before.contains(before[best as int]));
            }
        }
        r
    }

    /// Takes the next item with its key; hands out an item of smallest key
    /// once more than `capacity` items wait.
    pub fn push(&mut self, key: i64, item: T) -> (out: Option<T>)
        ensures
            final(self).capacity() == old(self).capacity(),
            (final(self).entries(), match out { Some(x) => seq![x], None => Seq::<T>::empty() })
                == reorder_push((old(self).entries(), Seq::<T>::empty()), (key, item), old(self).capacity()),
            if old(self).entries().len() + 1 > old(self).capacity() {
                &&& final(self).entries().len() == old(self).entries().len()
                &&& out matches Some(x) && exists|k: i64|
                    old(self).entries().push((key, item)).to_multiset()
                        == final(self).entries().to_multiset().insert((k, x))
                        && key_at_most_all(k, old(self).entries().push((key, item)))
            } else {
                out is None && final(self).entries() == old(self).entries().push((key, item))
            },
    {
        self.buffer.push((key, item));
        if self.buffer.len() > self.buffer_size {
            let (k, x) = self.pop_min();
            Some(x)
        } else {
            None
        }
    }

    /// Hands out every waiting item in order of key.
    pub fn drain(self) -> (out: Vec<T>)
        ensures
            out@ == drain_order(self.entries()),
            exists|ks: Seq<i64>|
                ks.len() == out@.len() && keys_nondecreasing(ks) && zip_keys(ks, out@).to_multiset()
                    == self.entries().to_multiset(),
    {
        let mut this = self;
        let ghost all = this.buffer@;
        let mut out: Vec<T> = Vec::new();
        let ghost mut ks: Seq<i64> = Seq::empty();
        while this.buffer.len() > 0
            invariant
                ks.len() == out@.len(),
                keys_nondecreasing(ks),
                forall|i: int| 0 <= i < ks.len() ==> key_at_most_all(#[trigger] ks[i], this.buffer@),
                zip_keys(ks, out@).to_multiset().add(this.buffer@.to_multiset()) == all.to_multiset(),
                out@ + drain_order(this.buffer@) == drain_order(all),
            decreases this.buffer@.len(),
        {
            let ghost before = this.buffer@;
            let ghost zb = zip_keys(ks, out@);
            let ghost out_before = out@;
            let (k, x) = this.pop_min();
            out.push(x);
            proof {
                assert(drain_order(before) == seq![x] + drain_order(this.buffer@));
                assert(out@ + drain_order(this.buffer@) =~= out_before + (seq![x] + drain_order(this.buffer@)));
                assert forall|i: int| 0 <= i < ks.len() implies ks[i] <= k by {
                    assert(key_at_most_all(ks[i], before));
                    assert(before.to_multiset().count((k, x)) > 0);
                    assert(before.contains((k, x)));
                }
                assert forall|i: int| 0 <= i < ks.len() implies key_at_most_all(ks[i], this.buffer@) by {
                    assert forall|j: int| 0 <= j < this.buffer@.len() implies ks[i] <= #[trigger] this.buffer@[j].0 by {
                        assert(this.buffer@.to_multiset().count(this.buffer@[j]) > 0);
                        assert(before.to_multiset().count(this.buffer@[j]) > 0);
                        assert(before.contains(this.buffer@[j]));
                    }
                }
                assert(key_at_most_all(k, this.buffer@)) by {
                    assert forall|j: int| 0 <= j < this.buffer@.len() implies k <= #[trigger] this.buffer@[j].0 by {
                        assert(this.buffer@.to_multiset().count(this.buffer@[j]) > 0);
                        assert(before.to_multiset().count(this.buffer@[j]) > 0);
                        assert(before.contains(this.buffer@[j]));
                    }
                }
                ks = ks.push(k);
                assert(zip_keys(ks, out@) =~= zb.push((k, x)));
            }
        }
        proof {
            assert(this.buffer@.to_multiset() =~= Multiset::empty());
            assert(this.buffer@ =~= Seq::<(i64, T)>::empty());
            assert(out@ + Seq::<T>::empty() =~= out@);
        }
        out
    }
}

/// What reordering keyed items through a buffer of `buffer_size` may
/// hand out: the same keyed items, in order of key when all of them fit in
/// the buffer.
pub open spec fn reorder_outcome<T>(out: Seq<T>, items: Seq<(i64, T)>, buffer_size: nat) -> bool {
    exists|ks: Seq<i64>| #[trigger] reordered_with_keys(ks, out, items, buffer_size)
}

/// The items handed out, with keys `ks`, are the keyed items given, in
/// order of key when at most one more than the buffer holds is given.
pub open spec fn reordered_with_keys<T>(ks: Seq<i64>, out: Seq<T>, items: Seq<(i64, T)>, buffer_size: nat) -> bool {
    &&& ks.len() == out.len()
    &&& zip_keys(ks, out).to_multiset() == items.to_multiset()
    &&& items.len() <= buffer_size + 1 ==> keys_nondecreasing(ks)
}

/// Reorders keyed items through a [`ReorderBuffer`] of `buffer_size`: the
/// same keyed items come out, and when at most one more than the buffer
/// holds is given they come out in order of key.
pub fn reorder_by_key<T>(items: Vec<(i64, T)>, buffer_size: usize) -> (out: Vec<T>)
    ensures
        out@ == reordered(items@, buffer_size as nat),
        reorder_outcome(out@, items@, buffer_size as nat),
{
    let ghost all = items@;
    let mut buf: ReorderBuffer<T> = ReorderBuffer::new(buffer_size);
    let mut out: Vec<T> = Vec::new();
    let ghost mut ks: Seq<i64> = Seq::empty();
    for pair in it: items.into_iter()
        invariant
            buf.capacity() == buffer_size,
            it.seq() == all,
            ks.len() == out@.len(),
            zip_keys(ks, out@).to_multiset().add(buf.entries().to_multiset())
                == all.take(it.index() as int).to_multiset(),
            buf.entries().len() == (if it.index() <= buffer_size { it.index() as int } else { buffer_size as int }),
            buf.entries().len() + out@.len() == it.index(),
            all.len() <= buffer_size + 1 && out@.len() == 1 ==> key_at_most_all(ks[0], buf.entries()),
            reorder_run(all.take(it.index() as int), buffer_size as nat) == (buf.entries(), out@),
    {
        let ghost idx = it.index();
        let ghost before = buf.entries();
        let ghost zb = zip_keys(ks, out@);
        let (k, x) = pair;
        let ghost out_before = out@;
        let res = buf.push(k, x);
        proof {
            assert(all.take(idx + 1) =~= all.take(idx as int).push((k, x)));
            assert(all.take(idx + 1).drop_last() =~= all.take(idx as int));
        }
        match res {
            Some(y) => {
                proof {
                    let kk = choose|kk: i64|
                        before.push((k, x)).to_multiset()
                            == buf.entries().to_multiset().insert((kk, y))
                            && key_at_most_all(kk, before.push((k, x)));
                    ks = ks.push(kk);
                }
                out.push(y);
                proof {
                    if all.len() <= buffer_size + 1 && out@.len() == 1 {
                        assert(ks =~= seq![ks.last()]);
                        let bp = before.push((k, x));
                        let kk = ks.last();
                        assert forall|j: int| 0 <= j < buf.entries().len() implies kk <= #[trigger] buf.entries()[j].0 by {
                            let e = buf.entries()[j];
                            assert(buf.entries().to_multiset().count(e) > 0);
                            assert(bp.to_multiset().count(e) > 0);
                            assert(bp.contains(e));
                            let w = choose|w: int| 0 <= w < bp.len() && bp[w] == e;
                            assert(kk <= bp[w].0);
                        }
                    }
                    assert(out@ =~= out_before + seq![y]);
                    assert(zip_keys(ks, out@) =~= zb.push((ks.last(), y)));
                    assert(zip_keys(ks, out@).to_multiset() =~= zb.to_multiset().insert((ks.last(), y)));
                    assert(before.push((k, x)).to_multiset() =~= before.to_multiset().insert((k, x)));
                    assert(all.take(idx + 1).to_multiset() =~= all.take(idx as int).to_multiset().insert((k, x)));
                    assert(buf.entries().to_multiset().insert((ks.last(), y)) =~= before.to_multiset().insert((k, x)));
                    let A = zb.to_multiset();
                    let B = before.to_multiset();
                    let C = buf.entries().to_multiset();
                    assert(A.add(B) == all.take(idx as int).to_multiset());
                    assert(A.insert((ks.last(), y)).add(C) =~= A.add(C.insert((ks.last(), y))));
                    assert(A.add(B.insert((k, x))) =~= A.add(B).insert((k, x)));
                    assert(zip_keys(ks, out@).to_multiset().add(buf.entries().to_multiset())
                        =~= all.take(idx + 1).to_multiset());
                }
            },
            None => {
                proof {
                    assert(buf.entries().to_multiset() =~= before.to_multiset().insert((k, x)));
                    assert(zip_keys(ks, out@).to_multiset().add(buf.entries().to_multiset())
                        =~= all.take(idx + 1).to_multiset());
                }
            },
        }
    }
    proof {
        assert(all.take(all.len() as int) =~= all);
    }
    let ghost zo = zip_keys(ks, out@);
    let ghost bent = buf.entries();
    let rest = buf.drain();
    let ghost ks2 = choose|ks2: Seq<i64>|
        ks2.len() == rest@.len() && keys_nondecreasing(ks2) && zip_keys(ks2, rest@).to_multiset()
            == bent.to_multiset();
    let ghost out1 = out@;
    let ghost restv = rest@;
    let mut rest = rest;
    out.append(&mut rest);
    proof {
        assert(out@ =~= out1 + restv);
        let ks_all = ks + ks2;
        let tail = out@.subrange(out1.len() as int, out@.len() as int);
        assert(tail =~= restv);
        assert(zip_keys(ks2, tail).to_multiset() == bent.to_multiset());
        assert(zip_keys(ks_all, out@) =~= zip_keys(ks, out1) + zip_keys(ks2, tail));
        vstd::seq_lib::lemma_multiset_commutative(zip_keys(ks, out1), zip_keys(ks2, tail));
        if all.len() <= buffer_size {
            assert(ks =~= Seq::<i64>::empty());
            assert(ks_all =~= ks2);
            assert(out1 =~= Seq::<T>::empty());
            assert(tail =~= out@);
        } else if all.len() == buffer_size + 1 {
            let kk = ks[0];
            assert forall|j: int| 0 <= j < ks2.len() implies kk <= #[trigger] ks2[j] by {
                let z = zip_keys(ks2, tail);
                assert(z[j] == (ks2[j], tail[j]));
                assert(z.to_multiset().count(z[j]) > 0) by {
                    assert(z.contains(z[j]));
                }
                assert(bent.to_multiset().count(z[j]) > 0);
                assert(bent.contains(z[j]));
                let w = choose|w: int| 0 <= w < bent.len() && bent[w] == z[j];
                assert(kk <= bent[w].0);
            }
            assert forall|a: int, b: int| 0 <= a <= b < ks_all.len() implies ks_all[a] <= ks_all[b] by {
                if a == 0 {
                    if b > 0 {
                        assert(ks_all[b] == ks2[b - 1]);
                    }
                } else {
                    assert(ks_all[a] == ks2[a - 1]);
                    assert(ks_all[b] == ks2[b - 1]);
                }
            }
        }
        assert(zip_keys(ks_all, out@).to_multiset() == all.to_multiset());
        assert(reordered_with_keys(ks_all, out@, all, buffer_size as nat));
    }
    out
}

} // verus!
