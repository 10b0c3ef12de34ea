//! Walking the tree of a workflow and the child workflows it started,
//! breadth by increasing id, expanding at most a fixed number of
//! workflows, and gathering their statuses.

use vstd::prelude::*;

use crate::strord::{insert_sorted, lemma_push_to_set, lex_lt, strictly_increasing, views_of};
use crate::tasks::{
    entries_map, status_from_name, status_map, TemporalioWorkflowStatusTree, UiWorkflowStatusCode,
};

verus! {

/// Most workflows expanded in one walk.
pub const TREE_NODE_LIMIT: usize = 24;

/// The rank of a status code, in declaration order.
pub open spec fn status_rank(c: UiWorkflowStatusCode) -> u8 {
    match c {
        UiWorkflowStatusCode::Unspecified => 0,
        UiWorkflowStatusCode::Running => 1,
        UiWorkflowStatusCode::Completed => 2,
        UiWorkflowStatusCode::Failed => 3,
        UiWorkflowStatusCode::Canceled => 4,
        UiWorkflowStatusCode::Terminated => 5,
        UiWorkflowStatusCode::ContinuedAsNew => 6,
        UiWorkflowStatusCode::TimedOut => 7,
    }
}

/// Whether two status codes are the same.
pub fn same_status(a: UiWorkflowStatusCode, b: UiWorkflowStatusCode) -> (r: bool)
    ensures
        r == (a == b),
{
    let ra: u8 = match a {
        UiWorkflowStatusCode::Unspecified => 0,
        UiWorkflowStatusCode::Running => 1,
        UiWorkflowStatusCode::Completed => 2,
        UiWorkflowStatusCode::Failed => 3,
        UiWorkflowStatusCode::Canceled => 4,
        UiWorkflowStatusCode::Terminated => 5,
        UiWorkflowStatusCode::ContinuedAsNew => 6,
        UiWorkflowStatusCode::TimedOut => 7,
    };
    let rb: u8 = match b {
        UiWorkflowStatusCode::Unspecified => 0,
        UiWorkflowStatusCode::Running => 1,
        UiWorkflowStatusCode::Completed => 2,
        UiWorkflowStatusCode::Failed => 3,
        UiWorkflowStatusCode::Canceled => 4,
        UiWorkflowStatusCode::Terminated => 5,
        UiWorkflowStatusCode::ContinuedAsNew => 6,
        UiWorkflowStatusCode::TimedOut => 7,
    };
    proof {
        assert(ra == status_rank(a) && rb == status_rank(b));
    }
    ra == rb
}

/// The count of a status in a list of counts: its last entry, or 0.
pub open spec fn count_of(totals: Seq<(UiWorkflowStatusCode, i64)>, s: UiWorkflowStatusCode) -> int
    decreases totals.len(),
{
    if totals.len() == 0 {
        0
    } else if totals.last().0 == s {
        totals.last().1 as int
    } else {
        count_of(totals.drop_last(), s)
    }
}

/// The counts after adding, in order, each amount to its status.
pub open spec fn counts_after(totals: Seq<(UiWorkflowStatusCode, i64)>, adds: Seq<(UiWorkflowStatusCode, i64)>) -> Seq<(UiWorkflowStatusCode, i64)>
    decreases adds.len(),
{
    if adds.len() == 0 {
        totals
    } else {
        let prev = counts_after(totals, adds.drop_last());
        let a = adds.last();
        prev.push((a.0, (count_of(prev, a.0) + a.1) as i64))
    }
}

/// Every sum made while adding the amounts fits in `i64`.
pub open spec fn counts_fit(totals: Seq<(UiWorkflowStatusCode, i64)>, adds: Seq<(UiWorkflowStatusCode, i64)>) -> bool {
    forall|k: int| 0 <= k < adds.len() ==> i64::MIN <= #[trigger] count_of(counts_after(totals, adds.take(k)), adds[k].0) + adds[k].1 <= i64::MAX
}

/// The status a group of children is counted under: the status its name
/// parses to, `Unspecified` if it parses to none.
pub open spec fn group_status(name: Seq<char>) -> UiWorkflowStatusCode {
    match status_from_name(name) {
        Some(c) => c,
        None => UiWorkflowStatusCode::Unspecified,
    }
}

/// What the children add to the counts: one for each child under its
/// status, then each group's count under the group's status.
pub open spec fn child_adds(children: Seq<(String, UiWorkflowStatusCode)>, groups: Seq<(String, i64)>) -> Seq<(UiWorkflowStatusCode, i64)> {
    children.map_values(|c: (String, UiWorkflowStatusCode)| (c.1, 1i64)) + groups.map_values(
        |g: (String, i64)| (group_status(g.0@), g.1),
    )
}

/// The counts of a group list, by status.
pub open spec fn group_counts(groups: Seq<(String, i64)>) -> Seq<(UiWorkflowStatusCode, i64)> {
    groups.map_values(|g: (String, i64)| (group_status(g.0@), g.1))
}

/// The ids of the children.
pub open spec fn child_ids(children: Seq<(String, UiWorkflowStatusCode)>) -> Seq<Seq<char>> {
    children.map_values(|c: (String, UiWorkflowStatusCode)| c.0@)
}

/// A walk over the tree of a workflow and its children: the workflows
/// seen and not yet expanded wait in order of id, and at most
/// [`TREE_NODE_LIMIT`] workflows are expanded.
pub struct StatusTreeWalk {
    open: Vec<String>,
    popcount: usize,
    tree: TemporalioWorkflowStatusTree,
    done: Ghost<Set<Seq<char>>>,
    fresh: Ghost<bool>,
}

/// The shape of a status tree built from a true tree of workflows: the
/// root has no parent, and every child with a parent is listed among that
/// parent's children.
pub open spec fn tree_exact(t: TemporalioWorkflowStatusTree) -> bool {
    let parent = entries_map(t.parent@);
    let children = entries_map(t.children@);
    &&& !parent.dom().contains(t.root_workflow_id@)
    &&& forall|c: Seq<char>| #[trigger] parent.dom().contains(c) ==> id_views(children[parent[c]@]@).contains(c)
}

/// Whether some entry of the list has key `k`.
pub open spec fn has_key<V>(entries: Seq<(String, V)>, k: Seq<char>) -> bool {
    exists|i: int| 0 <= i < entries.len() && #[trigger] entries[i].0@ == k
}

/// The ids of a list of workflow ids, as plain text.
pub open spec fn id_views(ids: Seq<String>) -> Seq<Seq<char>> {
    ids.map_values(|s: String| s@)
}

/// The shape of a status tree: the root is a node; every child with a
/// parent is a node, and its parent is a node whose children were
/// recorded; every workflow whose children were recorded is a node, and
/// each of its children is a node that has a parent.
pub open spec fn tree_consistent(t: TemporalioWorkflowStatusTree) -> bool {
    let nodes = entries_map(t.nodes@);
    let parent = entries_map(t.parent@);
    let children = entries_map(t.children@);
    &&& nodes.dom().contains(t.root_workflow_id@)
    &&& forall|c: Seq<char>| #[trigger] parent.dom().contains(c) ==> {
        &&& nodes.dom().contains(c)
        &&& nodes.dom().contains(parent[c]@)
        &&& children.dom().contains(parent[c]@)
    }
    &&& forall|p: Seq<char>| #[trigger] children.dom().contains(p) ==> {
        &&& nodes.dom().contains(p)
        &&& forall|c: Seq<char>| #[trigger] id_views(children[p]@).contains(c) ==> nodes.dom().contains(c)
            && parent.dom().contains(c)
    }
}

proof fn lemma_entries_map_append<V>(a: Seq<(String, V)>, b: Seq<(String, V)>)
    ensures
        forall|k: Seq<char>| #[trigger] entries_map(a + b).dom().contains(k) <==> (entries_map(a).dom().contains(k) || has_key(b, k)),
        forall|k: Seq<char>| entries_map(a).dom().contains(k) && !has_key(b, k) ==> #[trigger] entries_map(a + b)[k] == entries_map(a)[k],
    decreases b.len(),
{
    if b.len() == 0 {
        assert(a + b =~= a);
    } else {
        let b0 = b.drop_last();
        let x = b.last();
        lemma_entries_map_append(a, b0);
        assert(a + b =~= (a + b0).push(x));
        assert((a + b0).push(x).drop_last() =~= a + b0);
        assert((a + b0).push(x).last() == x);
        assert(entries_map(a + b) == entries_map(a + b0).insert(x.0@, x.1));
        assert forall|k: Seq<char>| has_key(b, k) <==> (has_key(b0, k) || x.0@ == k) by {
            if has_key(b, k) {
                let i = choose|i: int| 0 <= i < b.len() && #[trigger] b[i].0@ == k;
                if i < b0.len() {
                    assert(b0[i] == b[i]);
                }
            }
            if has_key(b0, k) {
                let i = choose|i: int| 0 <= i < b0.len() && #[trigger] b0[i].0@ == k;
                assert(b[i] == b0[i]);
            }
            if x.0@ == k {
                assert(b[b.len() - 1].0@ == k);
            }
        }
    }
}

proof fn lemma_entries_map_append_same<V>(a: Seq<(String, V)>, b: Seq<(String, V)>, v: V)
    requires
        forall|i: int| 0 <= i < b.len() ==> #[trigger] b[i].1 == v,
    ensures
        forall|k: Seq<char>| has_key(b, k) ==> #[trigger] entries_map(a + b)[k] == v,
    decreases b.len(),
{
    if b.len() > 0 {
        let b0 = b.drop_last();
        let x = b.last();
        assert forall|i: int| 0 <= i < b0.len() implies #[trigger] b0[i].1 == v by {
            assert(b0[i] == b[i]);
        }
        lemma_entries_map_append_same(a, b0, v);
        lemma_entries_map_append(a, b0);
        assert(a + b =~= (a + b0).push(x));
        assert((a + b0).push(x).drop_last() =~= a + b0);
        assert((a + b0).push(x).last() == x);
        assert(entries_map(a + b) == entries_map(a + b0).insert(x.0@, x.1));
        assert(b[b.len() - 1] == x);
        assert(x.1 == v);
        assert forall|k: Seq<char>| has_key(b, k) implies #[trigger] entries_map(a + b)[k] == v by {
            if x.0@ != k {
                let i = choose|i: int| 0 <= i < b.len() && #[trigger] b[i].0@ == k;
                if i == b.len() - 1 {
                    assert(false);
                }
                assert(b0[i] == b[i]);
                assert(has_key(b0, k));
            }
        }
    }
}

impl StatusTreeWalk {
    /// The ids of the workflows waiting to be expanded.
    pub closed spec fn waiting(&self) -> Set<Seq<char>> {
        views_of(self.open@).to_set()
    }

    /// How many workflows were expanded.
    pub closed spec fn expanded(&self) -> nat {
        self.popcount as nat
    }

    /// The tree gathered so far.
    pub closed spec fn tree(&self) -> TemporalioWorkflowStatusTree {
        self.tree
    }

    /// The ids of the workflows taken to be expanded.
    pub closed spec fn done(&self) -> Set<Seq<char>> {
        self.done@
    }

    /// Whether the walk has seen a tree so far: every recorded child was a
    /// new workflow, and no workflow had its children recorded twice.
    pub closed spec fn saw_tree(&self) -> bool {
        self.fresh@
    }

    /// The walk's consistency: the waiting ids are kept in increasing
    /// order, no more workflows were taken than the limit, the tree has
    /// its shape, every waiting or taken workflow is a node of it, and
    /// only taken workflows have their children recorded.
    pub closed spec fn wf(&self) -> bool {
        &&& strictly_increasing(views_of(self.open@))
        &&& self.popcount <= TREE_NODE_LIMIT
        &&& self.done@.finite()
        &&& self.done@.len() <= self.popcount
        &&& tree_consistent(self.tree)
        &&& forall|q: Seq<char>| #[trigger] views_of(self.open@).contains(q) ==> entries_map(self.tree.nodes@).dom().contains(q)
        &&& forall|q: Seq<char>| #[trigger] self.done@.contains(q) ==> entries_map(self.tree.nodes@).dom().contains(q)
        &&& forall|q: Seq<char>| #[trigger] entries_map(self.tree.children@).dom().contains(q) ==> self.done@.contains(q)
        &&& self.fresh@ ==> tree_exact(self.tree)
    }

    /// Starts a walk at a workflow with its status: the tree holds it alone,
    /// counted once under its status, and it waits to be expanded.
    pub fn new(root_workflow_id: String, root_status: UiWorkflowStatusCode) -> (r: Self)
        ensures
            r.wf(),
            r.saw_tree(),
            r.waiting() == set![root_workflow_id@],
            r.expanded() == 0,
            r.tree().root_workflow_id@ == root_workflow_id@,
            entries_map(r.tree().nodes@) == map![root_workflow_id@ => root_status],
            entries_map(r.tree().parent@) == Map::<Seq<char>, String>::empty(),
            entries_map(r.tree().children@) == Map::<Seq<char>, Vec<String>>::empty(),
            entries_map(r.tree().counts@).dom() == set![root_workflow_id@],
            status_map(r.tree().counts@[0].1@) == map![root_status => 1i64],
            r.tree().counts@.len() == 1,
            status_map(r.tree().total_counts@) == map![root_status => 1i64],
            r.tree().total_counts@ == seq![(root_status, 1i64)],
    {
        let mut open: Vec<String> = Vec::new();
        open.push(root_workflow_id.clone());
        let mut nodes: Vec<(String, UiWorkflowStatusCode)> = Vec::new();
        nodes.push((root_workflow_id.clone(), root_status));
        let mut count0: Vec<(UiWorkflowStatusCode, i64)> = Vec::new();
        count0.push((root_status, 1));
        let mut counts: Vec<(String, Vec<(UiWorkflowStatusCode, i64)>)> = Vec::new();
        let mut total_counts: Vec<(UiWorkflowStatusCode, i64)> = Vec::new();
        total_counts.push((root_status, 1));
        counts.push((root_workflow_id.clone(), count0));
        proof {
            assert(views_of(open@) =~= seq![root_workflow_id@]);
            assert(seq![root_workflow_id@].to_set() =~= set![root_workflow_id@]) by {
                assert(seq![root_workflow_id@] =~= Seq::<Seq<char>>::empty().push(root_workflow_id@));
                crate::strord::lemma_push_to_set(Seq::<Seq<char>>::empty(), root_workflow_id@);
            }
            assert(nodes@.drop_last() =~= Seq::<(String, UiWorkflowStatusCode)>::empty());
            assert(counts@.drop_last() =~= Seq::<(String, Vec<(UiWorkflowStatusCode, i64)>)>::empty());
            assert(total_counts@.drop_last() =~= Seq::<(UiWorkflowStatusCode, i64)>::empty());
            assert(nodes@.last().0@ == root_workflow_id@);
            assert(counts@.last().0@ == root_workflow_id@);
            assert(entries_map(Seq::<(String, UiWorkflowStatusCode)>::empty()) == Map::<Seq<char>, UiWorkflowStatusCode>::empty());
            assert(entries_map(Seq::<(String, Vec<(UiWorkflowStatusCode, i64)>)>::empty()) == Map::<Seq<char>, Vec<(UiWorkflowStatusCode, i64)>>::empty());
            assert(entries_map(nodes@) =~= map![root_workflow_id@ => root_status]);
            assert(entries_map(counts@).dom() =~= set![root_workflow_id@]);
            assert(status_map(Seq::<(UiWorkflowStatusCode, i64)>::empty()) == Map::<UiWorkflowStatusCode, i64>::empty());
            assert(status_map(total_counts@) =~= map![root_status => 1i64]);
            assert(counts@[0].1@ == total_counts@);
            assert(views_of(open@).contains(root_workflow_id@) ==> entries_map(nodes@).dom().contains(root_workflow_id@));
            assert(Set::<Seq<char>>::empty().len() == 0);
            assert forall|q: Seq<char>| #[trigger] views_of(open@).contains(q) implies entries_map(nodes@).dom().contains(q) by {
                let i = choose|i: int| 0 <= i < views_of(open@).len() && views_of(open@)[i] == q;
                assert(views_of(open@)[0] == root_workflow_id@);
            }
        }
        StatusTreeWalk {
            fresh: Ghost(true),
            done: Ghost(Set::empty()),
            open,
            popcount: 0,
            tree: TemporalioWorkflowStatusTree {
                root_workflow_id,
                nodes,
                parent: Vec::new(),
                children: Vec::new(),
                counts,
                total_counts,
            },
        }
    }

    /// Takes the next workflow to expand: the waiting one of smallest id,
    /// while fewer than [`TREE_NODE_LIMIT`] were expanded.
    pub fn next_parent(&mut self) -> (r: Option<String>)
        requires
            old(self).wf(),
        ensures
            final(self).wf(),
            final(self).tree() == old(self).tree(),
            final(self).saw_tree() == old(self).saw_tree(),
            if old(self).expanded() < TREE_NODE_LIMIT && old(self).waiting().len() > 0 {
                &&& r matches Some(p) && {
                    &&& old(self).waiting().contains(p@)
                    &&& forall|q: Seq<char>| #[trigger] old(self).waiting().contains(q) && q != p@ ==> lex_lt(p@, q)
                    &&& final(self).waiting() == old(self).waiting().remove(p@)
                    &&& final(self).done() == old(self).done().insert(p@)
                }
                &&& final(self).expanded() == old(self).expanded() + 1
            } else {
                &&& r is None
                &&& final(self).waiting() == old(self).waiting()
                &&& final(self).expanded() == old(self).expanded()
                &&& final(self).done() == old(self).done()
            },
    {
        let ghost vs = views_of(self.open@);
        proof {
            assert(vs.no_duplicates()) by {
                assert forall|i: int, j: int| 0 <= i < vs.len() && 0 <= j < vs.len() && i != j implies vs[i] != vs[j] by {
                    if i < j {
                        assert(lex_lt(vs[i], vs[j]));
                    } else {
                        assert(lex_lt(vs[j], vs[i]));
                    }
                    crate::strord::lemma_lex_irreflexive(vs[i]);
                }
            }
            vs.unique_seq_to_set();
        }
        if self.popcount < TREE_NODE_LIMIT && self.open.len() > 0 {
            let first = self.open.remove(0);
            self.popcount = self.popcount + 1;
            proof {
                let p = vs[0];
                assert(p == first@);
                assert(vs.contains(p));
                self.done@ = self.done@.insert(p);
                assert(views_of(self.open@) =~= vs.drop_first());
                assert forall|q: Seq<char>| #[trigger] views_of(self.open@).contains(q) implies vs.contains(q) by {
                    let j = choose|j: int| 0 <= j < vs.drop_first().len() && vs.drop_first()[j] == q;
                    assert(vs[j + 1] == q);
                }
                assert forall|q: Seq<char>| #[trigger] vs.to_set().contains(q) && q != p implies lex_lt(p, q) by {
                    let j = choose|j: int| 0 <= j < vs.len() && vs[j] == q;
                    assert(j != 0);
                }
                assert(vs.drop_first().to_set() =~= vs.to_set().remove(p)) by {
                    assert forall|q: Seq<char>| #[trigger] vs.drop_first().to_set().contains(q) <==> vs.to_set().remove(p).contains(q) by {
                        if vs.drop_first().contains(q) {
                            let j = choose|j: int| 0 <= j < vs.drop_first().len() && vs.drop_first()[j] == q;
                            assert(vs[j + 1] == q);
                            assert(lex_lt(vs[0], vs[j + 1]));
                            crate::strord::lemma_lex_irreflexive(q);
                        }
                        if vs.to_set().remove(p).contains(q) {
                            let j = choose|j: int| 0 <= j < vs.len() && vs[j] == q;
                            assert(j != 0);
                            assert(vs.drop_first()[j - 1] == q);
                        }
                    }
                }
            }
            Some(first)
        } else {
            proof {
                if self.open@.len() == 0 {
                    assert(vs =~= Seq::<Seq<char>>::empty());
                }
            }
            None
        }
    }
}

/// A walk never expands more than [`TREE_NODE_LIMIT`] workflows.
pub proof fn lemma_walk_expands_at_most_limit(walk: StatusTreeWalk)
    requires
        walk.wf(),
    ensures
        walk.expanded() <= TREE_NODE_LIMIT,
{
}

/// The tree of a walk always has its shape, and children are recorded for
/// at most [`TREE_NODE_LIMIT`] workflows.
pub proof fn lemma_walk_tree_shape(walk: &StatusTreeWalk)
    requires
        walk.wf(),
    ensures
        tree_consistent(walk.tree()),
        entries_map(walk.tree().children@).dom().finite(),
        entries_map(walk.tree().children@).dom().len() <= TREE_NODE_LIMIT,
{
    let d = entries_map(walk.tree.children@).dom();
    assert(d.subset_of(walk.done@));
    vstd::set_lib::lemma_len_subset(d, walk.done@);
}

/// The count of a status in a list of counts: its last entry, or 0.
pub fn count_get(totals: &Vec<(UiWorkflowStatusCode, i64)>, s: UiWorkflowStatusCode) -> (r: i64)
    ensures
        r == count_of(totals@, s),
{
    let mut i: usize = totals.len();
    proof {
        assert(totals@.take(i as int) =~= totals@);
    }
    while i > 0
        invariant
            i <= totals@.len(),
            count_of(totals@, s) == count_of(totals@.take(i as int), s),
        decreases i,
    {
        proof {
            assert(totals@.take(i as int).drop_last() =~= totals@.take(i - 1));
            assert(totals@.take(i as int).last() == totals@[i - 1]);
        }
        if same_status(totals[i - 1].0, s) {
            return totals[i - 1].1;
        }
        i = i - 1;
    }
    0
}

/// The status a group name counts under: the status it parses to, or
/// `Unspecified`.
pub fn status_of_group(name: &str) -> (r: UiWorkflowStatusCode)
    ensures
        r == group_status(name@),
{
    match UiWorkflowStatusCode::from_name(name) {
        Ok(c) => c,
        Err(_) => UiWorkflowStatusCode::Unspecified,
    }
}

proof fn lemma_counts_after_step(
    totals: Seq<(UiWorkflowStatusCode, i64)>,
    adds: Seq<(UiWorkflowStatusCode, i64)>,
    k: int,
)
    requires
        0 <= k < adds.len(),
    ensures
        counts_after(totals, adds.take(k + 1)) == counts_after(totals, adds.take(k)).push(
            (adds[k].0, (count_of(counts_after(totals, adds.take(k)), adds[k].0) + adds[k].1) as i64),
        ),
{
    assert(adds.take(k + 1).drop_last() =~= adds.take(k));
    assert(adds.take(k + 1).last() == adds[k]);
}

proof fn lemma_record_shape(
    t0: TemporalioWorkflowStatusTree,
    t1: TemporalioWorkflowStatusTree,
    kids: Seq<(String, UiWorkflowStatusCode)>,
    pid: String,
    done: Set<Seq<char>>,
    open0: Set<Seq<char>>,
    open1: Set<Seq<char>>,
)
    requires
        tree_consistent(t0),
        forall|q: Seq<char>| #[trigger] open0.contains(q) ==> entries_map(t0.nodes@).dom().contains(q),
        forall|q: Seq<char>| #[trigger] done.contains(q) ==> entries_map(t0.nodes@).dom().contains(q),
        forall|q: Seq<char>| #[trigger] entries_map(t0.children@).dom().contains(q) ==> done.contains(q),
        done.contains(pid@),
        t1.root_workflow_id == t0.root_workflow_id,
        t1.nodes@ == t0.nodes@ + kids,
        t1.parent@ == t0.parent@ + kids.map_values(|c: (String, UiWorkflowStatusCode)| (c.0, pid)),
        t1.children@.drop_last() == t0.children@,
        t1.children@.len() == t0.children@.len() + 1,
        t1.children@.last().0 == pid,
        t1.children@.last().1@ == kids.map_values(|c: (String, UiWorkflowStatusCode)| c.0),
        open1 == open0.union(child_ids(kids).to_set()),
    ensures
        tree_consistent(t1),
        forall|q: Seq<char>| #[trigger] open1.contains(q) ==> entries_map(t1.nodes@).dom().contains(q),
        forall|q: Seq<char>| #[trigger] done.contains(q) ==> entries_map(t1.nodes@).dom().contains(q),
        forall|q: Seq<char>| #[trigger] entries_map(t1.children@).dom().contains(q) ==> done.contains(q),
{
    let pk = kids.map_values(|c: (String, UiWorkflowStatusCode)| (c.0, pid));
    let n0 = entries_map(t0.nodes@);
    let n1 = entries_map(t1.nodes@);
    let p0 = entries_map(t0.parent@);
    let p1 = entries_map(t1.parent@);
    let c0 = entries_map(t0.children@);
    let c1 = entries_map(t1.children@);
    lemma_entries_map_append(t0.nodes@, kids);
    lemma_entries_map_append(t0.parent@, pk);
    lemma_entries_map_append_same(t0.parent@, pk, pid);
    assert(t1.children@ =~= t0.children@.push(t1.children@.last()));
    assert(c1 == c0.insert(pid@, t1.children@.last().1));
    assert forall|k: Seq<char>| has_key(pk, k) <==> has_key(kids, k) by {
        if has_key(pk, k) {
            let i = choose|i: int| 0 <= i < pk.len() && #[trigger] pk[i].0@ == k;
            assert(kids[i].0@ == k);
        }
        if has_key(kids, k) {
            let i = choose|i: int| 0 <= i < kids.len() && #[trigger] kids[i].0@ == k;
            assert(pk[i].0@ == k);
        }
    }
    assert forall|k: Seq<char>| child_ids(kids).contains(k) <==> has_key(kids, k) by {
        if child_ids(kids).contains(k) {
            let i = choose|i: int| 0 <= i < child_ids(kids).len() && child_ids(kids)[i] == k;
            assert(kids[i].0@ == k);
        }
        if has_key(kids, k) {
            let i = choose|i: int| 0 <= i < kids.len() && #[trigger] kids[i].0@ == k;
            assert(child_ids(kids)[i] == k);
        }
    }
    assert(id_views(t1.children@.last().1@) =~= child_ids(kids));
    assert forall|i: int| 0 <= i < pk.len() implies #[trigger] pk[i].1 == pid by {}
    assert forall|c: Seq<char>| #[trigger] p1.dom().contains(c) implies {
        &&& n1.dom().contains(c)
        &&& n1.dom().contains(p1[c]@)
        &&& c1.dom().contains(p1[c]@)
    } by {
        if has_key(pk, c) {
            assert(p1[c] == pid);
        } else {
            assert(p0.dom().contains(c));
            assert(p1[c] == p0[c]);
        }
    }
    assert forall|p: Seq<char>| #[trigger] c1.dom().contains(p) implies {
        &&& n1.dom().contains(p)
        &&& forall|c: Seq<char>| #[trigger] id_views(c1[p]@).contains(c) ==> n1.dom().contains(c) && p1.dom().contains(c)
    } by {
        if p == pid@ {
            assert(c1[p] == t1.children@.last().1);
        } else {
            assert(c0.dom().contains(p));
            assert(c1[p] == c0[p]);
        }
    }
    assert forall|q: Seq<char>| #[trigger] open1.contains(q) implies n1.dom().contains(q) by {
        if open0.contains(q) {
        } else {
            assert(child_ids(kids).to_set().contains(q));
        }
    }
}

proof fn lemma_record_exact(
    t0: TemporalioWorkflowStatusTree,
    t1: TemporalioWorkflowStatusTree,
    kids: Seq<(String, UiWorkflowStatusCode)>,
    pid: String,
)
    requires
        tree_consistent(t0),
        tree_exact(t0),
        forall|i: int| 0 <= i < kids.len() ==> !entries_map(t0.nodes@).dom().contains(#[trigger] kids[i].0@),
        !entries_map(t0.children@).dom().contains(pid@),
        t1.root_workflow_id == t0.root_workflow_id,
        t1.parent@ == t0.parent@ + kids.map_values(|c: (String, UiWorkflowStatusCode)| (c.0, pid)),
        t1.children@.drop_last() == t0.children@,
        t1.children@.len() == t0.children@.len() + 1,
        t1.children@.last().0 == pid,
        t1.children@.last().1@ == kids.map_values(|c: (String, UiWorkflowStatusCode)| c.0),
    ensures
        tree_exact(t1),
{
    let pk = kids.map_values(|c: (String, UiWorkflowStatusCode)| (c.0, pid));
    let n0 = entries_map(t0.nodes@);
    let p0 = entries_map(t0.parent@);
    let p1 = entries_map(t1.parent@);
    let c0 = entries_map(t0.children@);
    let c1 = entries_map(t1.children@);
    lemma_entries_map_append(t0.parent@, pk);
    lemma_entries_map_append_same(t0.parent@, pk, pid);
    assert(t1.children@ =~= t0.children@.push(t1.children@.last()));
    assert(c1 == c0.insert(pid@, t1.children@.last().1));
    assert(id_views(t1.children@.last().1@) =~= child_ids(kids));
    assert forall|i: int| 0 <= i < pk.len() implies #[trigger] pk[i].1 == pid by {}
    assert forall|k: Seq<char>| has_key(pk, k) implies child_ids(kids).contains(k) && !n0.dom().contains(k) by {
        let i = choose|i: int| 0 <= i < pk.len() && #[trigger] pk[i].0@ == k;
        assert(kids[i].0@ == k);
        assert(child_ids(kids)[i] == k);
    }
    let root = t0.root_workflow_id@;
    assert(n0.dom().contains(root));
    assert(!has_key(pk, root));
    assert forall|c: Seq<char>| #[trigger] p1.dom().contains(c) implies id_views(c1[p1[c]@]@).contains(c) by {
        if has_key(pk, c) {
            assert(p1[c] == pid);
            assert(c1[pid@] == t1.children@.last().1);
        } else {
            assert(p0.dom().contains(c));
            assert(p1[c] == p0[c]);
            let p = p0[c]@;
            assert(c0.dom().contains(p));
            assert(p != pid@);
            assert(c1[p] == c0[p]);
        }
    }
}

impl StatusTreeWalk {
    /// How many workflows were expanded.
    pub fn expanded_count(&self) -> (r: usize)
        ensures
            r == self.expanded(),
    {
        self.popcount
    }

    /// Records the children of an expanded workflow, listed with their
    /// statuses, and the number of its children in each status, by status
    /// name: each child gets its status and parent and waits to be
    /// expanded; the workflow gets its list of children and its counts
    /// (a name that is no status counting as `Unspecified`); and the total
    /// counts grow by one for each child, then by each group's count.
    pub fn record_children(
        &mut self,
        parent_id: String,
        children: Vec<(String, UiWorkflowStatusCode)>,
        groups: Vec<(String, i64)>,
    )
        requires
            old(self).wf(),
            old(self).done().contains(parent_id@),
            counts_fit(old(self).tree().total_counts@, child_adds(children@, groups@)),
        ensures
            final(self).wf(),
            final(self).expanded() == old(self).expanded(),
            final(self).done() == old(self).done(),
            final(self).saw_tree() == (old(self).saw_tree()
                && (forall|i: int| 0 <= i < children@.len()
                    ==> !entries_map(old(self).tree().nodes@).dom().contains(#[trigger] children@[i].0@))
                && !entries_map(old(self).tree().children@).dom().contains(parent_id@)),
            final(self).waiting() == old(self).waiting().union(child_ids(children@).to_set()),
            final(self).tree().root_workflow_id == old(self).tree().root_workflow_id,
            final(self).tree().nodes@ == old(self).tree().nodes@ + children@,
            final(self).tree().parent@ == old(self).tree().parent@ + children@.map_values(
                |c: (String, UiWorkflowStatusCode)| (c.0, parent_id),
            ),
            final(self).tree().children@.len() == old(self).tree().children@.len() + 1,
            final(self).tree().children@.drop_last() == old(self).tree().children@,
            final(self).tree().children@.last().0 == parent_id,
            final(self).tree().children@.last().1@ == children@.map_values(|c: (String, UiWorkflowStatusCode)| c.0),
            final(self).tree().counts@.len() == old(self).tree().counts@.len() + 1,
            final(self).tree().counts@.drop_last() == old(self).tree().counts@,
            final(self).tree().counts@.last().0 == parent_id,
            final(self).tree().counts@.last().1@ == group_counts(groups@),
            final(self).tree().total_counts@ == counts_after(old(self).tree().total_counts@, child_adds(children@, groups@)),
    {
        let ghost t0 = self.tree.total_counts@;
        let ghost adds = child_adds(children@, groups@);
        let ghost old_open = views_of(self.open@).to_set();
        let ghost old_nodes = self.tree.nodes@;
        let ghost old_parent = self.tree.parent@;
        let ghost all_children = children@;
        let ghost all_groups = groups@;
        let ghost nc = children@.len();
        let mut ids: Vec<String> = Vec::new();
        proof {
            assert(adds.take(0) =~= Seq::<(UiWorkflowStatusCode, i64)>::empty());
        }
        for child in it: children.into_iter()
            invariant
                it.seq() == all_children,
                nc == all_children.len(),
                adds == child_adds(all_children, all_groups),
                counts_fit(t0, adds),
                strictly_increasing(views_of(self.open@)),
                views_of(self.open@).to_set() == old_open.union(child_ids(all_children.take(it.index() as int)).to_set()),
                self.tree.nodes@ == old_nodes + all_children.take(it.index() as int),
                self.tree.parent@ == old_parent + all_children.take(it.index() as int).map_values(
                    |c: (String, UiWorkflowStatusCode)| (c.0, parent_id),
                ),
                ids@ == all_children.take(it.index() as int).map_values(|c: (String, UiWorkflowStatusCode)| c.0),
                self.tree.total_counts@ == counts_after(t0, adds.take(it.index() as int)),
                self.tree.root_workflow_id == old(self).tree.root_workflow_id,
                self.tree.children == old(self).tree.children,
                self.tree.counts == old(self).tree.counts,
                self.popcount == old(self).popcount,
                self.done == old(self).done,
                self.fresh == old(self).fresh,
        {
            let ghost idx = it.index();
            let (child_id, child_status) = child;
            let ghost cid = child_id@;
            proof {
                assert(all_children.take(idx + 1) =~= all_children.take(idx as int).push((child_id, child_status)));
                assert(adds[idx as int] == (child_status, 1i64));
                lemma_counts_after_step(t0, adds, idx as int);
                assert(adds.take(idx as int).len() == idx);
                assert(i64::MIN <= count_of(counts_after(t0, adds.take(idx as int)), adds[idx as int].0) + adds[idx as int].1 <= i64::MAX);
            }
            self.tree.nodes.push((child_id.clone(), child_status));
            let ghost open_before = views_of(self.open@);
            insert_sorted(&mut self.open, child_id.clone());
            self.tree.parent.push((child_id.clone(), parent_id.clone()));
            let c = count_get(&self.tree.total_counts, child_status);
            self.tree.total_counts.push((child_status, c + 1));
            ids.push(child_id);
            proof {
                assert(child_ids(all_children.take(idx + 1)) =~= child_ids(all_children.take(idx as int)).push(cid));
                lemma_push_to_set(child_ids(all_children.take(idx as int)), cid);
                assert(views_of(self.open@).to_set() =~= old_open.union(child_ids(all_children.take(idx + 1)).to_set()));
            }
        }
        proof {
            assert(all_children.take(nc as int) =~= all_children);
        }
        self.tree.children.push((parent_id.clone(), ids));
        let ghost snap_open = self.open;
        let ghost snap_nodes = self.tree.nodes;
        let ghost snap_parent = self.tree.parent;
        let ghost snap_children = self.tree.children;
        let mut count_map: Vec<(UiWorkflowStatusCode, i64)> = Vec::new();
        for group in it: groups.into_iter()
            invariant
                it.seq() == all_groups,
                nc == all_children.len(),
                adds == child_adds(all_children, all_groups),
                counts_fit(t0, adds),
                count_map@ == group_counts(all_groups.take(it.index() as int)),
                self.tree.total_counts@ == counts_after(t0, adds.take(nc + it.index())),
                self.open == snap_open,
                self.tree.nodes == snap_nodes,
                self.tree.parent == snap_parent,
                self.tree.children == snap_children,
                self.tree.root_workflow_id == old(self).tree.root_workflow_id,
                self.tree.counts == old(self).tree.counts,
                self.popcount == old(self).popcount,
                self.done == old(self).done,
                self.fresh == old(self).fresh,
        {
            let ghost idx = it.index();
            let (name, count) = group;
            let st = status_of_group(name.as_str());
            proof {
                assert(all_groups.take(idx + 1) =~= all_groups.take(idx as int).push((name, count)));
                assert(adds[nc + idx] == (st, count));
                lemma_counts_after_step(t0, adds, nc + idx);
                assert(i64::MIN <= count_of(counts_after(t0, adds.take(nc + idx)), adds[nc + idx].0) + adds[nc + idx].1 <= i64::MAX);
            }
            count_map.push((st, count));
            let c = count_get(&self.tree.total_counts, st);
            self.tree.total_counts.push((st, c + count));
        }
        proof {
            assert(all_groups.take(all_groups.len() as int) =~= all_groups);
            assert(adds.take((nc + all_groups.len()) as int) =~= adds);
        }
        let ghost pid = parent_id;
        self.tree.counts.push((parent_id, count_map));
        proof {
            assert(self.tree.children@.drop_last() =~= old(self).tree.children@);
            lemma_record_shape(old(self).tree, self.tree, all_children, pid, self.done@, old_open, views_of(self.open@).to_set());
            assert forall|q: Seq<char>| #[trigger] views_of(self.open@).contains(q) implies entries_map(self.tree.nodes@).dom().contains(q) by {
                assert(views_of(self.open@).to_set().contains(q));
            }
        }
        let ghost new_fresh = old(self).fresh@
            && (forall|i: int| 0 <= i < all_children.len()
                ==> !entries_map(old(self).tree.nodes@).dom().contains(#[trigger] all_children[i].0@))
            && !entries_map(old(self).tree.children@).dom().contains(pid@);
        proof {
            if new_fresh {
                lemma_record_exact(old(self).tree, self.tree, all_children, pid);
            }
        }
        self.fresh = Ghost(new_fresh);
    }

    /// Ends the walk with the tree gathered.
    pub fn finish(self) -> (r: TemporalioWorkflowStatusTree)
        requires
            self.wf(),
        ensures
            r == self.tree(),
            tree_consistent(r),
            self.saw_tree() ==> tree_exact(r),
            entries_map(r.children@).dom().finite(),
            entries_map(r.children@).dom().len() <= TREE_NODE_LIMIT,
    {
        proof {
            lemma_walk_tree_shape(&self);
        }
        self.tree
    }
}

} // verus!
