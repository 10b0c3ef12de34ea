//! The order of `String`: lexicographic by character (which is also the
//! order of the UTF-8 bytes).

use vstd::prelude::*;

verus! {

/// `a` comes strictly before `b` in lexicographic order of characters.
pub open spec fn lex_lt(a: Seq<char>, b: Seq<char>) -> bool
    decreases a.len(),
{
    if a.len() == 0 {
        b.len() > 0
    } else if b.len() == 0 {
        false
    } else if a[0] != b[0] {
        a[0] < b[0]
    } else {
        lex_lt(a.drop_first(), b.drop_first())
    }
}

/// No string comes before itself.
pub proof fn lemma_lex_irreflexive(a: Seq<char>)
    ensures
        !lex_lt(a, a),
    decreases a.len(),
{
    if a.len() > 0 {
        lemma_lex_irreflexive(a.drop_first());
    }
}

/// Of two different strings, one comes before the other, and not both.
pub proof fn lemma_lex_total(a: Seq<char>, b: Seq<char>)
    ensures
        a != b ==> (lex_lt(a, b) || lex_lt(b, a)),
        !(lex_lt(a, b) && lex_lt(b, a)),
    decreases a.len(),
{
    if a.len() > 0 && b.len() > 0 && a[0] == b[0] {
        lemma_lex_total(a.drop_first(), b.drop_first());
        if a.drop_first() == b.drop_first() {
            assert(a =~= seq![a[0]] + a.drop_first());
            assert(b =~= seq![b[0]] + b.drop_first());
        }
    }
    if a.len() == 0 && b.len() == 0 {
        assert(a =~= b);
    }
}

/// The order is transitive.
pub proof fn lemma_lex_transitive(a: Seq<char>, b: Seq<char>, c: Seq<char>)
    requires
        lex_lt(a, b),
        lex_lt(b, c),
    ensures
        lex_lt(a, c),
    decreases a.len(),
{
    if a.len() > 0 && b.len() > 0 && c.len() > 0 && a[0] == b[0] && b[0] == c[0] {
        lemma_lex_transitive(a.drop_first(), b.drop_first(), c.drop_first());
    }
}

/// Compares two strings: `-1`, `0` or `1` as `a` comes before, equals or
/// comes after `b`.
pub fn str_compare(a: &str, b: &str) -> (r: i8)
    ensures
        r == -1 <==> lex_lt(a@, b@),
        r == 0 <==> a@ == b@,
        r == 1 <==> lex_lt(b@, a@),
        r == -1 || r == 0 || r == 1,
{
    proof {
        lemma_lex_total(a@, b@);
        lemma_lex_irreflexive(a@);
    }
    let la = a.unicode_len();
    let lb = b.unicode_len();
    let mut i: usize = 0;
    proof {
        assert(a@.skip(0) =~= a@);
        assert(b@.skip(0) =~= b@);
    }
    while i < la && i < lb
        invariant
            la == a@.len(),
            lb == b@.len(),
            i <= la,
            i <= lb,
            a@.subrange(0, i as int) == b@.subrange(0, i as int),
            lex_lt(a@, b@) == lex_lt(a@.skip(i as int), b@.skip(i as int)),
            lex_lt(b@, a@) == lex_lt(b@.skip(i as int), a@.skip(i as int)),
        decreases la - i,
    {
        let ca = a.get_char(i);
        let cb = b.get_char(i);
        if ca < cb {
            return -1;
        }
        if cb < ca {
            return 1;
        }
        proof {
            assert(a@.skip(i as int).drop_first() =~= a@.skip(i + 1));
            assert(b@.skip(i as int).drop_first() =~= b@.skip(i + 1));
            assert(a@.subrange(0, i + 1) =~= a@.subrange(0, i as int).push(ca));
            assert(b@.subrange(0, i + 1) =~= b@.subrange(0, i as int).push(cb));
        }
        i = i + 1;
    }
    if la == lb {
        proof {
            assert(a@ =~= a@.subrange(0, i as int));
            assert(b@ =~= b@.subrange(0, i as int));
        }
        0
    } else if i == la {
        -1
    } else {
        1
    }
}

/// A strictly increasing sequence of strings.
pub open spec fn strictly_increasing(s: Seq<Seq<char>>) -> bool {
    forall|i: int, j: int| 0 <= i < j < s.len() ==> lex_lt(s[i], s[j])
}

/// The characters of each string.
pub open spec fn views_of(v: Seq<String>) -> Seq<Seq<char>> {
    v.map_values(|s: String| s@)
}

/// Appending an element adds it to the set of elements.
pub proof fn lemma_push_to_set<A>(s: Seq<A>, x: A)
    ensures
        s.push(x).to_set() == s.to_set().insert(x),
{
    assert forall|y: A| #[trigger] s.push(x).contains(y) <==> (s.contains(y) || y == x) by {
        if s.push(x).contains(y) {
            let k = choose|k: int| 0 <= k < s.push(x).len() && s.push(x)[k] == y;
            if k < s.len() {
                assert(s[k] == y);
            }
        }
        if s.contains(y) {
            let k = choose|k: int| 0 <= k < s.len() && s[k] == y;
            assert(s.push(x)[k] == y);
        }
        if y == x {
            assert(s.push(x)[s.len() as int] == y);
        }
    }
    assert(s.push(x).to_set() =~= s.to_set().insert(x));
}

/// Where `s` belongs in the strictly increasing `r`: every string before
/// the position comes before `s`, and the string at the position (if any)
/// equals `s` when `found` and comes after it otherwise.
pub(crate) fn find_insert_position(r: &Vec<String>, s: &str) -> (res: (usize, bool))
    ensures
        res.0 <= r@.len(),
        forall|j: int| 0 <= j < res.0 ==> lex_lt(#[trigger] r@[j]@, s@),
        res.1 ==> res.0 < r@.len() && r@[res.0 as int]@ == s@,
        !res.1 ==> res.0 == r@.len() || lex_lt(s@, r@[res.0 as int]@),
{
    let n = r.len();
    let mut pos: usize = 0;
    while pos < n
        invariant
            n == r@.len(),
            pos <= n,
            forall|j: int| 0 <= j < pos ==> lex_lt(#[trigger] r@[j]@, s@),
        decreases n - pos,
    {
        let c = str_compare(r[pos].as_str(), s);
        if c == 0 {
            return (pos, true);
        }
        if c == 1 {
            return (pos, false);
        }
        pos = pos + 1;
    }
    (pos, false)
}

/// Adds a string to a strictly increasing list unless it is there: the
/// list stays strictly increasing and holds the string.
pub fn insert_sorted(r: &mut Vec<String>, s: String)
    requires
        strictly_increasing(views_of(old(r)@)),
    ensures
        strictly_increasing(views_of(final(r)@)),
        views_of(final(r)@).to_set() == views_of(old(r)@).to_set().insert(s@),
{
    let ghost before = views_of(r@);
    let n = r.len();
    let (pos, found) = find_insert_position(r, s.as_str());
    if !found {
        let ghost sv = s@;
        r.insert(pos, s);
        proof {
            let after = views_of(r@);
            assert(after =~= before.insert(pos as int, sv));
            assert forall|i: int, j: int| 0 <= i < j < after.len() implies lex_lt(after[i], after[j]) by {
                if pos < n {
                    if j == pos as int {
                        assert(lex_lt(before[i], sv));
                    } else if i == pos as int {
                        assert(lex_lt(sv, before[pos as int]));
                        if j - 1 > pos as int {
                            lemma_lex_transitive(sv, before[pos as int], before[j - 1]);
                        }
                    }
                }
            }
            assert forall|y: Seq<char>| #[trigger] after.contains(y) <==> (before.contains(y) || y == sv) by {
                if after.contains(y) {
                    let k = choose|k: int| 0 <= k < after.len() && after[k] == y;
                    if k < pos as int {
                        assert(before[k] == y);
                    } else if k > pos as int {
                        assert(before[k - 1] == y);
                    }
                }
                if before.contains(y) {
                    let k = choose|k: int| 0 <= k < before.len() && before[k] == y;
                    if k < pos as int {
                        assert(after[k] == y);
                    } else {
                        assert(after[k + 1] == y);
                    }
                }
                if y == sv {
                    assert(after[pos as int] == y);
                }
            }
            assert(after.to_set() =~= before.to_set().insert(sv));
        }
    } else {
        proof {
            assert(before.to_set() =~= before.to_set().insert(s@)) by {
                assert(before[pos as int] == s@);
                assert(before.contains(s@));
            }
        }
    }
}

/// Sorts strings and removes duplicates: the result holds each string of
/// the input once, in increasing order.
pub fn sort_dedup(items: Vec<String>) -> (r: Vec<String>)
    ensures
        strictly_increasing(views_of(r@)),
        views_of(r@).to_set() == views_of(items@).to_set(),
{
    let ghost all = views_of(items@);
    let mut r: Vec<String> = Vec::new();
    for s in it: items.into_iter()
        invariant
            it.seq() == items@,
            all == views_of(items@),
            strictly_increasing(views_of(r@)),
            views_of(r@).to_set() == all.take(it.index() as int).to_set(),
    {
        let ghost idx = it.index();
        proof {
            assert(all.take(idx + 1) =~= all.take(idx as int).push(s@));
            lemma_push_to_set(all.take(idx as int), s@);
        }
        insert_sorted(&mut r, s);
    }
    proof {
        assert(all.take(all.len() as int) =~= all);
    }
    r
}

} // verus!
