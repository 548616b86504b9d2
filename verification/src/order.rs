//! Sorting by insertion, as `slice::sort_by` (stable) and `BTreeSet` do it,
//! stated as recursive definitions with the facts that the code and the laws
//! need.
use vstd::prelude::*;
use vstd::multiset::Multiset;
use vstd::seq_lib::lemma_multiset_commutative;

verus! {

/// `x` placed into `s` before the first element that it precedes under
/// `lt`, that is, after every element it does not precede.
pub open spec fn insert_sorted<A>(s: Seq<A>, x: A, lt: spec_fn(A, A) -> bool) -> Seq<A>
    decreases s.len(),
{
    if s.len() == 0 {
        seq![x]
    } else if lt(x, s[0]) {
        seq![x] + s
    } else {
        seq![s[0]] + insert_sorted(s.drop_first(), x, lt)
    }
}

/// The stable sort of `s` under `lt`: each element in turn inserted after
/// those that it does not precede.
pub open spec fn insertion_sort<A>(s: Seq<A>, lt: spec_fn(A, A) -> bool) -> Seq<A>
    decreases s.len(),
{
    if s.len() == 0 {
        s
    } else {
        insert_sorted(insertion_sort(s.drop_last(), lt), s.last(), lt)
    }
}

/// Inserting before the first element that `x` precedes is inserting at
/// that position.
pub proof fn lemma_insert_sorted_at<A>(s: Seq<A>, x: A, lt: spec_fn(A, A) -> bool, p: int)
    requires
        0 <= p <= s.len(),
        forall|j: int| 0 <= j < p ==> !lt(x, #[trigger] s[j]),
        p < s.len() ==> lt(x, s[p]),
    ensures
        insert_sorted(s, x, lt) == s.take(p) + seq![x] + s.skip(p),
    decreases p,
{
    if p == 0 {
        assert(s.take(0) + seq![x] + s.skip(0) =~= seq![x] + s);
    } else {
        let t = s.drop_first();
        assert forall|j: int| 0 <= j < p - 1 implies !lt(x, #[trigger] t[j]) by {
            assert(t[j] == s[j + 1]);
        }
        lemma_insert_sorted_at(t, x, lt, p - 1);
        assert(seq![s[0]] + (t.take(p - 1) + seq![x] + t.skip(p - 1)) =~= s.take(p) + seq![x]
            + s.skip(p));
    }
}

/// `x` added to the sorted, repetition-free `s` unless already there
/// (`BTreeSet::insert`).
pub open spec fn insert_unique<A>(s: Seq<A>, x: A, lt: spec_fn(A, A) -> bool) -> Seq<A>
    decreases s.len(),
{
    if s.len() == 0 {
        seq![x]
    } else if x == s[0] {
        s
    } else if lt(x, s[0]) {
        seq![x] + s
    } else {
        seq![s[0]] + insert_unique(s.drop_first(), x, lt)
    }
}

/// The elements of `s` in ascending order without repetition, as a
/// `BTreeSet` built from `s` yields them.
pub open spec fn sorted_set<A>(s: Seq<A>, lt: spec_fn(A, A) -> bool) -> Seq<A>
    decreases s.len(),
{
    if s.len() == 0 {
        s
    } else {
        insert_unique(sorted_set(s.drop_last(), lt), s.last(), lt)
    }
}

/// Inserting a new element at the first position whose element it precedes.
pub proof fn lemma_insert_unique_at<A>(s: Seq<A>, x: A, lt: spec_fn(A, A) -> bool, p: int)
    requires
        0 <= p <= s.len(),
        forall|j: int| 0 <= j < p ==> x != #[trigger] s[j] && !lt(x, s[j]),
        p < s.len() ==> x != s[p] && lt(x, s[p]),
    ensures
        insert_unique(s, x, lt) == s.take(p) + seq![x] + s.skip(p),
    decreases p,
{
    if p == 0 {
        assert(s.take(0) + seq![x] + s.skip(0) =~= seq![x] + s);
    } else {
        let t = s.drop_first();
        assert forall|j: int| 0 <= j < p - 1 implies x != #[trigger] t[j] && !lt(x, t[j]) by {
            assert(t[j] == s[j + 1]);
        }
        lemma_insert_unique_at(t, x, lt, p - 1);
        assert(seq![s[0]] + (t.take(p - 1) + seq![x] + t.skip(p - 1)) =~= s.take(p) + seq![x]
            + s.skip(p));
    }
}

/// Inserting an element already present at the first position it does not
/// follow leaves the sequence unchanged.
pub proof fn lemma_insert_unique_present<A>(s: Seq<A>, x: A, lt: spec_fn(A, A) -> bool, p: int)
    requires
        0 <= p < s.len(),
        forall|j: int| 0 <= j < p ==> x != #[trigger] s[j] && !lt(x, s[j]),
        x == s[p],
    ensures
        insert_unique(s, x, lt) == s,
    decreases p,
{
    if p > 0 {
        let t = s.drop_first();
        assert forall|j: int| 0 <= j < p - 1 implies x != #[trigger] t[j] && !lt(x, t[j]) by {
            assert(t[j] == s[j + 1]);
        }
        lemma_insert_unique_present(t, x, lt, p - 1);
        assert(seq![s[0]] + t =~= s);
    }
}

/// `s` without elements equal to their predecessor (`Vec::dedup`).
pub open spec fn dedup_adjacent<A>(s: Seq<A>) -> Seq<A>
    decreases s.len(),
{
    if s.len() <= 1 {
        s
    } else {
        let d = dedup_adjacent(s.drop_last());
        if s.last() == s[s.len() - 2] {
            d
        } else {
            d.push(s.last())
        }
    }
}

/// `lt` is a strict weak order: asymmetric, and "not before" is transitive.
pub open spec fn strict_weak_order<A>(lt: spec_fn(A, A) -> bool) -> bool {
    &&& forall|a: A, b: A| #[trigger] lt(a, b) ==> !lt(b, a)
    &&& forall|a: A, b: A, c: A|
        #![trigger lt(a, b), lt(b, c)]
        #![trigger lt(a, c), lt(a, b)]
        #![trigger lt(a, c), lt(b, c)]
        !lt(a, b) && !lt(b, c) ==> !lt(a, c)
}

/// No element of `s` comes before an earlier one under `lt`.
pub open spec fn sorted_by<A>(s: Seq<A>, lt: spec_fn(A, A) -> bool) -> bool {
    forall|i: int, j: int| 0 <= i < j < s.len() ==> !lt(#[trigger] s[j], #[trigger] s[i])
}

/// Each element of `s` comes strictly before every later one under `lt`.
pub open spec fn strictly_sorted_by<A>(s: Seq<A>, lt: spec_fn(A, A) -> bool) -> bool {
    forall|i: int, j: int| 0 <= i < j < s.len() ==> lt(#[trigger] s[i], #[trigger] s[j])
}

/// Inserting adds exactly the inserted element.
pub proof fn lemma_insert_sorted_multiset<A>(s: Seq<A>, x: A, lt: spec_fn(A, A) -> bool)
    ensures
        insert_sorted(s, x, lt).to_multiset() == s.to_multiset().insert(x),
    decreases s.len(),
{
    broadcast use vstd::multiset::group_multiset_axioms;
    broadcast use vstd::seq_lib::group_to_multiset_ensures;

    if s.len() == 0 {
        assert(seq![x] =~= Seq::<A>::empty().push(x));
        assert(s =~= Seq::<A>::empty());
    } else if lt(x, s[0]) {
        lemma_multiset_commutative(seq![x], s);
        assert(seq![x] =~= Seq::<A>::empty().push(x));
        assert(seq![x].to_multiset() =~= Multiset::<A>::empty().insert(x));
        assert(insert_sorted(s, x, lt).to_multiset() =~= s.to_multiset().insert(x));
    } else {
        let rest = s.drop_first();
        lemma_insert_sorted_multiset(rest, x, lt);
        lemma_multiset_commutative(seq![s[0]], insert_sorted(rest, x, lt));
        lemma_multiset_commutative(seq![s[0]], rest);
        assert(seq![s[0]] + rest =~= s);
        assert(seq![s[0]] =~= Seq::<A>::empty().push(s[0]));
        assert(insert_sorted(s, x, lt).to_multiset() =~= s.to_multiset().insert(x));
    }
}

/// Sorting keeps exactly the elements, each as often as before.
pub proof fn lemma_insertion_sort_multiset<A>(s: Seq<A>, lt: spec_fn(A, A) -> bool)
    ensures
        insertion_sort(s, lt).to_multiset() == s.to_multiset(),
    decreases s.len(),
{
    broadcast use vstd::seq_lib::group_to_multiset_ensures;

    if s.len() > 0 {
        lemma_insertion_sort_multiset(s.drop_last(), lt);
        lemma_insert_sorted_multiset(insertion_sort(s.drop_last(), lt), s.last(), lt);
        assert(s.drop_last().push(s.last()) =~= s);
    }
}

/// Inserting into a sorted sequence keeps it sorted.
pub proof fn lemma_insert_sorted_sorted<A>(s: Seq<A>, x: A, lt: spec_fn(A, A) -> bool)
    requires
        strict_weak_order(lt),
        sorted_by(s, lt),
    ensures
        sorted_by(insert_sorted(s, x, lt), lt),
    decreases s.len(),
{
    broadcast use vstd::seq_lib::group_to_multiset_ensures;

    let r = insert_sorted(s, x, lt);
    if s.len() == 0 {
    } else if lt(x, s[0]) {
        assert forall|i: int, j: int| 0 <= i < j < r.len() implies !lt(#[trigger] r[j], #[trigger] r[i]) by {
            if i == 0 {
                assert(r[j] == s[j - 1]);
                if j - 1 > 0 {
                    assert(!lt(s[j - 1], s[0]));
                }
                assert(!lt(s[0], x));
            } else {
                assert(r[j] == s[j - 1] && r[i] == s[i - 1]);
            }
        }
    } else {
        let rest = s.drop_first();
        assert(sorted_by(rest, lt)) by {
            assert forall|i: int, j: int| 0 <= i < j < rest.len() implies !lt(#[trigger] rest[j], #[trigger] rest[i]) by {
                assert(rest[j] == s[j + 1] && rest[i] == s[i + 1]);
            }
        }
        lemma_insert_sorted_sorted(rest, x, lt);
        let t = insert_sorted(rest, x, lt);
        lemma_insert_sorted_multiset(rest, x, lt);
        assert forall|i: int, j: int| 0 <= i < j < r.len() implies !lt(#[trigger] r[j], #[trigger] r[i]) by {
            if i == 0 {
                let e = t[j - 1];
                assert(r[j] == e);
                assert(t.to_multiset().count(e) > 0);
                if e != x {
                    assert(rest.to_multiset().count(e) > 0);
                    assert(rest.contains(e));
                    let k = choose|k: int| 0 <= k < rest.len() && rest[k] == e;
                    assert(s[k + 1] == e);
                }
            } else {
                assert(r[j] == t[j - 1] && r[i] == t[i - 1]);
            }
        }
    }
}

/// Insertion sort yields a sorted sequence.
pub proof fn lemma_insertion_sort_sorted<A>(s: Seq<A>, lt: spec_fn(A, A) -> bool)
    requires
        strict_weak_order(lt),
    ensures
        sorted_by(insertion_sort(s, lt), lt),
    decreases s.len(),
{
    if s.len() > 0 {
        lemma_insertion_sort_sorted(s.drop_last(), lt);
        lemma_insert_sorted_sorted(insertion_sort(s.drop_last(), lt), s.last(), lt);
    }
}

/// Dropping repeats leaves no element equal to its neighbour.
pub proof fn lemma_dedup_no_adjacent<A>(s: Seq<A>)
    ensures
        forall|i: int|
            0 <= i < dedup_adjacent(s).len() - 1 ==> #[trigger] dedup_adjacent(s)[i]
                != dedup_adjacent(s)[i + 1],
        dedup_adjacent(s).len() > 0 ==> s.len() > 0 && dedup_adjacent(s).last() == s.last(),
    decreases s.len(),
{
    if s.len() > 1 {
        lemma_dedup_no_adjacent(s.drop_last());
        let d = dedup_adjacent(s.drop_last());
        assert(s.drop_last().last() == s[s.len() - 2]);
        if s.last() != s[s.len() - 2] {
            assert forall|i: int|
                0 <= i < d.push(s.last()).len() - 1 implies #[trigger] d.push(s.last())[i]
                != d.push(s.last())[i + 1] by {
                if i == d.len() - 1 {
                } else {
                    assert(d.push(s.last())[i] == d[i]);
                    assert(d.push(s.last())[i + 1] == d[i + 1]);
                }
            }
        }
    }
}

/// Dropping repeats keeps every element that occurs.
pub proof fn lemma_dedup_contains<A>(s: Seq<A>, x: A)
    ensures
        dedup_adjacent(s).contains(x) <==> s.contains(x),
    decreases s.len(),
{
    if s.len() > 1 {
        let p = s.drop_last();
        lemma_dedup_contains(p, x);
        let d = dedup_adjacent(p);
        assert(s =~= p.push(s.last()));
        assert(s.contains(x) <==> p.contains(x) || x == s.last()) by {
            if s.contains(x) {
                let k = choose|k: int| 0 <= k < s.len() && s[k] == x;
                if k < s.len() - 1 {
                    assert(p[k] == x);
                }
            }
            if p.contains(x) {
                let k = choose|k: int| 0 <= k < p.len() && p[k] == x;
                assert(s[k] == x);
            }
            if x == s.last() {
                assert(s[s.len() - 1] == x);
            }
        }
        if s.last() == s[s.len() - 2] {
            assert(p[p.len() - 1] == s.last());
            assert(p.contains(s.last()));
        } else {
            assert(d.push(s.last()).contains(x) <==> d.contains(x) || x == s.last()) by {
                if d.push(s.last()).contains(x) {
                    let k = choose|k: int| 0 <= k < d.push(s.last()).len() && d.push(s.last())[k] == x;
                    if k < d.len() {
                        assert(d[k] == x);
                    }
                }
                if d.contains(x) {
                    let k = choose|k: int| 0 <= k < d.len() && d[k] == x;
                    assert(d.push(s.last())[k] == x);
                }
                if x == s.last() {
                    assert(d.push(s.last())[d.len() as int] == x);
                }
            }
        }
    }
}

/// `lt` is a strict total order: irreflexive, transitive, and total on
/// distinct elements.
pub open spec fn strict_total_order<A>(lt: spec_fn(A, A) -> bool) -> bool {
    &&& forall|a: A| !#[trigger] lt(a, a)
    &&& forall|a: A, b: A, c: A| #![trigger lt(a, b), lt(b, c)] lt(a, b) && lt(b, c) ==> lt(a, c)
    &&& forall|a: A, b: A| a != b ==> #[trigger] lt(a, b) || lt(b, a)
}

/// Adding an element to a strictly sorted sequence keeps it strictly sorted,
/// and it then holds exactly the old elements and the new one.
pub proof fn lemma_insert_unique_props<A>(s: Seq<A>, x: A, lt: spec_fn(A, A) -> bool)
    requires
        strict_total_order(lt),
        strictly_sorted_by(s, lt),
    ensures
        strictly_sorted_by(insert_unique(s, x, lt), lt),
        forall|y: A| #[trigger] insert_unique(s, x, lt).contains(y) <==> s.contains(y) || y == x,
    decreases s.len(),
{
    let r = insert_unique(s, x, lt);
    if s.len() == 0 {
        assert(r[0] == x);
    } else if x == s[0] {
    } else if lt(x, s[0]) {
        assert(r == seq![x] + s);
        assert forall|i: int, j: int| 0 <= i < j < r.len() implies lt(#[trigger] r[i], #[trigger] r[j]) by {
            if i == 0 {
                assert(r[j] == s[j - 1]);
                if j - 1 > 0 {
                    assert(lt(s[0], s[j - 1]));
                }
            } else {
                assert(r[j] == s[j - 1] && r[i] == s[i - 1]);
            }
        }
        assert forall|y: A| #[trigger] r.contains(y) <==> s.contains(y) || y == x by {
            if r.contains(y) {
                let k = choose|k: int| 0 <= k < r.len() && r[k] == y;
                if k > 0 {
                    assert(s[k - 1] == y);
                }
            }
            if s.contains(y) {
                let k = choose|k: int| 0 <= k < s.len() && s[k] == y;
                assert(r[k + 1] == y);
            }
            if y == x {
                assert(r[0] == x);
            }
        }
    } else {
        let rest = s.drop_first();
        assert(strictly_sorted_by(rest, lt)) by {
            assert forall|i: int, j: int| 0 <= i < j < rest.len() implies lt(#[trigger] rest[i], #[trigger] rest[j]) by {
                assert(rest[j] == s[j + 1] && rest[i] == s[i + 1]);
            }
        }
        lemma_insert_unique_props(rest, x, lt);
        let t = insert_unique(rest, x, lt);
        assert(lt(s[0], x));
        assert(r == seq![s[0]] + t);
        assert forall|i: int, j: int| 0 <= i < j < r.len() implies lt(#[trigger] r[i], #[trigger] r[j]) by {
            if i == 0 {
                let e = t[j - 1];
                assert(r[j] == e);
                assert(t.contains(e));
                if e != x {
                    assert(rest.contains(e));
                    let k = choose|k: int| 0 <= k < rest.len() && rest[k] == e;
                    assert(s[k + 1] == e);
                }
            } else {
                assert(r[j] == t[j - 1] && r[i] == t[i - 1]);
            }
        }
        assert forall|y: A| #[trigger] r.contains(y) <==> s.contains(y) || y == x by {
            if r.contains(y) {
                let k = choose|k: int| 0 <= k < r.len() && r[k] == y;
                if k == 0 {
                    assert(s[0] == y);
                }
                if k > 0 {
                    assert(t[k - 1] == y);
                    assert(t.contains(y));
                    if rest.contains(y) {
                        let m = choose|m: int| 0 <= m < rest.len() && rest[m] == y;
                        assert(s[m + 1] == y);
                    }
                }
            }
            if s.contains(y) {
                let k = choose|k: int| 0 <= k < s.len() && s[k] == y;
                if k == 0 {
                    assert(r[0] == y);
                }
                if k > 0 {
                    assert(rest[k - 1] == y);
                    assert(t.contains(y));
                    let m = choose|m: int| 0 <= m < t.len() && t[m] == y;
                    assert(r[m + 1] == y);
                }
            }
            if y == x {
                assert(t.contains(x));
                let m = choose|m: int| 0 <= m < t.len() && t[m] == x;
                assert(r[m + 1] == x);
            }
        }
    }
}

/// The set built from `s` is strictly ascending and holds exactly the
/// elements of `s`.
pub proof fn lemma_sorted_set_props<A>(s: Seq<A>, lt: spec_fn(A, A) -> bool)
    requires
        strict_total_order(lt),
    ensures
        strictly_sorted_by(sorted_set(s, lt), lt),
        forall|y: A| #[trigger] sorted_set(s, lt).contains(y) <==> s.contains(y),
    decreases s.len(),
{
    if s.len() > 0 {
        lemma_sorted_set_props(s.drop_last(), lt);
        lemma_insert_unique_props(sorted_set(s.drop_last(), lt), s.last(), lt);
        assert forall|y: A| #[trigger] sorted_set(s, lt).contains(y) <==> s.contains(y) by {
            if s.contains(y) && y != s.last() {
                let k = choose|k: int| 0 <= k < s.len() && s[k] == y;
                assert(s.drop_last()[k] == y);
            }
            if s.drop_last().contains(y) {
                let k = choose|k: int| 0 <= k < s.drop_last().len() && s.drop_last()[k] == y;
                assert(s[k] == y);
            }
        }
    }
}

/// Dropping repeats keeps a sorted sequence sorted.
pub proof fn lemma_dedup_sorted<A>(s: Seq<A>, lt: spec_fn(A, A) -> bool)
    requires
        sorted_by(s, lt),
    ensures
        sorted_by(dedup_adjacent(s), lt),
    decreases s.len(),
{
    if s.len() > 1 {
        let p = s.drop_last();
        assert(sorted_by(p, lt)) by {
            assert forall|i: int, j: int| 0 <= i < j < p.len() implies !lt(#[trigger] p[j], #[trigger] p[i]) by {
                assert(p[j] == s[j] && p[i] == s[i]);
            }
        }
        lemma_dedup_sorted(p, lt);
        let d = dedup_adjacent(p);
        if s.last() != s[s.len() - 2] {
            let r = d.push(s.last());
            assert forall|i: int, j: int| 0 <= i < j < r.len() implies !lt(#[trigger] r[j], #[trigger] r[i]) by {
                if j == d.len() {
                    assert(r[i] == d[i]);
                    assert(d.contains(d[i]));
                    lemma_dedup_contains(p, d[i]);
                    let k = choose|k: int| 0 <= k < p.len() && p[k] == d[i];
                    assert(s[k] == d[i]);
                    assert(s[s.len() - 1] == s.last());
                } else {
                    assert(r[i] == d[i] && r[j] == d[j]);
                }
            }
        }
    }
}

} // verus!
