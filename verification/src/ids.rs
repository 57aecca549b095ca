//! Sets and lists of qubit identifiers.
//!
//! The order of a graph's inputs and outputs, and the order in which the bits
//! of a correction are combined, is the ascending order of identifiers.  This
//! module says what the ascending arrangement of a list and of a set is, and
//! computes both with the sorting of the standard library.

use std::collections::HashSet;
use vstd::prelude::*;

verus! {

/// The order on identifiers by which signatures and reductions are laid out.
pub open spec fn id_leq() -> spec_fn(usize, usize) -> bool {
    |a: usize, b: usize| a <= b
}

/// Whether a list never descends.
pub open spec fn ascending(s: Seq<usize>) -> bool {
    forall|i: int, j: int| 0 <= i < j < s.len() ==> s[i] <= s[j]
}

/// Whether a list climbs at every step; such a list holds nothing twice.
pub open spec fn strictly_ascending(s: Seq<usize>) -> bool {
    forall|i: int, j: int| 0 <= i < j < s.len() ==> s[i] < s[j]
}

/// The list rearranged in ascending order, repetitions kept.
pub open spec fn in_order(s: Seq<usize>) -> Seq<usize> {
    s.sort_by(id_leq())
}

/// The members of a finite set in ascending order, each once.
pub open spec fn members_in_order(s: Set<usize>) -> Seq<usize> {
    s.to_sorted_seq(id_leq())
}

/// The list without the elements that repeat their predecessor.
pub open spec fn without_repeats(s: Seq<usize>) -> Seq<usize>
    decreases s.len(),
{
    if s.len() <= 1 {
        s
    } else if s[s.len() - 2] == s.last() {
        without_repeats(s.drop_last())
    } else {
        without_repeats(s.drop_last()).push(s.last())
    }
}

/// `id_leq` is a total order.
pub proof fn lemma_id_leq_total()
    ensures
        vstd::relations::total_ordering(id_leq()),
{
}

/// An ascending list is the ascending arrangement of every list with the
/// same elements in the same numbers.
pub proof fn lemma_in_order_unique(r: Seq<usize>, s: Seq<usize>)
    requires
        ascending(r),
        r.to_multiset() == s.to_multiset(),
    ensures
        r == in_order(s),
{
    lemma_id_leq_total();
    s.lemma_sort_by_ensures(id_leq());
    assert(vstd::relations::sorted_by(r, id_leq()));
    vstd::seq_lib::lemma_sorted_unique(r, in_order(s), id_leq());
}

/// The ascending arrangement is ascending and has the same elements.
pub proof fn lemma_in_order_ensures(s: Seq<usize>)
    ensures
        ascending(in_order(s)),
        in_order(s).to_multiset() == s.to_multiset(),
        in_order(s).len() == s.len(),
{
    lemma_id_leq_total();
    s.lemma_sort_by_ensures(id_leq());
    let r = in_order(s);
    assert(ascending(r)) by {
        assert forall|i: int, j: int| 0 <= i < j < r.len() implies r[i] <= r[j] by {
            assert(id_leq()(r[i], r[j]));
        }
    }
    vstd::seq_lib::to_multiset_len(r);
    vstd::seq_lib::to_multiset_len(s);
}

/// The arbitrary listing of a finite set holds nothing twice.
proof fn lemma_to_seq_no_duplicates(s: Set<usize>)
    requires
        s.finite(),
    ensures
        s.to_seq().no_duplicates(),
        s.to_seq().to_set() == s,
    decreases s.len(),
{
    s.lemma_to_seq_to_set_id();
    if s.len() != 0 {
        let x = s.choose();
        let rest = s.remove(x);
        lemma_to_seq_no_duplicates(rest);
        let tail = rest.to_seq();
        assert(s.to_seq() == Seq::<usize>::empty().push(x) + tail);
        assert forall|i: int, j: int|
            0 <= i < s.to_seq().len() && 0 <= j < s.to_seq().len() && i != j implies s.to_seq()[i]
            != s.to_seq()[j] by {
            if i == 0 {
                assert(tail.to_set().contains(tail[j - 1]));
            } else if j == 0 {
                assert(tail.to_set().contains(tail[i - 1]));
            } else {
                assert(tail[i - 1] != tail[j - 1]);
            }
        }
    }
}

/// Two lists without repetitions that hold the same elements hold them in
/// the same numbers.
proof fn lemma_same_members_same_multiset(a: Seq<usize>, b: Seq<usize>)
    requires
        a.no_duplicates(),
        b.no_duplicates(),
        a.to_set() == b.to_set(),
    ensures
        a.to_multiset() == b.to_multiset(),
{
    a.lemma_multiset_has_no_duplicates();
    b.lemma_multiset_has_no_duplicates();
    assert forall|x: usize| a.to_multiset().count(x) == b.to_multiset().count(x) by {
        vstd::seq_lib::to_multiset_contains(a, x);
        vstd::seq_lib::to_multiset_contains(b, x);
        assert(a.contains(x) <==> a.to_set().contains(x));
        assert(b.contains(x) <==> b.to_set().contains(x));
    }
    assert(a.to_multiset() =~= b.to_multiset());
}

/// Two lists that hold the same elements in the same numbers hold the same
/// set of elements.
proof fn lemma_same_multiset_same_members(a: Seq<usize>, b: Seq<usize>)
    requires
        a.to_multiset() == b.to_multiset(),
    ensures
        a.to_set() == b.to_set(),
        a.len() == b.len(),
{
    assert forall|x: usize| a.to_set().contains(x) <==> b.to_set().contains(x) by {
        vstd::seq_lib::to_multiset_contains(a, x);
        vstd::seq_lib::to_multiset_contains(b, x);
        assert(a.contains(x) <==> a.to_set().contains(x));
        assert(b.contains(x) <==> b.to_set().contains(x));
    }
    assert(a.to_set() =~= b.to_set());
    vstd::seq_lib::to_multiset_len(a);
    vstd::seq_lib::to_multiset_len(b);
}

/// An ascending list without repetitions is strictly ascending.
proof fn lemma_ascending_distinct(r: Seq<usize>)
    requires
        ascending(r),
        r.no_duplicates(),
    ensures
        strictly_ascending(r),
{
    assert forall|i: int, j: int| 0 <= i < j < r.len() implies r[i] < r[j] by {
        assert(r[i] <= r[j]);
        assert(r[i] != r[j]);
    }
}

/// A strictly ascending list is the ascending listing of the set of its
/// elements.
pub proof fn lemma_members_in_order_unique(r: Seq<usize>, s: Set<usize>)
    requires
        strictly_ascending(r),
        r.to_set() == s,
    ensures
        r == members_in_order(s),
{
    vstd::seq_lib::seq_to_set_is_finite(r);
    lemma_to_seq_no_duplicates(s);
    assert(r.no_duplicates());
    lemma_same_members_same_multiset(r, s.to_seq());
    assert(ascending(r));
    lemma_in_order_unique(r, s.to_seq());
}

/// The ascending listing of a finite set is strictly ascending and holds
/// exactly the members.
pub proof fn lemma_members_in_order_ensures(s: Set<usize>)
    requires
        s.finite(),
    ensures
        strictly_ascending(members_in_order(s)),
        members_in_order(s).to_set() == s,
        members_in_order(s).len() == s.len(),
{
    lemma_to_seq_no_duplicates(s);
    let l = s.to_seq();
    let r = members_in_order(s);
    lemma_in_order_ensures(l);
    l.lemma_multiset_has_no_duplicates();
    r.lemma_multiset_has_no_duplicates_conv();
    lemma_ascending_distinct(r);
    lemma_same_multiset_same_members(r, l);
    l.unique_seq_to_set();
}

/// Dropping repeats from an ascending list leaves the ascending listing of
/// its elements.
pub proof fn lemma_without_repeats_of_ascending(s: Seq<usize>)
    requires
        ascending(s),
    ensures
        strictly_ascending(without_repeats(s)),
        without_repeats(s).to_set() == s.to_set(),
        s.len() > 0 ==> without_repeats(s).len() > 0 && without_repeats(s).last() == s.last(),
    decreases s.len(),
{
    let r = without_repeats(s);
    if s.len() <= 1 {
        assert(r.to_set() =~= s.to_set());
    } else {
        let front = s.drop_last();
        assert(ascending(front)) by {
            assert forall|i: int, j: int| 0 <= i < j < front.len() implies front[i] <= front[j] by {
                assert(s[i] <= s[j]);
            }
        }
        lemma_without_repeats_of_ascending(front);
        let rf = without_repeats(front);
        assert(front.last() == s[s.len() - 2]);
        assert(s =~= front.push(s.last()));
        front.lemma_push_to_set_commute(s.last());
        if s[s.len() - 2] == s.last() {
            assert(front.to_set().contains(front.last()));
            assert(s.to_set() =~= front.to_set());
        } else {
            rf.lemma_push_to_set_commute(s.last());
            assert forall|i: int, j: int| 0 <= i < j < r.len() implies r[i] < r[j] by {
                if j == r.len() - 1 {
                    assert(rf.to_set().contains(rf[i]));
                    assert(front.to_set().contains(rf[i]));
                    let k = choose|k: int| 0 <= k < front.len() && front[k] == rf[i];
                    assert(s[k] <= s[s.len() - 2]);
                    assert(s[s.len() - 2] <= s[s.len() - 1]);
                    if rf[i] == s.last() {
                        assert(s[s.len() - 2] == s.last());
                    }
                } else {
                    assert(rf[i] < rf[j]);
                }
            }
        }
    }
}

/// `<[usize]>::sort`: afterwards the vector is ascending and holds the
/// elements it held before, each as often as before.
#[verifier::external_body]
fn sort_in_place(v: &mut Vec<usize>)
    ensures
        ascending(final(v)@),
        final(v)@.to_multiset() == old(v)@.to_multiset(),
{
    v.sort();
}

/// `Vec::<usize>::dedup`: afterwards the vector lacks the elements that were
/// equal to their predecessor, and keeps the others in place.
#[verifier::external_body]
fn dedup_in_place(v: &mut Vec<usize>)
    ensures
        final(v)@ == without_repeats(old(v)@),
{
    v.dedup();
}

/// The elements of a set, each once, in the order in which the set hands them
/// out.
pub fn elements_of(set: &HashSet<usize>) -> (v: Vec<usize>)
    ensures
        v@.no_duplicates(),
        v@.to_set() == set@,
        v@.len() == set@.len(),
{
    let mut v: Vec<usize> = Vec::new();
    for x in it: set.iter()
        invariant
            v@.len() == it.index(),
            forall|j: int| 0 <= j < v@.len() ==> v@[j] == *it.seq()[j],
            it.seq().unref().to_set() == set@,
            it.seq().no_duplicates(),
            it.seq().len() == set@.len(),
        ensures
            v@ =~= it.seq().unref(),
    {
        v.push(*x);
    }
    v
}

/// A set with the same elements.
pub fn copy_of_set(set: &HashSet<usize>) -> (r: HashSet<usize>)
    ensures
        r@ == set@,
{
    let v = elements_of(set);
    let mut r: HashSet<usize> = HashSet::new();
    let mut i: usize = 0;
    while i < v.len()
        invariant
            i <= v@.len(),
            r@ =~= v@.subrange(0, i as int).to_set(),
        decreases v@.len() - i,
    {
        assert(v@.subrange(0, i + 1) =~= v@.subrange(0, i as int).push(v@[i as int]));
        proof {
            v@.subrange(0, i as int).lemma_push_to_set_commute(v@[i as int]);
        }
        r.insert(v[i]);
        i += 1;
    }
    assert(v@.subrange(0, i as int) =~= v@);
    r
}

/// Sorts a list of identifiers in ascending order.
pub fn sorted(v: Vec<usize>) -> (r: Vec<usize>)
    ensures
        r@ == in_order(v@),
        r@.len() == v@.len(),
{
    let mut r = v;
    sort_in_place(&mut r);
    proof {
        lemma_in_order_unique(r@, v@);
        lemma_in_order_ensures(v@);
    }
    r
}

/// Sorts a list of identifiers in ascending order and drops the repetitions.
pub fn sorted_distinct(v: Vec<usize>) -> (r: Vec<usize>)
    ensures
        r@ == members_in_order(v@.to_set()),
{
    let mut r = v;
    sort_in_place(&mut r);
    let ghost mid = r@;
    dedup_in_place(&mut r);
    proof {
        lemma_without_repeats_of_ascending(mid);
        lemma_same_multiset_same_members(mid, v@);
        lemma_members_in_order_unique(r@, v@.to_set());
    }
    r
}

/// The members of a set in ascending order.
pub fn sorted_members(set: &HashSet<usize>) -> (r: Vec<usize>)
    ensures
        r@ == members_in_order(set@),
        r@.len() == set@.len(),
{
    let v = elements_of(set);
    let mut r = v;
    let ghost before = r@;
    sort_in_place(&mut r);
    proof {
        before.lemma_multiset_has_no_duplicates();
        r@.lemma_multiset_has_no_duplicates_conv();
        lemma_ascending_distinct(r@);
        lemma_same_multiset_same_members(r@, before);
        lemma_members_in_order_unique(r@, set@);
    }
    r
}

} // verus!
