//! Stable insertion order over a "comes before" relation, with what it
//! keeps and what it guarantees.
use vstd::prelude::*;

verus! {

/// `e` put into `s` after every element that it does not come before.
pub open spec fn insert_by<E>(s: Seq<E>, e: E, before: spec_fn(E, E) -> bool) -> Seq<E>
    decreases s.len(),
{
    if s.len() == 0 {
        seq![e]
    } else if before(e, s.last()) {
        insert_by(s.drop_last(), e, before).push(s.last())
    } else {
        s.push(e)
    }
}

/// `s` put in order by inserting its elements one after another; elements
/// that tie keep their order.
pub open spec fn sort_by<E>(s: Seq<E>, before: spec_fn(E, E) -> bool) -> Seq<E>
    decreases s.len(),
{
    if s.len() == 0 {
        Seq::empty()
    } else {
        insert_by(sort_by(s.drop_last(), before), s.last(), before)
    }
}

/// Where [`insert_by`] puts its element.
pub open spec fn insert_pos<E>(s: Seq<E>, e: E, before: spec_fn(E, E) -> bool) -> int
    decreases s.len(),
{
    if s.len() == 0 {
        0
    } else if before(e, s.last()) {
        insert_pos(s.drop_last(), e, before)
    } else {
        s.len() as int
    }
}

/// `before` is a strict weak order: never both ways, and "not before" chains.
pub open spec fn strict_weak<E>(before: spec_fn(E, E) -> bool) -> bool {
    &&& forall|x: E, y: E| #[trigger] before(x, y) ==> !before(y, x)
    &&& forall|x: E, y: E, z: E| #![trigger before(x, y), before(y, z)]
        !before(x, y) && !before(y, z) ==> !before(x, z)
}

/// No element of `s` comes before an element ahead of it.
pub open spec fn sorted_by<E>(s: Seq<E>, before: spec_fn(E, E) -> bool) -> bool {
    forall|i: int, j: int| 0 <= i < j < s.len() ==> !before(#[trigger] s[j], #[trigger] s[i])
}

/// Inserting at the first place from the end where the element no longer
/// comes before its left neighbour is what [`insert_by`] does.
pub proof fn lemma_insert_by_at<E>(s: Seq<E>, e: E, before: spec_fn(E, E) -> bool, j: int)
    requires
        0 <= j <= s.len(),
        forall|m: int| j <= m < s.len() ==> before(e, #[trigger] s[m]),
        j == 0 || !before(e, s[j - 1]),
    ensures
        insert_by(s, e, before) == s.insert(j, e),
    decreases s.len(),
{
    if s.len() == 0 {
        assert(s.insert(j, e) =~= seq![e]);
    } else if j == s.len() {
        assert(s.insert(j, e) =~= s.push(e));
    } else {
        assert(before(e, s[s.len() - 1]));
        assert forall|m: int| j <= m < s.drop_last().len() implies before(e, #[trigger] s.drop_last()[m]) by {
            assert(s.drop_last()[m] == s[m]);
        }
        if j > 0 {
            assert(s.drop_last()[j - 1] == s[j - 1]);
        }
        lemma_insert_by_at(s.drop_last(), e, before, j);
        assert(s.drop_last().insert(j, e).push(s.last()) =~= s.insert(j, e));
    }
}

proof fn lemma_insert_pos<E>(s: Seq<E>, e: E, before: spec_fn(E, E) -> bool)
    ensures
        0 <= insert_pos(s, e, before) <= s.len(),
        insert_by(s, e, before) == s.insert(insert_pos(s, e, before), e),
        forall|m: int| insert_pos(s, e, before) <= m < s.len() ==> before(e, #[trigger] s[m]),
        insert_pos(s, e, before) == 0 || !before(e, s[insert_pos(s, e, before) - 1]),
    decreases s.len(),
{
    if s.len() == 0 {
        assert(s.insert(0, e) =~= seq![e]);
    } else if before(e, s.last()) {
        lemma_insert_pos(s.drop_last(), e, before);
        let p = insert_pos(s, e, before);
        assert(s.drop_last().insert(p, e).push(s.last()) =~= s.insert(p, e));
        assert forall|m: int| p <= m < s.len() implies before(e, #[trigger] s[m]) by {
            if m < s.len() - 1 {
                assert(s[m] == s.drop_last()[m]);
            }
        }
        if p > 0 {
            assert(s[p - 1] == s.drop_last()[p - 1]);
        }
    } else {
        assert(s.insert(s.len() as int, e) =~= s.push(e));
    }
}

proof fn lemma_insert_keeps_sorted<E>(s: Seq<E>, e: E, before: spec_fn(E, E) -> bool)
    requires
        strict_weak(before),
        sorted_by(s, before),
    ensures
        sorted_by(insert_by(s, e, before), before),
{
    lemma_insert_pos(s, e, before);
    let p = insert_pos(s, e, before);
    let r = s.insert(p, e);
    assert forall|i: int, j: int| 0 <= i < j < r.len() implies !before(#[trigger] r[j], #[trigger] r[i]) by {
        if j < p {
            assert(r[i] == s[i] && r[j] == s[j]);
        } else if j == p {
            assert(r[i] == s[i]);
            assert(!before(e, s[p - 1]));
            if i < p - 1 {
                assert(!before(s[p - 1], s[i]));
            }
        } else if i == p {
            assert(r[j] == s[j - 1]);
            assert(before(e, s[j - 1]));
        } else if i < p {
            assert(r[i] == s[i] && r[j] == s[j - 1]);
        } else {
            assert(r[i] == s[i - 1] && r[j] == s[j - 1]);
        }
    }
}

/// Sorting keeps the elements (as a multiset) and leaves them in order.
pub proof fn lemma_sort_by_sorts<E>(s: Seq<E>, before: spec_fn(E, E) -> bool)
    requires
        strict_weak(before),
    ensures
        sort_by(s, before).to_multiset() == s.to_multiset(),
        sort_by(s, before).len() == s.len(),
        sorted_by(sort_by(s, before), before),
    decreases s.len(),
{
    broadcast use vstd::seq_lib::group_to_multiset_ensures;
    if s.len() == 0 {
        assert(sort_by(s, before) =~= s);
    } else {
        lemma_sort_by_sorts(s.drop_last(), before);
        let inner = sort_by(s.drop_last(), before);
        lemma_insert_pos(inner, s.last(), before);
        lemma_insert_keeps_sorted(inner, s.last(), before);
        vstd::seq_lib::to_multiset_insert(inner, insert_pos(inner, s.last(), before), s.last());
        assert(s.drop_last().push(s.last()) =~= s);
    }
}

} // verus!
