//! Stable insertion sorting by a key, and what it guarantees: the result is in
//! key order and holds exactly the items it was given.
use vstd::prelude::*;
use crate::json::{lemma_seq_lt_irreflexive, lemma_seq_lt_total, lemma_seq_lt_transitive};
use crate::text::seq_lt;

verus! {

/// `sorted` with `x` inserted after every item whose key does not come after
/// its own: where a stable sort puts a later item.
pub open spec fn insert_by<T, K>(sorted: Seq<T>, x: T, key: spec_fn(T) -> K, lt: spec_fn(K, K) -> bool) -> Seq<T>
    decreases sorted.len(),
{
    if sorted.len() == 0 {
        seq![x]
    } else if lt(key(x), key(sorted.last())) {
        insert_by(sorted.drop_last(), x, key, lt).push(sorted.last())
    } else {
        sorted.push(x)
    }
}

/// The items in the order of a stable sort by key (`slice::sort_by`).
pub open spec fn sort_by<T, K>(s: Seq<T>, key: spec_fn(T) -> K, lt: spec_fn(K, K) -> bool) -> Seq<T>
    decreases s.len(),
{
    if s.len() == 0 {
        s
    } else {
        insert_by(sort_by(s.drop_last(), key, lt), s.last(), key, lt)
    }
}

/// No item's key comes before the key of an item in front of it.
pub open spec fn sorted_by<T, K>(s: Seq<T>, key: spec_fn(T) -> K, lt: spec_fn(K, K) -> bool) -> bool {
    forall|i: int, j: int| 0 <= i < j < s.len() ==> !lt(#[trigger] key(s[j]), #[trigger] key(s[i]))
}

/// `lt` orders keys the way a comparison does: never both ways, and "not
/// before" is transitive.
pub open spec fn strict_weak_order<K>(lt: spec_fn(K, K) -> bool) -> bool {
    &&& forall|a: K, b: K| #[trigger] lt(a, b) ==> !lt(b, a)
    &&& forall|a: K, b: K, c: K| !#[trigger] lt(a, b) && !#[trigger] lt(b, c) ==> !lt(a, c)
}

/// The order of strings (`str`'s `Ord`).
pub open spec fn str_lt() -> spec_fn(Seq<char>, Seq<char>) -> bool {
    |a: Seq<char>, b: Seq<char>| seq_lt(a, b)
}

/// The order of a number and then a string.
pub open spec fn num_str_lt() -> spec_fn((u32, Seq<char>), (u32, Seq<char>)) -> bool {
    |a: (u32, Seq<char>), b: (u32, Seq<char>)| a.0 < b.0 || (a.0 == b.0 && seq_lt(a.1, b.1))
}

/// String order is a strict weak order.
pub proof fn lemma_str_lt_order()
    ensures
        strict_weak_order(str_lt()),
{
    assert forall|a: Seq<char>, b: Seq<char>| #[trigger] str_lt()(a, b) implies !str_lt()(b, a) by {
        lemma_seq_lt_total(a, b);
    }
    assert forall|a: Seq<char>, b: Seq<char>, c: Seq<char>|
        !#[trigger] str_lt()(a, b) && !#[trigger] str_lt()(b, c) implies !str_lt()(a, c) by {
        lemma_seq_lt_total(a, b);
        lemma_seq_lt_total(b, c);
        lemma_seq_lt_total(a, c);
        lemma_seq_lt_irreflexive(a);
        if a != b && b != c {
            lemma_seq_lt_transitive(c, b, a);
        }
    }
}

/// Number-then-string order is a strict weak order.
pub proof fn lemma_num_str_lt_order()
    ensures
        strict_weak_order(num_str_lt()),
{
    assert forall|a: (u32, Seq<char>), b: (u32, Seq<char>)| #[trigger] num_str_lt()(a, b) implies !num_str_lt()(b, a) by {
        lemma_seq_lt_total(a.1, b.1);
    }
    assert forall|a: (u32, Seq<char>), b: (u32, Seq<char>), c: (u32, Seq<char>)|
        !#[trigger] num_str_lt()(a, b) && !#[trigger] num_str_lt()(b, c) implies !num_str_lt()(a, c) by {
        lemma_seq_lt_total(a.1, b.1);
        lemma_seq_lt_total(b.1, c.1);
        lemma_seq_lt_total(a.1, c.1);
        lemma_seq_lt_irreflexive(a.1);
        if a.0 == b.0 && b.0 == c.0 && a.1 != b.1 && b.1 != c.1 {
            lemma_seq_lt_transitive(c.1, b.1, a.1);
        }
    }
}

proof fn lemma_insert_by<T, K>(sorted: Seq<T>, x: T, key: spec_fn(T) -> K, lt: spec_fn(K, K) -> bool)
    requires
        strict_weak_order(lt),
        sorted_by(sorted, key, lt),
    ensures
        sorted_by(insert_by(sorted, x, key, lt), key, lt),
        insert_by(sorted, x, key, lt).to_multiset() == sorted.to_multiset().insert(x),
        insert_by(sorted, x, key, lt).len() == sorted.len() + 1,
        forall|i: int|
            0 <= i < insert_by(sorted, x, key, lt).len() ==> (#[trigger] insert_by(sorted, x, key, lt)[i] == x || exists|
                j: int,
            | 0 <= j < sorted.len() && insert_by(sorted, x, key, lt)[i] == sorted[j]),
    decreases sorted.len(),
{
    broadcast use vstd::seq_lib::group_seq_properties;
    let r = insert_by(sorted, x, key, lt);
    if sorted.len() == 0 {
        assert(r =~= seq![x]);
        assert(seq![x].to_multiset() =~= Seq::<T>::empty().to_multiset().insert(x)) by {
            vstd::seq_lib::lemma_multiset_commutative(Seq::<T>::empty(), seq![x]);
            assert(Seq::<T>::empty() + seq![x] =~= seq![x]);
        }
    } else {
        let last = sorted.last();
        let init = sorted.drop_last();
        assert(sorted_by(init, key, lt)) by {
            assert forall|i: int, j: int| 0 <= i < j < init.len() implies !lt(#[trigger] key(init[j]), #[trigger] key(init[i])) by {
                assert(init[i] == sorted[i] && init[j] == sorted[j]);
                assert(!lt(key(sorted[j]), key(sorted[i])));
            }
        }
        assert(sorted =~= init.push(last));
        if lt(key(x), key(last)) {
            lemma_insert_by(init, x, key, lt);
            let m = insert_by(init, x, key, lt);
            assert(r == m.push(last));
            assert forall|i: int, j: int| 0 <= i < j < r.len() implies !lt(#[trigger] key(r[j]), #[trigger] key(r[i])) by {
                if j < r.len() - 1 {
                    assert(r[i] == m[i] && r[j] == m[j]);
                } else {
                    assert(r[j] == last);
                    assert(r[i] == m[i]);
                    if m[i] == x {
                        assert(!lt(key(last), key(x)));
                    } else {
                        let k = choose|k: int| 0 <= k < init.len() && m[i] == init[k];
                        assert(init[k] == sorted[k]);
                        assert(!lt(key(sorted[sorted.len() - 1]), key(sorted[k])));
                    }
                }
            }
            assert(r.to_multiset() == m.to_multiset().insert(last));
            assert(sorted.to_multiset() == init.to_multiset().insert(last));
            assert(r.to_multiset() =~= sorted.to_multiset().insert(x));
            assert forall|i: int| 0 <= i < r.len() implies (#[trigger] r[i] == x || exists|j: int|
                0 <= j < sorted.len() && r[i] == sorted[j]) by {
                if i < r.len() - 1 {
                    assert(r[i] == m[i]);
                    if m[i] != x {
                        let k = choose|k: int| 0 <= k < init.len() && m[i] == init[k];
                        assert(sorted[k] == init[k]);
                    }
                } else {
                    assert(r[i] == sorted[sorted.len() - 1]);
                }
            }
        } else {
            assert(r == sorted.push(x));
            assert forall|i: int, j: int| 0 <= i < j < r.len() implies !lt(#[trigger] key(r[j]), #[trigger] key(r[i])) by {
                if j < r.len() - 1 {
                    assert(r[i] == sorted[i] && r[j] == sorted[j]);
                } else {
                    assert(r[j] == x);
                    assert(r[i] == sorted[i]);
                    if i < sorted.len() - 1 {
                        assert(!lt(key(last), key(sorted[i])));
                    }
                }
            }
            assert forall|i: int| 0 <= i < r.len() implies (#[trigger] r[i] == x || exists|j: int|
                0 <= j < sorted.len() && r[i] == sorted[j]) by {
                if i < r.len() - 1 {
                    assert(r[i] == sorted[i]);
                }
            }
        }
    }
}

/// A stable sort puts the items in key order.
pub proof fn law_sort_sorted<T, K>(s: Seq<T>, key: spec_fn(T) -> K, lt: spec_fn(K, K) -> bool)
    requires
        strict_weak_order(lt),
    ensures
        sorted_by(sort_by(s, key, lt), key, lt),
    decreases s.len(),
{
    if s.len() > 0 {
        law_sort_sorted(s.drop_last(), key, lt);
        lemma_insert_by(sort_by(s.drop_last(), key, lt), s.last(), key, lt);
    }
}

/// A stable sort keeps exactly the items it was given, each as often.
pub proof fn law_sort_permutes<T, K>(s: Seq<T>, key: spec_fn(T) -> K, lt: spec_fn(K, K) -> bool)
    requires
        strict_weak_order(lt),
    ensures
        sort_by(s, key, lt).to_multiset() == s.to_multiset(),
        sort_by(s, key, lt).len() == s.len(),
    decreases s.len(),
{
    broadcast use vstd::seq_lib::group_seq_properties;
    if s.len() > 0 {
        law_sort_permutes(s.drop_last(), key, lt);
        law_sort_sorted(s.drop_last(), key, lt);
        lemma_insert_by(sort_by(s.drop_last(), key, lt), s.last(), key, lt);
        assert(s =~= s.drop_last().push(s.last()));
    } else {
        assert(sort_by(s, key, lt) == s);
    }
}

} // verus!
