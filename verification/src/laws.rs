use vstd::prelude::*;
use vstd::seq_lib::group_seq_lib_default;

use crate::storage::{
    distinct_keys, store_contains, store_del, store_lookup, store_set, StoreModel,
};
use crate::value::ValueModel;

verus! {

/// A first `set` on a fresh pair finds nothing to return, the next `set`
/// finds the first value, and a read after that sees the second value.
/// (What each call returns is pinned by the `Storage` contract to
/// `store_lookup` on the state before it.)
pub proof fn lemma_first_set_then_overwrite(
    m: StoreModel,
    t: Seq<char>,
    k: Seq<char>,
    v: ValueModel,
    v2: ValueModel,
)
    requires
        store_lookup(m, t, k) is None,
    ensures
        store_lookup(store_set(m, t, k, v), t, k) == Some(v),
        store_lookup(store_set(store_set(m, t, k, v), t, k, v2), t, k) == Some(v2),
{
}

/// Reading, testing or deleting a key that is absent (or a table never
/// written) is an absent result, a `false`, and a no-op — never an error:
/// the `Storage` contract owes `Ok` wherever the engine cannot fail.
pub proof fn lemma_absent_reads(m: StoreModel, t: Seq<char>, k: Seq<char>)
    requires
        store_lookup(m, t, k) is None,
    ensures
        !store_contains(m, t, k),
        store_del(m, t, k) == m,
{
}

/// A store never written reads as absent everywhere.
pub proof fn lemma_fresh_store_reads(t: Seq<char>, k: Seq<char>)
    ensures
        store_lookup(Map::empty(), t, k) is None,
        !store_contains(Map::empty(), t, k),
        store_del(Map::empty(), t, k) == Map::<Seq<char>, crate::storage::TableModel>::empty(),
{
}

/// `del` after `set(t, k, v)` finds `v` to return, and a second `del`
/// finds nothing.
pub proof fn lemma_set_then_del(m: StoreModel, t: Seq<char>, k: Seq<char>, v: ValueModel)
    ensures
        store_lookup(store_set(m, t, k, v), t, k) == Some(v),
        store_lookup(store_del(store_set(m, t, k, v), t, k), t, k) is None,
{
}

/// Two pair sequences with unique keys holding the same set of pairs are
/// the same multiset: `get_all` and `get_iter` agree up to order.
pub proof fn lemma_same_pairs_same_multiset(
    s1: Seq<(Seq<char>, ValueModel)>,
    s2: Seq<(Seq<char>, ValueModel)>,
)
    requires
        distinct_keys(s1),
        distinct_keys(s2),
        s1.to_set() == s2.to_set(),
    ensures
        s1.to_multiset() == s2.to_multiset(),
{
    broadcast use group_seq_lib_default;

    assert(s1.no_duplicates());
    assert(s2.no_duplicates());
    s1.lemma_multiset_has_no_duplicates();
    s2.lemma_multiset_has_no_duplicates();
    broadcast use vstd::seq_lib::group_to_multiset_ensures;

    assert forall|x: (Seq<char>, ValueModel)| true implies s1.to_multiset().count(x)
        == s2.to_multiset().count(x) by {
        if s1.contains(x) {
            assert(s1.to_set().contains(x));
            assert(s2.contains(x));
        } else {
            assert(!s1.to_set().contains(x));
            assert(!s2.contains(x));
            assert(s1.to_multiset().count(x) == 0);
            assert(s2.to_multiset().count(x) == 0);
        }
    }
    assert(s1.to_multiset() =~= s2.to_multiset());
}

/// Writes to distinct keys of one table commute, and neither is lost:
/// whichever order two such writers land in, the state is the same and
/// both values are observable.
pub proof fn lemma_set_commutes(
    m: StoreModel,
    t: Seq<char>,
    k1: Seq<char>,
    v1: ValueModel,
    k2: Seq<char>,
    v2: ValueModel,
)
    requires
        k1 != k2,
    ensures
        store_set(store_set(m, t, k1, v1), t, k2, v2) == store_set(
            store_set(m, t, k2, v2),
            t,
            k1,
            v1,
        ),
        store_lookup(store_set(store_set(m, t, k1, v1), t, k2, v2), t, k1) == Some(v1),
        store_lookup(store_set(store_set(m, t, k1, v1), t, k2, v2), t, k2) == Some(v2),
{
    assert(store_set(store_set(m, t, k1, v1), t, k2, v2) =~~= store_set(
        store_set(m, t, k2, v2),
        t,
        k1,
        v1,
    ));
}

/// Writes to one key overwrite each other wholly: the state after two of
/// them is exactly the state after the last, never a mixture.
pub proof fn lemma_set_last_wins(
    m: StoreModel,
    t: Seq<char>,
    k: Seq<char>,
    v1: ValueModel,
    v2: ValueModel,
)
    ensures
        store_set(store_set(m, t, k, v1), t, k, v2) == store_set(m, t, k, v2),
{
    assert(store_set(store_set(m, t, k, v1), t, k, v2) =~~= store_set(m, t, k, v2));
}

/// A write touches nothing but its own table and key.
pub proof fn lemma_set_frame(
    m: StoreModel,
    t: Seq<char>,
    k: Seq<char>,
    v: ValueModel,
    t2: Seq<char>,
    k2: Seq<char>,
)
    requires
        t2 != t || k2 != k,
    ensures
        store_lookup(store_set(m, t, k, v), t2, k2) == store_lookup(m, t2, k2),
{
}

} // verus!
