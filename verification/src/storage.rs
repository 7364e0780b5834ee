use vstd::prelude::*;

use crate::error::KvError;
use crate::value::{Kvpair, Value, ValueModel};

verus! {

/// The model of one table: key -> value.
pub type TableModel = Map<Seq<char>, ValueModel>;

/// The model of a whole engine: table name -> table.
pub type StoreModel = Map<Seq<char>, TableModel>;

/// The table named `t`, or the empty table if it was never written:
/// a table's existence is implied only by a key having been set into it.
pub open spec fn table_of(m: StoreModel, t: Seq<char>) -> TableModel {
    if m.contains_key(t) {
        m[t]
    } else {
        Map::empty()
    }
}

/// What `get(t, k)` must see: the bound value, or absent.
pub open spec fn store_lookup(m: StoreModel, t: Seq<char>, k: Seq<char>) -> Option<ValueModel> {
    let tb = table_of(m, t);
    if tb.contains_key(k) {
        Some(tb[k])
    } else {
        None
    }
}

/// Whether `(t, k)` is bound.
pub open spec fn store_contains(m: StoreModel, t: Seq<char>, k: Seq<char>) -> bool {
    store_lookup(m, t, k) is Some
}

/// The state after `set(t, k, v)`: the table is created if absent, and the
/// one binding `(t, k)` is overwritten; nothing else changes.
pub open spec fn store_set(m: StoreModel, t: Seq<char>, k: Seq<char>, v: ValueModel) -> StoreModel {
    m.insert(t, table_of(m, t).insert(k, v))
}

/// The state after `del(t, k)`: the binding is removed if present;
/// deleting an absent key or an absent table changes nothing.
pub open spec fn store_del(m: StoreModel, t: Seq<char>, k: Seq<char>) -> StoreModel {
    if m.contains_key(t) && m[t].contains_key(k) {
        m.insert(t, m[t].remove(k))
    } else {
        m
    }
}

/// All pairs of one table, as a set.
pub open spec fn table_pairs(tb: TableModel) -> Set<(Seq<char>, ValueModel)> {
    Set::new(|p: (Seq<char>, ValueModel)| tb.contains_key(p.0) && tb[p.0] == p.1)
}

/// No key occurs twice in a sequence of pairs.
pub open spec fn distinct_keys(s: Seq<(Seq<char>, ValueModel)>) -> bool {
    forall|i: int, j: int| 0 <= i < j < s.len() ==> s[i].0 != s[j].0
}

/// The views of a sequence of pairs.
pub open spec fn pair_views(s: Seq<Kvpair>) -> Seq<(Seq<char>, ValueModel)> {
    s.map_values(|p: Kvpair| p@)
}

/// The view of an optional value.
pub open spec fn view_opt(o: Option<Value>) -> Option<ValueModel> {
    match o {
        Some(v) => Some(v@),
        None => None,
    }
}

/// The canonical lazy sequence of pairs every engine exposes through
/// `get_iter`: finite, not restartable, consumed front to back.
pub trait KvpairSource: Sized {
    /// The pairs not yet handed out.
    spec fn remaining(&self) -> Seq<(Seq<char>, ValueModel)>;

    /// Hands out the next pair, or reports exhaustion.
    fn next(&mut self) -> (r: Option<Kvpair>)
        ensures
            match r {
                Some(p) => old(self).remaining().len() > 0 && p@ == old(self).remaining()[0]
                    && final(self).remaining() == old(self).remaining().drop_first(),
                None => old(self).remaining().len() == 0 && final(self).remaining() == old(
                    self,
                ).remaining(),
            },
    ;
}

/// The storage capability: what any engine must do, stated over the one
/// model `StoreModel`. Reading or deleting against a table or key never
/// written is an absent result, never an error; `set` returns the key's
/// previous value; the only failure kind is an engine-internal one.
pub trait Storage: Sized {
    /// The engine's current contents: table name -> (key -> value).
    spec fn tables(&self) -> StoreModel;

    /// Structural validity of the engine's own representation.
    spec fn wf(&self) -> bool;

    /// Whether the engine is beyond failure (the in-memory engine is;
    /// a disk-backed one need not be). Where it holds, success is owed.
    spec fn never_fails(&self) -> bool;

    /// The lazy sequence type this engine's `get_iter` yields.
    type Iter: KvpairSource;

    /// Reads the value of `key` in `table`; absent is a success.
    fn get(&self, table: &str, key: &str) -> (r: Result<Option<Value>, KvError>)
        requires
            self.wf(),
        ensures
            match r {
                Ok(cur) => view_opt(cur) == store_lookup(self.tables(), table@, key@),
                Err(_) => !self.never_fails(),
            },
    ;

    /// Binds `key` to `value` in `table`, creating the table if absent,
    /// and returns the key's previous value.
    fn set(&mut self, table: &str, key: &str, value: Value) -> (r: Result<Option<Value>, KvError>)
        requires
            old(self).wf(),
        ensures
            final(self).wf(),
            final(self).never_fails() == old(self).never_fails(),
            match r {
                Ok(prev) => view_opt(prev) == store_lookup(old(self).tables(), table@, key@)
                    && final(self).tables() == store_set(
                    old(self).tables(),
                    table@,
                    key@,
                    value@,
                ),
                Err(_) => final(self).tables() == old(self).tables() && !old(self).never_fails(),
            },
    ;

    /// Whether `key` is bound in `table`.
    fn contains(&self, table: &str, key: &str) -> (r: Result<bool, KvError>)
        requires
            self.wf(),
        ensures
            match r {
                Ok(b) => b == store_contains(self.tables(), table@, key@),
                Err(_) => !self.never_fails(),
            },
    ;

    /// Removes `key` from `table` and returns its previous value;
    /// removing an absent key or table is a no-op returning absent.
    fn del(&mut self, table: &str, key: &str) -> (r: Result<Option<Value>, KvError>)
        requires
            old(self).wf(),
        ensures
            final(self).wf(),
            final(self).never_fails() == old(self).never_fails(),
            match r {
                Ok(prev) => view_opt(prev) == store_lookup(old(self).tables(), table@, key@)
                    && final(self).tables() == store_del(old(self).tables(), table@, key@),
                Err(_) => final(self).tables() == old(self).tables() && !old(self).never_fails(),
            },
    ;

    /// Materializes every pair of `table`, in no contractual order;
    /// an absent table gives the empty sequence.
    fn get_all(&self, table: &str) -> (r: Result<Vec<Kvpair>, KvError>)
        requires
            self.wf(),
        ensures
            match r {
                Ok(pairs) => distinct_keys(pair_views(pairs@)) && pair_views(pairs@).to_set()
                    == table_pairs(table_of(self.tables(), table@)),
                Err(_) => !self.never_fails(),
            },
    ;

    /// The same pairs as `get_all`, produced lazily, one at a time.
    fn get_iter(&self, table: &str) -> (r: Result<Self::Iter, KvError>)
        requires
            self.wf(),
        ensures
            match r {
                Ok(it) => distinct_keys(it.remaining()) && it.remaining().to_set() == table_pairs(
                    table_of(self.tables(), table@),
                ),
                Err(_) => !self.never_fails(),
            },
    ;
}

/// An engine-native item that converts one-to-one into a canonical pair.
pub trait IntoKvpair: Sized {
    /// The pair this item stands for.
    spec fn pair_view(&self) -> (Seq<char>, ValueModel);

    /// The conversion itself.
    fn into_kvpair(self) -> (p: Kvpair)
        ensures
            p@ == self.pair_view(),
    ;
}

/// An engine-native sequence of items, consumed front to back.
pub trait NativeSource: Sized {
    /// The item type the engine produces.
    type Item: IntoKvpair;

    /// The items not yet handed out.
    spec fn native_remaining(&self) -> Seq<Self::Item>;

    /// Hands out the next native item, or reports exhaustion.
    fn next_native(&mut self) -> (r: Option<Self::Item>)
        ensures
            match r {
                Some(item) => old(self).native_remaining().len() > 0 && item == old(
                    self,
                ).native_remaining()[0] && final(self).native_remaining() == old(
                    self,
                ).native_remaining().drop_first(),
                None => old(self).native_remaining().len() == 0 && final(self).native_remaining()
                    == old(self).native_remaining(),
            },
    ;
}

/// The adapter that turns any engine-native sequence of items convertible
/// to `Kvpair` into the canonical lazy sequence: a one-to-one, per-item
/// transformation with no buffering, driving the underlying sequence
/// exactly once, in lockstep.
pub struct StorageIter<T> {
    data: T,
}

impl<T> StorageIter<T> {
    /// Wraps an engine-native sequence.
    pub fn new(data: T) -> (it: StorageIter<T>)
        ensures
            it.wrapped() == data,
    {
        StorageIter { data }
    }

    /// The wrapped native sequence.
    pub closed spec fn wrapped(&self) -> T {
        self.data
    }
}

impl<T: NativeSource> KvpairSource for StorageIter<T> {
    closed spec fn remaining(&self) -> Seq<(Seq<char>, ValueModel)> {
        self.data.native_remaining().map_values(|x: T::Item| x.pair_view())
    }

    fn next(&mut self) -> (r: Option<Kvpair>)
        ensures
            match r {
                Some(p) => old(self).remaining().len() > 0 && p@ == old(self).remaining()[0]
                    && final(self).remaining() == old(self).remaining().drop_first(),
                None => old(self).remaining().len() == 0 && final(self).remaining() == old(
                    self,
                ).remaining(),
            },
    {
        let r = self.data.next_native();
        match r {
            Some(item) => {
                proof {
                    assert(self.remaining() =~= old(self).remaining().drop_first());
                }
                Some(item.into_kvpair())
            },
            None => None,
        }
    }
}

/// The pair views a `StorageIter` will hand out, for stating contracts
/// about a freshly built adapter.
pub open spec fn adapted_views<T: NativeSource>(items: Seq<T::Item>) -> Seq<
    (Seq<char>, ValueModel),
> {
    items.map_values(|x: T::Item| x.pair_view())
}

/// What a fresh adapter will yield: exactly the views of the items it wraps.
pub broadcast proof fn lemma_storage_iter_remaining<T: NativeSource>(it: StorageIter<T>)
    ensures
        #[trigger] it.remaining() == adapted_views::<T>(it.wrapped().native_remaining()),
{
}

} // verus!
