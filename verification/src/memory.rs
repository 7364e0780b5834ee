use vstd::prelude::*;

use crate::error::KvError;
use crate::storage::{
    distinct_keys, store_del, store_lookup, store_set, table_pairs, IntoKvpair, KvpairSource,
    NativeSource, Storage, StorageIter, StoreModel, TableModel,
};
use crate::value::{clone_bytes, Kvpair, Value, ValueModel};

verus! {

/// The views of a table's entries.
pub open spec fn entry_views(s: Seq<(String, Value)>) -> Seq<(Seq<char>, ValueModel)> {
    s.map_values(|e: (String, Value)| (e.0@, e.1@))
}

/// No key occurs twice in an association sequence.
pub open spec fn keys_unique<V>(s: Seq<(Seq<char>, V)>) -> bool {
    forall|i: int, j: int| 0 <= i < j < s.len() ==> s[i].0 != s[j].0
}

/// The mapping an association sequence stands for; later bindings win,
/// though with unique keys the order never matters.
pub open spec fn kv_map<V>(s: Seq<(Seq<char>, V)>) -> Map<Seq<char>, V>
    decreases s.len(),
{
    if s.len() == 0 {
        Map::empty()
    } else {
        kv_map(s.drop_last()).insert(s.last().0, s.last().1)
    }
}

/// The table a sequence of entries stands for.
pub open spec fn table_view(entries: Seq<(String, Value)>) -> TableModel {
    kv_map(entry_views(entries))
}

/// The views of the whole engine's tables.
pub open spec fn store_views(s: Seq<(String, Vec<(String, Value)>)>) -> Seq<
    (Seq<char>, TableModel),
> {
    s.map_values(|t: (String, Vec<(String, Value)>)| (t.0@, table_view(t.1@)))
}

/// A key that no entry carries is absent from the mapping.
pub proof fn lemma_kv_map_absent<V>(s: Seq<(Seq<char>, V)>, k: Seq<char>)
    requires
        forall|j: int| 0 <= j < s.len() ==> s[j].0 != k,
    ensures
        !kv_map(s).contains_key(k),
    decreases s.len(),
{
    if s.len() > 0 {
        lemma_kv_map_absent(s.drop_last(), k);
    }
}

/// With unique keys, entry `i` is what the mapping binds its key to.
pub proof fn lemma_kv_map_index<V>(s: Seq<(Seq<char>, V)>, i: int)
    requires
        keys_unique(s),
        0 <= i < s.len(),
    ensures
        kv_map(s).contains_key(s[i].0),
        kv_map(s)[s[i].0] == s[i].1,
    decreases s.len(),
{
    if i < s.len() - 1 {
        assert(keys_unique(s.drop_last()));
        lemma_kv_map_index(s.drop_last(), i);
        assert(s[i].0 != s.last().0);
    }
}

/// A bound key is carried by some entry.
pub proof fn lemma_kv_map_contains<V>(s: Seq<(Seq<char>, V)>, k: Seq<char>)
    requires
        kv_map(s).contains_key(k),
    ensures
        exists|i: int| 0 <= i < s.len() && s[i].0 == k,
    decreases s.len(),
{
    if s.len() > 0 {
        if s.last().0 == k {
            assert(s[s.len() - 1].0 == k);
        } else {
            lemma_kv_map_contains(s.drop_last(), k);
            let i = choose|i: int| 0 <= i < s.drop_last().len() && s.drop_last()[i].0 == k;
            assert(s[i].0 == k);
        }
    }
}

/// Replacing entry `i` by one with the same key updates that one binding.
pub proof fn lemma_kv_map_update<V>(s: Seq<(Seq<char>, V)>, i: int, p: (Seq<char>, V))
    requires
        keys_unique(s),
        0 <= i < s.len(),
        p.0 == s[i].0,
    ensures
        kv_map(s.update(i, p)) == kv_map(s).insert(p.0, p.1),
        keys_unique(s.update(i, p)),
    decreases s.len(),
{
    let su = s.update(i, p);
    assert(keys_unique(su));
    if i == s.len() - 1 {
        assert(su.drop_last() =~= s.drop_last());
        assert(su.last() == p);
        assert(kv_map(su) == kv_map(s.drop_last()).insert(p.0, p.1));
        assert(kv_map(s.drop_last()).insert(s.last().0, s.last().1).insert(p.0, p.1) =~= kv_map(
            s.drop_last(),
        ).insert(p.0, p.1));
    } else {
        assert(keys_unique(s.drop_last()));
        lemma_kv_map_update(s.drop_last(), i, p);
        assert(su.drop_last() =~= s.drop_last().update(i, p));
        assert(su.last() == s.last());
        assert(p.0 != s.last().0);
        assert(kv_map(s.drop_last()).insert(p.0, p.1).insert(s.last().0, s.last().1) =~= kv_map(
            s.drop_last(),
        ).insert(s.last().0, s.last().1).insert(p.0, p.1));
    }
}

/// Removing entry `i` removes exactly that binding.
pub proof fn lemma_kv_map_remove<V>(s: Seq<(Seq<char>, V)>, i: int)
    requires
        keys_unique(s),
        0 <= i < s.len(),
    ensures
        kv_map(s.remove(i)) == kv_map(s).remove(s[i].0),
        keys_unique(s.remove(i)),
    decreases s.len(),
{
    let sr = s.remove(i);
    assert(forall|a: int| 0 <= a < i ==> sr[a] == s[a]);
    assert(forall|a: int| i <= a < sr.len() ==> sr[a] == s[a + 1]);
    assert(keys_unique(sr));
    if i == s.len() - 1 {
        assert(sr =~= s.drop_last());
        lemma_kv_map_absent_of_unique(s);
        assert(kv_map(s.drop_last()).insert(s.last().0, s.last().1).remove(s.last().0) =~= kv_map(
            s.drop_last(),
        ));
    } else {
        assert(keys_unique(s.drop_last()));
        lemma_kv_map_remove(s.drop_last(), i);
        assert(sr.drop_last() =~= s.drop_last().remove(i));
        assert(sr.last() == s.last());
        assert(s[i].0 != s.last().0);
        assert(kv_map(s.drop_last()).remove(s[i].0).insert(s.last().0, s.last().1) =~= kv_map(
            s.drop_last(),
        ).insert(s.last().0, s.last().1).remove(s[i].0));
    }
}

/// With unique keys, the last entry's key is absent from the front.
proof fn lemma_kv_map_absent_of_unique<V>(s: Seq<(Seq<char>, V)>)
    requires
        keys_unique(s),
        s.len() > 0,
    ensures
        !kv_map(s.drop_last()).contains_key(s.last().0),
{
    assert(forall|j: int| 0 <= j < s.drop_last().len() ==> s.drop_last()[j].0 != s.last().0);
    lemma_kv_map_absent(s.drop_last(), s.last().0);
}

/// Appending an entry inserts its binding.
pub proof fn lemma_kv_map_push<V>(s: Seq<(Seq<char>, V)>, p: (Seq<char>, V))
    ensures
        kv_map(s.push(p)) == kv_map(s).insert(p.0, p.1),
{
    assert(s.push(p).drop_last() =~= s);
    assert(s.push(p).last() == p);
}

/// With unique keys, an association sequence holds exactly the pairs of
/// the mapping it stands for.
pub proof fn lemma_kv_pairs_set(s: Seq<(Seq<char>, ValueModel)>)
    requires
        keys_unique(s),
    ensures
        s.to_set() == table_pairs(kv_map(s)),
{
    let m = kv_map(s);
    assert forall|p: (Seq<char>, ValueModel)| s.to_set().contains(p) implies table_pairs(
        m,
    ).contains(p) by {
        let i = choose|i: int| 0 <= i < s.len() && s[i] == p;
        lemma_kv_map_index(s, i);
    }
    assert forall|p: (Seq<char>, ValueModel)| table_pairs(m).contains(p) implies s.to_set()
        .contains(p) by {
        lemma_kv_map_contains(s, p.0);
        let i = choose|i: int| 0 <= i < s.len() && s[i].0 == p.0;
        lemma_kv_map_index(s, i);
        assert(s[i] == p);
    }
    assert(s.to_set() =~= table_pairs(m));
}

/// Finds the position of `key` in an association list.
fn find_key<V>(entries: &Vec<(String, V)>, key: &String) -> (r: Option<usize>)
    ensures
        match r {
            Some(i) => i < entries@.len() && entries@[i as int].0@ == key@,
            None => forall|j: int| 0 <= j < entries@.len() ==> entries@[j].0@ != key@,
        },
{
    let mut i: usize = 0;
    while i < entries.len()
        invariant
            i <= entries@.len(),
            forall|j: int| 0 <= j < i ==> entries@[j].0@ != key@,
        decreases entries@.len() - i,
    {
        if entries[i].0 == *key {
            return Some(i);
        }
        i = i + 1;
    }
    None
}

impl Clone for Value {
    /// A copy with the same model.
    fn clone(&self) -> (r: Value)
        ensures
            r@ == self@,
    {
        match self {
            Value::Str(s) => Value::Str(s.clone()),
            Value::Bytes(b) => Value::Bytes(clone_bytes(b)),
            Value::Int(i) => Value::Int(*i),
            Value::FloatBits(bits) => Value::FloatBits(*bits),
            Value::Bool(b) => Value::Bool(*b),
        }
    }
}

/// The engine-native item of the in-memory engine: one owned entry.
impl IntoKvpair for (String, Value) {
    open spec fn pair_view(&self) -> (Seq<char>, ValueModel) {
        (self.0@, self.1@)
    }

    fn into_kvpair(self) -> (p: Kvpair)
        ensures
            p@ == self.pair_view(),
    {
        Kvpair { key: self.0, value: self.1 }
    }
}

/// The in-memory engine's native sequence: a table's entries, handed out
/// front to back.
pub struct MemIter {
    entries: Vec<(String, Value)>,
}

impl NativeSource for MemIter {
    type Item = (String, Value);

    closed spec fn native_remaining(&self) -> Seq<(String, Value)> {
        self.entries@
    }

    fn next_native(&mut self) -> (r: Option<(String, Value)>)
        ensures
            match r {
                Some(item) => old(self).native_remaining().len() > 0 && item == old(
                    self,
                ).native_remaining()[0] && final(self).native_remaining() == old(
                    self,
                ).native_remaining().drop_first(),
                None => old(self).native_remaining().len() == 0 && final(self).native_remaining()
                    == old(self).native_remaining(),
            },
    {
        if self.entries.len() == 0 {
            None
        } else {
            let e = self.entries.remove(0);
            proof {
                assert(self.entries@ =~= old(self).entries@.drop_first());
            }
            Some(e)
        }
    }
}

/// The in-memory engine: a table name to entries association, each table
/// an independently keyed association of string key to value. No
/// persistence; state lives only in the process. Tables are created on
/// first write.
pub struct MemTable {
    tables: Vec<(String, Vec<(String, Value)>)>,
}

impl MemTable {
    /// A fresh engine holding no tables.
    pub fn new() -> (s: MemTable)
        ensures
            s.wf(),
            s.never_fails(),
            s.tables() == Map::<Seq<char>, TableModel>::empty(),
    {
        let s = MemTable { tables: Vec::new() };
        proof {
            assert(store_views(s.tables@) =~= Seq::<(Seq<char>, TableModel)>::empty());
        }
        s
    }
}

impl Storage for MemTable {
    closed spec fn tables(&self) -> StoreModel {
        kv_map(store_views(self.tables@))
    }

    closed spec fn wf(&self) -> bool {
        &&& keys_unique(store_views(self.tables@))
        &&& forall|i: int|
            0 <= i < self.tables@.len() ==> #[trigger] keys_unique(
                entry_views(self.tables@[i].1@),
            )
    }

    closed spec fn never_fails(&self) -> bool {
        true
    }

    type Iter = StorageIter<MemIter>;

    fn get(&self, table: &str, key: &str) -> (r: Result<Option<Value>, KvError>) {
        let table_owned = table.to_owned();
        let key_owned = key.to_owned();
        match find_key(&self.tables, &table_owned) {
            None => {
                proof {
                    assert(forall|j: int|
                        0 <= j < store_views(self.tables@).len() ==> store_views(self.tables@)[j].0
                            != table@);
                    lemma_kv_map_absent(store_views(self.tables@), table@);
                }
                Ok(None)
            },
            Some(ti) => {
                proof {
                    lemma_kv_map_index(store_views(self.tables@), ti as int);
                }
                let entry = &self.tables[ti];
                match find_key(&entry.1, &key_owned) {
                    None => {
                        proof {
                            assert(forall|j: int|
                                0 <= j < entry_views(entry.1@).len() ==> entry_views(entry.1@)[j].0
                                    != key@);
                            lemma_kv_map_absent(entry_views(entry.1@), key@);
                        }
                        Ok(None)
                    },
                    Some(ki) => {
                        proof {
                            lemma_kv_map_index(entry_views(entry.1@), ki as int);
                        }
                        let v = entry.1[ki].1.clone();
                        Ok(Some(v))
                    },
                }
            },
        }
    }

    fn set(&mut self, table: &str, key: &str, value: Value) -> (r: Result<Option<Value>, KvError>) {
        let table_owned = table.to_owned();
        let key_owned = key.to_owned();
        let ghost m0 = old(self).tables();
        let ghost sv0 = store_views(old(self).tables@);
        match find_key(&self.tables, &table_owned) {
            None => {
                proof {
                    assert(forall|j: int| 0 <= j < sv0.len() ==> sv0[j].0 != table@);
                    lemma_kv_map_absent(sv0, table@);
                }
                let mut tentries: Vec<(String, Value)> = Vec::new();
                tentries.push((key_owned, value));
                let ghost tv = table_view(tentries@);
                proof {
                    assert(entry_views(tentries@) =~= Seq::empty().push((key@, value@)));
                    lemma_kv_map_push(Seq::empty(), (key@, value@));
                    assert(kv_map(Seq::<(Seq<char>, ValueModel)>::empty())
                        == Map::<Seq<char>, ValueModel>::empty());
                    assert(tv == Map::<Seq<char>, ValueModel>::empty().insert(key@, value@));
                }
                self.tables.push((table_owned, tentries));
                proof {
                    assert(store_views(self.tables@) =~= sv0.push((table@, tv)));
                    lemma_kv_map_push(sv0, (table@, tv));
                    assert(self.tables() == store_set(m0, table@, key@, value@));
                    assert(keys_unique(store_views(self.tables@)));
                    assert forall|i: int| 0 <= i < self.tables@.len() implies #[trigger]
                        keys_unique(entry_views(self.tables@[i].1@)) by {
                        if i < self.tables@.len() - 1 {
                            assert(self.tables@[i] == old(self).tables@[i]);
                        }
                    }
                }
                Ok(None)
            },
            Some(ti) => {
                proof {
                    lemma_kv_map_index(sv0, ti as int);
                }
                let entry = self.tables.remove(ti);
                let tname = entry.0;
                let mut tentries = entry.1;
                let ghost tev0 = entry_views(tentries@);
                let ghost tm0 = kv_map(tev0);
                proof {
                    assert(keys_unique(entry_views(old(self).tables@[ti as int].1@)));
                    assert(keys_unique(tev0));
                    assert(sv0[ti as int].1 == tm0);
                    assert(m0[table@] == tm0);
                }
                let prev: Option<Value>;
                match find_key(&tentries, &key_owned) {
                    Some(ki) => {
                        let e = tentries.remove(ki);
                        tentries.insert(ki, (e.0, value));
                        prev = Some(e.1);
                        proof {
                            assert(tentries@ =~= old(self).tables@[ti as int].1@.update(
                                ki as int,
                                (e.0, value),
                            ));
                            assert(entry_views(tentries@) =~= tev0.update(
                                ki as int,
                                (key@, value@),
                            ));
                            lemma_kv_map_index(tev0, ki as int);
                            lemma_kv_map_update(tev0, ki as int, (key@, value@));
                        }
                    },
                    None => {
                        proof {
                            assert(forall|j: int| 0 <= j < tev0.len() ==> tev0[j].0 != key@);
                            lemma_kv_map_absent(tev0, key@);
                        }
                        tentries.push((key_owned, value));
                        prev = None;
                        proof {
                            let tev1 = entry_views(tentries@);
                            assert(tev1 =~= tev0.push((key@, value@)));
                            lemma_kv_map_push(tev0, (key@, value@));
                            assert forall|a: int, b: int|
                                0 <= a < b < tev1.len() implies tev1[a].0 != tev1[b].0 by {
                                if b == tev1.len() - 1 {
                                    assert(tev1[a] == tev0[a]);
                                    assert(tev0[a].0 != key@);
                                } else {
                                    assert(tev1[a] == tev0[a] && tev1[b] == tev0[b]);
                                }
                            }
                            assert(keys_unique(tev1));
                        }
                    },
                }
                let ghost tv1 = table_view(tentries@);
                proof {
                    assert(tv1 == tm0.insert(key@, value@));
                }
                self.tables.insert(ti, (tname, tentries));
                proof {
                    assert(tname@ == table@);
                    assert(store_views(self.tables@) =~= sv0.update(ti as int, (table@, tv1)));
                    lemma_kv_map_update(sv0, ti as int, (table@, tv1));
                    assert(self.tables() == store_set(m0, table@, key@, value@));
                    assert forall|i: int| 0 <= i < self.tables@.len() implies #[trigger]
                        keys_unique(entry_views(self.tables@[i].1@)) by {
                        if i != ti as int {
                            assert(self.tables@[i] == old(self).tables@[i]);
                        }
                    }
                }
                Ok(prev)
            },
        }
    }

    fn contains(&self, table: &str, key: &str) -> (r: Result<bool, KvError>) {
        match self.get(table, key) {
            Ok(Some(_)) => Ok(true),
            Ok(None) => Ok(false),
            Err(e) => Err(e),
        }
    }

    fn del(&mut self, table: &str, key: &str) -> (r: Result<Option<Value>, KvError>) {
        let table_owned = table.to_owned();
        let key_owned = key.to_owned();
        let ghost m0 = old(self).tables();
        let ghost sv0 = store_views(old(self).tables@);
        match find_key(&self.tables, &table_owned) {
            None => {
                proof {
                    assert(forall|j: int| 0 <= j < sv0.len() ==> sv0[j].0 != table@);
                    lemma_kv_map_absent(sv0, table@);
                }
                Ok(None)
            },
            Some(ti) => {
                proof {
                    lemma_kv_map_index(sv0, ti as int);
                }
                let entry = self.tables.remove(ti);
                let tname = entry.0;
                let mut tentries = entry.1;
                let ghost tev0 = entry_views(tentries@);
                let ghost tm0 = kv_map(tev0);
                proof {
                    assert(keys_unique(entry_views(old(self).tables@[ti as int].1@)));
                    assert(keys_unique(tev0));
                    assert(sv0[ti as int].1 == tm0);
                    assert(m0[table@] == tm0);
                }
                let prev: Option<Value>;
                match find_key(&tentries, &key_owned) {
                    Some(ki) => {
                        let e = tentries.remove(ki);
                        prev = Some(e.1);
                        proof {
                            assert(entry_views(tentries@) =~= tev0.remove(ki as int));
                            lemma_kv_map_index(tev0, ki as int);
                            lemma_kv_map_remove(tev0, ki as int);
                        }
                    },
                    None => {
                        prev = None;
                        proof {
                            assert(forall|j: int| 0 <= j < tev0.len() ==> tev0[j].0 != key@);
                            lemma_kv_map_absent(tev0, key@);
                        }
                    },
                }
                let ghost tv1 = table_view(tentries@);
                self.tables.insert(ti, (tname, tentries));
                proof {
                    assert(tname@ == table@);
                    assert(store_views(self.tables@) =~= sv0.update(ti as int, (table@, tv1)));
                    lemma_kv_map_update(sv0, ti as int, (table@, tv1));
                    if store_lookup(m0, table@, key@) is Some {
                        assert(tv1 == tm0.remove(key@));
                        assert(self.tables() == store_del(m0, table@, key@));
                    } else {
                        assert(tv1 == tm0);
                        assert(self.tables() =~~= m0);
                    }
                    assert forall|i: int| 0 <= i < self.tables@.len() implies #[trigger]
                        keys_unique(entry_views(self.tables@[i].1@)) by {
                        if i != ti as int {
                            assert(self.tables@[i] == old(self).tables@[i]);
                        }
                    }
                }
                Ok(prev)
            },
        }
    }

    fn get_all(&self, table: &str) -> (r: Result<Vec<Kvpair>, KvError>) {
        let table_owned = table.to_owned();
        let mut out: Vec<Kvpair> = Vec::new();
        match find_key(&self.tables, &table_owned) {
            None => {
                proof {
                    assert(forall|j: int|
                        0 <= j < store_views(self.tables@).len() ==> store_views(self.tables@)[j].0
                            != table@);
                    lemma_kv_map_absent(store_views(self.tables@), table@);
                    assert(crate::storage::pair_views(out@) =~= Seq::<
                        (Seq<char>, ValueModel),
                    >::empty());
                    assert(crate::storage::pair_views(out@).to_set() =~= table_pairs(
                        Map::empty(),
                    ));
                }
                Ok(out)
            },
            Some(ti) => {
                proof {
                    lemma_kv_map_index(store_views(self.tables@), ti as int);
                }
                let entry = &self.tables[ti];
                let tentries = &entry.1;
                let n = tentries.len();
                let mut i: usize = 0;
                while i < n
                    invariant
                        n == tentries@.len(),
                        i <= n,
                        out@.len() == i,
                        forall|j: int| #![trigger out@[j]]
                            0 <= j < i ==> out@[j]@ == entry_views(tentries@)[j],
                    decreases n - i,
                {
                    let k = tentries[i].0.clone();
                    let v = tentries[i].1.clone();
                    out.push(Kvpair { key: k, value: v });
                    i = i + 1;
                }
                proof {
                    assert(keys_unique(entry_views(self.tables@[ti as int].1@)));
                    assert(crate::storage::pair_views(out@) =~~= entry_views(tentries@));
                    lemma_kv_pairs_set(entry_views(tentries@));
                    assert(distinct_keys(crate::storage::pair_views(out@)));
                }
                Ok(out)
            },
        }
    }

    fn get_iter(&self, table: &str) -> (r: Result<StorageIter<MemIter>, KvError>) {
        let table_owned = table.to_owned();
        let mut cloned: Vec<(String, Value)> = Vec::new();
        match find_key(&self.tables, &table_owned) {
            None => {
                proof {
                    assert(forall|j: int|
                        0 <= j < store_views(self.tables@).len() ==> store_views(self.tables@)[j].0
                            != table@);
                    lemma_kv_map_absent(store_views(self.tables@), table@);
                }
                let it = StorageIter::new(MemIter { entries: cloned });
                proof {
                    crate::storage::lemma_storage_iter_remaining(it);
                    assert(it.remaining() =~= Seq::<(Seq<char>, ValueModel)>::empty());
                    assert(it.remaining().to_set() =~= table_pairs(Map::empty()));
                }
                Ok(it)
            },
            Some(ti) => {
                proof {
                    lemma_kv_map_index(store_views(self.tables@), ti as int);
                }
                let entry = &self.tables[ti];
                let tentries = &entry.1;
                let n = tentries.len();
                let mut i: usize = 0;
                while i < n
                    invariant
                        n == tentries@.len(),
                        i <= n,
                        cloned@.len() == i,
                        forall|j: int| #![trigger cloned@[j]]
                            0 <= j < i ==> cloned@[j].0@ == tentries@[j].0@ && cloned@[j].1@
                                == tentries@[j].1@,
                    decreases n - i,
                {
                    let k = tentries[i].0.clone();
                    let v = tentries[i].1.clone();
                    cloned.push((k, v));
                    i = i + 1;
                }
                proof {
                    assert(entry_views(cloned@) =~~= entry_views(tentries@));
                }
                let it = StorageIter::new(MemIter { entries: cloned });
                proof {
                    assert(keys_unique(entry_views(self.tables@[ti as int].1@)));
                    crate::storage::lemma_storage_iter_remaining(it);
                    assert(it.remaining() =~~= entry_views(tentries@));
                    lemma_kv_pairs_set(entry_views(tentries@));
                    assert(distinct_keys(it.remaining()));
                }
                Ok(it)
            },
        }
    }
}

} // verus!
