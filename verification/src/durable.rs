use vstd::prelude::*;

use vstd::string::StrSliceExecFns;

verus! {

/// The byte that separates the table name from the key in the physical
/// keyspace of a disk-backed engine. A disk-backed engine keeps every
/// table in one flat ordered keyspace, namespacing each entry as
/// `table`, this separator, `key`; `get_all` is then a prefix scan over
/// `table` plus the separator, stripping that prefix from what it finds.
/// This choice is part of the on-disk format: a table whose *name*
/// carries the separator can collide with another (see
/// [`lemma_phys_key_injective`]), so table names must stay free of it;
/// keys may carry it freely, since only the first occurrence splits.
pub const TABLE_SEPARATOR: char = '\u{1}';

/// Whether a name stays clear of the separator.
pub open spec fn separator_free(s: Seq<char>) -> bool {
    forall|i: int| 0 <= i < s.len() ==> s[i] != TABLE_SEPARATOR
}

/// The physical key an entry of `table` is stored under.
pub fn phys_key(table: &str, key: &str) -> (r: String)
    ensures
        r@ == table@ + seq![TABLE_SEPARATOR] + key@,
{
    let mut r = table.to_owned();
    r.append("\u{1}");
    r.append(key);
    proof {
        reveal_strlit("\u{1}");
        assert("\u{1}"@ =~= seq![TABLE_SEPARATOR]);
        assert(r@ =~= table@ + seq![TABLE_SEPARATOR] + key@);
    }
    r
}

/// The prefix of every physical key of `table`: the name, then the
/// separator. A whole-table read scans for this prefix.
pub fn table_prefix(table: &str) -> (r: String)
    ensures
        r@ == table@ + seq![TABLE_SEPARATOR],
{
    let mut r = table.to_owned();
    r.append("\u{1}");
    proof {
        reveal_strlit("\u{1}");
        assert("\u{1}"@ =~= seq![TABLE_SEPARATOR]);
        assert(r@ =~= table@ + seq![TABLE_SEPARATOR]);
    }
    r
}

/// Splits a physical key at the first separator back into table name and
/// key; answers nothing on a key that carries no separator (no such
/// physical key is ever written by the format above).
pub fn split_phys_key(phys: &str) -> (r: Option<(String, String)>)
    ensures
        match r {
            Some((t, k)) => phys@ == t@ + seq![TABLE_SEPARATOR] + k@ && separator_free(t@),
            None => separator_free(phys@),
        },
{
    let n = phys.unicode_len();
    let mut i: usize = 0;
    while i < n
        invariant
            n == phys@.len(),
            i <= n,
            forall|j: int| 0 <= j < i ==> phys@[j] != TABLE_SEPARATOR,
        decreases n - i,
    {
        if phys.get_char(i) == '\u{1}' {
            let t = phys.substring_char(0, i).to_owned();
            let k = phys.substring_char(i + 1, n).to_owned();
            proof {
                assert(t@ =~= phys@.subrange(0, i as int));
                assert(k@ =~= phys@.subrange(i + 1, n as int));
                assert(phys@ =~= t@ + seq![TABLE_SEPARATOR] + k@);
            }
            return Some((t, k));
        }
        i = i + 1;
    }
    None
}

/// The compatibility-relevant fact of the format: as long as table names
/// stay free of the separator, distinct (table, key) pairs land under
/// distinct physical keys — no entry of one table can shadow another's.
pub proof fn lemma_phys_key_injective(
    t1: Seq<char>,
    k1: Seq<char>,
    t2: Seq<char>,
    k2: Seq<char>,
)
    requires
        separator_free(t1),
        separator_free(t2),
        t1 + seq![TABLE_SEPARATOR] + k1 == t2 + seq![TABLE_SEPARATOR] + k2,
    ensures
        t1 == t2,
        k1 == k2,
{
    let p = t1 + seq![TABLE_SEPARATOR] + k1;
    let q = t2 + seq![TABLE_SEPARATOR] + k2;
    assert(p[t1.len() as int] == TABLE_SEPARATOR);
    assert(p[t2.len() as int] == TABLE_SEPARATOR);
    if t1.len() < t2.len() {
        assert(q[t1.len() as int] == t2[t1.len() as int]);
        assert(false);
    }
    if t2.len() < t1.len() {
        assert(p[t2.len() as int] == t1[t2.len() as int]);
        assert(false);
    }
    assert(p.len() == q.len());
    assert(k1.len() == k2.len());
    assert forall|i: int| 0 <= i < t1.len() implies t1[i] == t2[i] by {
        assert(p[i] == t1[i]);
        assert(q[i] == t2[i]);
    }
    assert(t1 =~= t2);
    assert forall|i: int| 0 <= i < k1.len() implies k1[i] == k2[i] by {
        assert(p[t1.len() + 1 + i] == k1[i]);
        assert(q[t2.len() + 1 + i] == k2[i]);
    }
    assert(k1 =~= k2);
}

/// Whether `pre` starts `s`: the scan predicate of a whole-table read.
pub open spec fn spec_has_prefix(s: Seq<char>, pre: Seq<char>) -> bool {
    s.len() >= pre.len() && s.subrange(0, pre.len() as int) == pre
}

/// Tests the scan predicate on real strings.
pub fn has_prefix(s: &str, pre: &str) -> (r: bool)
    ensures
        r == spec_has_prefix(s@, pre@),
{
    let n = s.unicode_len();
    let m = pre.unicode_len();
    if m > n {
        return false;
    }
    let mut i: usize = 0;
    while i < m
        invariant
            n == s@.len(),
            m == pre@.len(),
            m <= n,
            i <= m,
            forall|j: int| 0 <= j < i ==> s@[j] == pre@[j],
        decreases m - i,
    {
        if s.get_char(i) != pre.get_char(i) {
            proof {
                assert(s@.subrange(0, m as int)[i as int] != pre@[i as int]);
            }
            return false;
        }
        i = i + 1;
    }
    proof {
        assert(s@.subrange(0, m as int) =~= pre@);
    }
    true
}

} // verus!
