//! The in-memory record table backing a store handle.
//!
//! Records are kept as a vector of key/value byte buffers with pairwise
//! distinct keys; its mathematical meaning is the finite map from key bytes
//! to value bytes built by [`kv_map`].

use vstd::prelude::*;

verus! {

/// One stored record: a key and its current value, both as byte buffers.
pub(crate) struct Entry {
    pub(crate) key: Vec<u8>,
    pub(crate) value: Vec<u8>,
}

impl View for Entry {
    type V = (Seq<u8>, Seq<u8>);

    closed spec fn view(&self) -> (Seq<u8>, Seq<u8>) {
        (self.key@, self.value@)
    }
}

/// The key/value views of a record sequence.
pub(crate) open spec fn views_of(s: Seq<Entry>) -> Seq<(Seq<u8>, Seq<u8>)> {
    s.map_values(|e: Entry| e@)
}

/// The finite map a sequence of key/value pairs denotes; a later pair wins
/// over an earlier one with the same key.
pub open spec fn kv_map<K, V>(s: Seq<(K, V)>) -> Map<K, V>
    decreases s.len(),
{
    if s.len() == 0 {
        Map::empty()
    } else {
        kv_map(s.drop_last()).insert(s.last().0, s.last().1)
    }
}

/// The keys of the pairs are pairwise distinct.
pub open spec fn kv_distinct<K, V>(s: Seq<(K, V)>) -> bool {
    forall|i: int, j: int| 0 <= i < j < s.len() ==> s[i].0 != s[j].0
}

pub(crate) proof fn lemma_kv_map_contains<K, V>(s: Seq<(K, V)>, k: K)
    ensures
        kv_map(s).contains_key(k) <==> exists|i: int| 0 <= i < s.len() && s[i].0 == k,
    decreases s.len(),
{
    if s.len() > 0 {
        lemma_kv_map_contains(s.drop_last(), k);
        if exists|i: int| 0 <= i < s.drop_last().len() && s.drop_last()[i].0 == k {
            let i = choose|i: int| 0 <= i < s.drop_last().len() && s.drop_last()[i].0 == k;
            assert(s[i].0 == k);
        }
        if s.last().0 == k {
            assert(s[s.len() - 1].0 == k);
        }
        if exists|i: int| 0 <= i < s.len() && s[i].0 == k {
            let i = choose|i: int| 0 <= i < s.len() && s[i].0 == k;
            if i < s.len() - 1 {
                assert(s.drop_last()[i].0 == k);
            }
        }
    }
}

pub(crate) proof fn lemma_kv_map_finite<K, V>(s: Seq<(K, V)>)
    ensures
        kv_map(s).dom().finite(),
    decreases s.len(),
{
    if s.len() > 0 {
        lemma_kv_map_finite(s.drop_last());
    }
}

pub(crate) proof fn lemma_kv_map_index<K, V>(s: Seq<(K, V)>, i: int)
    requires
        kv_distinct(s),
        0 <= i < s.len(),
    ensures
        kv_map(s).contains_key(s[i].0),
        kv_map(s)[s[i].0] == s[i].1,
    decreases s.len(),
{
    lemma_kv_map_contains(s, s[i].0);
    if i < s.len() - 1 {
        assert(kv_distinct(s.drop_last()));
        lemma_kv_map_index(s.drop_last(), i);
        assert(s[i].0 != s.last().0);
    }
}

pub(crate) proof fn lemma_kv_map_len<K, V>(s: Seq<(K, V)>)
    requires
        kv_distinct(s),
    ensures
        kv_map(s).dom().len() == s.len(),
    decreases s.len(),
{
    if s.len() > 0 {
        let d = s.drop_last();
        assert(kv_distinct(d));
        lemma_kv_map_len(d);
        lemma_kv_map_finite(d);
        lemma_kv_map_contains(d, s.last().0);
        assert(forall|i: int| 0 <= i < d.len() ==> d[i].0 != s.last().0);
        assert(!kv_map(d).contains_key(s.last().0));
        assert(kv_map(s).dom() =~= kv_map(d).dom().insert(s.last().0));
        vstd::set::axiom_set_insert_len(kv_map(d).dom(), s.last().0);
    }
}

pub(crate) proof fn lemma_kv_map_update<K, V>(s: Seq<(K, V)>, i: int, v: V)
    requires
        kv_distinct(s),
        0 <= i < s.len(),
    ensures
        kv_map(s.update(i, (s[i].0, v))) =~= kv_map(s).insert(s[i].0, v),
        kv_distinct(s.update(i, (s[i].0, v))),
    decreases s.len(),
{
    let k = s[i].0;
    let t = s.update(i, (k, v));
    assert(kv_distinct(t));
    if i == s.len() - 1 {
        assert(t.drop_last() =~= s.drop_last());
        assert(t.last() == (k, v));
    } else {
        assert(kv_distinct(s.drop_last()));
        assert(t.drop_last() =~= s.drop_last().update(i, (k, v)));
        assert(s.drop_last()[i].0 == k);
        lemma_kv_map_update(s.drop_last(), i, v);
        assert(t.last() == s.last());
        assert(k != s.last().0);
    }
}

pub(crate) proof fn lemma_kv_map_remove<K, V>(s: Seq<(K, V)>, i: int)
    requires
        kv_distinct(s),
        0 <= i < s.len(),
    ensures
        kv_map(s.remove(i)) =~= kv_map(s).remove(s[i].0),
        kv_distinct(s.remove(i)),
    decreases s.len(),
{
    let k = s[i].0;
    let t = s.remove(i);
    assert(kv_distinct(t)) by {
        assert(forall|a: int, b: int| 0 <= a < b < t.len() ==> t[a].0 != t[b].0) by {
            assert(forall|a: int| 0 <= a < t.len() ==> t[a] == if a < i {
                s[a]
            } else {
                s[a + 1]
            });
        }
    }
    if i == s.len() - 1 {
        assert(t =~= s.drop_last());
        lemma_kv_map_contains(t, k);
        assert(forall|j: int| 0 <= j < t.len() ==> t[j].0 != k);
        assert(!kv_map(t).contains_key(k));
    } else {
        assert(kv_distinct(s.drop_last()));
        assert(t.drop_last() =~= s.drop_last().remove(i));
        assert(s.drop_last()[i].0 == k);
        lemma_kv_map_remove(s.drop_last(), i);
        assert(t.last() == s.last());
        assert(k != s.last().0);
    }
}

/// Whether two byte slices hold the same bytes.
pub(crate) fn bytes_eq(a: &[u8], b: &[u8]) -> (r: bool)
    ensures
        r == (a@ == b@),
{
    if a.len() != b.len() {
        return false;
    }
    let mut i: usize = 0;
    while i < a.len()
        invariant
            i <= a@.len(),
            a@.len() == b@.len(),
            forall|j: int| 0 <= j < i ==> a@[j] == b@[j],
        decreases a@.len() - i,
    {
        if a[i] != b[i] {
            return false;
        }
        i = i + 1;
    }
    proof {
        assert(a@ =~= b@);
    }
    true
}

/// Copy a byte slice into an owned buffer.
pub(crate) fn bytes_to_vec(a: &[u8]) -> (r: Vec<u8>)
    ensures
        r@ == a@,
{
    let mut r: Vec<u8> = Vec::new();
    let mut i: usize = 0;
    while i < a.len()
        invariant
            i <= a@.len(),
            r@ == a@.take(i as int),
        decreases a@.len() - i,
    {
        r.push(a[i]);
        i = i + 1;
    }
    proof {
        assert(r@ =~= a@);
    }
    r
}

/// The index of the record holding `key`, if one exists.
pub(crate) fn find_index(table: &Vec<Entry>, key: &[u8]) -> (r: Option<usize>)
    ensures
        match r {
            Some(i) => i < table@.len() && table@[i as int].key@ == key@,
            None => forall|j: int| 0 <= j < table@.len() ==> views_of(table@)[j].0 != key@,
        },
{
    let mut i: usize = 0;
    while i < table.len()
        invariant
            i <= table@.len(),
            forall|j: int| 0 <= j < i ==> table@[j].key@ != key@,
        decreases table@.len() - i,
    {
        if bytes_eq(table[i].key.as_slice(), key) {
            return Some(i);
        }
        i = i + 1;
    }
    proof {
        assert(forall|j: int| 0 <= j < table@.len() ==> views_of(table@)[j].0 != key@);
    }
    None
}

/// Store `value` under `key`: replace the record holding `key`, or append a
/// fresh one.
pub(crate) fn table_upsert(table: &mut Vec<Entry>, key: Vec<u8>, value: Vec<u8>)
    requires
        kv_distinct(views_of(old(table)@)),
    ensures
        kv_distinct(views_of(final(table)@)),
        kv_map(views_of(final(table)@)) == kv_map(views_of(old(table)@)).insert(key@, value@),
{
    let ghost s = views_of(table@);
    match find_index(table, key.as_slice()) {
        Some(i) => {
            proof {
                lemma_kv_map_update(s, i as int, value@);
            }
            table.set(i, Entry { key, value });
            proof {
                assert(views_of(table@) =~= s.update(i as int, (s[i as int].0, value@)));
            }
        },
        None => {
            let ghost kv = key@;
            let ghost vv = value@;
            table.push(Entry { key, value });
            proof {
                assert(views_of(table@) =~= s.push((kv, vv)));
                assert(views_of(table@).drop_last() =~= s);
                assert(kv_distinct(views_of(table@)));
            }
        },
    }
}

/// The current value stored under `key`, if any.
pub(crate) fn table_get<'a>(table: &'a Vec<Entry>, key: &[u8]) -> (r: Option<&'a Vec<u8>>)
    requires
        kv_distinct(views_of(table@)),
    ensures
        match r {
            Some(v) => kv_map(views_of(table@)).contains_key(key@) && v@ == kv_map(
                views_of(table@),
            )[key@],
            None => !kv_map(views_of(table@)).contains_key(key@),
        },
{
    let ghost s = views_of(table@);
    match find_index(table, key) {
        Some(i) => {
            proof {
                lemma_kv_map_index(s, i as int);
            }
            Some(&table[i].value)
        },
        None => {
            proof {
                lemma_kv_map_contains(s, key@);
            }
            None
        },
    }
}

/// Remove the record holding `key`; reports whether one was there.
pub(crate) fn table_remove(table: &mut Vec<Entry>, key: &[u8]) -> (removed: bool)
    requires
        kv_distinct(views_of(old(table)@)),
    ensures
        kv_distinct(views_of(final(table)@)),
        removed == kv_map(views_of(old(table)@)).contains_key(key@),
        kv_map(views_of(final(table)@)) == kv_map(views_of(old(table)@)).remove(key@),
{
    let ghost s = views_of(table@);
    match find_index(table, key) {
        Some(i) => {
            proof {
                lemma_kv_map_index(s, i as int);
                lemma_kv_map_remove(s, i as int);
            }
            table.remove(i);
            proof {
                assert(views_of(table@) =~= s.remove(i as int));
            }
            true
        },
        None => {
            proof {
                lemma_kv_map_contains(s, key@);
                assert(kv_map(s).remove(key@) =~= kv_map(s));
            }
            false
        },
    }
}

/// An owned copy of the table, record by record.
pub(crate) fn table_copy(table: &Vec<Entry>) -> (r: Vec<Entry>)
    ensures
        views_of(r@) == views_of(table@),
{
    let mut r: Vec<Entry> = Vec::new();
    let mut i: usize = 0;
    while i < table.len()
        invariant
            i <= table@.len(),
            views_of(r@) == views_of(table@).take(i as int),
        decreases table@.len() - i,
    {
        let key = bytes_to_vec(table[i].key.as_slice());
        let value = bytes_to_vec(table[i].value.as_slice());
        let ghost prev = r@;
        r.push(Entry { key, value });
        proof {
            assert(views_of(prev).len() == prev.len());
            assert(views_of(r@)[i as int] == r@[i as int]@);
            assert(views_of(r@) =~~= views_of(table@).take(i as int + 1));
        }
        i = i + 1;
    }
    proof {
        assert(views_of(r@) =~~= views_of(table@));
    }
    r
}

/// Owned copies of the key and value of the record at `i`.
pub(crate) fn entry_at(table: &Vec<Entry>, i: usize) -> (r: (Vec<u8>, Vec<u8>))
    requires
        i < table@.len(),
    ensures
        r.0@ == views_of(table@)[i as int].0,
        r.1@ == views_of(table@)[i as int].1,
{
    let k = bytes_to_vec(table[i].key.as_slice());
    let v = bytes_to_vec(table[i].value.as_slice());
    (k, v)
}

} // verus!
