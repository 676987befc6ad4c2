//! A small table from byte keys to values, kept in insertion order.

use vstd::prelude::*;
use crate::seqs::{kept, lemma_kept_members};

verus! {

/// Whether two byte strings are the same.
pub fn same_bytes(a: &[u8], b: &[u8]) -> (r: bool)
    ensures
        r == (a@ == b@),
{
    if a.len() != b.len() {
        return false;
    }
    let mut i: usize = 0;
    while i < a.len()
        invariant
            i <= a.len(),
            a.len() == b.len(),
            forall|j: int| 0 <= j < i ==> a@[j] == b@[j],
        decreases a.len() - i,
    {
        if a[i] != b[i] {
            return false;
        }
        i += 1;
    }
    assert(a@ =~= b@);
    true
}

/// A copy of a byte string.
pub fn copy_bytes(a: &[u8]) -> (r: Vec<u8>)
    ensures
        r@ == a@,
{
    let mut out: Vec<u8> = Vec::new();
    let mut i: usize = 0;
    while i < a.len()
        invariant
            i <= a.len(),
            out@ == a@.subrange(0, i as int),
        decreases a.len() - i,
    {
        out.push(a[i]);
        assert(out@ =~= a@.subrange(0, i + 1));
        i += 1;
    }
    assert(a@.subrange(0, a@.len() as int) =~= a@);
    out
}

/// Whether a key begins with a prefix.
pub open spec fn starts_with(key: Seq<u8>, prefix: Seq<u8>) -> bool {
    prefix.len() <= key.len() && key.subrange(0, prefix.len() as int) == prefix
}

/// Whether a key begins with a prefix.
pub fn has_prefix(key: &[u8], prefix: &[u8]) -> (r: bool)
    ensures
        r == starts_with(key@, prefix@),
{
    if prefix.len() > key.len() {
        return false;
    }
    let mut i: usize = 0;
    while i < prefix.len()
        invariant
            i <= prefix.len(),
            prefix.len() <= key.len(),
            forall|j: int| 0 <= j < i ==> key@[j] == prefix@[j],
        decreases prefix.len() - i,
    {
        if key[i] != prefix[i] {
            assert(key@.subrange(0, prefix@.len() as int)[i as int] != prefix@[i as int]);
            return false;
        }
        i += 1;
    }
    assert(key@.subrange(0, prefix@.len() as int) =~= prefix@);
    true
}

/// A map without the keys that begin with a prefix.
pub open spec fn without_prefix<V>(map: Map<Seq<u8>, V>, prefix: Seq<u8>) -> Map<Seq<u8>, V> {
    Map::new(
        |key: Seq<u8>| map.contains_key(key) && !starts_with(key, prefix),
        |key: Seq<u8>| map[key],
    )
}

/// One row of a table.
pub struct Row<V> {
    pub key: Vec<u8>,
    pub value: V,
}

/// Whether some row has the key.
pub open spec fn has_key<V>(rows: Seq<Row<V>>, key: Seq<u8>) -> bool {
    exists|i: int| 0 <= i < rows.len() && (#[trigger] rows[i]).key@ == key
}

/// The position of a row with the key.
pub open spec fn position<V>(rows: Seq<Row<V>>, key: Seq<u8>) -> int {
    choose|i: int| 0 <= i < rows.len() && (#[trigger] rows[i]).key@ == key
}

/// Whether no two rows share a key.
pub open spec fn distinct_keys<V>(rows: Seq<Row<V>>) -> bool {
    forall|i: int, j: int|
        0 <= i < j < rows.len() ==> (#[trigger] rows[i]).key@ != (#[trigger] rows[j]).key@
}

/// The rows as a map.
pub open spec fn as_map<V>(rows: Seq<Row<V>>) -> Map<Seq<u8>, V> {
    Map::new(|key: Seq<u8>| has_key(rows, key), |key: Seq<u8>| rows[position(rows, key)].value)
}

/// With distinct keys, a row's key leads back to the row.
pub proof fn lemma_position<V>(rows: Seq<Row<V>>, i: int)
    requires
        distinct_keys(rows),
        0 <= i < rows.len(),
    ensures
        has_key(rows, rows[i].key@),
        position(rows, rows[i].key@) == i,
        as_map(rows).contains_key(rows[i].key@),
        as_map(rows)[rows[i].key@] == rows[i].value,
{
    let p = position(rows, rows[i].key@);
    assert(0 <= p < rows.len() && rows[p].key@ == rows[i].key@);
    if p < i {
        assert(rows[p].key@ != rows[i].key@);
    } else if i < p {
        assert(rows[i].key@ != rows[p].key@);
    }
}

/// A table from byte keys to values. No key occurs twice.
pub struct KeyedTable<V> {
    rows: Vec<Row<V>>,
}

impl<V> View for KeyedTable<V> {
    type V = Map<Seq<u8>, V>;

    closed spec fn view(&self) -> Map<Seq<u8>, V> {
        as_map(self.rows@)
    }
}

impl<V> KeyedTable<V> {
    #[verifier::type_invariant]
    spec fn inv(&self) -> bool {
        distinct_keys(self.rows@)
    }

    /// A table without rows.
    pub fn new() -> (r: Self)
        ensures
            r@ == Map::<Seq<u8>, V>::empty(),
    {
        let r = KeyedTable { rows: Vec::new() };
        assert(r@ =~= Map::<Seq<u8>, V>::empty());
        r
    }

    fn find(&self, key: &[u8]) -> (r: Option<usize>)
        ensures
            r matches Some(i) ==> i < self.rows@.len() && self.rows@[i as int].key@ == key@,
            r is None ==> !has_key(self.rows@, key@),
    {
        let mut i: usize = 0;
        while i < self.rows.len()
            invariant
                i <= self.rows.len(),
                forall|j: int| 0 <= j < i ==> (#[trigger] self.rows@[j]).key@ != key@,
            decreases self.rows.len() - i,
        {
            if same_bytes(self.rows[i].key.as_slice(), key) {
                return Some(i);
            }
            i += 1;
        }
        None
    }

    /// The value under a key, if there is one.
    pub fn get(&self, key: &[u8]) -> (r: Option<&V>)
        ensures
            r is Some == self@.contains_key(key@),
            r matches Some(value) ==> *value == self@[key@],
    {
        proof {
            use_type_invariant(self);
        }
        match self.find(key) {
            None => None,
            Some(i) => {
                proof {
                    lemma_position(self.rows@, i as int);
                }
                Some(&self.rows[i].value)
            },
        }
    }

    /// Puts a value under a key, in place of the one that was there.
    pub fn set(&mut self, key: &[u8], value: V)
        ensures
            final(self)@ == old(self)@.insert(key@, value),
    {
        proof {
            use_type_invariant(&*self);
        }
        let ghost before = self.rows@;
        match self.find(key) {
            None => {
                let mut rows: Vec<Row<V>> = Vec::new();
                core::mem::swap(&mut self.rows, &mut rows);
                rows.push(Row { key: copy_bytes(key), value });
                proof {
                    let after = rows@;
                    assert(distinct_keys(after)) by {
                        assert forall|i: int, j: int| 0 <= i < j < after.len() implies (
                        #[trigger] after[i]).key@ != (#[trigger] after[j]).key@ by {
                            if j < before.len() {
                                assert(after[i] == before[i] && after[j] == before[j]);
                            } else {
                                assert(after[i] == before[i]);
                            }
                        }
                    }
                    assert forall|k: Seq<u8>| #[trigger]
                        as_map(after).contains_key(k) == as_map(before).insert(
                            key@,
                            value,
                        ).contains_key(k) by {
                        if has_key(before, k) {
                            let p = position(before, k);
                            assert(after[p] == before[p]);
                        }
                        if k == key@ {
                            assert(after[before.len() as int].key@ == k);
                        }
                        if has_key(after, k) && k != key@ {
                            let p = position(after, k);
                            assert(p < before.len());
                            assert(after[p] == before[p]);
                        }
                    }
                    assert forall|k: Seq<u8>| as_map(after).contains_key(k) implies #[trigger]
                        as_map(after)[k] == as_map(before).insert(key@, value)[k] by {
                        let p = position(after, k);
                        lemma_position(after, p);
                        if k != key@ {
                            assert(p < before.len());
                            assert(after[p] == before[p]);
                            lemma_position(before, p);
                        } else {
                            lemma_position(after, before.len() as int);
                        }
                    }
                    assert(as_map(after) =~= as_map(before).insert(key@, value));
                }
                core::mem::swap(&mut self.rows, &mut rows);
            },
            Some(i) => {
                let mut rows: Vec<Row<V>> = Vec::new();
                core::mem::swap(&mut self.rows, &mut rows);
                rows.set(i, Row { key: copy_bytes(key), value });
                proof {
                    let after = rows@;
                    assert forall|a: int, b: int| 0 <= a < b < after.len() implies (
                    #[trigger] after[a]).key@ != (#[trigger] after[b]).key@ by {
                        assert(after[a].key@ == before[a].key@);
                        assert(after[b].key@ == before[b].key@);
                    }
                    assert forall|k: Seq<u8>| #[trigger]
                        as_map(after).contains_key(k) == as_map(before).insert(
                            key@,
                            value,
                        ).contains_key(k) by {
                        if has_key(before, k) {
                            let p = position(before, k);
                            assert(after[p].key@ == before[p].key@);
                        }
                        if has_key(after, k) {
                            let p = position(after, k);
                            assert(after[p].key@ == before[p].key@);
                        }
                        if k == key@ {
                            assert(after[i as int].key@ == k);
                        }
                    }
                    assert forall|k: Seq<u8>| as_map(after).contains_key(k) implies #[trigger]
                        as_map(after)[k] == as_map(before).insert(key@, value)[k] by {
                        let p = position(after, k);
                        lemma_position(after, p);
                        if k != key@ {
                            assert(after[p].key@ == before[p].key@);
                            assert(p != i);
                            assert(after[p] == before[p]);
                            lemma_position(before, p);
                        } else {
                            lemma_position(after, i as int);
                        }
                    }
                    assert(as_map(after) =~= as_map(before).insert(key@, value));
                }
                core::mem::swap(&mut self.rows, &mut rows);
            },
        }
    }

    /// Takes a key and its value out. Returns whether the key was there.
    pub fn remove(&mut self, key: &[u8]) -> (r: bool)
        ensures
            final(self)@ == old(self)@.remove(key@),
            r == old(self)@.contains_key(key@),
    {
        proof {
            use_type_invariant(&*self);
        }
        let ghost before = self.rows@;
        match self.find(key) {
            None => {
                assert(as_map(before) =~= as_map(before).remove(key@));
                false
            },
            Some(i) => {
                let mut rows: Vec<Row<V>> = Vec::new();
                core::mem::swap(&mut self.rows, &mut rows);
                rows.remove(i);
                proof {
                    let after = rows@;
                    assert(after == before.remove(i as int));
                    assert forall|a: int, b: int| 0 <= a < b < after.len() implies (
                    #[trigger] after[a]).key@ != (#[trigger] after[b]).key@ by {
                        let a0 = if a < i { a } else { a + 1 };
                        let b0 = if b < i { b } else { b + 1 };
                        assert(after[a] == before[a0] && after[b] == before[b0]);
                    }
                    lemma_position(before, i as int);
                    assert forall|k: Seq<u8>| #[trigger]
                        as_map(after).contains_key(k) == as_map(before).remove(
                            key@,
                        ).contains_key(k) by {
                        if has_key(after, k) {
                            let p = position(after, k);
                            let p0 = if p < i { p } else { p + 1 };
                            assert(after[p] == before[p0]);
                            if k == key@ {
                                if p0 < i {
                                    assert(before[p0].key@ != before[i as int].key@);
                                } else {
                                    assert(before[i as int].key@ != before[p0].key@);
                                }
                            }
                        }
                        if has_key(before, k) && k != key@ {
                            let p0 = position(before, k);
                            assert(p0 != i);
                            let p = if p0 < i { p0 } else { p0 - 1 };
                            assert(after[p] == before[p0]);
                        }
                    }
                    assert forall|k: Seq<u8>| as_map(after).contains_key(k) implies #[trigger]
                        as_map(after)[k] == as_map(before).remove(key@)[k] by {
                        let p = position(after, k);
                        lemma_position(after, p);
                        let p0 = if p < i { p } else { p + 1 };
                        assert(after[p] == before[p0]);
                        lemma_position(before, p0);
                    }
                    assert(as_map(after) =~= as_map(before).remove(key@));
                }
                core::mem::swap(&mut self.rows, &mut rows);
                true
            },
        }
    }

    /// Takes out every key that begins with the prefix.
    pub fn remove_prefix(&mut self, prefix: &[u8])
        ensures
            final(self)@ == without_prefix(old(self)@, prefix@),
    {
        proof {
            use_type_invariant(&*self);
        }
        let ghost before = self.rows@;
        let ghost keep = |row: Row<V>| !starts_with(row.key@, prefix@);
        let mut rows: Vec<Row<V>> = Vec::new();
        core::mem::swap(&mut self.rows, &mut rows);
        let mut i: usize = rows.len();
        proof {
            assert(before.skip(i as int) =~= Seq::<Row<V>>::empty());
            assert(before.take(i as int) =~= before);
        }
        while i > 0
            invariant
                i <= before.len(),
                rows@ == before.take(i as int) + kept(before.skip(i as int), keep),
                keep == |row: Row<V>| !starts_with(row.key@, prefix@),
            decreases i,
        {
            i -= 1;
            let ghost tail = kept(before.skip(i + 1), keep);
            let ghost previous = rows@;
            proof {
                assert(before.take(i + 1) =~= before.take(i as int).push(before[i as int]));
                assert(before.skip(i as int).drop_first() =~= before.skip(i + 1));
                assert(before.skip(i as int)[0] == before[i as int]);
                assert(rows@[i as int] == before[i as int]);
            }
            if has_prefix(rows[i].key.as_slice(), prefix) {
                rows.remove(i);
                proof {
                    assert(rows@ =~= previous.remove(i as int));
                    assert(previous.remove(i as int) =~= before.take(i as int) + tail);
                }
            } else {
                proof {
                    assert(rows@ =~= before.take(i as int) + (seq![before[i as int]] + tail));
                }
            }
        }
        proof {
            assert(before.skip(0) =~= before);
            assert(before.take(0) =~= Seq::<Row<V>>::empty());
            assert(rows@ =~= kept(before, keep));
            lemma_kept_rows(before, prefix@);
        }
        core::mem::swap(&mut self.rows, &mut rows);
    }

    /// Takes out every key.
    pub fn clear(&mut self)
        ensures
            final(self)@ == Map::<Seq<u8>, V>::empty(),
    {
        let mut rows: Vec<Row<V>> = Vec::new();
        core::mem::swap(&mut self.rows, &mut rows);
        assert(self@ =~= Map::<Seq<u8>, V>::empty());
    }
}

/// The rows that are kept when a prefix is taken out have distinct keys and
/// stand for the map without that prefix.
proof fn lemma_kept_rows<V>(rows: Seq<Row<V>>, prefix: Seq<u8>)
    requires
        distinct_keys(rows),
    ensures
        distinct_keys(kept(rows, |row: Row<V>| !starts_with(row.key@, prefix))),
        as_map(kept(rows, |row: Row<V>| !starts_with(row.key@, prefix))) == without_prefix(
            as_map(rows),
            prefix,
        ),
{
    let keep = |row: Row<V>| !starts_with(row.key@, prefix);
    let out = kept(rows, keep);
    lemma_kept_distinct(rows, keep);
    lemma_kept_members(rows, keep);
    assert forall|key: Seq<u8>| #[trigger]
        as_map(out).contains_key(key) == without_prefix(as_map(rows), prefix).contains_key(
            key,
        ) by {
        if has_key(out, key) {
            let p = position(out, key);
            assert(keep(out[p]) && rows.contains(out[p]));
            let w = choose|w: int| 0 <= w < rows.len() && rows[w] == out[p];
            assert(rows[w].key@ == key);
        }
        if has_key(rows, key) && !starts_with(key, prefix) {
            let w = position(rows, key);
            assert(keep(rows[w]));
            assert(out.contains(rows[w]));
            let p = choose|p: int| 0 <= p < out.len() && out[p] == rows[w];
            assert(out[p].key@ == key);
        }
    }
    assert forall|key: Seq<u8>| as_map(out).contains_key(key) implies #[trigger] as_map(out)[key]
        == without_prefix(as_map(rows), prefix)[key] by {
        let p = position(out, key);
        lemma_position(out, p);
        assert(rows.contains(out[p]));
        let w = choose|w: int| 0 <= w < rows.len() && rows[w] == out[p];
        lemma_position(rows, w);
    }
    assert(as_map(out) =~= without_prefix(as_map(rows), prefix));
}

/// Leaving rows out keeps the keys distinct.
proof fn lemma_kept_distinct<V>(rows: Seq<Row<V>>, keep: spec_fn(Row<V>) -> bool)
    requires
        distinct_keys(rows),
    ensures
        distinct_keys(kept(rows, keep)),
    decreases rows.len(),
{
    if rows.len() > 0 {
        let rest = rows.drop_first();
        assert(distinct_keys(rest)) by {
            assert forall|i: int, j: int| 0 <= i < j < rest.len() implies (
            #[trigger] rest[i]).key@ != (#[trigger] rest[j]).key@ by {
                assert(rest[i] == rows[i + 1] && rest[j] == rows[j + 1]);
            }
        }
        lemma_kept_distinct(rest, keep);
        lemma_kept_members(rest, keep);
        let out = kept(rows, keep);
        let sub = kept(rest, keep);
        if keep(rows[0]) {
            assert forall|i: int, j: int| 0 <= i < j < out.len() implies (#[trigger] out[i]).key@
                != (#[trigger] out[j]).key@ by {
                assert(out[j] == sub[j - 1]);
                if i == 0 {
                    let w = choose|w: int| 0 <= w < rest.len() && rest[w] == sub[j - 1];
                    assert(rows[w + 1] == rest[w]);
                    assert(rows[0].key@ != rows[w + 1].key@);
                } else {
                    assert(out[i] == sub[i - 1]);
                }
            }
        }
    }
}

} // verus!
