//! A small ordered index: the records filed under each key, in the order in
//! which they were filed.  Keys are told apart by what they hold.

use crate::address::SocketAddress;
use vstd::prelude::*;

verus! {

/// A type whose values can be told apart by their views.
pub trait Key: View + Sized {
    /// Whether `self` and `other` hold the same.
    fn same(&self, other: &Self) -> (b: bool)
        ensures
            b == (self@ == other@),
    ;
}

impl Key for String {
    fn same(&self, other: &Self) -> (b: bool) {
        *self == *other
    }
}

impl Key for SocketAddress {
    fn same(&self, other: &Self) -> (b: bool) {
        *self == *other
    }
}

impl Key for u16 {
    fn same(&self, other: &Self) -> (b: bool) {
        *self == *other
    }
}

/// The records filed under one key.
#[derive(Clone, Debug)]
pub struct Entry<K, R> {
    key: K,
    records: Vec<R>,
}

/// Records filed under keys.
#[derive(Clone, Debug)]
pub struct Index<K, R> {
    entries: Vec<Entry<K, R>>,
}

/// The records of the first entry of `entries`, from position `k` on, that is
/// filed under `key`; none where there is no such entry.
pub closed spec fn records_from<K: Key, R>(entries: Seq<Entry<K, R>>, key: K::V, k: int) -> Seq<R>
    decreases entries.len() - k,
{
    if k < 0 || k >= entries.len() {
        Seq::empty()
    } else if entries[k].key@ == key {
        entries[k].records@
    } else {
        records_from(entries, key, k + 1)
    }
}

/// No entry before position `n` is filed under `key`.
spec fn absent_before<K: Key, R>(entries: Seq<Entry<K, R>>, key: K::V, n: int) -> bool {
    forall|j: int| 0 <= j < n && j < entries.len() ==> (#[trigger] entries[j]).key@ != key
}

/// Entries that are skipped do not change what is found.
proof fn lemma_skip_absent<K: Key, R>(entries: Seq<Entry<K, R>>, key: K::V, k: int, n: int)
    requires
        0 <= k <= n <= entries.len(),
        absent_before(entries, key, n),
    ensures
        records_from(entries, key, k) == records_from(entries, key, n),
    decreases n - k,
{
    if k < n {
        assert(entries[k].key@ != key);
        lemma_skip_absent(entries, key, k + 1, n);
    }
}

/// Two lists of entries that agree on every entry filed under `key` hold the
/// same records for it.
proof fn lemma_same_for_key<K: Key, R>(
    a: Seq<Entry<K, R>>,
    b: Seq<Entry<K, R>>,
    key: K::V,
    k: int,
)
    requires
        0 <= k,
        a.len() <= b.len(),
        forall|j: int| 0 <= j < a.len() ==> (#[trigger] a[j]).key@ == b[j].key@,
        forall|j: int| 0 <= j < a.len() && a[j].key@ == key ==> (#[trigger] a[j]).records@ == b[j].records@,
        forall|j: int| a.len() <= j < b.len() ==> (#[trigger] b[j]).key@ != key,
    ensures
        records_from(a, key, k) == records_from(b, key, k),
    decreases b.len() - k,
{
    if k < b.len() {
        lemma_same_for_key(a, b, key, k + 1);
        if k < a.len() {
            assert(a[k].key@ == b[k].key@);
        } else {
            assert(b[k].key@ != key);
        }
    }
}

impl<K: Key, R> Index<K, R> {
    /// The records filed under `key`, in the order in which they were filed.
    pub closed spec fn records(&self, key: K::V) -> Seq<R> {
        records_from(self.entries@, key, 0)
    }

    /// No key has two entries.
    pub closed spec fn wf(&self) -> bool {
        forall|i: int, j: int|
            0 <= i < j < self.entries@.len() ==> (#[trigger] self.entries@[i]).key@
                != (#[trigger] self.entries@[j]).key@
    }

    /// The number of keys that have an entry.
    pub closed spec fn spec_len(&self) -> nat {
        self.entries@.len()
    }

    /// The key of the entry at position `i`.
    pub closed spec fn spec_key_at(&self, i: int) -> K::V {
        self.entries@[i].key@
    }

    /// An index without records.
    pub fn new() -> (index: Self)
        ensures
            index.wf(),
            index.spec_len() == 0,
            forall|key: K::V| #[trigger] index.records(key) == Seq::<R>::empty(),
    {
        Index { entries: Vec::new() }
    }

    /// The position of the entry filed under `key`, if there is one.
    fn position(&self, key: &K) -> (found: Option<usize>)
        ensures
            match found {
                Some(i) => i < self.entries@.len() && self.entries@[i as int].key@ == key@
                    && absent_before(self.entries@, key@, i as int),
                None => absent_before(self.entries@, key@, self.entries@.len() as int),
            },
    {
        let mut i: usize = 0;
        while i < self.entries.len()
            invariant
                i <= self.entries.len(),
                absent_before(self.entries@, key@, i as int),
            decreases self.entries.len() - i,
        {
            if self.entries[i].key.same(key) {
                return Some(i);
            }
            i += 1;
        }
        None
    }

    /// The records filed under `key`.
    pub fn get(&self, key: &K) -> (found: Option<&Vec<R>>)
        ensures
            match found {
                Some(records) => records@ == self.records(key@),
                None => self.records(key@) == Seq::<R>::empty(),
            },
    {
        match self.position(key) {
            Some(i) => {
                proof {
                    lemma_skip_absent(self.entries@, key@, 0, i as int);
                }
                Some(&self.entries[i].records)
            },
            None => {
                proof {
                    lemma_skip_absent(self.entries@, key@, 0, self.entries@.len() as int);
                }
                None
            },
        }
    }

    /// Files `record` under `key`, behind the records that are there already.
    pub fn push(&mut self, key: K, record: R)
        ensures
            forall|other: K::V|
                #[trigger] final(self).records(other) == if other == key@ {
                    old(self).records(other).push(record)
                } else {
                    old(self).records(other)
                },
            old(self).wf() ==> final(self).wf(),
    {
        let ghost before = self.entries@;
        match self.position(&key) {
            Some(i) => {
                let mut entry = self.entries.remove(i);
                entry.records.push(record);
                self.entries.insert(i, entry);
                proof {
                    let after = self.entries@;
                    assert(after.len() == before.len());
                    assert forall|j: int| 0 <= j < before.len() implies (#[trigger] before[j]).key@
                        == after[j].key@ by {}
                    assert forall|other: K::V|
                        #[trigger] records_from(after, other, 0) == if other == key@ {
                            records_from(before, other, 0).push(record)
                        } else {
                            records_from(before, other, 0)
                        } by {
                        if other == key@ {
                            assert(absent_before(after, other, i as int)) by {
                                assert forall|j: int| 0 <= j < i && j < after.len() implies (
                                #[trigger] after[j]).key@ != other by {
                                    assert(before[j].key@ == after[j].key@);
                                }
                            }
                            lemma_skip_absent(before, other, 0, i as int);
                            lemma_skip_absent(after, other, 0, i as int);
                        } else {
                            assert forall|j: int|
                                0 <= j < before.len() && before[j].key@ == other implies (
                            #[trigger] before[j]).records@ == after[j].records@ by {}
                            lemma_same_for_key(before, after, other, 0);
                        }
                    }
                    if old(self).wf() {
                        assert forall|a: int, b: int| 0 <= a < b < after.len() implies (
                        #[trigger] after[a]).key@ != (#[trigger] after[b]).key@ by {
                            assert(before[a].key@ == after[a].key@);
                            assert(before[b].key@ == after[b].key@);
                        }
                    }
                }
            },
            None => {
                let mut records: Vec<R> = Vec::new();
                records.push(record);
                self.entries.push(Entry { key, records });
                proof {
                    let after = self.entries@;
                    assert forall|other: K::V|
                        #[trigger] records_from(after, other, 0) == if other == key@ {
                            records_from(before, other, 0).push(record)
                        } else {
                            records_from(before, other, 0)
                        } by {
                        if other == key@ {
                            assert(absent_before(after, other, before.len() as int));
                            lemma_skip_absent(before, other, 0, before.len() as int);
                            lemma_skip_absent(after, other, 0, before.len() as int);
                            assert(records_from(after, other, before.len() as int) =~= Seq::<
                                R,
                            >::empty().push(record));
                        } else {
                            lemma_same_for_key(before, after, other, 0);
                        }
                    }
                    if old(self).wf() {
                        assert forall|a: int, b: int| 0 <= a < b < after.len() implies (
                        #[trigger] after[a]).key@ != (#[trigger] after[b]).key@ by {
                            if b < before.len() {
                                assert(before[a].key@ != before[b].key@);
                            } else {
                                assert(before[a].key@ != key@);
                            }
                        }
                    }
                }
            },
        }
    }

    /// Files `records` under `key`, in place of what was filed there.
    pub fn put(&mut self, key: K, records: Vec<R>)
        ensures
            forall|other: K::V|
                #[trigger] final(self).records(other) == if other == key@ {
                    records@
                } else {
                    old(self).records(other)
                },
            old(self).wf() ==> final(self).wf(),
    {
        let ghost before = self.entries@;
        match self.position(&key) {
            Some(i) => {
                let mut entry = self.entries.remove(i);
                entry.records = records;
                self.entries.insert(i, entry);
                proof {
                    let after = self.entries@;
                    assert(after.len() == before.len());
                    assert forall|j: int| 0 <= j < before.len() implies (#[trigger] before[j]).key@
                        == after[j].key@ by {}
                    assert forall|other: K::V|
                        #[trigger] records_from(after, other, 0) == if other == key@ {
                            records@
                        } else {
                            records_from(before, other, 0)
                        } by {
                        if other == key@ {
                            assert(absent_before(after, other, i as int)) by {
                                assert forall|j: int| 0 <= j < i && j < after.len() implies (
                                #[trigger] after[j]).key@ != other by {
                                    assert(before[j].key@ == after[j].key@);
                                }
                            }
                            lemma_skip_absent(after, other, 0, i as int);
                        } else {
                            assert forall|j: int|
                                0 <= j < before.len() && before[j].key@ == other implies (
                            #[trigger] before[j]).records@ == after[j].records@ by {}
                            lemma_same_for_key(before, after, other, 0);
                        }
                    }
                    if old(self).wf() {
                        assert forall|a: int, b: int| 0 <= a < b < after.len() implies (
                        #[trigger] after[a]).key@ != (#[trigger] after[b]).key@ by {
                            assert(before[a].key@ == after[a].key@);
                            assert(before[b].key@ == after[b].key@);
                        }
                    }
                }
            },
            None => {
                self.entries.push(Entry { key, records });
                proof {
                    let after = self.entries@;
                    assert forall|other: K::V|
                        #[trigger] records_from(after, other, 0) == if other == key@ {
                            records@
                        } else {
                            records_from(before, other, 0)
                        } by {
                        if other == key@ {
                            assert(absent_before(after, other, before.len() as int));
                            lemma_skip_absent(after, other, 0, before.len() as int);
                        } else {
                            lemma_same_for_key(before, after, other, 0);
                        }
                    }
                    if old(self).wf() {
                        assert forall|a: int, b: int| 0 <= a < b < after.len() implies (
                        #[trigger] after[a]).key@ != (#[trigger] after[b]).key@ by {
                            if b < before.len() {
                                assert(before[a].key@ != before[b].key@);
                            } else {
                                assert(before[a].key@ != key@);
                            }
                        }
                    }
                }
            },
        }
    }

    /// The number of keys that have an entry.
    pub fn len(&self) -> (n: usize)
        ensures
            n == self.spec_len(),
    {
        self.entries.len()
    }

    /// The key of the entry at position `i`, and its records.
    pub fn entry_at(&self, i: usize) -> (entry: (&K, &Vec<R>))
        requires
            i < self.spec_len(),
        ensures
            entry.0@ == self.spec_key_at(i as int),
            self.wf() ==> entry.1@ == self.records(entry.0@),
    {
        proof {
            if self.wf() {
                lemma_skip_absent(self.entries@, self.entries@[i as int].key@, 0, i as int);
            }
        }
        (&self.entries[i].key, &self.entries[i].records)
    }
}

} // verus!
