//! The key-value store that everything is kept in, and one in memory.
use vstd::prelude::*;

use crate::bytes::{bytes_less, bytes_of, has_prefix, is_bytes_less, starts_with};
use crate::bytes::{lemma_bytes_less_total, lemma_bytes_less_transitive};

verus! {

/// What a store holds.
pub type Contents = Map<Seq<u8>, Seq<u8>>;

/// The value under a key.
pub open spec fn lookup(contents: Contents, key: Seq<u8>) -> Option<Seq<u8>> {
    if contents.dom().contains(key) {
        Some(contents[key])
    } else {
        None
    }
}

/// Keys that go up from entry to entry.
pub open spec fn ascending(entries: Seq<(Seq<u8>, Seq<u8>)>) -> bool {
    forall|i: int, j: int|
        0 <= i < j < entries.len() ==> bytes_less(
            (#[trigger] entries[i]).0,
            (#[trigger] entries[j]).0,
        )
}

/// Whether `entries` are the entries with keys that start with `start`, in key order.
pub open spec fn is_scan(
    contents: Contents,
    start: Seq<u8>,
    entries: Seq<(Seq<u8>, Seq<u8>)>,
) -> bool {
    &&& ascending(entries)
    &&& forall|i: int|
        0 <= i < entries.len() ==> starts_with((#[trigger] entries[i]).0, start) && lookup(
            contents,
            entries[i].0,
        ) == Some(entries[i].1)
    &&& forall|key: Seq<u8>|
        #[trigger] contents.dom().contains(key) && starts_with(key, start) ==> exists|i: int|
            0 <= i < entries.len() && (#[trigger] entries[i]).0 == key
}

/// The entries with keys that start with `start`, in key order.
pub open spec fn scan(contents: Contents, start: Seq<u8>) -> Seq<(Seq<u8>, Seq<u8>)> {
    choose|entries: Seq<(Seq<u8>, Seq<u8>)>| is_scan(contents, start, entries)
}

proof fn lemma_ascending_unique(
    contents: Contents,
    start: Seq<u8>,
    a: Seq<(Seq<u8>, Seq<u8>)>,
    b: Seq<(Seq<u8>, Seq<u8>)>,
    n: int,
)
    requires
        is_scan(contents, start, a),
        is_scan(contents, start, b),
        0 <= n <= a.len(),
    ensures
        n <= b.len(),
        forall|i: int| 0 <= i < n ==> a[i] == b[i],
    decreases n,
{
    if n > 0 {
        let k = n - 1;
        lemma_ascending_unique(contents, start, a, b, k);
        let key = a[k].0;
        assert(contents.dom().contains(key));
        let j = choose|j: int| 0 <= j < b.len() && (#[trigger] b[j]).0 == key;
        if j < k {
            assert(bytes_less(a[j].0, a[k].0));
            lemma_bytes_less_total(key, key);
        }
        assert(j >= k);
        let other = b[k].0;
        assert(contents.dom().contains(other));
        let i = choose|i: int| 0 <= i < a.len() && (#[trigger] a[i]).0 == other;
        if i < k {
            assert(b[i] == a[i]);
            assert(bytes_less(b[i].0, b[k].0));
            lemma_bytes_less_total(other, other);
        }
        if j > k && i > k {
            assert(bytes_less(b[k].0, b[j].0));
            assert(bytes_less(a[k].0, a[i].0));
            lemma_bytes_less_total(key, other);
        } else if j > k {
            assert(i == k);
            assert(bytes_less(b[k].0, b[j].0));
            lemma_bytes_less_total(key, key);
        }
        assert(a[k].0 == b[k].0);
    }
}

/// There is one list of entries in key order.
pub proof fn lemma_scan_unique(
    contents: Contents,
    start: Seq<u8>,
    entries: Seq<(Seq<u8>, Seq<u8>)>,
)
    requires
        is_scan(contents, start, entries),
    ensures
        scan(contents, start) == entries,
{
    let other = scan(contents, start);
    lemma_ascending_unique(contents, start, entries, other, entries.len() as int);
    lemma_ascending_unique(contents, start, other, entries, other.len() as int);
    assert(entries =~= other);
}

/// Where a new key goes among ascending ones.
proof fn lemma_place(entries: Seq<(Seq<u8>, Seq<u8>)>, key: Seq<u8>) -> (place: int)
    requires
        ascending(entries),
        forall|i: int| 0 <= i < entries.len() ==> (#[trigger] entries[i]).0 != key,
    ensures
        0 <= place <= entries.len(),
        forall|i: int| 0 <= i < place ==> bytes_less((#[trigger] entries[i]).0, key),
        forall|i: int| place <= i < entries.len() ==> bytes_less(key, (#[trigger] entries[i]).0),
    decreases entries.len(),
{
    if entries.len() == 0 {
        0
    } else {
        let last = entries.last();
        lemma_bytes_less_total(last.0, key);
        if bytes_less(last.0, key) {
            assert forall|i: int| 0 <= i < entries.len() implies bytes_less(
                (#[trigger] entries[i]).0,
                key,
            ) by {
                if i < entries.len() - 1 {
                    lemma_bytes_less_transitive(entries[i].0, last.0, key);
                }
            }
            entries.len() as int
        } else {
            let init = entries.drop_last();
            let place = lemma_place(init, key);
            assert forall|i: int| 0 <= i < place implies bytes_less(
                (#[trigger] entries[i]).0,
                key,
            ) by {
                assert(init[i] == entries[i]);
            }
            assert forall|i: int| place <= i < entries.len() implies bytes_less(
                key,
                (#[trigger] entries[i]).0,
            ) by {
                if i < init.len() {
                    assert(init[i] == entries[i]);
                }
            }
            place
        }
    }
}

/// Finitely many entries can be scanned, whatever their keys are to start with.
pub proof fn law_finite_contents_have_a_scan(contents: Contents, start: Seq<u8>)
    requires
        contents.dom().finite(),
    ensures
        is_scan(contents, start, scan(contents, start)),
    decreases contents.dom().len(),
{
    if contents.dom().len() == 0 {
        assert forall|key: Seq<u8>| !(#[trigger] contents.dom().contains(key)) by {
            if contents.dom().contains(key) {
                vstd::set_lib::lemma_set_empty_equivalency_len(contents.dom());
            }
        }
        assert(is_scan(contents, start, seq![]));
    } else {
        let key = contents.dom().choose();
        let rest = contents.remove(key);
        assert(rest.dom() =~= contents.dom().remove(key));
        law_finite_contents_have_a_scan(rest, start);
        let entries = scan(rest, start);
        assert forall|i: int| 0 <= i < entries.len() implies (#[trigger] entries[i]).0 != key
            && lookup(contents, entries[i].0) == Some(entries[i].1) by {
            assert(lookup(rest, entries[i].0) == Some(entries[i].1));
            assert(rest.dom().contains(entries[i].0));
        }
        if starts_with(key, start) {
            let place = lemma_place(entries, key);
            let all = entries.insert(place, (key, contents[key]));
            assert forall|i: int, j: int| 0 <= i < j < all.len() implies bytes_less(
                (#[trigger] all[i]).0,
                (#[trigger] all[j]).0,
            ) by {
                let at = |k: int|
                    if k < place {
                        k
                    } else {
                        k - 1
                    };
                if i != place {
                    assert(all[i] == entries[at(i)]);
                }
                if j != place {
                    assert(all[j] == entries[at(j)]);
                }
            }
            assert forall|i: int| 0 <= i < all.len() implies starts_with(
                (#[trigger] all[i]).0,
                start,
            ) && lookup(contents, all[i].0) == Some(all[i].1) by {
                if i < place {
                    assert(all[i] == entries[i]);
                } else if i > place {
                    assert(all[i] == entries[i - 1]);
                }
            }
            assert forall|other: Seq<u8>| #[trigger]
                contents.dom().contains(other) && starts_with(other, start) implies exists|i: int|
                0 <= i < all.len() && (#[trigger] all[i]).0 == other by {
                if other == key {
                    assert(all[place].0 == other);
                } else {
                    assert(rest.dom().contains(other));
                    let i = choose|i: int|
                        0 <= i < entries.len() && (#[trigger] entries[i]).0 == other;
                    if i < place {
                        assert(all[i] == entries[i]);
                    } else {
                        assert(all[i + 1] == entries[i]);
                    }
                }
            }
            assert(is_scan(contents, start, all));
        } else {
            assert forall|other: Seq<u8>| #[trigger]
                contents.dom().contains(other) && starts_with(other, start) implies exists|i: int|
                0 <= i < entries.len() && (#[trigger] entries[i]).0 == other by {
                assert(rest.dom().contains(other));
            }
            assert(is_scan(contents, start, entries));
        }
    }
}

/// The keys and values of a list of entries.
pub open spec fn entry_views(entries: Seq<(Vec<u8>, Vec<u8>)>) -> Seq<(Seq<u8>, Seq<u8>)> {
    entries.map_values(|entry: (Vec<u8>, Vec<u8>)| (entry.0@, entry.1@))
}

/// A store of keys and values. An implementation says whether it is reliable: then no
/// operation fails.
pub trait KvStore {
    /// What the store holds.
    spec fn contents(&self) -> Contents;

    /// Whether every operation succeeds.
    spec fn reliable(&self) -> bool;

    /// The value under a key.
    fn get(&self, key: &[u8]) -> (result: Result<Option<Vec<u8>>, String>)
        ensures
            self.reliable() ==> result is Ok,
            result matches Ok(value) ==> match value {
                Some(bytes) => lookup(self.contents(), key@) == Some(bytes@),
                None => lookup(self.contents(), key@) is None,
            },
    ;

    /// Puts a value under a key.
    fn put(&mut self, key: &[u8], value: &[u8]) -> (result: Result<(), String>)
        ensures
            final(self).reliable() == old(self).reliable(),
            old(self).reliable() ==> result is Ok,
            result is Ok ==> final(self).contents() == old(self).contents().insert(key@, value@),
    ;

    /// Removes a key.
    fn delete(&mut self, key: &[u8]) -> (result: Result<(), String>)
        ensures
            final(self).reliable() == old(self).reliable(),
            old(self).reliable() ==> result is Ok,
            result is Ok ==> final(self).contents() == old(self).contents().remove(key@),
    ;

    /// The entries with keys that start with `start`, in key order.
    fn scan_prefix(&self, start: &[u8]) -> (result: Result<Vec<(Vec<u8>, Vec<u8>)>, String>)
        ensures
            self.reliable() ==> result is Ok,
            result matches Ok(entries) ==> entry_views(entries@) == scan(self.contents(), start@),
    ;
}

/// A store in memory: entries in key order.
pub struct MemoryKvStore {
    entries: Vec<(Vec<u8>, Vec<u8>)>,
}

spec fn has_key(entries: Seq<(Seq<u8>, Seq<u8>)>, key: Seq<u8>) -> bool {
    exists|i: int| 0 <= i < entries.len() && (#[trigger] entries[i]).0 == key
}

spec fn value_of(entries: Seq<(Seq<u8>, Seq<u8>)>, key: Seq<u8>) -> Seq<u8> {
    let i = choose|i: int| 0 <= i < entries.len() && (#[trigger] entries[i]).0 == key;
    entries[i].1
}

spec fn map_of(entries: Seq<(Seq<u8>, Seq<u8>)>) -> Contents {
    Map::new(|key: Seq<u8>| has_key(entries, key), |key: Seq<u8>| value_of(entries, key))
}

proof fn lemma_map_of(entries: Seq<(Seq<u8>, Seq<u8>)>, i: int)
    requires
        ascending(entries),
        0 <= i < entries.len(),
    ensures
        map_of(entries).dom().contains(entries[i].0),
        map_of(entries)[entries[i].0] == entries[i].1,
{
    let key = entries[i].0;
    assert(has_key(entries, key));
    let j = choose|j: int| 0 <= j < entries.len() && (#[trigger] entries[j]).0 == key;
    lemma_bytes_less_total(key, key);
    if j < i {
        assert(bytes_less(entries[j].0, entries[i].0));
    }
    if i < j {
        assert(bytes_less(entries[i].0, entries[j].0));
    }
}

proof fn lemma_same_lookups(a: Contents, b: Contents)
    requires
        forall|k: Seq<u8>| #[trigger] lookup(a, k) == lookup(b, k),
    ensures
        a == b,
{
    assert forall|k: Seq<u8>| #[trigger] a.dom().contains(k) == b.dom().contains(k) by {
        assert(lookup(a, k) == lookup(b, k));
    }
    assert forall|k: Seq<u8>| a.dom().contains(k) implies #[trigger] a[k] == b[k] by {
        assert(lookup(a, k) == lookup(b, k));
    }
    assert(a =~= b);
}

impl MemoryKvStore {
    #[verifier::type_invariant]
    spec fn in_order(self) -> bool {
        ascending(entry_views(self.entries@))
    }

    /// What the store holds.
    pub closed spec fn map(&self) -> Contents {
        map_of(entry_views(self.entries@))
    }

    /// An empty store.
    pub fn new() -> (store: Self)
        ensures
            store.map() == Map::<Seq<u8>, Seq<u8>>::empty(),
    {
        let store = MemoryKvStore { entries: Vec::new() };
        assert(store.map() =~= Map::<Seq<u8>, Seq<u8>>::empty());
        store
    }

    /// Where a key stands or would stand: all entries before it have smaller keys, the
    /// entry there and those behind it do not.
    fn position(entries: &Vec<(Vec<u8>, Vec<u8>)>, key: &[u8]) -> (at: usize)
        requires
            ascending(entry_views(entries@)),
        ensures
            at <= entries@.len(),
            forall|i: int| 0 <= i < at ==> bytes_less(#[trigger] entries@[i].0@, key@),
            forall|i: int|
                at <= i < entries@.len() ==> !bytes_less(#[trigger] entries@[i].0@, key@),
    {
        let mut at: usize = 0;
        while at < entries.len() && is_bytes_less(entries[at].0.as_slice(), key)
            invariant
                at <= entries@.len(),
                forall|i: int| 0 <= i < at ==> bytes_less(#[trigger] entries@[i].0@, key@),
            decreases entries@.len() - at,
        {
            at += 1;
        }
        proof {
            let all = entry_views(entries@);
            assert forall|i: int| at <= i < entries@.len() implies !bytes_less(
                #[trigger] entries@[i].0@,
                key@,
            ) by {
                if bytes_less(entries@[i].0@, key@) && i > at {
                    assert(bytes_less(all[at as int].0, all[i].0));
                    lemma_bytes_less_transitive(all[at as int].0, all[i].0, key@);
                }
            }
        }
        at
    }
}

fn same(a: &[u8], b: &[u8]) -> (answer: bool)
    ensures
        answer == (a@ == b@),
{
    let answer = a.len() == b.len() && has_prefix(a, b);
    assert(a@.len() == b@.len() ==> a@.take(b@.len() as int) =~= a@);
    answer
}

impl KvStore for MemoryKvStore {
    open spec fn contents(&self) -> Contents {
        self.map()
    }

    open spec fn reliable(&self) -> bool {
        true
    }

    fn get(&self, key: &[u8]) -> (result: Result<Option<Vec<u8>>, String>) {
        proof {
            use_type_invariant(self);
        }
        let at = Self::position(&self.entries, key);
        let ghost all = entry_views(self.entries@);
        if at < self.entries.len() && same(self.entries[at].0.as_slice(), key) {
            proof {
                lemma_map_of(all, at as int);
                assert(all[at as int].0 == key@);
            }
            Ok(Some(bytes_of(self.entries[at].1.as_slice())))
        } else {
            proof {
                assert(!has_key(all, key@)) by {
                    if has_key(all, key@) {
                        let i = choose|i: int| 0 <= i < all.len() && (#[trigger] all[i]).0 == key@;
                        lemma_bytes_less_total(key@, key@);
                        assert(self.entries@[i].0@ == key@);
                        if i > at {
                            assert(bytes_less(all[at as int].0, all[i].0));
                            assert(!bytes_less(self.entries@[at as int].0@, key@));
                        }
                    }
                }
            }
            Ok(None)
        }
    }

    fn put(&mut self, key: &[u8], value: &[u8]) -> (result: Result<(), String>) {
        proof {
            use_type_invariant(&*self);
        }
        let ghost before = entry_views(self.entries@);
        let mut entries: Vec<(Vec<u8>, Vec<u8>)> = Vec::new();
        std::mem::swap(&mut entries, &mut self.entries);
        let at = Self::position(&entries, key);
        if at < entries.len() && same(entries[at].0.as_slice(), key) {
            let ghost old_entries = entries@;
            entries.set(at, (bytes_of(key), bytes_of(value)));
            proof {
                let after = entry_views(entries@);
                assert(after =~= before.update(at as int, (key@, value@)));
                assert(ascending(after)) by {
                    assert(before[at as int].0 == key@);
                    assert forall|i: int, j: int| 0 <= i < j < after.len() implies bytes_less(
                        (#[trigger] after[i]).0,
                        (#[trigger] after[j]).0,
                    ) by {
                        assert(after[i].0 == before[i].0);
                        assert(after[j].0 == before[j].0);
                    }
                }
                assert(map_of(after) =~= map_of(before).insert(key@, value@)) by {
                    lemma_map_of(after, at as int);
                    let target = map_of(before).insert(key@, value@);
                    assert forall|k: Seq<u8>| #[trigger]
                        lookup(map_of(after), k) == lookup(target, k) by {
                        if has_key(before, k) {
                            let i = choose|i: int|
                                0 <= i < before.len() && (#[trigger] before[i]).0 == k;
                            assert(after[i].0 == k);
                            lemma_map_of(before, i);
                            lemma_map_of(after, i);
                        }
                        if has_key(after, k) {
                            let i = choose|i: int|
                                0 <= i < after.len() && (#[trigger] after[i]).0 == k;
                            assert(before[i].0 == k);
                            lemma_map_of(before, i);
                            lemma_map_of(after, i);
                        }
                    }
                    lemma_same_lookups(map_of(after), target);
                }
            }
        } else {
            let ghost old_entries = entries@;
            entries.insert(at, (bytes_of(key), bytes_of(value)));
            proof {
                let after = entry_views(entries@);
                assert(after =~= before.insert(at as int, (key@, value@)));
                assert forall|i: int| 0 <= i < at implies bytes_less(
                    (#[trigger] before[i]).0,
                    key@,
                ) by {
                    assert(bytes_less(old_entries[i].0@, key@));
                }
                assert forall|i: int| at <= i < before.len() implies bytes_less(
                    key@,
                    (#[trigger] before[i]).0,
                ) by {
                    assert(!bytes_less(old_entries[i].0@, key@));
                    lemma_bytes_less_total(before[i].0, key@);
                    if before[i].0 == key@ {
                        assert(i != at);
                        assert(bytes_less(before[at as int].0, before[i].0));
                        assert(!bytes_less(old_entries[at as int].0@, key@));
                    }
                }
                assert(ascending(after)) by {
                    assert forall|i: int, j: int| 0 <= i < j < after.len() implies bytes_less(
                        (#[trigger] after[i]).0,
                        (#[trigger] after[j]).0,
                    ) by {
                        if j < at {
                            assert(after[i] == before[i]);
                            assert(after[j] == before[j]);
                        } else if j == at {
                            assert(after[i] == before[i]);
                        } else if i < at {
                            assert(after[i] == before[i]);
                            assert(after[j] == before[j - 1]);
                        } else if i == at {
                            assert(after[j] == before[j - 1]);
                        } else {
                            assert(after[i] == before[i - 1]);
                            assert(after[j] == before[j - 1]);
                        }
                    }
                }
                assert(map_of(after) =~= map_of(before).insert(key@, value@)) by {
                    lemma_map_of(after, at as int);
                    assert(after[at as int] == (key@, value@));
                    let target = map_of(before).insert(key@, value@);
                    assert forall|k: Seq<u8>| #[trigger]
                        lookup(map_of(after), k) == lookup(target, k) by {
                        if has_key(before, k) {
                            let i = choose|i: int|
                                0 <= i < before.len() && (#[trigger] before[i]).0 == k;
                            lemma_map_of(before, i);
                            if i < at {
                                assert(after[i] == before[i]);
                                lemma_map_of(after, i);
                            } else {
                                assert(after[i + 1] == before[i]);
                                lemma_map_of(after, i + 1);
                            }
                        }
                        if has_key(after, k) {
                            let i = choose|i: int|
                                0 <= i < after.len() && (#[trigger] after[i]).0 == k;
                            if i < at {
                                assert(before[i].0 == k);
                            } else if i > at {
                                assert(before[i - 1].0 == k);
                            }
                        }
                    }
                    lemma_same_lookups(map_of(after), target);
                }
            }
        }
        self.entries = entries;
        Ok(())
    }

    fn delete(&mut self, key: &[u8]) -> (result: Result<(), String>) {
        proof {
            use_type_invariant(&*self);
        }
        let ghost before = entry_views(self.entries@);
        let mut entries: Vec<(Vec<u8>, Vec<u8>)> = Vec::new();
        std::mem::swap(&mut entries, &mut self.entries);
        let at = Self::position(&entries, key);
        let ghost old_entries = entries@;
        if at < entries.len() && same(entries[at].0.as_slice(), key) {
            let removed = entries.remove(at);
            proof {
                let after = entry_views(entries@);
                assert(after =~= before.remove(at as int));
                assert(before[at as int].0 == key@);
                assert(ascending(after)) by {
                    assert forall|i: int, j: int| 0 <= i < j < after.len() implies bytes_less(
                        (#[trigger] after[i]).0,
                        (#[trigger] after[j]).0,
                    ) by {
                        let x = if i < at {
                            i
                        } else {
                            i + 1
                        };
                        let y = if j < at {
                            j
                        } else {
                            j + 1
                        };
                        assert(after[i] == before[x]);
                        assert(after[j] == before[y]);
                    }
                }
                assert(map_of(after) =~= map_of(before).remove(key@)) by {
                    let target = map_of(before).remove(key@);
                    assert forall|k: Seq<u8>| #[trigger]
                        lookup(map_of(after), k) == lookup(target, k) by {
                        if has_key(before, k) && k != key@ {
                            let i = choose|i: int|
                                0 <= i < before.len() && (#[trigger] before[i]).0 == k;
                            lemma_map_of(before, i);
                            if i < at {
                                assert(after[i] == before[i]);
                                lemma_map_of(after, i);
                            } else {
                                assert(after[i - 1] == before[i]);
                                lemma_map_of(after, i - 1);
                            }
                        }
                        if has_key(after, k) {
                            let i = choose|i: int|
                                0 <= i < after.len() && (#[trigger] after[i]).0 == k;
                            let x = if i < at {
                                i
                            } else {
                                i + 1
                            };
                            assert(after[i] == before[x]);
                            lemma_map_of(before, x);
                            lemma_bytes_less_total(key@, key@);
                            if x < at {
                                assert(bytes_less(before[x].0, before[at as int].0));
                            } else {
                                assert(bytes_less(before[at as int].0, before[x].0));
                            }
                        }
                    }
                    lemma_same_lookups(map_of(after), target);
                }
            }
        } else {
            proof {
                assert(!has_key(before, key@)) by {
                    if has_key(before, key@) {
                        let i = choose|i: int|
                            0 <= i < before.len() && (#[trigger] before[i]).0 == key@;
                        lemma_bytes_less_total(key@, key@);
                        assert(old_entries[i].0@ == key@);
                        if i > at {
                            assert(bytes_less(before[at as int].0, before[i].0));
                            assert(!bytes_less(old_entries[at as int].0@, key@));
                        }
                    }
                }
                assert(map_of(before).remove(key@) =~= map_of(before));
            }
        }
        self.entries = entries;
        Ok(())
    }

    fn scan_prefix(&self, start: &[u8]) -> (result: Result<Vec<(Vec<u8>, Vec<u8>)>, String>) {
        proof {
            use_type_invariant(self);
        }
        let ghost all = entry_views(self.entries@);
        let mut found: Vec<(Vec<u8>, Vec<u8>)> = Vec::new();
        let ghost mut origin: Seq<int> = seq![];
        let mut i: usize = 0;
        while i < self.entries.len()
            invariant
                i <= self.entries@.len(),
                all == entry_views(self.entries@),
                origin.len() == found@.len(),
                forall|k: int|
                    0 <= k < origin.len() ==> 0 <= #[trigger] origin[k] < i && all[origin[k]]
                        == entry_views(found@)[k] && starts_with(all[origin[k]].0, start@),
                forall|k: int, l: int|
                    0 <= k < l < origin.len() ==> #[trigger] origin[k] < #[trigger] origin[l],
                forall|k: int|
                    0 <= k < i && starts_with((#[trigger] all[k]).0, start@) ==> exists|l: int|
                        0 <= l < origin.len() && #[trigger] origin[l] == k,
            decreases self.entries@.len() - i,
        {
            let ghost old_origin = origin;
            let ghost old_found = found@;
            if has_prefix(self.entries[i].0.as_slice(), start) {
                found.push(
                    (
                        bytes_of(self.entries[i].0.as_slice()),
                        bytes_of(self.entries[i].1.as_slice()),
                    ),
                );
                proof {
                    origin = origin.push(i as int);
                    assert(origin[origin.len() - 1] == i);
                    assert forall|k: int|
                        0 <= k < origin.len() implies 0 <= #[trigger] origin[k] < i + 1
                        && all[origin[k]] == entry_views(found@)[k] && starts_with(
                        all[origin[k]].0,
                        start@,
                    ) by {
                        if k < old_origin.len() {
                            assert(origin[k] == old_origin[k]);
                            assert(entry_views(found@)[k] == entry_views(old_found)[k]);
                        }
                    }
                    assert forall|k: int|
                        0 <= k < i + 1 && starts_with(
                            (#[trigger] all[k]).0,
                            start@,
                        ) implies exists|l: int|
                        0 <= l < origin.len() && #[trigger] origin[l] == k by {
                        if k < i {
                            let l = choose|l: int|
                                0 <= l < old_origin.len() && #[trigger] old_origin[l] == k;
                            assert(origin[l] == k);
                        }
                    }
                }
            }
            i += 1;
        }
        proof {
            let entries = entry_views(found@);
            assert forall|a: int, b: int| 0 <= a < b < entries.len() implies bytes_less(
                (#[trigger] entries[a]).0,
                (#[trigger] entries[b]).0,
            ) by {
                assert(origin[a] < origin[b]);
                assert(bytes_less(all[origin[a]].0, all[origin[b]].0));
            }
            assert forall|k: int| 0 <= k < entries.len() implies starts_with(
                (#[trigger] entries[k]).0,
                start@,
            ) && lookup(self.contents(), entries[k].0) == Some(entries[k].1) by {
                assert(0 <= origin[k]);
                lemma_map_of(all, origin[k]);
            }
            assert forall|key: Seq<u8>|
                #[trigger] self.contents().dom().contains(key) && starts_with(
                    key,
                    start@,
                ) implies exists|k: int| 0 <= k < entries.len() && (#[trigger] entries[k]).0 == key by {
                let k = choose|k: int| 0 <= k < all.len() && (#[trigger] all[k]).0 == key;
                let l = choose|l: int| 0 <= l < origin.len() && #[trigger] origin[l] == k;
                assert(entries[l].0 == key);
            }
            lemma_scan_unique(self.contents(), start@, entries);
        }
        Ok(found)
    }
}

} // verus!
