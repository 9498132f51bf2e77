//! Rows: values by the names of their columns.
use vstd::prelude::*;

use crate::schema::Duplicate;
use crate::text::same_text;
use crate::types::{datum_eq, ColumnValue, Datum};

verus! {

/// What a row says: a value for each of some columns.
pub type RowModel = Map<Seq<char>, Datum>;

/// The value that a row has for a column; null where it has none.
pub open spec fn field(row: RowModel, name: Seq<char>) -> Datum {
    if row.dom().contains(name) {
        row[name]
    } else {
        Datum::Null
    }
}

/// Whether two rows have equal values for the same columns.
pub open spec fn rows_equal(a: RowModel, b: RowModel) -> bool {
    &&& a.dom() == b.dom()
    &&& forall|name: Seq<char>| #[trigger]
        a.dom().contains(name) ==> datum_eq(a[name], b[name])
}

/// A row of a table.
#[derive(Debug)]
pub struct RowMap {
    entries: Vec<(String, ColumnValue)>,
}

spec fn named_at(entries: Seq<(String, ColumnValue)>, name: Seq<char>, i: int) -> bool {
    0 <= i < entries.len() && entries[i].0@ == name
}

spec fn distinct(entries: Seq<(String, ColumnValue)>) -> bool {
    forall|i: int, j: int|
        0 <= i < entries.len() && 0 <= j < entries.len() && (#[trigger] entries[i]).0@ == (
        #[trigger] entries[j]).0@ ==> i == j
}

spec fn row_of(entries: Seq<(String, ColumnValue)>) -> RowModel {
    Map::new(
        |name: Seq<char>| exists|i: int| named_at(entries, name, i),
        |name: Seq<char>| entries[choose|i: int| named_at(entries, name, i)].1@,
    )
}

proof fn lemma_entry(entries: Seq<(String, ColumnValue)>, i: int)
    requires
        distinct(entries),
        0 <= i < entries.len(),
    ensures
        row_of(entries).dom().contains(entries[i].0@),
        row_of(entries)[entries[i].0@] == entries[i].1@,
{
    let name = entries[i].0@;
    assert(named_at(entries, name, i));
    let k = choose|k: int| named_at(entries, name, k);
    assert(named_at(entries, name, k));
    assert(entries[k].0@ == entries[i].0@);
    assert(k == i);
}

impl View for RowMap {
    type V = RowModel;

    closed spec fn view(&self) -> RowModel {
        row_of(self.entries@)
    }
}

impl RowMap {
    #[verifier::type_invariant]
    spec fn well_formed(self) -> bool {
        distinct(self.entries@)
    }

    /// A row without values.
    pub fn new() -> (row: RowMap)
        ensures
            row@ == Map::<Seq<char>, Datum>::empty(),
    {
        let row = RowMap { entries: Vec::new() };
        assert(row@ =~= Map::<Seq<char>, Datum>::empty());
        row
    }

    fn position(&self, name: &str) -> (found: Option<usize>)
        ensures
            match found {
                Some(i) => named_at(self.entries@, name@, i as int),
                None => forall|i: int| !named_at(self.entries@, name@, i),
            },
    {
        let mut i: usize = 0;
        while i < self.entries.len()
            invariant
                i <= self.entries@.len(),
                forall|k: int| 0 <= k < i ==> !named_at(self.entries@, name@, k),
            decreases self.entries@.len() - i,
        {
            if same_text(self.entries[i].0.as_str(), name) {
                return Some(i);
            }
            i += 1;
        }
        None
    }

    /// The value for a column.
    pub fn get(&self, name: &str) -> (value: Option<&ColumnValue>)
        ensures
            match value {
                Some(found) => self@.dom().contains(name@) && found@ == self@[name@],
                None => !self@.dom().contains(name@),
            },
    {
        proof {
            use_type_invariant(self);
        }
        match self.position(name) {
            Some(i) => {
                proof {
                    lemma_entry(self.entries@, i as int);
                }
                Some(&self.entries[i].1)
            },
            None => None,
        }
    }

    /// A copy of the value for a column; null where there is none.
    pub fn value_or_null(&self, name: &str) -> (value: ColumnValue)
        ensures
            value@ == field(self@, name@),
    {
        match self.get(name) {
            Some(value) => value.copied(),
            None => ColumnValue::Null,
        }
    }

    /// Sets the value for a column.
    pub fn insert(&mut self, name: String, value: ColumnValue)
        ensures
            final(self)@ == old(self)@.insert(name@, value@),
    {
        proof {
            use_type_invariant(&*self);
        }
        let ghost before = self.entries@;
        let ghost column = name@;
        let ghost datum = value@;
        match self.position(name.as_str()) {
            Some(i) => {
                let mut entries: Vec<(String, ColumnValue)> = Vec::new();
                std::mem::swap(&mut entries, &mut self.entries);
                entries.set(i, (name, value));
                proof {
                    assert(distinct(entries@)) by {
                        assert forall|a: int, b: int|
                            0 <= a < entries@.len() && 0 <= b < entries@.len() && (
                            #[trigger] entries@[a]).0@ == (#[trigger] entries@[b]).0@ implies a
                            == b by {
                            assert(before[a].0@ == entries@[a].0@);
                            assert(before[b].0@ == entries@[b].0@);
                        }
                    }
                    lemma_set(before, entries@, i as int, column, datum);
                }
                self.entries = entries;
            },
            None => {
                let mut entries: Vec<(String, ColumnValue)> = Vec::new();
                std::mem::swap(&mut entries, &mut self.entries);
                entries.push((name, value));
                proof {
                    assert(distinct(entries@)) by {
                        assert forall|a: int, b: int|
                            0 <= a < entries@.len() && 0 <= b < entries@.len() && (
                            #[trigger] entries@[a]).0@ == (#[trigger] entries@[b]).0@ implies a
                            == b by {
                            assert(forall|k: int| 0 <= k < before.len() ==> entries@[k] == before[k]);
                            assert(forall|k: int|
                                0 <= k < before.len() ==> !named_at(before, column, k));
                            if a < before.len() && b < before.len() {
                                assert(before[a].0@ == before[b].0@);
                            } else if a < before.len() {
                                assert(!named_at(before, column, a));
                            } else if b < before.len() {
                                assert(!named_at(before, column, b));
                            }
                        }
                    }
                    lemma_pushed(before, entries@, column, datum);
                }
                self.entries = entries;
            },
        }
    }

    /// Takes the value for a column away.
    pub fn remove(&mut self, name: &str)
        ensures
            final(self)@ == old(self)@.remove(name@),
    {
        proof {
            use_type_invariant(&*self);
        }
        let ghost before = self.entries@;
        match self.position(name) {
            Some(i) => {
                let mut entries: Vec<(String, ColumnValue)> = Vec::new();
                std::mem::swap(&mut entries, &mut self.entries);
                entries.remove(i);
                proof {
                    assert forall|a: int, b: int|
                        0 <= a < entries@.len() && 0 <= b < entries@.len() && (
                        #[trigger] entries@[a]).0@ == (#[trigger] entries@[b]).0@ implies a
                        == b by {
                        let x = if a < i {
                            a
                        } else {
                            a + 1
                        };
                        let y = if b < i {
                            b
                        } else {
                            b + 1
                        };
                        assert(before[x] == entries@[a]);
                        assert(before[y] == entries@[b]);
                    }
                    lemma_removed(before, entries@, i as int);
                }
                self.entries = entries;
            },
            None => {
                proof {
                    assert(self@.remove(name@) =~= self@) by {
                        assert(!self@.dom().contains(name@));
                    }
                }
            },
        }
    }

    /// Whether two rows have equal values for the same columns.
    pub fn same_row(&self, other: &RowMap) -> (same: bool)
        ensures
            same == rows_equal(self@, other@),
    {
        proof {
            use_type_invariant(self);
            use_type_invariant(other);
        }
        let mut i: usize = 0;
        while i < self.entries.len()
            invariant
                i <= self.entries@.len(),
                distinct(self.entries@),
                distinct(other.entries@),
                forall|k: int|
                    0 <= k < i ==> other@.dom().contains((#[trigger] self.entries@[k]).0@)
                        && datum_eq(self.entries@[k].1@, other@[self.entries@[k].0@]),
            decreases self.entries@.len() - i,
        {
            proof {
                lemma_entry(self.entries@, i as int);
            }
            match other.get(self.entries[i].0.as_str()) {
                Some(value) => {
                    if !self.entries[i].1.equals(value) {
                        assert(!datum_eq(
                            self@[self.entries@[i as int].0@],
                            other@[self.entries@[i as int].0@],
                        ));
                        return false;
                    }
                },
                None => {
                    assert(self@.dom().contains(self.entries@[i as int].0@));
                    return false;
                },
            }
            i += 1;
        }
        let mut j: usize = 0;
        while j < other.entries.len()
            invariant
                j <= other.entries@.len(),
                distinct(self.entries@),
                distinct(other.entries@),
                forall|k: int|
                    0 <= k < j ==> self@.dom().contains((#[trigger] other.entries@[k]).0@),
            decreases other.entries@.len() - j,
        {
            proof {
                lemma_entry(other.entries@, j as int);
            }
            if self.get(other.entries[j].0.as_str()).is_none() {
                assert(other@.dom().contains(other.entries@[j as int].0@));
                return false;
            }
            j += 1;
        }
        proof {
            assert forall|name: Seq<char>| #[trigger] self@.dom().contains(name) implies
                other@.dom().contains(name) && datum_eq(self@[name], other@[name]) by {
                let k = choose|k: int| named_at(self.entries@, name, k);
                assert(named_at(self.entries@, name, k));
                lemma_entry(self.entries@, k);
            }
            assert forall|name: Seq<char>| #[trigger] other@.dom().contains(name) implies
                self@.dom().contains(name) by {
                let k = choose|k: int| named_at(other.entries@, name, k);
                assert(named_at(other.entries@, name, k));
            }
            assert(self@.dom() =~= other@.dom());
        }
        true
    }
}

proof fn lemma_set(
    before: Seq<(String, ColumnValue)>,
    after: Seq<(String, ColumnValue)>,
    at: int,
    name: Seq<char>,
    value: Datum,
)
    requires
        distinct(before),
        distinct(after),
        named_at(before, name, at),
        after.len() == before.len(),
        after[at].0@ == name,
        after[at].1@ == value,
        forall|k: int| 0 <= k < before.len() && k != at ==> after[k] == before[k],
    ensures
        row_of(after) == row_of(before).insert(name, value),
{
    assert forall|other: Seq<char>| row_of(after).dom().contains(other) == row_of(before).insert(
        name,
        value,
    ).dom().contains(other) by {
        if row_of(after).dom().contains(other) {
            let k = choose|k: int| named_at(after, other, k);
            if k != at {
                assert(named_at(before, other, k));
            }
        }
        if row_of(before).dom().contains(other) {
            let k = choose|k: int| named_at(before, other, k);
            assert(named_at(after, other, k));
        }
        if other == name {
            assert(named_at(after, name, at));
        }
    }
    assert forall|other: Seq<char>| row_of(after).dom().contains(other) implies #[trigger] row_of(
        after,
    )[other] == row_of(before).insert(name, value)[other] by {
        let k = choose|k: int| named_at(after, other, k);
        lemma_entry(after, k);
        if k != at {
            lemma_entry(before, k);
            if other == name {
                assert(before[k].0@ == before[at].0@);
            }
        }
    }
    assert(row_of(after) =~= row_of(before).insert(name, value));
}

proof fn lemma_pushed(
    before: Seq<(String, ColumnValue)>,
    after: Seq<(String, ColumnValue)>,
    name: Seq<char>,
    value: Datum,
)
    requires
        distinct(before),
        distinct(after),
        forall|k: int| !named_at(before, name, k),
        after.len() == before.len() + 1,
        after.last().0@ == name,
        after.last().1@ == value,
        forall|k: int| 0 <= k < before.len() ==> after[k] == before[k],
    ensures
        row_of(after) == row_of(before).insert(name, value),
{
    let at = before.len() as int;
    assert forall|other: Seq<char>| row_of(after).dom().contains(other) == row_of(before).insert(
        name,
        value,
    ).dom().contains(other) by {
        if row_of(after).dom().contains(other) {
            let k = choose|k: int| named_at(after, other, k);
            if k != at {
                assert(named_at(before, other, k));
            }
        }
        if row_of(before).dom().contains(other) {
            let k = choose|k: int| named_at(before, other, k);
            assert(named_at(after, other, k));
        }
        if other == name {
            assert(named_at(after, name, at));
        }
    }
    assert forall|other: Seq<char>| row_of(after).dom().contains(other) implies #[trigger] row_of(
        after,
    )[other] == row_of(before).insert(name, value)[other] by {
        let k = choose|k: int| named_at(after, other, k);
        lemma_entry(after, k);
        if k != at {
            lemma_entry(before, k);
            assert(!named_at(before, name, k));
        }
    }
    assert(row_of(after) =~= row_of(before).insert(name, value));
}

proof fn lemma_removed(
    before: Seq<(String, ColumnValue)>,
    after: Seq<(String, ColumnValue)>,
    at: int,
)
    requires
        distinct(before),
        distinct(after),
        0 <= at < before.len(),
        after == before.remove(at),
    ensures
        row_of(after) == row_of(before).remove(before[at].0@),
{
    let name = before[at].0@;
    assert forall|other: Seq<char>| row_of(after).dom().contains(other) == row_of(before).remove(
        name,
    ).dom().contains(other) by {
        if row_of(after).dom().contains(other) {
            let k = choose|k: int| named_at(after, other, k);
            let x = if k < at {
                k
            } else {
                k + 1
            };
            assert(before[x] == after[k]);
            assert(named_at(before, other, x));
            if other == name {
                assert(before[x].0@ == before[at].0@);
            }
        }
        if row_of(before).remove(name).dom().contains(other) {
            let k = choose|k: int| named_at(before, other, k);
            let x = if k < at {
                k
            } else {
                k - 1
            };
            assert(after[x] == before[k]);
            assert(named_at(after, other, x));
        }
    }
    assert forall|other: Seq<char>| row_of(after).dom().contains(other) implies #[trigger] row_of(
        after,
    )[other] == row_of(before).remove(name)[other] by {
        let k = choose|k: int| named_at(after, other, k);
        lemma_entry(after, k);
        let x = if k < at {
            k
        } else {
            k + 1
        };
        assert(before[x] == after[k]);
        lemma_entry(before, x);
    }
    assert(row_of(after) =~= row_of(before).remove(name));
}

impl Duplicate for RowMap {
    fn duplicate(&self) -> (copy: Self) {
        proof {
            use_type_invariant(self);
        }
        let mut entries: Vec<(String, ColumnValue)> = Vec::new();
        let mut i: usize = 0;
        while i < self.entries.len()
            invariant
                i <= self.entries@.len(),
                entries@.len() == i,
                distinct(self.entries@),
                forall|k: int|
                    0 <= k < i ==> (#[trigger] entries@[k]).0@ == self.entries@[k].0@
                        && entries@[k].1@ == self.entries@[k].1@,
            decreases self.entries@.len() - i,
        {
            entries.push((self.entries[i].0.clone(), self.entries[i].1.copied()));
            i += 1;
        }
        proof {
            assert forall|a: int, b: int|
                0 <= a < entries@.len() && 0 <= b < entries@.len() && (#[trigger] entries@[a]).0@
                    == (#[trigger] entries@[b]).0@ implies a == b by {
                assert(self.entries@[a].0@ == self.entries@[b].0@);
            }
            assert forall|name: Seq<char>| row_of(entries@).dom().contains(name) == row_of(
                self.entries@,
            ).dom().contains(name) by {
                if row_of(entries@).dom().contains(name) {
                    let k = choose|k: int| named_at(entries@, name, k);
                    assert(named_at(self.entries@, name, k));
                }
                if row_of(self.entries@).dom().contains(name) {
                    let k = choose|k: int| named_at(self.entries@, name, k);
                    assert(named_at(entries@, name, k));
                }
            }
            assert forall|name: Seq<char>| row_of(entries@).dom().contains(name) implies
                #[trigger] row_of(entries@)[name] == row_of(self.entries@)[name] by {
                let k = choose|k: int| named_at(entries@, name, k);
                lemma_entry(entries@, k);
                lemma_entry(self.entries@, k);
            }
            assert(row_of(entries@) =~= row_of(self.entries@));
        }
        RowMap { entries }
    }
}

} // verus!
