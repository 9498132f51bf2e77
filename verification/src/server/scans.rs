//! Scans: which keys a scan goes over, which of the rows that it meets are kept, and when it ends.
use vstd::prelude::*;

use crate::bytes::{
    bytes_less, bytes_of, has_prefix, is_bytes_less, law_next_prefix_bounds, lemma_bytes_less_total,
    next_key_prefix, next_prefix, starts_with,
};
use crate::catalog::model::{bootstrapped, indexes_listed, law_bootstrap_is_stable};
use crate::catalog::types::{IndexCatalog, IndexModel};
use crate::codec::{
    cell_bytes, column_prefix, decode_cell_value, key_order, key_segment, keyable,
    law_cell_roundtrip, law_keys_keep_order, read_cell, row_marker_key, row_marker_prefix, storable,
};
use crate::error::{not_internal, report, user_error, Report, UserError};
use crate::mem_store::KvStore;
use crate::order::{datum_less, value_less};
use crate::row::{field, RowMap, RowModel};
use crate::schema::{
    has_column, option_view, seen, views, ColumnSchema, Duplicate, TableModel, TableSchema,
};
use crate::server::exec_rows::windowed;
use crate::server::gateway::{only_opened, GatewayServer};
use crate::server::lock_plan::{lossy_string, lossy_text};
use crate::server::plan::{Bound, BoundModel};
use crate::server::rows::{EntryModel, RowEntry};
use crate::text::{chars_of, contains_text, find_text, lemma_first_at, same_text};
use crate::types::{datum_eq, ColumnValue, Datum};

verus! {

/// Whether a value is not below a lower bound. What cannot be compared is not below it.
pub open spec fn reaches(value: Datum, lower: Option<BoundModel>) -> bool {
    match lower {
        None => true,
        Some(bound) => if datum_less(value, bound.value) {
            false
        } else if datum_eq(value, bound.value) {
            bound.inclusive
        } else {
            true
        },
    }
}

/// Whether a value is not above an upper bound. What cannot be compared is not above it.
pub open spec fn stays_within(value: Datum, upper: Option<BoundModel>) -> bool {
    match upper {
        None => true,
        Some(bound) => if datum_less(bound.value, value) {
            false
        } else if datum_eq(value, bound.value) {
            bound.inclusive
        } else {
            true
        },
    }
}

/// Whether a value is between two bounds.
pub open spec fn in_bounds(
    value: Datum,
    lower: Option<BoundModel>,
    upper: Option<BoundModel>,
) -> bool {
    reaches(value, lower) && stays_within(value, upper)
}

/// Whether a value is between two bounds.
pub fn value_in_bounds(value: &ColumnValue, lower: &Option<Bound>, upper: &Option<Bound>) -> (answer:
    bool)
    ensures
        answer == in_bounds(value@, option_view(*lower), option_view(*upper)),
{
    let lower_ok = match lower {
        None => true,
        Some(bound) => {
            if value_less(value, &bound.value) {
                false
            } else if value.equals(&bound.value) {
                bound.inclusive
            } else {
                true
            }
        },
    };
    let upper_ok = match upper {
        None => true,
        Some(bound) => {
            if value_less(&bound.value, value) {
                false
            } else if value.equals(&bound.value) {
                bound.inclusive
            } else {
                true
            }
        },
    };
    lower_ok && upper_ok
}

/// Refuses to write a row that another transaction changed behind the snapshot of this one.
/// `written` says whether this transaction wrote the row itself.
pub fn ensure_row_write_not_stale(
    repeatable_read: bool,
    written: bool,
    snapshot: &Option<Vec<u8>>,
    latest: &Option<Vec<u8>>,
) -> (result: Result<(), UserError>)
    ensures
        match result {
            Ok(_) => !repeatable_read || written || option_view(*snapshot) == option_view(*latest),
            Err(e) => repeatable_read && !written && option_view(*snapshot) != option_view(*latest)
                && e@ == report(
                "40001"@,
                "could not serialize access due to concurrent update"@,
            ),
        },
{
    if !repeatable_read || written {
        return Ok(());
    }
    let same = match (snapshot, latest) {
        (None, None) => true,
        (Some(a), Some(b)) => {
            if a.len() != b.len() {
                false
            } else {
                assert(a@.take(a@.len() as int) =~= a@);
                has_prefix(a.as_slice(), b.as_slice())
            }
        },
        _ => false,
    };
    if same {
        Ok(())
    } else {
        Err(user_error("40001", "could not serialize access due to concurrent update"))
    }
}

/// The rows that a scan has kept, and how it goes on.
#[derive(Debug)]
pub struct RowWindow {
    pub rows: Vec<RowEntry>,
    pub remaining_offset: usize,
    pub limit: Option<usize>,
    pub stopped: bool,
}

/// What a [`RowWindow`] says.
#[verifier::ext_equal]
pub struct WindowModel {
    pub rows: Seq<EntryModel>,
    pub remaining_offset: usize,
    pub limit: Option<usize>,
    pub stopped: bool,
}

impl View for RowWindow {
    type V = WindowModel;

    open spec fn view(&self) -> WindowModel {
        WindowModel {
            rows: views(self.rows@),
            remaining_offset: self.remaining_offset,
            limit: self.limit,
            stopped: self.stopped,
        }
    }
}

/// A scan at its start.
pub open spec fn empty_window(limit: Option<usize>, offset: usize) -> WindowModel {
    WindowModel { rows: seq![], remaining_offset: offset, limit, stopped: false }
}

/// What one more row makes of a scan: those that match are left out as long as there is an
/// offset, then kept up to the limit.
pub open spec fn met(window: WindowModel, entry: EntryModel, matches_filter: bool) -> WindowModel {
    if !matches_filter {
        window
    } else if window.remaining_offset > 0 {
        WindowModel { remaining_offset: (window.remaining_offset - 1) as usize, ..window }
    } else {
        WindowModel {
            rows: window.rows.push(entry),
            stopped: window.limit matches Some(limit) && window.rows.len() + 1 >= limit,
            ..window
        }
    }
}

/// What rows make of a scan, up to its end.
pub open spec fn met_all(window: WindowModel, entries: Seq<EntryModel>, verdicts: Seq<bool>) -> WindowModel
    decreases entries.len(),
{
    if window.stopped || entries.len() == 0 || verdicts.len() == 0 {
        window
    } else {
        met_all(met(window, entries[0], verdicts[0]), entries.skip(1), verdicts.skip(1))
    }
}

impl RowWindow {
    /// A scan at its start.
    pub fn new(limit: Option<usize>, offset: usize) -> (window: RowWindow)
        ensures
            window@ == empty_window(limit, offset),
    {
        let window = RowWindow {
            rows: Vec::new(),
            remaining_offset: offset,
            limit,
            stopped: false,
        };
        assert(window@ =~= empty_window(limit, offset));
        window
    }

    /// Takes a row that the scan met; says whether the scan goes on.
    pub fn meet(&mut self, entry: RowEntry, matches_filter: bool) -> (goes_on: bool)
        ensures
            final(self)@ == met(old(self)@, entry@, matches_filter),
            goes_on == !final(self)@.stopped,
    {
        if !matches_filter {
            return !self.stopped;
        }
        if self.remaining_offset > 0 {
            self.remaining_offset -= 1;
            return !self.stopped;
        }
        let ghost before = self@;
        let ghost added = entry@;
        self.rows.push(entry);
        self.stopped = match self.limit {
            Some(limit) => self.rows.len() >= limit,
            None => false,
        };
        assert(self@.rows =~= before.rows.push(added));
        !self.stopped
    }

    /// Takes the rows of a batch, of which `verdicts` says whether they match.
    pub fn meet_all(&mut self, entries: &Vec<RowEntry>, verdicts: &Vec<bool>)
        requires
            entries@.len() == verdicts@.len(),
        ensures
            final(self)@ == met_all(old(self)@, views(entries@), verdicts@),
    {
        let ghost start = self@;
        let ghost all = views(entries@);
        let mut i: usize = 0;
        assert(all.skip(0) =~= all);
        assert(verdicts@.skip(0) =~= verdicts@);
        while i < entries.len() && !self.stopped
            invariant
                i <= entries@.len(),
                entries@.len() == verdicts@.len(),
                start == old(self)@,
                all == views(entries@),
                met_all(start, all, verdicts@) == met_all(
                    self@,
                    all.skip(i as int),
                    verdicts@.skip(i as int),
                ),
            decreases entries@.len() - i,
        {
            assert(all.skip(i as int)[0] == entries@[i as int]@);
            assert(all.skip(i as int).skip(1) =~= all.skip(i + 1));
            assert(verdicts@.skip(i as int)[0] == verdicts@[i as int]);
            assert(verdicts@.skip(i as int).skip(1) =~= verdicts@.skip(i + 1));
            self.meet(entries[i].duplicate(), verdicts[i]);
            i += 1;
        }
    }

    /// Where the next batch starts, once one of some size came with some entries, the last of
    /// which has a key; none where the scan is at its end.
    pub fn next_batch(&self, batch_len: usize, batch_size: usize, last: Option<ColumnValue>) -> (next:
        Option<Bound>)
        ensures
            option_view(next) == (if self@.stopped || batch_len < batch_size {
                None
            } else {
                match option_view(last) {
                    Some(value) => Some(BoundModel { value, inclusive: false }),
                    None => None,
                }
            }),
    {
        if self.stopped || batch_len < batch_size {
            return None;
        }
        match last {
            Some(value) => Some(Bound { value, inclusive: false }),
            None => None,
        }
    }

    /// The key that the next batch of markers starts with.
    pub fn next_marker_batch(&self, batch_len: usize, batch_size: usize, last: Option<Vec<u8>>) -> (next:
        Option<Vec<u8>>)
        ensures
            option_view(next) == (if self@.stopped || batch_len < batch_size {
                None
            } else {
                match option_view(last) {
                    Some(key) => Some(key.push(0u8)),
                    None => None,
                }
            }),
    {
        if self.stopped || batch_len < batch_size {
            return None;
        }
        match last {
            Some(mut key) => {
                key.push(0);
                Some(key)
            },
            None => None,
        }
    }
}

/// Rows that come in two batches make of a scan what they make of it in one.
pub proof fn law_batches_do_not_matter(
    window: WindowModel,
    first: Seq<EntryModel>,
    first_verdicts: Seq<bool>,
    second: Seq<EntryModel>,
    second_verdicts: Seq<bool>,
)
    requires
        first.len() == first_verdicts.len(),
        second.len() == second_verdicts.len(),
    ensures
        met_all(window, first + second, first_verdicts + second_verdicts) == met_all(
            met_all(window, first, first_verdicts),
            second,
            second_verdicts,
        ),
    decreases first.len(),
{
    if first.len() == 0 {
        assert(first + second =~= second);
        assert(first_verdicts + second_verdicts =~= second_verdicts);
    } else if !window.stopped {
        law_batches_do_not_matter(
            met(window, first[0], first_verdicts[0]),
            first.skip(1),
            first_verdicts.skip(1),
            second,
            second_verdicts,
        );
        assert((first + second).skip(1) =~= first.skip(1) + second);
        assert((first_verdicts + second_verdicts).skip(1) =~= first_verdicts.skip(1)
            + second_verdicts);
    }
}

/// The rows that match.
pub open spec fn matching_entries(entries: Seq<EntryModel>, verdicts: Seq<bool>) -> Seq<EntryModel>
    decreases entries.len(),
{
    if entries.len() == 0 || verdicts.len() == 0 {
        seq![]
    } else if verdicts[0] {
        seq![entries[0]] + matching_entries(entries.skip(1), verdicts.skip(1))
    } else {
        matching_entries(entries.skip(1), verdicts.skip(1))
    }
}

/// How many rows a scan keeps at most; a limit is tested behind a row, so that one is kept in
/// any case.
pub open spec fn kept_at_most(limit: Option<usize>) -> Option<usize> {
    match limit {
        Some(limit) => if limit == 0 {
            Some(1)
        } else {
            Some(limit)
        },
        None => None,
    }
}

spec fn room(window: WindowModel) -> Option<usize> {
    match kept_at_most(window.limit) {
        Some(limit) => Some((limit - window.rows.len()) as usize),
        None => None,
    }
}

spec fn has_room(window: WindowModel) -> bool {
    kept_at_most(window.limit) matches Some(limit) ==> window.rows.len() < limit
}

proof fn lemma_window_met(window: WindowModel, entries: Seq<EntryModel>, verdicts: Seq<bool>)
    requires
        !window.stopped,
        has_room(window),
        entries.len() == verdicts.len(),
    ensures
        met_all(window, entries, verdicts).rows == window.rows + windowed(
            matching_entries(entries, verdicts),
            room(window),
            window.remaining_offset,
        ),
    decreases entries.len(),
{
    let kept = matching_entries(entries, verdicts);
    let result = met_all(window, entries, verdicts);
    if entries.len() == 0 {
        assert(result.rows =~= window.rows + windowed(kept, room(window), window.remaining_offset));
    } else {
        let rest = matching_entries(entries.skip(1), verdicts.skip(1));
        let next = met(window, entries[0], verdicts[0]);
        if !verdicts[0] {
            lemma_window_met(window, entries.skip(1), verdicts.skip(1));
        } else if window.remaining_offset > 0 {
            lemma_window_met(next, entries.skip(1), verdicts.skip(1));
            assert(kept.skip(1) =~= rest);
            if window.remaining_offset < kept.len() {
                assert(kept.skip(window.remaining_offset as int) =~= rest.skip(
                    window.remaining_offset - 1,
                ));
            }
            assert(windowed(kept, room(window), window.remaining_offset) =~= windowed(
                rest,
                room(next),
                next.remaining_offset,
            ));
        } else {
            assert(kept.skip(0) =~= kept);
            if next.stopped {
                assert(met_all(next, entries.skip(1), verdicts.skip(1)) == next);
                assert(room(window) == Some(1usize));
                assert(windowed(kept, room(window), 0) =~= seq![entries[0]]);
                assert(next.rows =~= window.rows + seq![entries[0]]);
            } else {
                lemma_window_met(next, entries.skip(1), verdicts.skip(1));
                assert(rest.skip(0) =~= rest);
                assert(windowed(kept, room(window), 0) =~= seq![entries[0]] + windowed(
                    rest,
                    room(next),
                    0,
                ));
                assert(window.rows.push(entries[0]) + windowed(rest, room(next), 0)
                    =~= window.rows + (seq![entries[0]] + windowed(rest, room(next), 0)));
            }
        }
    }
}

/// A scan keeps, of the rows that match, those of the window.
pub proof fn law_scan_keeps_the_window(
    entries: Seq<EntryModel>,
    verdicts: Seq<bool>,
    limit: Option<usize>,
    offset: usize,
)
    requires
        entries.len() == verdicts.len(),
    ensures
        met_all(empty_window(limit, offset), entries, verdicts).rows == windowed(
            matching_entries(entries, verdicts),
            kept_at_most(limit),
            offset,
        ),
{
    let window = empty_window(limit, offset);
    lemma_window_met(window, entries, verdicts);
    assert(window.rows + windowed(
        matching_entries(entries, verdicts),
        room(window),
        offset,
    ) =~= windowed(matching_entries(entries, verdicts), room(window), offset));
}

/// How many entries are to be read for a window, where every entry counts.
pub open spec fn entries_wanted(has_filter: bool, limit: Option<usize>, offset: usize) -> Option<usize> {
    if has_filter {
        None
    } else {
        match limit {
            Some(limit) => Some(
                if limit + offset > usize::MAX {
                    usize::MAX
                } else {
                    (limit + offset) as usize
                },
            ),
            None => None,
        }
    }
}

/// How many entries are to be read for a window, where every entry counts.
pub fn storage_scan_limit(has_filter: bool, scan_limit: Option<usize>, row_offset: usize) -> (wanted:
    Option<usize>)
    ensures
        wanted == entries_wanted(has_filter, scan_limit, row_offset),
{
    if has_filter {
        return None;
    }
    match scan_limit {
        Some(limit) => {
            if limit > usize::MAX - row_offset {
                Some(usize::MAX)
            } else {
                Some(limit + row_offset)
            }
        },
        None => None,
    }
}

/// How many entries are to be read at a time for a window, and whether another batch may follow:
/// where a filter passes over entries, a window with a limit is filled batch by batch.
pub open spec fn batch_wanted(
    has_filter: bool,
    limit: Option<usize>,
    offset: usize,
    batch: usize,
) -> (Option<usize>, bool) {
    if has_filter && limit is Some {
        (Some(batch), true)
    } else {
        (entries_wanted(has_filter, limit, offset), false)
    }
}

/// How many entries are to be read at a time for a window, and whether another batch may follow.
pub fn scan_batch(has_filter: bool, limit: Option<usize>, offset: usize, batch: usize) -> (size: (
    Option<usize>,
    bool,
))
    ensures
        size == batch_wanted(has_filter, limit, offset, batch),
{
    if has_filter && limit.is_some() {
        (Some(batch), true)
    } else {
        (storage_scan_limit(has_filter, limit, offset), false)
    }
}

/// The keys whose text holds another text.
pub open spec fn holding(keys: Seq<Seq<u8>>, text: Seq<char>) -> Seq<Seq<u8>>
    decreases keys.len(),
{
    if keys.len() == 0 {
        seq![]
    } else if contains_text(lossy_text(keys.last()), text) {
        holding(keys.drop_last(), text).push(keys.last())
    } else {
        holding(keys.drop_last(), text)
    }
}

/// The keys whose text holds another text, in their order.
pub fn keys_holding(keys: &Vec<Vec<u8>>, text: &str) -> (found: Vec<Vec<u8>>)
    ensures
        views(found@) == holding(views(keys@), text@),
{
    let ghost all = views(keys@);
    let mut found: Vec<Vec<u8>> = Vec::new();
    let mut i: usize = 0;
    assert(all.take(0) =~= Seq::<Seq<u8>>::empty());
    assert(views(found@) =~= Seq::<Seq<u8>>::empty());
    while i < keys.len()
        invariant
            i <= keys@.len(),
            all == views(keys@),
            views(found@) == holding(all.take(i as int), text@),
        decreases keys@.len() - i,
    {
        assert(all.take(i + 1).drop_last() =~= all.take(i as int));
        assert(all.take(i + 1).last() == keys@[i as int]@);
        let written = lossy_string(keys[i].as_slice());
        let chars = chars_of(written.as_str());
        proof {
            lemma_first_at(written@, text@, 0);
        }
        if find_text(chars.as_slice(), text, 0).is_some() {
            let ghost before = views(found@);
            let key = bytes_of(keys[i].as_slice());
            found.push(key);
            assert(views(found@) =~= before.push(keys@[i as int]@));
        }
        i += 1;
    }
    assert(all.take(i as int) =~= all);
    found
}

/// The keys from a start up to an end, where there is one.
#[derive(Debug)]
pub struct KeyRange {
    pub start: Vec<u8>,
    pub end: Option<Vec<u8>>,
}

/// What a [`KeyRange`] says.
pub struct RangeModel {
    pub start: Seq<u8>,
    pub end: Option<Seq<u8>>,
}

impl View for KeyRange {
    type V = RangeModel;

    open spec fn view(&self) -> RangeModel {
        RangeModel { start: self.start@, end: option_view(self.end) }
    }
}

/// Whether a range holds a key.
pub open spec fn in_range(range: RangeModel, key: Seq<u8>) -> bool {
    !bytes_less(key, range.start) && (range.end matches Some(end) ==> bytes_less(key, end))
}

/// The key of a row's marker.
pub open spec fn marker_key(
    database_name: Seq<char>,
    schema_name: Seq<char>,
    table_name: Seq<char>,
    key: Datum,
) -> Seq<u8> {
    column_prefix(database_name, schema_name, table_name, "__row__"@) + key_segment(key)
}

/// The keys of the markers of the rows whose keys are between two bounds.
pub open spec fn marker_range(
    database_name: Seq<char>,
    schema_name: Seq<char>,
    table_name: Seq<char>,
    lower: Option<BoundModel>,
    upper: Option<BoundModel>,
) -> RangeModel {
    let prefix = column_prefix(database_name, schema_name, table_name, "__row__"@);
    RangeModel {
        start: match lower {
            Some(bound) => {
                let key = marker_key(database_name, schema_name, table_name, bound.value);
                if bound.inclusive {
                    key
                } else {
                    key.push(0u8)
                }
            },
            None => prefix,
        },
        end: match upper {
            Some(bound) => {
                let key = marker_key(database_name, schema_name, table_name, bound.value);
                if bound.inclusive {
                    Some(key.push(0u8))
                } else {
                    Some(key)
                }
            },
            None => next_prefix(prefix),
        },
    }
}

/// The keys of the markers of the rows whose keys are between two bounds.
pub fn row_marker_range(
    database_name: &str,
    schema_name: &str,
    table_name: &str,
    lower: &Option<Bound>,
    upper: &Option<Bound>,
) -> (range: KeyRange)
    requires
        option_view(*lower) matches Some(bound) ==> keyable(bound.value),
        option_view(*upper) matches Some(bound) ==> keyable(bound.value),
    ensures
        range@ == marker_range(
            database_name@,
            schema_name@,
            table_name@,
            option_view(*lower),
            option_view(*upper),
        ),
{
    let prefix = row_marker_prefix(database_name, schema_name, table_name);
    let end = match upper {
        Some(bound) => {
            let mut key = row_marker_key(database_name, schema_name, table_name, &bound.value);
            if bound.inclusive {
                key.push(0);
            }
            Some(key)
        },
        None => next_key_prefix(prefix.as_slice()),
    };
    let start = match lower {
        Some(bound) => {
            let mut key = row_marker_key(database_name, schema_name, table_name, &bound.value);
            if !bound.inclusive {
                key.push(0);
            }
            key
        },
        None => prefix,
    };
    KeyRange { start, end }
}

/// No byte string comes between another and that with a zero byte behind it.
proof fn lemma_next_bytes(a: Seq<u8>, b: Seq<u8>)
    ensures
        bytes_less(a, b) == !bytes_less(b, a.push(0u8)),
    decreases a.len(),
{
    if a.len() == 0 {
        if b.len() > 0 {
            assert(a.push(0u8)[0] == 0);
            assert(a.push(0u8).skip(1) =~= Seq::<u8>::empty());
            assert(!bytes_less(b.skip(1), Seq::<u8>::empty()));
        }
    } else if b.len() > 0 {
        assert(a.push(0u8)[0] == a[0]);
        lemma_next_bytes(a.skip(1), b.skip(1));
        assert(a.push(0u8).skip(1) =~= a.skip(1).push(0u8));
    }
}

proof fn lemma_not_less_than_start(prefix: Seq<u8>, key: Seq<u8>)
    requires
        starts_with(key, prefix),
    ensures
        !bytes_less(key, prefix),
    decreases prefix.len(),
{
    if prefix.len() > 0 {
        assert(key[0] == key.take(prefix.len() as int)[0]);
        assert(key.skip(1).take(prefix.len() - 1) =~= prefix.skip(1));
        lemma_not_less_than_start(prefix.skip(1), key.skip(1));
    }
}

/// Whether keys keep the order of two values: one is before the other, or they are the same.
pub open spec fn key_comparable(a: Datum, b: Datum) -> bool {
    a == b || key_order(a, b) || key_order(b, a)
}

proof fn lemma_key_order(start: Seq<u8>, a: Datum, b: Datum)
    requires
        key_comparable(a, b),
    ensures
        bytes_less(start + key_segment(a), start + key_segment(b)) == (a != b && key_order(a, b)),
        bytes_less(start + key_segment(b), start + key_segment(a)) == (a != b && key_order(b, a)),
{
    let x = start + key_segment(a);
    let y = start + key_segment(b);
    lemma_bytes_less_total(x, y);
    lemma_bytes_less_total(x, x);
    if key_order(a, b) {
        law_keys_keep_order(start, a, b);
    }
    if key_order(b, a) {
        law_keys_keep_order(start, b, a);
    }
    if a == b {
        if bytes_less(x, x) {
            lemma_bytes_less_irreflexive(x);
        }
    }
}

proof fn lemma_bytes_less_irreflexive(a: Seq<u8>)
    ensures
        !bytes_less(a, a),
    decreases a.len(),
{
    if a.len() > 0 {
        lemma_bytes_less_irreflexive(a.skip(1));
    }
}

/// The range of a scan by keys holds the marker of just the rows whose keys are between the
/// bounds, as far as keys keep the order of values.
pub proof fn law_marker_range_has_the_rows_in_bounds(
    database_name: Seq<char>,
    schema_name: Seq<char>,
    table_name: Seq<char>,
    lower: Option<BoundModel>,
    upper: Option<BoundModel>,
    key: Datum,
)
    requires
        lower matches Some(bound) ==> key_comparable(bound.value, key),
        upper matches Some(bound) ==> key_comparable(bound.value, key),
    ensures
        in_range(
            marker_range(database_name, schema_name, table_name, lower, upper),
            marker_key(database_name, schema_name, table_name, key),
        ) == ((lower matches Some(bound) ==> (bound.value != key && key_order(bound.value, key)) || (
        bound.value == key && bound.inclusive)) && (upper matches Some(bound) ==> (bound.value
            != key && key_order(key, bound.value)) || (bound.value == key && bound.inclusive))),
{
    let prefix = column_prefix(database_name, schema_name, table_name, "__row__"@);
    let place = marker_key(database_name, schema_name, table_name, key);
    assert(place.take(prefix.len() as int) =~= prefix);
    lemma_not_less_than_start(prefix, place);
    match lower {
        Some(bound) => {
            let low = marker_key(database_name, schema_name, table_name, bound.value);
            lemma_key_order(prefix, bound.value, key);
            lemma_bytes_less_total(low, place);
            lemma_next_bytes(low, place);
            if bound.value == key {
                lemma_bytes_less_irreflexive(place);
            }
        },
        None => {},
    }
    match upper {
        Some(bound) => {
            let high = marker_key(database_name, schema_name, table_name, bound.value);
            lemma_key_order(prefix, bound.value, key);
            lemma_bytes_less_total(high, place);
            lemma_next_bytes(high, place);
            if bound.value == key {
                lemma_bytes_less_irreflexive(place);
            }
        },
        None => {
            if next_prefix(prefix) is Some {
                law_next_prefix_bounds(prefix, place);
            }
        },
    }
}

/// The end of the keys that start with a prefix, as far as there is one.
pub open spec fn prefix_end(prefix: Seq<u8>) -> Seq<u8> {
    match next_prefix(prefix) {
        Some(end) => end,
        None => prefix,
    }
}

/// The end of the keys of the entries that an index has for a value.
pub fn index_scan_end(prefix: &Vec<u8>) -> (end: Vec<u8>)
    ensures
        end@ == prefix_end(prefix@),
{
    match next_key_prefix(prefix.as_slice()) {
        Some(end) => end,
        None => bytes_of(prefix.as_slice()),
    }
}

/// The start of the keys of an index's entries with one value, and whether that value is in.
#[derive(Debug)]
pub struct PrefixBound {
    pub prefix: Vec<u8>,
    pub inclusive: bool,
}

/// What a [`PrefixBound`] says.
pub struct PrefixModel {
    pub prefix: Seq<u8>,
    pub inclusive: bool,
}

impl View for PrefixBound {
    type V = PrefixModel;

    open spec fn view(&self) -> PrefixModel {
        PrefixModel { prefix: self.prefix@, inclusive: self.inclusive }
    }
}

/// The keys of the entries of an index between two bounds; none where there can be no entry.
pub open spec fn entry_range(
    all: Seq<u8>,
    lower: Option<PrefixModel>,
    upper: Option<PrefixModel>,
) -> Option<RangeModel> {
    let start = match lower {
        Some(bound) => if bound.inclusive {
            bound.prefix
        } else {
            prefix_end(bound.prefix)
        },
        None => all,
    };
    let end = match upper {
        Some(bound) => if bound.inclusive {
            next_prefix(bound.prefix)
        } else {
            Some(bound.prefix)
        },
        None => next_prefix(all),
    };
    match end {
        Some(key) => if bytes_less(start, key) {
            Some(RangeModel { start, end })
        } else {
            None
        },
        None => Some(RangeModel { start, end }),
    }
}

/// The keys of the entries of an index between two bounds; none where there can be no entry.
pub fn index_entry_range(
    all_prefix: &Vec<u8>,
    lower: &Option<PrefixBound>,
    upper: &Option<PrefixBound>,
) -> (range: Option<KeyRange>)
    ensures
        option_view(range) == entry_range(all_prefix@, option_view(*lower), option_view(*upper)),
{
    let start = match lower {
        Some(bound) => {
            if bound.inclusive {
                bytes_of(bound.prefix.as_slice())
            } else {
                index_scan_end(&bound.prefix)
            }
        },
        None => bytes_of(all_prefix.as_slice()),
    };
    let end = match upper {
        Some(bound) => {
            if bound.inclusive {
                next_key_prefix(bound.prefix.as_slice())
            } else {
                Some(bytes_of(bound.prefix.as_slice()))
            }
        },
        None => next_key_prefix(all_prefix.as_slice()),
    };
    match end {
        Some(key) => {
            if is_bytes_less(start.as_slice(), key.as_slice()) {
                Some(KeyRange { start, end: Some(key) })
            } else {
                None
            }
        },
        None => Some(KeyRange { start, end: None }),
    }
}

/// What comes behind the start of the keys of an index, which every entry has.
pub fn index_entry_suffix(key: &Vec<u8>, all_prefix: &Vec<u8>) -> (result: Result<
    Vec<u8>,
    UserError,
>)
    ensures
        match result {
            Ok(suffix) => starts_with(key@, all_prefix@) && suffix@ == key@.skip(
                all_prefix@.len() as int,
            ),
            Err(e) => !starts_with(key@, all_prefix@) && e@ == report(
                "XX000"@,
                "v2 index key missing expected all-index prefix"@,
            ),
        },
{
    if has_prefix(key.as_slice(), all_prefix.as_slice()) {
        let rest = vstd::slice::slice_subrange(key.as_slice(), all_prefix.len(), key.len());
        assert(rest@ =~= key@.skip(all_prefix@.len() as int));
        Ok(bytes_of(rest))
    } else {
        Err(user_error("XX000", "v2 index key missing expected all-index prefix"))
    }
}

/// Whether an entry of an index is between the bounds. Its value and its row's key have to fill
/// what comes behind the start of the index's keys: `consumed` bytes and `key_consumed` bytes.
pub fn index_entry_in_bounds(
    value: &ColumnValue,
    lower: &Option<Bound>,
    upper: &Option<Bound>,
    consumed: usize,
    key_consumed: usize,
    suffix_len: usize,
) -> (result: Result<bool, UserError>)
    ensures
        match result {
            Ok(answer) => answer == in_bounds(value@, option_view(*lower), option_view(*upper)) && (
            answer ==> consumed + key_consumed == suffix_len),
            Err(e) => in_bounds(value@, option_view(*lower), option_view(*upper)) && consumed
                + key_consumed != suffix_len && e@ == report(
                "XX000"@,
                "malformed v2 index range key suffix"@,
            ),
        },
{
    if !value_in_bounds(value, lower, upper) {
        return Ok(false);
    }
    if consumed > suffix_len || key_consumed != suffix_len - consumed {
        return Err(user_error("XX000", "malformed v2 index range key suffix"));
    }
    Ok(true)
}

/// What an index scan has to go by.
#[derive(Debug)]
pub enum IndexScan {
    /// There is no index with this name: all rows are met.
    NoIndex,
    /// The index has no column of the table: there is nothing to find.
    NoColumn,
    /// The entries of an index are met.
    Found { index: IndexCatalog },
}

/// What an [`IndexScan`] says.
pub enum IndexScanModel {
    NoIndex,
    NoColumn,
    Found { index: IndexModel },
}

impl View for IndexScan {
    type V = IndexScanModel;

    open spec fn view(&self) -> IndexScanModel {
        match *self {
            IndexScan::NoIndex => IndexScanModel::NoIndex,
            IndexScan::NoColumn => IndexScanModel::NoColumn,
            IndexScan::Found { index } => IndexScanModel::Found { index: index@ },
        }
    }
}

/// The first index with a name.
pub open spec fn index_by_name(indexes: Seq<IndexModel>, name: Seq<char>) -> Option<IndexModel>
    decreases indexes.len(),
{
    if indexes.len() == 0 {
        None
    } else if indexes[0].index_name == name {
        Some(indexes[0])
    } else {
        index_by_name(indexes.skip(1), name)
    }
}

/// What a scan of an index by a range has to go by.
pub open spec fn index_for_range(
    table: TableModel,
    indexes: Seq<IndexModel>,
    name: Seq<char>,
) -> IndexScanModel {
    match index_by_name(indexes, name) {
        None => IndexScanModel::NoIndex,
        Some(index) => if index.column_names.len() > 0 && has_column(
            table.columns,
            index.column_names[0],
        ) {
            IndexScanModel::Found { index }
        } else {
            IndexScanModel::NoColumn
        },
    }
}

impl<S: KvStore> GatewayServer<S> {
    /// The index with a name, where a table has one.
    pub fn index_to_scan(&mut self, schema: &TableSchema, index_name: &str) -> (result: Result<
        Option<IndexCatalog>,
        UserError,
    >)
        ensures
            final(self).reliable() == old(self).reliable(),
            final(self).same_sessions(old(self)),
            not_internal(result) || old(self).reliable() ==> only_opened(
                old(self).contents(),
                final(self).contents(),
            ) && (match result {
                Ok(found) => Ok(option_view(found)),
                Err(e) => Err(e@),
            }) == (match indexes_listed(bootstrapped(old(self).contents()), schema@.table_id) {
                Err(e) => Err(e),
                Ok(indexes) => Ok(index_by_name(indexes, index_name@)),
            }),
    {
        proof {
            law_bootstrap_is_stable(self.contents());
        }
        let indexes = match self.catalog.list_indexes_for_table(schema.table_id) {
            Err(e) => {
                return Err(e);
            },
            Ok(indexes) => indexes,
        };
        let ghost all = views(indexes@);
        let mut waiting = indexes;
        while waiting.len() > 0
            invariant
                index_by_name(all, index_name@) == index_by_name(
                    views(waiting@),
                    index_name@,
                ),
                self.reliable() == old(self).reliable(),
                self.same_sessions(old(self)),
                only_opened(old(self).contents(), self.contents()),
                indexes_listed(bootstrapped(old(self).contents()), schema@.table_id) == Ok::<
                    Seq<IndexModel>,
                    Report,
                >(all),
            decreases waiting@.len(),
        {
            let ghost before = views(waiting@);
            let index = waiting.remove(0);
            assert(before[0] == index@);
            assert(views(waiting@) =~= before.skip(1));
            if same_text(index.index_name.as_str(), index_name) {
                return Ok(Some(index));
            }
        }
        Ok(None)
    }

    /// What a scan of an index by a range has to go by.
    pub fn index_range_to_scan(&mut self, schema: &TableSchema, index_name: &str) -> (result: Result<
        IndexScan,
        UserError,
    >)
        ensures
            final(self).reliable() == old(self).reliable(),
            final(self).same_sessions(old(self)),
            not_internal(result) || old(self).reliable() ==> only_opened(
                old(self).contents(),
                final(self).contents(),
            ) && seen(result) == (match indexes_listed(
                bootstrapped(old(self).contents()),
                schema@.table_id,
            ) {
                Err(e) => Err(e),
                Ok(indexes) => Ok(index_for_range(schema@, indexes, index_name@)),
            }),
    {
        match self.index_to_scan(schema, index_name) {
            Err(e) => Err(e),
            Ok(None) => Ok(IndexScan::NoIndex),
            Ok(Some(index)) => {
                if index.column_names.len() > 0 {
                    assert(index@.column_names[0] == index.column_names@[0]@);
                    if schema.find_column(index.column_names[0].as_str()).is_some() {
                        return Ok(IndexScan::Found { index });
                    }
                }
                Ok(IndexScan::NoColumn)
            },
        }
    }
}

/// The row that a transaction sees: what it wrote itself, where it wrote the row; else the
/// stored record; else the row that is stored cell by cell.
pub fn visible_row(
    written: Option<Option<RowMap>>,
    stored: Option<RowMap>,
    in_cells: Option<RowMap>,
) -> (row: Option<RowMap>)
    ensures
        row == (match written {
            Some(own) => own,
            None => if stored is Some {
                stored
            } else {
                in_cells
            },
        }),
{
    match written {
        Some(own) => own,
        None => match stored {
            Some(found) => Some(found),
            None => in_cells,
        },
    }
}

/// The row that cells give; a cell that is missing is null.
pub open spec fn cells_read(columns: Seq<ColumnSchema>, cells: Seq<Option<Seq<u8>>>) -> Result<
    RowModel,
    Report,
>
    decreases columns.len(),
{
    if columns.len() == 0 || cells.len() == 0 {
        Ok(Map::empty())
    } else {
        match cells_read(columns.drop_last(), cells.drop_last()) {
            Err(e) => Err(e),
            Ok(row) => match cells.last() {
                None => Ok(row.insert(columns.last().name@, Datum::Null)),
                Some(bytes) => match read_cell(columns.last().data_type, bytes) {
                    Err(e) => Err(e),
                    Ok(value) => Ok(row.insert(columns.last().name@, value)),
                },
            },
        }
    }
}

proof fn lemma_cells_fail(columns: Seq<ColumnSchema>, cells: Seq<Option<Seq<u8>>>, n: int)
    requires
        0 <= n <= columns.len(),
        columns.len() == cells.len(),
        cells_read(columns.take(n), cells.take(n)) is Err,
    ensures
        cells_read(columns, cells) == cells_read(columns.take(n), cells.take(n)),
    decreases columns.len() - n,
{
    if n == columns.len() {
        assert(columns.take(n) =~= columns);
        assert(cells.take(n) =~= cells);
    } else {
        assert(columns.take(n + 1).drop_last() =~= columns.take(n));
        assert(cells.take(n + 1).drop_last() =~= cells.take(n));
        lemma_cells_fail(columns, cells, n + 1);
    }
}

/// The bytes of cells.
pub open spec fn cell_views(cells: Seq<Option<Vec<u8>>>) -> Seq<Option<Seq<u8>>> {
    cells.map_values(|cell: Option<Vec<u8>>| option_view(cell))
}

/// The row that cells give; a cell that is missing is null.
pub fn row_of_cells(schema: &TableSchema, cells: &Vec<Option<Vec<u8>>>) -> (result: Result<
    RowMap,
    UserError,
>)
    requires
        cells@.len() == schema.columns@.len(),
    ensures
        seen(result) == cells_read(schema.columns@, cell_views(cells@)),
{
    let ghost columns = schema.columns@;
    let ghost all = cell_views(cells@);
    let mut row = RowMap::new();
    let mut i: usize = 0;
    while i < schema.columns.len()
        invariant
            i <= schema.columns@.len(),
            cells@.len() == schema.columns@.len(),
            columns == schema.columns@,
            all == cell_views(cells@),
            cells_read(columns.take(i as int), all.take(i as int)) == Ok::<RowModel, Report>(row@),
        decreases schema.columns@.len() - i,
    {
        proof {
            assert(columns.take(i + 1).drop_last() =~= columns.take(i as int));
            assert(all.take(i + 1).drop_last() =~= all.take(i as int));
            assert(columns.take(i + 1).last() == schema.columns@[i as int]);
            assert(all.take(i + 1).last() == option_view(cells@[i as int]));
        }
        let column = &schema.columns[i];
        let value = match &cells[i] {
            None => ColumnValue::Null,
            Some(bytes) => match decode_cell_value(&column.data_type, bytes.as_slice()) {
                Err(e) => {
                    proof {
                        lemma_cells_fail(columns, all, i + 1);
                    }
                    return Err(e);
                },
                Ok(value) => value,
            },
        };
        row.insert(column.name.clone(), value);
        i += 1;
    }
    assert(columns.take(i as int) =~= columns);
    assert(all.take(i as int) =~= all);
    Ok(row)
}

/// What a row says of columns; null where it says nothing.
pub open spec fn over_columns(columns: Seq<ColumnSchema>, row: RowModel) -> RowModel {
    Map::new(
        |name: Seq<char>|
            exists|i: int| 0 <= i < columns.len() && (#[trigger] columns[i]).name@ == name,
        |name: Seq<char>| field(row, name),
    )
}

/// The cells of a row.
pub open spec fn cells_of(columns: Seq<ColumnSchema>, row: RowModel) -> Seq<Option<Seq<u8>>> {
    columns.map_values(|column: ColumnSchema| Some(cell_bytes(field(row, column.name@))))
}

/// A row that was stored cell by cell is read back from its cells.
pub proof fn law_cells_give_the_row_back(columns: Seq<ColumnSchema>, row: RowModel)
    requires
        forall|i: int|
            0 <= i < columns.len() ==> storable(
                (#[trigger] columns[i]).data_type,
                field(row, columns[i].name@),
            ),
    ensures
        cells_read(columns, cells_of(columns, row)) == Ok::<RowModel, Report>(
            over_columns(columns, row),
        ),
    decreases columns.len(),
{
    let cells = cells_of(columns, row);
    if columns.len() == 0 {
        assert(over_columns(columns, row) =~= Map::<Seq<char>, Datum>::empty());
    } else {
        let rest = columns.drop_last();
        let last = columns.last();
        assert forall|i: int| 0 <= i < rest.len() implies storable(
            (#[trigger] rest[i]).data_type,
            field(row, rest[i].name@),
        ) by {
            assert(rest[i] == columns[i]);
        }
        law_cells_give_the_row_back(rest, row);
        assert(cells.drop_last() =~= cells_of(rest, row));
        assert(cells.last() == Some(cell_bytes(field(row, last.name@))));
        assert(last == columns[columns.len() - 1]);
        law_cell_roundtrip(last.data_type, field(row, last.name@));
        let before = over_columns(rest, row);
        assert(before.insert(last.name@, field(row, last.name@)) =~= over_columns(columns, row)) by {
            assert forall|name: Seq<char>| before.insert(
                last.name@,
                field(row, last.name@),
            ).dom().contains(name) == over_columns(columns, row).dom().contains(name) by {
                if before.dom().contains(name) {
                    let i = choose|i: int|
                        0 <= i < rest.len() && (#[trigger] rest[i]).name@ == name;
                    assert(columns[i] == rest[i]);
                }
                if over_columns(columns, row).dom().contains(name) && name != last.name@ {
                    let i = choose|i: int|
                        0 <= i < columns.len() && (#[trigger] columns[i]).name@ == name;
                    assert(rest[i] == columns[i]);
                }
            }
        }
    }
}

} // verus!
