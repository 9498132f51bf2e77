//! What becomes of a table's indexes when the table goes.
use vstd::prelude::*;
use vstd::utf8::*;

use crate::bytes::starts_with;
use crate::catalog::codec::{
    database_name_path, id_path, index_members, scoped_name_path, stored_id, stored_index,
    table_indexes_path, INDEXES_BY_ID, INDEXES_BY_NAME, TABLES_BY_ID, TABLES_BY_NAME,
};
use crate::catalog::laws::{
    lemma_at_with, lemma_at_without, lemma_marks, lemma_stored_id, lemma_without_indexes, mark,
};
use crate::catalog::model::{
    at, bootstrapped, index_with_id, indexes_listed, kept, law_bootstrap_is_stable, legacy_path,
    table_dropped, table_found, with_index, without, without_indexes,
};
use crate::catalog::types::{IndexCatalog, IndexModel, TableEntry};
use crate::error::Report;
use crate::json::object_text;
use crate::mem_store::{is_scan, law_finite_contents_have_a_scan, lemma_scan_unique, scan, Contents};
use crate::sorting::{inserted, order_of, sorted};
use crate::text::{decimal, lemma_decimal_shape, lemma_utf8_concat};

verus! {

/// The key under which an index is listed for its table.
pub open spec fn filed_key(index: IndexModel) -> Seq<u8> {
    encode_utf8(table_indexes_path(index.table_id) + decimal(index.index_id as nat))
}

/// Whether a key lists an index of the table.
pub open spec fn lists(contents: Contents, table_id: u32, key: Seq<u8>) -> bool {
    contents.dom().contains(key) && starts_with(key, encode_utf8(table_indexes_path(table_id)))
}

/// Whether a key lists the index of the table that is filed under the other key.
pub open spec fn leads_to(contents: Contents, table_id: u32, key: Seq<u8>, other: Seq<u8>) -> bool {
    &&& contents.dom().contains(key)
    &&& starts_with(key, encode_utf8(table_indexes_path(table_id)))
    &&& index_with_id(contents, contents[key]) matches Ok(index) && filed_key(index) == other
}

/// Whether every key that lists an index of the table is one under which such an index is
/// filed.
pub open spec fn indexes_filed(contents: Contents, table_id: u32) -> bool {
    forall|key: Seq<u8>| #[trigger]
        lists(contents, table_id, key) ==> exists|other: Seq<u8>|
            leads_to(contents, table_id, other, key)
}

proof fn lemma_head_bytes(head: Seq<char>, rest: Seq<char>)
    requires
        is_ascii_chars(head),
    ensures
        encode_utf8(head + rest).len() >= head.len(),
        forall|i: int|
            0 <= i < head.len() ==> #[trigger] encode_utf8(head + rest)[i] == head[i] as u8,
{
    lemma_utf8_concat(head, rest);
    is_ascii_chars_encode_utf8(head);
    assert forall|i: int| 0 <= i < head.len() implies #[trigger] encode_utf8(head + rest)[i]
        == head[i] as u8 by {
        assert(encode_utf8(head + rest)[i] == encode_utf8(head)[i]);
    }
}

/// A key that lists an index of a table has letters of its own at three places.
proof fn lemma_listing_bytes(key: Seq<u8>, table_id: u32)
    requires
        starts_with(key, encode_utf8(table_indexes_path(table_id))),
    ensures
        key.len() > 23,
        key[2] == 'c' as u8,
        key[12] == 'i' as u8,
        key[23] == 't' as u8,
{
    let head = "__catalog__/indexes/by-table/"@;
    reveal_strlit("__catalog__/indexes/by-table/");
    reveal_strlit("/");
    let rest = decimal(table_id as nat) + "/"@;
    assert(table_indexes_path(table_id) =~= head + rest);
    lemma_head_bytes(head, rest);
    let start = encode_utf8(table_indexes_path(table_id));
    assert forall|i: int| 0 <= i < start.len() implies key[i] == start[i] by {
        assert(key.take(start.len() as int)[i] == key[i]);
    }
}

/// The keys of a table itself list no index.
proof fn lemma_table_keys(table_id: u32, id: u32, d: u32, s: u32, name: Seq<char>)
    ensures
        !starts_with(
            encode_utf8(id_path(TABLES_BY_ID@, id)),
            encode_utf8(table_indexes_path(table_id)),
        ),
        !starts_with(
            encode_utf8(scoped_name_path(TABLES_BY_NAME@, d, s, name)),
            encode_utf8(table_indexes_path(table_id)),
        ),
        !starts_with(encode_utf8(legacy_path(name)), encode_utf8(table_indexes_path(table_id))),
{
    reveal_strlit("__catalog__/tables/by-id/");
    reveal_strlit("__catalog__/tables/by-name/");
    reveal_strlit("__schema__:");
    let by_id = encode_utf8(id_path(TABLES_BY_ID@, id));
    lemma_head_bytes(TABLES_BY_ID@, decimal(id as nat));
    assert(by_id[12] == 't' as u8);
    if starts_with(by_id, encode_utf8(table_indexes_path(table_id))) {
        lemma_listing_bytes(by_id, table_id);
    }
    let path = scoped_name_path(TABLES_BY_NAME@, d, s, name);
    let by_name = encode_utf8(path);
    let rest = path.skip(TABLES_BY_NAME@.len() as int);
    assert(path =~= TABLES_BY_NAME@ + rest);
    lemma_head_bytes(TABLES_BY_NAME@, rest);
    assert(by_name[12] == 't' as u8);
    if starts_with(by_name, encode_utf8(table_indexes_path(table_id))) {
        lemma_listing_bytes(by_name, table_id);
    }
    let legacy = encode_utf8(legacy_path(name));
    lemma_head_bytes("__schema__:"@, name);
    assert(legacy[2] == 's' as u8);
    if starts_with(legacy, encode_utf8(table_indexes_path(table_id))) {
        lemma_listing_bytes(legacy, table_id);
    }
}

/// The keys of an index by its number and by its name list no index.
proof fn lemma_index_keys(table_id: u32, id: u32, d: u32, s: u32, name: Seq<char>)
    ensures
        !starts_with(
            encode_utf8(id_path(INDEXES_BY_ID@, id)),
            encode_utf8(table_indexes_path(table_id)),
        ),
        !starts_with(
            encode_utf8(scoped_name_path(INDEXES_BY_NAME@, d, s, name)),
            encode_utf8(table_indexes_path(table_id)),
        ),
{
    reveal_strlit("__catalog__/indexes/by-id/");
    reveal_strlit("__catalog__/indexes/by-name/");
    let by_id = encode_utf8(id_path(INDEXES_BY_ID@, id));
    lemma_head_bytes(INDEXES_BY_ID@, decimal(id as nat));
    assert(by_id[23] == 'i' as u8);
    if starts_with(by_id, encode_utf8(table_indexes_path(table_id))) {
        lemma_listing_bytes(by_id, table_id);
    }
    let path = scoped_name_path(INDEXES_BY_NAME@, d, s, name);
    let by_name = encode_utf8(path);
    let rest = path.skip(INDEXES_BY_NAME@.len() as int);
    assert(path =~= INDEXES_BY_NAME@ + rest);
    lemma_head_bytes(INDEXES_BY_NAME@, rest);
    assert(by_name[23] == 'n' as u8);
    if starts_with(by_name, encode_utf8(table_indexes_path(table_id))) {
        lemma_listing_bytes(by_name, table_id);
    }
}

proof fn lemma_kept_all<T>(
    entries: Seq<(Seq<u8>, Seq<u8>)>,
    reader: spec_fn(Seq<u8>) -> Result<T, Report>,
    wanted: spec_fn(T) -> bool,
    done: Seq<T>,
)
    requires
        kept(entries, reader, wanted, done) is Ok,
        forall|value: T| #[trigger] wanted(value),
    ensures
        forall|i: int|
            0 <= i < done.len() ==> kept(entries, reader, wanted, done)->Ok_0.contains(
                #[trigger] done[i],
            ),
        forall|i: int|
            0 <= i < entries.len() ==> reader((#[trigger] entries[i]).1) is Ok && kept(
                entries,
                reader,
                wanted,
                done,
            )->Ok_0.contains(reader(entries[i].1)->Ok_0),
    decreases entries.len(),
{
    let list = kept(entries, reader, wanted, done)->Ok_0;
    if entries.len() > 0 {
        let value = reader(entries[0].1)->Ok_0;
        assert(wanted(value));
        let longer = done.push(value);
        lemma_kept_all(entries.skip(1), reader, wanted, longer);
        assert forall|i: int| 0 <= i < done.len() implies list.contains(#[trigger] done[i]) by {
            assert(longer[i] == done[i]);
        }
        assert forall|i: int| 0 <= i < entries.len() implies reader((#[trigger] entries[i]).1) is Ok
            && list.contains(reader(entries[i].1)->Ok_0) by {
            if i == 0 {
                assert(longer[done.len() as int] == value);
            } else {
                assert(entries.skip(1)[i - 1] == entries[i]);
            }
        }
    }
}

proof fn lemma_inserted_contains<V>(items: Seq<V>, item: V, before: spec_fn(V, V) -> bool, x: V)
    requires
        x == item || items.contains(x),
    ensures
        inserted(items, item, before).contains(x),
    decreases items.len(),
{
    let all = inserted(items, item, before);
    if items.len() > 0 && before(item, items.last()) {
        let init = items.drop_last();
        let inner = inserted(init, item, before);
        if x == item {
            lemma_inserted_contains(init, item, before, x);
        } else {
            let i = items.index_of(x);
            assert(items[i] == x);
            if i < init.len() {
                assert(init[i] == x);
                lemma_inserted_contains(init, item, before, x);
            }
        }
        if inner.contains(x) {
            let k = inner.index_of(x);
            assert(all[k] == x);
        } else {
            assert(all[inner.len() as int] == x);
        }
    } else {
        if items.contains(x) {
            let i = items.index_of(x);
            assert(all[i] == x);
        } else {
            assert(all[items.len() as int] == x);
        }
    }
}

proof fn lemma_sorted_contains<V>(items: Seq<V>, before: spec_fn(V, V) -> bool, x: V)
    requires
        items.contains(x),
    ensures
        sorted(items, before).contains(x),
    decreases items.len(),
{
    let i = items.index_of(x);
    assert(items[i] == x);
    let init = items.drop_last();
    if i < init.len() {
        assert(init[i] == x);
        lemma_sorted_contains(init, before, x);
    }
    lemma_inserted_contains(sorted(init, before), items.last(), before, x);
}

proof fn lemma_unfiled(contents: Contents, indexes: Seq<IndexModel>)
    ensures
        without_indexes(contents, indexes).dom().subset_of(contents.dom()),
        forall|i: int|
            0 <= i < indexes.len() ==> !without_indexes(contents, indexes).dom().contains(
                filed_key(#[trigger] indexes[i]),
            ),
    decreases indexes.len(),
{
    if indexes.len() > 0 {
        let init = indexes.drop_last();
        lemma_unfiled(contents, init);
        assert forall|i: int| 0 <= i < indexes.len() implies !without_indexes(
            contents,
            indexes,
        ).dom().contains(filed_key(#[trigger] indexes[i])) by {
            if i < init.len() {
                assert(init[i] == indexes[i]);
            }
        }
    }
}

proof fn lemma_entry_listed(contents: Contents, table_id: u32, key: Seq<u8>, index: IndexModel)
    requires
        contents.dom().finite(),
        indexes_listed(contents, table_id) is Ok,
        lists(contents, table_id, key),
        index_with_id(contents, contents[key]) == Ok::<IndexModel, Report>(index),
    ensures
        indexes_listed(contents, table_id)->Ok_0.contains(index),
{
    let path = encode_utf8(table_indexes_path(table_id));
    law_finite_contents_have_a_scan(contents, path);
    let entries = scan(contents, path);
    let reader = |bytes: Seq<u8>| index_with_id(contents, bytes);
    let wanted = |index: IndexModel| true;
    let unsorted = kept(entries, reader, wanted, seq![])->Ok_0;
    lemma_kept_all(entries, reader, wanted, seq![]);
    let i = choose|i: int| 0 <= i < entries.len() && (#[trigger] entries[i]).0 == key;
    assert(entries[i].1 == contents[key]);
    assert(reader(entries[i].1) == Ok::<IndexModel, Report>(index));
    lemma_sorted_contains(unsorted, order_of::<IndexCatalog>(), index);
}

proof fn lemma_nothing_listed(contents: Contents, table_id: u32)
    requires
        forall|key: Seq<u8>| !#[trigger] lists(contents, table_id, key),
    ensures
        indexes_listed(contents, table_id) == Ok::<Seq<IndexModel>, Report>(seq![]),
{
    let path = encode_utf8(table_indexes_path(table_id));
    assert forall|key: Seq<u8>| #[trigger]
        contents.dom().contains(key) && starts_with(key, path) implies false by {
        assert(!lists(contents, table_id, key));
    }
    assert(is_scan(contents, path, seq![]));
    lemma_scan_unique(contents, path, seq![]);
}

proof fn lemma_indexes_stay(contents: Contents, path: Seq<char>, bytes: Seq<u8>)
    requires
        mark(path).0 != 'i',
    ensures
        index_with_id(without(contents, path), bytes) == index_with_id(contents, bytes),
{
    broadcast use lemma_at_without;

    lemma_marks();
}

/// What `drop_table` gives back is what was found under the name, and where nothing was
/// found nothing changes.
pub proof fn law_dropping_gives_what_was_found(
    contents: Contents,
    database_name: Seq<char>,
    schema_name: Seq<char>,
    table_name: Seq<char>,
)
    ensures
        ({
            let start = bootstrapped(contents);
            let found = table_found(start, database_name, schema_name, table_name);
            let (dropped, after) = table_dropped(contents, database_name, schema_name, table_name);
            &&& dropped == Ok::<Option<TableEntry>, Report>(None) <==> found == Ok::<
                Option<TableEntry>,
                Report,
            >(None)
            &&& dropped is Ok ==> dropped == found
            &&& dropped == Ok::<Option<TableEntry>, Report>(None) ==> after == start
        }),
{
}

/// After a table was taken away no index of it is listed, where its indexes were listed
/// under the keys that they are filed under.
pub proof fn law_dropped_table_has_no_index(
    contents: Contents,
    database_name: Seq<char>,
    schema_name: Seq<char>,
    table_name: Seq<char>,
    table: TableEntry,
)
    requires
        contents.dom().finite(),
        table_dropped(contents, database_name, schema_name, table_name).0 == Ok::<
            Option<TableEntry>,
            Report,
        >(Some(table)),
        indexes_filed(bootstrapped(contents), table.schema.table_id),
    ensures
        ({
            let after = table_dropped(contents, database_name, schema_name, table_name).1;
            &&& bootstrapped(after) == after
            &&& indexes_listed(after, table.schema.table_id) == Ok::<Seq<IndexModel>, Report>(
                seq![],
            )
        }),
{
    lemma_marks();
    law_bootstrap_is_stable(contents);
    let start = bootstrapped(contents);
    let table_id = table.schema.table_id;
    let id = id_path(TABLES_BY_ID@, table_id);
    let name = scoped_name_path(TABLES_BY_NAME@, table.database_id, table.schema_id, table_name);
    let home = database_name_path("defaultdb"@);
    let first = without(start, id);
    let cleared = without(first, name);
    lemma_at_without(start, id, home);
    lemma_at_without(first, name, home);
    lemma_table_keys(table_id, table_id, table.database_id, table.schema_id, table_name);
    let listed = indexes_listed(cleared, table_id)->Ok_0;
    let bare = without_indexes(cleared, listed);
    lemma_unfiled(cleared, listed);
    lemma_without_indexes(cleared, listed, home);
    lemma_at_without(bare, legacy_path(table_name), home);
    let after = table_dropped(contents, database_name, schema_name, table_name).1;
    assert(after == bare || after == without(bare, legacy_path(table_name)));
    assert(after.dom().subset_of(bare.dom()));
    assert forall|key: Seq<u8>| !#[trigger] lists(after, table_id, key) by {
        if lists(after, table_id, key) {
            assert(lists(start, table_id, key));
            let other = choose|other: Seq<u8>| leads_to(start, table_id, other, key);
            let index = index_with_id(start, start[other])->Ok_0;
            lemma_indexes_stay(start, id, start[other]);
            lemma_indexes_stay(first, name, start[other]);
            assert(lists(cleared, table_id, other) && cleared[other] == start[other]);
            lemma_entry_listed(cleared, table_id, other, index);
            let k = listed.index_of(index);
            assert(listed[k] == index);
        }
    }
    lemma_nothing_listed(after, table_id);
}

proof fn lemma_ids_differ(a: u32, b: u32)
    requires
        a != b,
    ensures
        id_path(INDEXES_BY_ID@, a) != id_path(INDEXES_BY_ID@, b),
{
    lemma_decimal_shape(a as nat);
    lemma_decimal_shape(b as nat);
    let head = INDEXES_BY_ID@;
    assert(id_path(head, a).skip(head.len() as int) =~= decimal(a as nat));
    assert(id_path(head, b).skip(head.len() as int) =~= decimal(b as nat));
}

/// An index that is written under a number and a key of its own is listed for its table
/// under the key that it is filed under, and so are all that were before.
pub proof fn law_written_indexes_are_filed(contents: Contents, index: IndexModel, table_id: u32)
    requires
        indexes_filed(contents, table_id),
        stored_index(object_text(index_members(index))) == Ok::<IndexModel, Report>(index),
        at(contents, id_path(INDEXES_BY_ID@, index.index_id)) is None,
        !contents.dom().contains(filed_key(index)),
    ensures
        indexes_filed(with_index(contents, index), table_id),
{
    broadcast use lemma_at_with;

    lemma_marks();
    let after = with_index(contents, index);
    let filed = filed_key(index);
    lemma_stored_id(index.index_id, "index id"@);
    lemma_index_keys(
        table_id,
        index.index_id,
        index.database_id,
        index.schema_id,
        index.index_name,
    );
    assert(mark(table_indexes_path(index.table_id) + decimal(index.index_id as nat)) == (
        'i',
        't',
    ));
    assert(index_with_id(after, after[filed]) == Ok::<IndexModel, Report>(index));
    assert forall|key: Seq<u8>| #[trigger] lists(after, table_id, key) implies exists|other: Seq<u8>|
        leads_to(after, table_id, other, key) by {
        if key == filed {
            assert(leads_to(after, table_id, filed, key));
        } else {
            assert(lists(contents, table_id, key));
            let other = choose|other: Seq<u8>| leads_to(contents, table_id, other, key);
            assert(after.dom().contains(other) && after[other] == contents[other]);
            let found = stored_id(contents[other], "index id"@)->Ok_0;
            assert(found != index.index_id);
            lemma_ids_differ(found, index.index_id);
            assert(leads_to(after, table_id, other, key));
        }
    }
}

} // verus!
