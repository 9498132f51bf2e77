//! Changes of a whole table as a whole: giving its rows another key, and filling an index. The
//! rows are given; the work on them follows.
use vstd::prelude::*;

use crate::catalog::model::{bootstrapped, index_created, law_bootstrap_is_stable};
use crate::catalog::types::{IndexCatalog, IndexModel};
use crate::codec::{cell_key, key_segment, keyable};
use crate::codec_laws::{law_key_segments_differ, same_kind};
use crate::error::{not_internal, report, Report, UserError};
use crate::mem_store::{Contents, KvStore};
use crate::row::{field, RowModel};
use crate::schema::{views, ColumnModel, Duplicate, TableModel, TableSchema};
use crate::server::alter::{RowWork, WorkModel};
use crate::server::exec_rows::{index_begun, keyed_by, new_key, take_new_key, with_primary_key};
use crate::server::gateway::{only_opened, GatewayServer};
use crate::server::row_work::{
    breaks_index, cell_of, cells_removed, check_index_values, index_fill_work, index_filled,
    old_key_work, rekey_row_work, row_rekeyed, PlaceModel, RowAction, RowActionModel, RowPlace,
};
use crate::server::rows::{
    constraint_error, validate_row_constraints, CheckVerdict, EntryModel, RowEntry, VerdictModel,
};
use crate::types::{datum_eq, ColumnValue, Datum};

verus! {

/// What the check constraints of a table came to on one of its rows.
pub struct RowVerdicts {
    pub verdicts: Vec<CheckVerdict>,
}

impl View for RowVerdicts {
    type V = Seq<VerdictModel>;

    open spec fn view(&self) -> Seq<VerdictModel> {
        views(self.verdicts@)
    }
}

/// The bytes of the keys that the rows of a table get from a column.
pub open spec fn key_forms(rows: Seq<EntryModel>, column_name: Seq<char>) -> Seq<Seq<u8>> {
    rows.map_values(|entry: EntryModel| key_segment(field(entry.row, column_name)))
}

/// The first error of giving the rows of a table another key: a row that breaks a constraint of
/// the new description, has no key, or has the key of a row before.
pub open spec fn rekey_error(
    table: TableModel,
    column_name: Seq<char>,
    rows: Seq<EntryModel>,
    verdicts: Seq<Seq<VerdictModel>>,
) -> Option<Report>
    decreases rows.len(),
{
    if rows.len() == 0 {
        None
    } else {
        match rekey_error(table, column_name, rows.drop_last(), verdicts) {
            Some(e) => Some(e),
            None => match constraint_error(table, rows.last().row, verdicts[rows.len() - 1]) {
                Some(e) => Some(e),
                None => match new_key(
                    rows.last().row,
                    column_name,
                    key_forms(rows.drop_last(), column_name),
                ) {
                    Err(e) => Some(e),
                    Ok(_) => None,
                },
            },
        }
    }
}

/// The work that takes away what is stored under the old keys of rows, where they get others.
pub open spec fn old_keys_removed(
    place: PlaceModel,
    table: TableModel,
    column_name: Seq<char>,
    rows: Seq<EntryModel>,
) -> Seq<RowActionModel>
    decreases rows.len(),
{
    if rows.len() == 0 {
        seq![]
    } else {
        let before = old_keys_removed(place, table, column_name, rows.drop_last());
        if datum_eq(rows.last().key, field(rows.last().row, column_name)) {
            before
        } else {
            before + cells_removed(place, table.columns, rows.last().key, true)
        }
    }
}

/// The work that stores rows under their new keys.
pub open spec fn rows_rekeyed(
    place: PlaceModel,
    table: TableModel,
    indexes: Seq<IndexModel>,
    column_name: Seq<char>,
    rows: Seq<EntryModel>,
) -> Seq<RowActionModel>
    decreases rows.len(),
{
    if rows.len() == 0 {
        seq![]
    } else {
        rows_rekeyed(place, table, indexes, column_name, rows.drop_last()) + row_rekeyed(
            place,
            table,
            indexes,
            field(rows.last().row, column_name),
            rows.last().row,
        )
    }
}

/// A table with another key, and the work on its rows.
pub struct KeyChange {
    pub schema: TableSchema,
    pub actions: Vec<RowAction>,
}

/// What a [`KeyChange`] says.
pub struct KeyChangeModel {
    pub schema: TableModel,
    pub actions: Seq<RowActionModel>,
}

impl View for KeyChange {
    type V = KeyChangeModel;

    open spec fn view(&self) -> KeyChangeModel {
        KeyChangeModel { schema: self.schema@, actions: views(self.actions@) }
    }
}

/// Making a column the key of a table with rows.
pub open spec fn key_changed(
    place: PlaceModel,
    table: TableModel,
    indexes: Seq<IndexModel>,
    column_name: Seq<char>,
    rows: Seq<EntryModel>,
    verdicts: Seq<Seq<VerdictModel>>,
) -> Result<KeyChangeModel, Report> {
    match keyed_by(table, column_name) {
        Err(e) => Err(e),
        Ok(schema) => match rekey_error(schema, column_name, rows, verdicts) {
            Some(e) => Err(e),
            None => Ok(
                KeyChangeModel {
                    schema,
                    actions: old_keys_removed(place, table, column_name, rows) + rows_rekeyed(
                        place,
                        schema,
                        indexes,
                        column_name,
                        rows,
                    ),
                },
            ),
        },
    }
}

/// Once the first rows are refused, all are.
proof fn lemma_rekey_fails(
    table: TableModel,
    column_name: Seq<char>,
    rows: Seq<EntryModel>,
    verdicts: Seq<Seq<VerdictModel>>,
    n: int,
)
    requires
        0 <= n <= rows.len(),
        rekey_error(table, column_name, rows.take(n), verdicts) is Some,
    ensures
        rekey_error(table, column_name, rows, verdicts) == rekey_error(
            table,
            column_name,
            rows.take(n),
            verdicts,
        ),
    decreases rows.len() - n,
{
    if n < rows.len() {
        assert(rows.take(n + 1).drop_last() =~= rows.take(n));
        lemma_rekey_fails(table, column_name, rows, verdicts, n + 1);
    } else {
        assert(rows.take(n) =~= rows);
    }
}

fn check_new_keys(
    schema: &TableSchema,
    column_name: &str,
    rows: &Vec<RowEntry>,
    verdicts: &Vec<RowVerdicts>,
) -> (result: Result<(), UserError>)
    requires
        verdicts@.len() == rows@.len(),
        forall|i: int|
            0 <= i < verdicts@.len() ==> (#[trigger] verdicts@[i]).verdicts@.len()
                == schema.check_constraints@.len(),
        forall|i: int|
            0 <= i < rows@.len() ==> field((#[trigger] rows@[i]).row@, column_name@) is Null
                || keyable(field(rows@[i].row@, column_name@)),
    ensures
        match result {
            Ok(_) => rekey_error(schema@, column_name@, views(rows@), views(verdicts@)) is None,
            Err(e) => rekey_error(schema@, column_name@, views(rows@), views(verdicts@)) == Some(
                e@,
            ),
        },
{
    let ghost all = views(rows@);
    let ghost said = views(verdicts@);
    let mut known: Vec<Vec<u8>> = Vec::new();
    let mut i: usize = 0;
    assert(views(known@) =~= key_forms(all.take(0), column_name@));
    while i < rows.len()
        invariant
            i <= rows@.len(),
            verdicts@.len() == rows@.len(),
            forall|k: int|
                0 <= k < verdicts@.len() ==> (#[trigger] verdicts@[k]).verdicts@.len()
                    == schema.check_constraints@.len(),
            all == views(rows@),
            said == views(verdicts@),
            forall|k: int|
                0 <= k < rows@.len() ==> field((#[trigger] rows@[k]).row@, column_name@) is Null
                    || keyable(field(rows@[k].row@, column_name@)),
            views(known@) == key_forms(all.take(i as int), column_name@),
            rekey_error(schema@, column_name@, all.take(i as int), said) is None,
        decreases rows@.len() - i,
    {
        let ghost n = i + 1;
        proof {
            assert(all.take(n).drop_last() =~= all.take(i as int));
            assert(all.take(n).last() == rows@[i as int]@);
            assert(said[i as int] == verdicts@[i as int]@);
        }
        match validate_row_constraints(schema, &rows[i].row, &verdicts[i].verdicts) {
            Err(e) => {
                proof {
                    lemma_rekey_fails(schema@, column_name@, all, said, n);
                }
                return Err(e);
            },
            Ok(_) => {},
        }
        match take_new_key(&rows[i].row, column_name, &mut known) {
            Err(e) => {
                proof {
                    lemma_rekey_fails(schema@, column_name@, all, said, n);
                }
                return Err(e);
            },
            Ok(_) => {},
        }
        assert(views(known@) =~= key_forms(all.take(n), column_name@));
        i += 1;
    }
    assert(all.take(i as int) =~= all);
    Ok(())
}

fn add_actions(actions: &mut Vec<RowAction>, more: Vec<RowAction>)
    ensures
        views(final(actions)@) == views(old(actions)@) + views(more@),
{
    let ghost before = views(actions@);
    let ghost added = views(more@);
    let mut more = more;
    actions.append(&mut more);
    assert(views(actions@) =~= before + added);
}

/// Makes a column the key of a table with rows: the new description and the work on the rows,
/// else the first error. `verdicts` says of each row what the check constraints came to.
pub fn add_primary_key(
    place: &RowPlace,
    schema: &TableSchema,
    indexes: &Vec<IndexCatalog>,
    column_name: &str,
    rows: &Vec<RowEntry>,
    verdicts: &Vec<RowVerdicts>,
) -> (result: Result<KeyChange, UserError>)
    requires
        verdicts@.len() == rows@.len(),
        forall|i: int|
            0 <= i < verdicts@.len() ==> (#[trigger] verdicts@[i]).verdicts@.len()
                == schema.check_constraints@.len(),
        forall|i: int|
            0 <= i < rows@.len() ==> keyable((#[trigger] rows@[i]).key@) && (field(
                rows@[i].row@,
                column_name@,
            ) is Null || keyable(field(rows@[i].row@, column_name@))),
    ensures
        crate::schema::seen(result) == key_changed(
            place@,
            schema@,
            views(indexes@),
            column_name@,
            views(rows@),
            views(verdicts@),
        ),
{
    let keyed = match with_primary_key(schema, column_name) {
        Err(e) => {
            return Err(e);
        },
        Ok(keyed) => keyed,
    };
    assert(keyed.check_constraints@.len() == schema.check_constraints@.len()) by {
        assert(keyed@.check_constraints == schema@.check_constraints);
        assert(keyed@.check_constraints.len() == keyed.check_constraints@.len());
        assert(schema@.check_constraints.len() == schema.check_constraints@.len());
    }
    match check_new_keys(&keyed, column_name, rows, verdicts) {
        Err(e) => {
            return Err(e);
        },
        Ok(_) => {},
    }
    let ghost all = views(rows@);
    let ghost said = views(verdicts@);
    let mut actions: Vec<RowAction> = Vec::new();
    let mut i: usize = 0;
    assert(views(actions@) =~= old_keys_removed(place@, schema@, column_name@, all.take(0)));
    while i < rows.len()
        invariant
            i <= rows@.len(),
            all == views(rows@),
            forall|k: int| 0 <= k < rows@.len() ==> keyable((#[trigger] rows@[k]).key@),
            views(actions@) == old_keys_removed(place@, schema@, column_name@, all.take(i as int)),
        decreases rows@.len() - i,
    {
        assert(all.take(i + 1).drop_last() =~= all.take(i as int));
        assert(all.take(i + 1).last() == rows@[i as int]@);
        let key = rows[i].row.value_or_null(column_name);
        if !rows[i].key.equals(&key) {
            let removed = old_key_work(place, schema, &rows[i].key);
            add_actions(&mut actions, removed);
        }
        i += 1;
    }
    assert(all.take(i as int) =~= all);
    let ghost cleared = views(actions@);
    let mut k: usize = 0;
    assert(views(actions@) =~= cleared + rows_rekeyed(
        place@,
        keyed@,
        views(indexes@),
        column_name@,
        all.take(0),
    ));
    while k < rows.len()
        invariant
            k <= rows@.len(),
            all == views(rows@),
            forall|j: int|
                0 <= j < rows@.len() ==> field((#[trigger] rows@[j]).row@, column_name@) is Null
                    || keyable(field(rows@[j].row@, column_name@)),
            rekey_error(keyed@, column_name@, all, said) is None,
            views(actions@) == cleared + rows_rekeyed(
                place@,
                keyed@,
                views(indexes@),
                column_name@,
                all.take(k as int),
            ),
        decreases rows@.len() - k,
    {
        proof {
            assert(all.take(k + 1).drop_last() =~= all.take(k as int));
            assert(all.take(k + 1).last() == rows@[k as int]@);
            if rekey_error(keyed@, column_name@, all.take(k + 1), said) is Some {
                lemma_rekey_fails(keyed@, column_name@, all, said, k + 1);
            }
            assert(!(field(rows@[k as int].row@, column_name@) is Null));
        }
        let key = rows[k].row.value_or_null(column_name);
        let stored = rekey_row_work(place, &keyed, indexes, &key, &rows[k].row);
        let ghost added = views(stored@);
        add_actions(&mut actions, stored);
        assert(views(actions@) =~= cleared + rows_rekeyed(
            place@,
            keyed@,
            views(indexes@),
            column_name@,
            all.take(k + 1),
        ));
        k += 1;
    }
    assert(all.take(k as int) =~= all);
    Ok(KeyChange { schema: keyed, actions })
}

/// Rows that were given a key have one each, and no two have the same.
pub proof fn law_new_keys_are_unique(
    table: TableModel,
    column_name: Seq<char>,
    rows: Seq<EntryModel>,
    verdicts: Seq<Seq<VerdictModel>>,
    i: int,
    j: int,
)
    requires
        rekey_error(table, column_name, rows, verdicts) is None,
        0 <= i < j < rows.len(),
    ensures
        field(rows[i].row, column_name) != Datum::Null,
        field(rows[j].row, column_name) != Datum::Null,
        field(rows[i].row, column_name) != field(rows[j].row, column_name),
    decreases rows.len(),
{
    let before = rows.drop_last();
    if j < before.len() {
        law_new_keys_are_unique(table, column_name, before, verdicts, i, j);
    } else {
        lemma_new_keys(table, column_name, before, verdicts, i);
        let forms = key_forms(before, column_name);
        assert(forms[i] == key_segment(field(rows[i].row, column_name)));
        assert(forms.contains(forms[i]));
    }
}

/// Rows are given their new keys where each meets the constraints and has a key, and no two keys
/// are the same. The keys are of one kind, as those of one column are.
pub proof fn law_different_keys_are_accepted(
    table: TableModel,
    column_name: Seq<char>,
    rows: Seq<EntryModel>,
    verdicts: Seq<Seq<VerdictModel>>,
)
    requires
        forall|i: int|
            0 <= i < rows.len() ==> constraint_error(
                table,
                (#[trigger] rows[i]).row,
                verdicts[i],
            ) is None && keyable(field(rows[i].row, column_name)),
        forall|i: int, j: int|
            0 <= i < j < rows.len() ==> same_kind(
                field((#[trigger] rows[i]).row, column_name),
                field((#[trigger] rows[j]).row, column_name),
            ) && field(rows[i].row, column_name) != field(rows[j].row, column_name),
    ensures
        rekey_error(table, column_name, rows, verdicts) is None,
    decreases rows.len(),
{
    if rows.len() > 0 {
        let before = rows.drop_last();
        assert forall|i: int| 0 <= i < before.len() implies constraint_error(
            table,
            (#[trigger] before[i]).row,
            verdicts[i],
        ) is None && keyable(field(before[i].row, column_name)) by {
            assert(before[i] == rows[i]);
        }
        law_different_keys_are_accepted(table, column_name, before, verdicts);
        let last = rows.len() - 1;
        let key = field(rows[last].row, column_name);
        assert(constraint_error(table, rows[last].row, verdicts[last]) is None);
        let forms = key_forms(before, column_name);
        assert forall|i: int| 0 <= i < forms.len() implies forms[i] != key_segment(key) by {
            assert(before[i] == rows[i]);
            law_key_segments_differ(field(rows[i].row, column_name), key);
        }
    }
}

proof fn lemma_new_keys(
    table: TableModel,
    column_name: Seq<char>,
    rows: Seq<EntryModel>,
    verdicts: Seq<Seq<VerdictModel>>,
    i: int,
)
    requires
        rekey_error(table, column_name, rows, verdicts) is None,
        0 <= i < rows.len(),
    ensures
        field(rows[i].row, column_name) != Datum::Null,
    decreases rows.len(),
{
    if i < rows.len() - 1 {
        lemma_new_keys(table, column_name, rows.drop_last(), verdicts, i);
    }
}

/// A row of a table whose description changed: with the value of a new column, or without that
/// of one that went.
pub open spec fn row_altered(work: WorkModel, row: RowModel, value: Datum) -> RowModel {
    match work {
        WorkModel::Keep => row,
        WorkModel::AddValue(column) => row.insert(column.name, value),
        WorkModel::RemoveValue(name) => row.remove(name),
    }
}

/// The rows of a table once its description changed, each under its key. `values` are those that
/// a new column has in the rows.
pub open spec fn rows_altered(work: WorkModel, rows: Seq<EntryModel>, values: Seq<Datum>) -> Seq<
    EntryModel,
> {
    Seq::new(
        rows.len(),
        |i: int| EntryModel { key: rows[i].key, row: row_altered(work, rows[i].row, values[i]) },
    )
}

/// The rows of a table once its description changed, each under its key.
pub fn alter_rows(work: &RowWork, rows: &Vec<RowEntry>, values: &Vec<ColumnValue>) -> (result: Vec<
    RowEntry,
>)
    requires
        values@.len() == rows@.len(),
    ensures
        views(result@) == rows_altered(work@, views(rows@), views(values@)),
{
    let mut result: Vec<RowEntry> = Vec::new();
    let mut i: usize = 0;
    while i < rows.len()
        invariant
            i <= rows@.len(),
            values@.len() == rows@.len(),
            result@.len() == i,
            forall|k: int|
                0 <= k < i ==> (#[trigger] result@[k])@ == rows_altered(
                    work@,
                    views(rows@),
                    views(values@),
                )[k],
        decreases rows@.len() - i,
    {
        assert(views(rows@)[i as int] == rows@[i as int]@);
        assert(views(values@)[i as int] == values@[i as int]@);
        let mut row = rows[i].row.duplicate();
        match work {
            RowWork::Keep => {},
            RowWork::AddValue(column) => {
                row.insert(column.name.clone(), values[i].copied());
            },
            RowWork::RemoveValue(name) => {
                row.remove(name.as_str());
            },
        }
        result.push(RowEntry { key: rows[i].key.copied(), row });
        i += 1;
    }
    assert(views(result@) =~= rows_altered(work@, views(rows@), views(values@)));
    result
}

/// The work that follows once an altered row was written: a column that went leaves no cell in
/// the earlier layout, as far as storage lets it go.
pub open spec fn cell_dropped(place: PlaceModel, work: WorkModel, key: Datum) -> Seq<
    RowActionModel,
> {
    match work {
        WorkModel::RemoveValue(name) => seq![
            RowActionModel::DeleteKey { key: cell_of(place, name, key), required: false },
        ],
        _ => seq![],
    }
}

/// The work that follows once an altered row was written.
pub fn drop_cell_work(place: &RowPlace, work: &RowWork, key: &ColumnValue) -> (actions: Vec<
    RowAction,
>)
    requires
        keyable(key@),
    ensures
        views(actions@) == cell_dropped(place@, work@, key@),
{
    let mut actions: Vec<RowAction> = Vec::new();
    match work {
        RowWork::RemoveValue(name) => {
            actions.push(
                RowAction::DeleteKey {
                    key: cell_key(
                        place.database_name,
                        place.schema_name,
                        place.table_name,
                        name.as_str(),
                        key,
                    ),
                    required: false,
                },
            );
        },
        _ => {},
    }
    assert(views(actions@) =~= cell_dropped(place@, work@, key@));
    actions
}

/// A column that is added and taken away again leaves a row that did not have it as it was.
pub proof fn law_a_dropped_column_leaves_the_row(column: ColumnModel, row: RowModel, value: Datum)
    requires
        !row.dom().contains(column.name),
    ensures
        row_altered(
            WorkModel::RemoveValue(column.name),
            row_altered(WorkModel::AddValue(column), row, value),
            value,
        ) == row,
{
    assert(row.insert(column.name, value).remove(column.name) =~= row);
}

/// An index that was made, and the work that fills it.
pub struct IndexFill {
    pub index: IndexCatalog,
    pub actions: Vec<RowAction>,
}

/// What an [`IndexFill`] says.
pub struct IndexFillModel {
    pub index: IndexModel,
    pub actions: Seq<RowActionModel>,
}

impl View for IndexFill {
    type V = IndexFillModel;

    open spec fn view(&self) -> IndexFillModel {
        IndexFillModel { index: self.index@, actions: views(self.actions@) }
    }
}

/// Making an index on a table with rows: nothing where it is there and may be, else the index,
/// the work that fills it, and what the store holds then.
pub open spec fn index_built(
    contents: Contents,
    place: PlaceModel,
    index_name: Seq<char>,
    column_names: Seq<Seq<char>>,
    unique: bool,
    if_not_exists: bool,
    rows: Seq<EntryModel>,
) -> (Result<Option<IndexFillModel>, Report>, Contents) {
    match index_begun(
        contents,
        place.database_name,
        place.schema_name,
        place.table_name,
        index_name,
        column_names,
        if_not_exists,
    ) {
        Err(e) => (Err(e), contents),
        Ok(None) => (Ok(None), contents),
        Ok(Some(_)) => if unique && breaks_index(place, index_name, column_names, rows) {
            (
                Err(
                    report(
                        "23505"@,
                        "could not create unique index '"@ + index_name
                            + "': duplicate values exist"@,
                    ),
                ),
                contents,
            )
        } else {
            match index_created(
                contents,
                place.database_name,
                place.schema_name,
                place.table_name,
                index_name,
                column_names,
                unique,
                if_not_exists,
            ) {
                (Err(e), after) => (Err(e), after),
                (Ok(None), after) => (Ok(None), after),
                (Ok(Some(index)), after) => (
                    Ok(
                        Some(
                            IndexFillModel {
                                index,
                                actions: index_filled(
                                    place,
                                    index.index_id,
                                    index_name,
                                    column_names,
                                    rows,
                                ),
                            },
                        ),
                    ),
                    after,
                ),
            }
        },
    }
}

impl<S: KvStore> GatewayServer<S> {
    /// Makes an index on a table with rows, and says what fills it.
    pub fn create_index_at(
        &mut self,
        place: &RowPlace,
        index_name: &str,
        column_names: &Vec<String>,
        unique: bool,
        if_not_exists: bool,
        rows: &Vec<RowEntry>,
    ) -> (result: Result<Option<IndexFill>, UserError>)
        requires
            forall|i: int| 0 <= i < rows@.len() ==> keyable((#[trigger] rows@[i]).key@),
        ensures
            final(self).reliable() == old(self).reliable(),
            final(self).same_sessions(old(self)),
            not_internal(result) || old(self).reliable() ==> crate::schema::seen_option(result)
                == index_built(
                bootstrapped(old(self).contents()),
                place@,
                index_name@,
                views(column_names@),
                unique,
                if_not_exists,
                views(rows@),
            ).0,
            result matches Ok(Some(_)) ==> final(self).contents() == index_built(
                bootstrapped(old(self).contents()),
                place@,
                index_name@,
                views(column_names@),
                unique,
                if_not_exists,
                views(rows@),
            ).1,
            !(result matches Ok(Some(_))) && (not_internal(result) || old(self).reliable())
                ==> only_opened(old(self).contents(), final(self).contents()),
    {
        proof {
            law_bootstrap_is_stable(self.contents());
        }
        match self.begin_create_index(
            place.database_name,
            place.schema_name,
            place.table_name,
            index_name,
            column_names,
            if_not_exists,
        ) {
            Err(e) => {
                return Err(e);
            },
            Ok(None) => {
                return Ok(None);
            },
            Ok(Some(_)) => {},
        }
        match check_index_values(place, index_name, column_names, unique, rows) {
            Err(e) => {
                return Err(e);
            },
            Ok(_) => {},
        }
        match self.catalog.create_index(
            place.database_name,
            place.schema_name,
            place.table_name,
            index_name,
            column_names,
            unique,
            if_not_exists,
        ) {
            Err(e) => Err(e),
            Ok(None) => Ok(None),
            Ok(Some(index)) => {
                let actions = index_fill_work(
                    place,
                    index.index_id,
                    index_name,
                    column_names,
                    rows,
                );
                Ok(Some(IndexFill { index, actions }))
            },
        }
    }
}

} // verus!
