//! What statements that make and change objects are for: a table has the columns and the rules
//! that are declared, what is asked for is planned in its order, and what is there already is not
//! made again.
use vstd::prelude::*;

use crate::catalog::model::{
    bootstrapped, index_found, next_number, schema_found, scope_found, table_found,
};
use crate::catalog::types::IndexModel;
use crate::error::Report;
use crate::mem_store::Contents;
use crate::names::{object_name, PartModel};
use crate::schema::{has_column, law_normalized_keeps_columns, ColumnModel, TableModel};
use crate::server::ast::{
    AlterRequest, ColumnChangeModel, ConstraintModel, DefModel, IndexColumnModel,
    SequenceOptionModel, SequenceValueModel,
};
use crate::server::ast::TargetModel;
use crate::server::ddl_columns::{column_described, indexed_columns};
use crate::server::ddl_plan::{
    alter_planned, create_index_planned, each_resolved, index_searched, operation_planned,
    operations_planned, sequence_described, table_to_drop, AlterOutcome,
};
use crate::server::ddl_tables::{
    create_table_planned, indexes_likened, likened, place_for_table, table_described,
    table_of_query, with_columns, with_constraint, with_constraints, DraftModel, QueryFieldModel,
    TABLE_COUNTER,
};
use crate::server::exec_rows::unknown_column;
use crate::server::gateway::{scoped_name, table_required, table_resolved};
use crate::server::plan::{AlterModel, IndexPlanModel, PlanModel};
use crate::text::mark_at;
use crate::types::{Datum, INTERNAL_ROWID_COLUMN};

verus! {

proof fn lemma_columns_drafted(
    schema_name: Seq<char>,
    table_name: Seq<char>,
    defs: Seq<DefModel>,
)
    ensures
        with_columns(schema_name, table_name, defs) matches Ok(draft) ==> {
            &&& draft.columns.len() == defs.len()
            &&& forall|i: int|
                0 <= i < defs.len() ==> (column_described(
                    schema_name,
                    table_name,
                    (#[trigger] draft.columns[i]).column_id,
                    defs[i],
                ) matches Ok(parts) && parts.column == draft.columns[i])
            &&& draft.primary_key matches Some(key) ==> exists|i: int|
                0 <= i < defs.len() && (#[trigger] draft.columns[i]).primary_key
                    && draft.columns[i].name == key
            &&& draft.primary_key is None ==> forall|i: int|
                0 <= i < defs.len() ==> !(#[trigger] draft.columns[i]).primary_key
        },
    decreases defs.len(),
{
    if defs.len() > 0 {
        let init = defs.drop_last();
        lemma_columns_drafted(schema_name, table_name, init);
        if let Ok(draft) = with_columns(schema_name, table_name, defs) {
            let before = with_columns(schema_name, table_name, init)->Ok_0;
            assert forall|i: int| 0 <= i < defs.len() implies (column_described(
                schema_name,
                table_name,
                (#[trigger] draft.columns[i]).column_id,
                defs[i],
            ) matches Ok(parts) && parts.column == draft.columns[i]) by {
                if i < init.len() {
                    assert(init[i] == defs[i]);
                    assert(draft.columns[i] == before.columns[i]);
                }
            }
            if let Some(key) = draft.primary_key {
                if draft.columns.last().primary_key {
                    assert(draft.columns[defs.len() - 1].primary_key);
                } else {
                    let i = choose|i: int|
                        0 <= i < init.len() && (#[trigger] before.columns[i]).primary_key
                            && before.columns[i].name == key;
                    assert(draft.columns[i] == before.columns[i]);
                }
            } else {
                assert forall|i: int| 0 <= i < defs.len() implies !(
                #[trigger] draft.columns[i]).primary_key by {
                    if i < init.len() {
                        assert(draft.columns[i] == before.columns[i]);
                    }
                }
            }
        }
    }
}

/// Whether a draft has at least the rules of another.
spec fn extends(next: DraftModel, before: DraftModel) -> bool {
    &&& next.columns == before.columns
    &&& before.checks.len() <= next.checks.len() && next.checks.take(before.checks.len() as int)
        == before.checks
    &&& before.uniques.len() <= next.uniques.len() && next.uniques.take(before.uniques.len() as int)
        == before.uniques
    &&& before.foreign_keys.len() <= next.foreign_keys.len() && next.foreign_keys.take(
        before.foreign_keys.len() as int,
    ) == before.foreign_keys
    &&& before.indexes.len() <= next.indexes.len() && next.indexes.take(before.indexes.len() as int)
        == before.indexes
}

proof fn lemma_extends_self(draft: DraftModel)
    ensures
        extends(draft, draft),
{
    assert(draft.checks.take(draft.checks.len() as int) =~= draft.checks);
    assert(draft.uniques.take(draft.uniques.len() as int) =~= draft.uniques);
    assert(draft.foreign_keys.take(draft.foreign_keys.len() as int) =~= draft.foreign_keys);
    assert(draft.indexes.take(draft.indexes.len() as int) =~= draft.indexes);
}

proof fn lemma_one_constraint(draft: DraftModel, table_name: Seq<char>, constraint: ConstraintModel)
    ensures
        with_constraint(draft, table_name, constraint) matches Ok(next) ==> extends(next, draft)
            && is_kept(next, draft.columns, constraint),
{
    lemma_extends_self(draft);
    if let Ok(next) = with_constraint(draft, table_name, constraint) {
        assert(next.checks.take(draft.checks.len() as int) =~= draft.checks);
        assert(next.uniques.take(draft.uniques.len() as int) =~= draft.uniques);
        assert(next.foreign_keys.take(draft.foreign_keys.len() as int) =~= draft.foreign_keys);
        assert(next.indexes.take(draft.indexes.len() as int) =~= draft.indexes);
        match constraint {
            ConstraintModel::Unique { name, columns } => {
                let at = draft.uniques.len() as int;
                assert(next.uniques[at].columns == indexed_columns(columns)->Ok_0);
                lemma_unknown(draft.columns, indexed_columns(columns)->Ok_0);
            },
            ConstraintModel::PrimaryKey { name, columns } => {
                let at = draft.uniques.len() as int;
                assert(next.uniques[at].columns == indexed_columns(columns)->Ok_0);
                lemma_unknown(draft.columns, indexed_columns(columns)->Ok_0);
            },
            ConstraintModel::Check { name, expr } => {
                let at = draft.checks.len() as int;
                assert(next.checks[at].expr == expr);
            },
            ConstraintModel::ForeignKey {
                name,
                index_name,
                columns,
                foreign_table,
                referred_columns,
            } => {
                let at = draft.foreign_keys.len() as int;
                assert(next.foreign_keys[at].columns == columns);
            },
            ConstraintModel::Index { name, columns } => {
                if indexed_columns(columns)->Ok_0.len() > 0 {
                    let at = draft.indexes.len() as int;
                    assert(next.indexes[at].column_names == indexed_columns(columns)->Ok_0);
                }
            },
            ConstraintModel::FulltextOrSpatial { name, columns } => {
                if indexed_columns(columns)->Ok_0.len() > 0 {
                    let at = draft.indexes.len() as int;
                    assert(next.indexes[at].column_names == indexed_columns(columns)->Ok_0);
                }
            },
            ConstraintModel::Other => {},
        }
    }
}

proof fn lemma_unknown(columns: Seq<ColumnModel>, names: Seq<Seq<char>>)
    ensures
        unknown_column(columns, names) is None <==> forall|i: int|
            0 <= i < names.len() ==> has_column(columns, #[trigger] names[i]),
    decreases names.len(),
{
    if names.len() > 0 && has_column(columns, names[0]) {
        let rest = names.skip(1);
        lemma_unknown(columns, rest);
        if unknown_column(columns, rest) is None {
            assert forall|i: int| 0 <= i < names.len() implies has_column(
                columns,
                #[trigger] names[i],
            ) by {
                if i > 0 {
                    assert(rest[i - 1] == names[i]);
                }
            }
        } else {
            let i = choose|i: int| 0 <= i < rest.len() && !has_column(columns, #[trigger] rest[i]);
            assert(names[i + 1] == rest[i]);
        }
    }
}

/// Whether a constraint that was declared is among the rules of a draft, on columns that it has.
pub open spec fn is_kept(
    draft: DraftModel,
    columns: Seq<ColumnModel>,
    constraint: ConstraintModel,
) -> bool {
    match constraint {
        ConstraintModel::Unique { name, columns: parts } => indexed_columns(parts) matches Ok(names)
            && names.len() > 0 && (forall|i: int|
            0 <= i < names.len() ==> has_column(columns, #[trigger] names[i])) && exists|u: int|
            0 <= u < draft.uniques.len() && (#[trigger] draft.uniques[u]).columns == names
                && !draft.uniques[u].primary_key && (name matches Some(given)
                ==> draft.uniques[u].name == given),
        ConstraintModel::PrimaryKey { name, columns: parts } => indexed_columns(parts) matches Ok(
            names,
        ) && names.len() == 1 && has_column(columns, names[0]) && exists|u: int|
            0 <= u < draft.uniques.len() && (#[trigger] draft.uniques[u]).columns == names
                && draft.uniques[u].primary_key,
        ConstraintModel::Check { name, expr } => exists|c: int|
            0 <= c < draft.checks.len() && (#[trigger] draft.checks[c]).expr == expr && (
            name matches Some(given) ==> draft.checks[c].name == given),
        ConstraintModel::ForeignKey { name, columns: own, foreign_table, referred_columns, .. } => {
            exists|k: int|
                0 <= k < draft.foreign_keys.len() && (#[trigger] draft.foreign_keys[k]).columns
                    == own && draft.foreign_keys[k].referred_columns == referred_columns
                    && object_name(foreign_table) == Ok::<Seq<char>, Report>(
                    draft.foreign_keys[k].foreign_table,
                ) && (name matches Some(given) ==> draft.foreign_keys[k].name == given)
        },
        ConstraintModel::Index { name, columns: parts } => indexed_columns(parts) matches Ok(names)
            && (names.len() > 0 ==> exists|x: int|
            0 <= x < draft.indexes.len() && (#[trigger] draft.indexes[x]).column_names == names
                && !draft.indexes[x].unique && (name matches Some(given)
                ==> draft.indexes[x].index_name == given)),
        ConstraintModel::FulltextOrSpatial { name, columns: parts } => indexed_columns(
            parts,
        ) matches Ok(names) && (names.len() > 0 ==> exists|x: int|
            0 <= x < draft.indexes.len() && (#[trigger] draft.indexes[x]).column_names == names),
        ConstraintModel::Other => true,
    }
}

proof fn lemma_kept_longer(
    next: DraftModel,
    before: DraftModel,
    columns: Seq<ColumnModel>,
    constraint: ConstraintModel,
)
    requires
        extends(next, before),
        is_kept(before, columns, constraint),
    ensures
        is_kept(next, columns, constraint),
{
    assert forall|u: int| 0 <= u < before.uniques.len() implies next.uniques[u]
        == #[trigger] before.uniques[u] by {
        assert(next.uniques.take(before.uniques.len() as int)[u] == before.uniques[u]);
    }
    assert forall|u: int| 0 <= u < before.checks.len() implies next.checks[u]
        == #[trigger] before.checks[u] by {
        assert(next.checks.take(before.checks.len() as int)[u] == before.checks[u]);
    }
    assert forall|u: int| 0 <= u < before.foreign_keys.len() implies next.foreign_keys[u]
        == #[trigger] before.foreign_keys[u] by {
        assert(next.foreign_keys.take(before.foreign_keys.len() as int)[u]
            == before.foreign_keys[u]);
    }
    assert forall|u: int| 0 <= u < before.indexes.len() implies next.indexes[u]
        == #[trigger] before.indexes[u] by {
        assert(next.indexes.take(before.indexes.len() as int)[u] == before.indexes[u]);
    }
    match constraint {
        ConstraintModel::Unique { name, columns: parts } => {
            let names = indexed_columns(parts)->Ok_0;
            let u = choose|u: int|
                0 <= u < before.uniques.len() && (#[trigger] before.uniques[u]).columns == names
                    && !before.uniques[u].primary_key && (name matches Some(given)
                    ==> before.uniques[u].name == given);
            assert(next.uniques[u].columns == names);
        },
        ConstraintModel::PrimaryKey { name, columns: parts } => {
            let names = indexed_columns(parts)->Ok_0;
            let u = choose|u: int|
                0 <= u < before.uniques.len() && (#[trigger] before.uniques[u]).columns == names
                    && before.uniques[u].primary_key;
            assert(next.uniques[u].columns == names);
        },
        ConstraintModel::Check { name, expr } => {
            let u = choose|u: int|
                0 <= u < before.checks.len() && (#[trigger] before.checks[u]).expr == expr && (
                name matches Some(given) ==> before.checks[u].name == given);
            assert(next.checks[u].expr == expr);
        },
        ConstraintModel::ForeignKey { name, columns: own, foreign_table, referred_columns, .. } => {
            let k = choose|k: int|
                0 <= k < before.foreign_keys.len() && (#[trigger] before.foreign_keys[k]).columns
                    == own && before.foreign_keys[k].referred_columns == referred_columns
                    && object_name(foreign_table) == Ok::<Seq<char>, Report>(
                    before.foreign_keys[k].foreign_table,
                ) && (name matches Some(given) ==> before.foreign_keys[k].name == given);
            assert(next.foreign_keys[k].columns == own);
        },
        ConstraintModel::Index { name, columns: parts } => {
            let names = indexed_columns(parts)->Ok_0;
            if names.len() > 0 {
                let x = choose|x: int|
                    0 <= x < before.indexes.len() && (#[trigger] before.indexes[x]).column_names
                        == names && !before.indexes[x].unique && (name matches Some(given)
                        ==> before.indexes[x].index_name == given);
                assert(next.indexes[x].column_names == names);
            }
        },
        ConstraintModel::FulltextOrSpatial { name, columns: parts } => {
            let names = indexed_columns(parts)->Ok_0;
            if names.len() > 0 {
                let x = choose|x: int|
                    0 <= x < before.indexes.len() && (#[trigger] before.indexes[x]).column_names
                        == names;
                assert(next.indexes[x].column_names == names);
            }
        },
        ConstraintModel::Other => {},
    }
}

proof fn lemma_constraints_drafted(
    draft: DraftModel,
    table_name: Seq<char>,
    constraints: Seq<ConstraintModel>,
)
    ensures
        with_constraints(draft, table_name, constraints) matches Ok(full) ==> extends(full, draft)
            && forall|i: int|
            0 <= i < constraints.len() ==> is_kept(full, draft.columns, #[trigger] constraints[i]),
    decreases constraints.len(),
{
    lemma_extends_self(draft);
    if constraints.len() > 0 {
        let init = constraints.drop_last();
        lemma_constraints_drafted(draft, table_name, init);
        if let Ok(full) = with_constraints(draft, table_name, constraints) {
            let before = with_constraints(draft, table_name, init)->Ok_0;
            lemma_one_constraint(before, table_name, constraints.last());
            assert(full.checks.take(draft.checks.len() as int) =~= before.checks.take(
                draft.checks.len() as int,
            )) by {
                assert(full.checks.take(before.checks.len() as int) == before.checks);
                assert(full.checks.take(before.checks.len() as int).take(draft.checks.len() as int)
                    =~= full.checks.take(draft.checks.len() as int));
            }
            assert(full.uniques.take(draft.uniques.len() as int) =~= draft.uniques) by {
                assert(full.uniques.take(before.uniques.len() as int).take(
                    draft.uniques.len() as int,
                ) =~= full.uniques.take(draft.uniques.len() as int));
            }
            assert(full.foreign_keys.take(draft.foreign_keys.len() as int)
                =~= draft.foreign_keys) by {
                assert(full.foreign_keys.take(before.foreign_keys.len() as int).take(
                    draft.foreign_keys.len() as int,
                ) =~= full.foreign_keys.take(draft.foreign_keys.len() as int));
            }
            assert(full.indexes.take(draft.indexes.len() as int) =~= draft.indexes) by {
                assert(full.indexes.take(before.indexes.len() as int).take(
                    draft.indexes.len() as int,
                ) =~= full.indexes.take(draft.indexes.len() as int));
            }
            assert forall|i: int| 0 <= i < constraints.len() implies is_kept(
                full,
                draft.columns,
                #[trigger] constraints[i],
            ) by {
                if i < init.len() {
                    assert(init[i] == constraints[i]);
                    lemma_kept_longer(full, before, draft.columns, init[i]);
                }
            }
        }
    }
}

/// Whether a rule that was declared is among those of a table or its indexes.
pub open spec fn is_ruled(
    table: TableModel,
    indexes: Seq<IndexPlanModel>,
    constraint: ConstraintModel,
) -> bool {
    is_kept(
        DraftModel {
            columns: table.columns,
            primary_key: Some(table.primary_key),
            checks: table.check_constraints,
            uniques: table.unique_constraints,
            foreign_keys: table.foreign_keys,
            indexes,
        },
        table.columns,
        constraint,
    )
}

/// A table that is declared has its columns, in their order, with their names and types and, but
/// for the key, their defaults and nulls; and each of its constraints is among its rules.
pub proof fn law_tables_are_as_declared(
    table_id: u32,
    schema_name: Seq<char>,
    table_name: Seq<char>,
    columns: Seq<DefModel>,
    constraints: Seq<ConstraintModel>,
    c: int,
    r: int,
)
    ensures
        table_described(table_id, schema_name, table_name, columns, constraints) matches Ok(found)
            ==> {
            &&& found.0.table_name == table_name && found.0.table_id == table_id
            &&& found.0.columns.len() == columns.len()
            &&& 0 <= c < columns.len() ==> {
                &&& found.0.columns[c].name == columns[c].name
                &&& found.0.columns[c].data_type == columns[c].data_type
                &&& column_described(
                    schema_name,
                    table_name,
                    found.0.columns[c].column_id,
                    columns[c],
                ) matches Ok(parts) && {
                    &&& found.0.columns[c].default == parts.column.default
                    &&& found.0.columns[c].on_update == parts.column.on_update
                    &&& found.0.columns[c].name != found.0.primary_key
                        ==> found.0.columns[c].nullable == parts.column.nullable
                        && found.0.columns[c].primary_key == parts.column.primary_key
                }
            }
            &&& 0 <= r < constraints.len() ==> is_ruled(found.0, found.1, constraints[r])
        },
{
    if let Ok(found) = table_described(table_id, schema_name, table_name, columns, constraints) {
        let draft = with_columns(schema_name, table_name, columns)->Ok_0;
        let full = with_constraints(draft, table_name, constraints)->Ok_0;
        lemma_columns_drafted(schema_name, table_name, columns);
        lemma_constraints_drafted(draft, table_name, constraints);
        let base = TableModel {
            table_name,
            table_id,
            schema_version: 1,
            table_epoch: 1,
            primary_key: crate::server::ddl_tables::key_of_draft(full),
            check_constraints: full.checks,
            unique_constraints: full.uniques,
            foreign_keys: full.foreign_keys,
            columns: crate::server::ddl_tables::keyed_columns(
                full.columns,
                crate::server::ddl_tables::key_of_draft(full),
            ),
        };
        law_normalized_keeps_columns(base);
        assert(found.0 == crate::schema::normalized(base));
        if 0 <= c < columns.len() {
            assert(base.columns[c].name == draft.columns[c].name);
            assert(draft.columns[c].name == columns[c].name);
        }
        if 0 <= r < constraints.len() {
            assert(is_kept(full, draft.columns, constraints[r]));
            lemma_same_names(full.columns, found.0.columns);
            lemma_ruled(full, found.0, found.1, constraints[r]);
        }
    }
}

proof fn lemma_same_names(a: Seq<ColumnModel>, b: Seq<ColumnModel>)
    requires
        a.len() == b.len(),
        forall|i: int| 0 <= i < a.len() ==> (#[trigger] a[i]).name == b[i].name,
    ensures
        forall|name: Seq<char>| #[trigger] has_column(a, name) ==> has_column(b, name),
{
    assert forall|name: Seq<char>| #[trigger] has_column(a, name) implies has_column(b, name) by {
        let i = choose|i: int| 0 <= i < a.len() && (#[trigger] a[i]).name == name;
        assert(b[i].name == name);
    }
}

proof fn lemma_ruled(
    full: DraftModel,
    table: TableModel,
    indexes: Seq<IndexPlanModel>,
    constraint: ConstraintModel,
)
    requires
        is_kept(full, full.columns, constraint),
        table.check_constraints == full.checks,
        table.unique_constraints == full.uniques,
        table.foreign_keys == full.foreign_keys,
        indexes == full.indexes,
        forall|name: Seq<char>| #[trigger]
            has_column(full.columns, name) ==> has_column(table.columns, name),
    ensures
        is_ruled(table, indexes, constraint),
{
    let draft = DraftModel {
        columns: table.columns,
        primary_key: Some(table.primary_key),
        checks: table.check_constraints,
        uniques: table.unique_constraints,
        foreign_keys: table.foreign_keys,
        indexes,
    };
    lemma_extends_self(draft);
    match constraint {
        ConstraintModel::Unique { name, columns: parts } => {
            let names = indexed_columns(parts)->Ok_0;
            assert forall|i: int| 0 <= i < names.len() implies has_column(
                table.columns,
                #[trigger] names[i],
            ) by {
                assert(has_column(full.columns, names[i]));
            }
        },
        _ => {},
    }
}

/// The key of a table is the one that its constraints declare, the last of them, else the one
/// that a column declares; without any it is the column `id` or, where there is none, an
/// identifier of its own.
pub proof fn law_keys_are_as_declared(
    table_id: u32,
    schema_name: Seq<char>,
    table_name: Seq<char>,
    columns: Seq<DefModel>,
    constraints: Seq<ConstraintModel>,
    name: Option<Seq<char>>,
    part: IndexColumnModel,
    key: Seq<char>,
)
    requires
        part.target == (TargetModel::Column { name: key }),
        part.ascending is None && part.nulls_first is None,
    ensures
        table_described(
            table_id,
            schema_name,
            table_name,
            columns,
            constraints.push(ConstraintModel::PrimaryKey { name, columns: seq![part] }),
        ) matches Ok(found) ==> found.0.primary_key == key,
        table_described(table_id, schema_name, table_name, columns, seq![]) matches Ok(found)
            ==> (exists|i: int|
            0 <= i < columns.len() && (#[trigger] found.0.columns[i]).primary_key
                && found.0.columns[i].name == found.0.primary_key) || found.0.primary_key
            == INTERNAL_ROWID_COLUMN@ && !has_column(found.0.columns, "id"@),
{
    let one = ConstraintModel::PrimaryKey { name, columns: seq![part] };
    let all = constraints.push(one);
    assert(all.drop_last() =~= constraints);
    assert(seq![part].drop_last() =~= seq![]);
    assert(indexed_columns(Seq::<IndexColumnModel>::empty()) == Ok::<Seq<Seq<char>>, Report>(seq![]));
    assert(indexed_columns(seq![part]) == Ok::<Seq<Seq<char>>, Report>(
        Seq::<Seq<char>>::empty().push(key),
    ));
    if let Ok(found) = table_described(table_id, schema_name, table_name, columns, seq![]) {
        let draft = with_columns(schema_name, table_name, columns)->Ok_0;
        lemma_columns_drafted(schema_name, table_name, columns);
        let key = crate::server::ddl_tables::key_of_draft(draft);
        let base = TableModel {
            table_name,
            table_id,
            schema_version: 1,
            table_epoch: 1,
            primary_key: key,
            check_constraints: draft.checks,
            unique_constraints: draft.uniques,
            foreign_keys: draft.foreign_keys,
            columns: crate::server::ddl_tables::keyed_columns(draft.columns, key),
        };
        law_normalized_keeps_columns(base);
        assert(found.0 == crate::schema::normalized(base));
        assert forall|i: int| 0 <= i < columns.len() implies (#[trigger] found.0.columns[i]).name
            == draft.columns[i].name by {
            assert(base.columns[i].name == draft.columns[i].name);
        }
        if let Some(declared) = draft.primary_key {
            let i = choose|i: int|
                0 <= i < columns.len() && (#[trigger] draft.columns[i]).primary_key
                    && draft.columns[i].name == declared;
            assert(base.columns[i].primary_key);
            assert(found.0.columns[i].primary_key);
        } else if has_column(draft.columns, "id"@) {
            let i = choose|i: int|
                0 <= i < draft.columns.len() && (#[trigger] draft.columns[i]).name == "id"@;
            assert(base.columns[i].primary_key);
            assert(found.0.columns[i].primary_key && found.0.columns[i].name == "id"@);
        } else {
            if has_column(found.0.columns, "id"@) {
                let i = choose|i: int|
                    0 <= i < found.0.columns.len() && (#[trigger] found.0.columns[i]).name
                        == "id"@;
                assert(draft.columns[i].name == "id"@);
            }
        }
    }
}

/// A table is made only where a schema is there and no table has the name; where one has it the
/// statement is refused, or passed over where it says so.
pub proof fn law_tables_are_made_once(
    contents: Contents,
    database_name: Seq<char>,
    default_schema: Seq<char>,
    name: Seq<PartModel>,
    if_not_exists: bool,
    text: Seq<char>,
    schema_name: Seq<char>,
    table_name: Seq<char>,
)
    requires
        object_name(name) == Ok::<Seq<char>, Report>(text),
        scoped_name(default_schema, text) == Ok::<(Seq<char>, Seq<char>), Report>(
            (schema_name, table_name),
        ),
        scope_found(contents, database_name, schema_name) is Ok,
        table_found(contents, database_name, schema_name, table_name) is Ok,
    ensures
        match place_for_table(contents, database_name, default_schema, name, if_not_exists) {
            Ok(Some(place)) => place == (schema_name, table_name) && table_found(
                contents,
                database_name,
                schema_name,
                table_name,
            )->Ok_0 is None,
            Ok(None) => if_not_exists && table_found(
                contents,
                database_name,
                schema_name,
                table_name,
            )->Ok_0 is Some,
            Err(e) => e.code == "42P07"@ && !if_not_exists && table_found(
                contents,
                database_name,
                schema_name,
                table_name,
            )->Ok_0 is Some,
        },
{
}

/// The plan of a new table is for its place, with a number of its own, the columns that are
/// declared and the start of its counting.
pub proof fn law_table_plans_keep_the_request(
    contents: Contents,
    database_name: Seq<char>,
    default_schema: Seq<char>,
    name: Seq<PartModel>,
    columns: Seq<DefModel>,
    constraints: Seq<ConstraintModel>,
    if_not_exists: bool,
    start: Option<i64>,
)
    ensures
        create_table_planned(
            contents,
            database_name,
            default_schema,
            name,
            columns,
            constraints,
            if_not_exists,
            start,
        ).0 matches Ok(plan) ==> {
            let place = place_for_table(
                bootstrapped(contents),
                database_name,
                default_schema,
                name,
                if_not_exists,
            );
            match place {
                Ok(Some(found)) => plan is CreateTable && {
                    &&& plan->CreateTable_database_name == database_name
                    &&& plan->CreateTable_schema_name == found.0
                    &&& plan->CreateTable_schema.table_name == found.1
                    &&& plan->CreateTable_schema.table_id == next_number(
                        bootstrapped(contents),
                        TABLE_COUNTER@,
                    )
                    &&& plan->CreateTable_auto_increment_start == start
                    &&& plan->CreateTable_schema.columns.len() == columns.len()
                },
                _ => plan is Noop,
            }
        },
{
    let opened = bootstrapped(contents);
    if let Ok(Some(place)) = place_for_table(
        opened,
        database_name,
        default_schema,
        name,
        if_not_exists,
    ) {
        law_tables_are_as_declared(
            next_number(opened, TABLE_COUNTER@),
            place.0,
            place.1,
            columns,
            constraints,
            0,
            0,
        );
    }
}

/// A table like another has its columns, with their types, defaults and nulls, its key, its checks
/// and the columns of its unique constraints, under its own name; it refers to no table.
pub proof fn law_tables_are_like_their_source(
    source: TableModel,
    table_id: u32,
    schema_name: Seq<char>,
    table_name: Seq<char>,
    c: int,
)
    ensures
        ({
            let table = likened(source, table_id, schema_name, table_name);
            &&& table.table_name == table_name && table.table_id == table_id
            &&& table.primary_key == source.primary_key
            &&& table.foreign_keys.len() == 0
            &&& table.columns.len() == source.columns.len()
            &&& 0 <= c < source.columns.len() ==> {
                &&& table.columns[c].name == source.columns[c].name
                &&& table.columns[c].data_type == source.columns[c].data_type
                &&& table.columns[c].nullable == source.columns[c].nullable
                &&& table.columns[c].primary_key == source.columns[c].primary_key
                &&& table.columns[c].on_update == source.columns[c].on_update
                &&& table.columns[c].default is Some <==> source.columns[c].default is Some
            }
            &&& table.unique_constraints.len() == source.unique_constraints.len()
            &&& 0 <= c < source.unique_constraints.len() ==> table.unique_constraints[c].columns
                == source.unique_constraints[c].columns && table.unique_constraints[c].primary_key
                == source.unique_constraints[c].primary_key
            &&& table.check_constraints.len() == source.check_constraints.len()
            &&& 0 <= c < source.check_constraints.len() ==> table.check_constraints[c].expr
                == source.check_constraints[c].expr
        }),
{
    let base = TableModel {
        table_name,
        table_id,
        schema_version: 1,
        table_epoch: 1,
        foreign_keys: seq![],
        columns: source.columns.map_values(
            |column: ColumnModel|
                crate::server::ddl_tables::own_sequence(column, schema_name, table_name),
        ),
        ..source
    };
    law_normalized_keeps_columns(base);
    if 0 <= c < source.columns.len() {
        assert(base.columns[c] == crate::server::ddl_tables::own_sequence(
            source.columns[c],
            schema_name,
            table_name,
        ));
    }
}

/// The indexes of a table like another are on the same columns, unique or not as they were.
pub proof fn law_indexes_are_like_their_source(
    indexes: Seq<IndexModel>,
    table_name: Seq<char>,
    i: int,
)
    requires
        0 <= i < indexes.len(),
    ensures
        indexes_likened(indexes, table_name).len() == indexes.len(),
        indexes_likened(indexes, table_name)[i].column_names == indexes[i].column_names,
        indexes_likened(indexes, table_name)[i].unique == indexes[i].unique,
{
}

/// A table that is made from a query has a column for each field, with its name and type, which
/// may be null.
pub proof fn law_tables_of_queries_have_their_fields(
    table_id: u32,
    table_name: Seq<char>,
    fields: Seq<QueryFieldModel>,
    i: int,
)
    requires
        0 <= i < fields.len(),
    ensures
        ({
            let table = table_of_query(table_id, table_name, fields);
            &&& table.table_name == table_name && table.table_id == table_id
            &&& table.columns.len() == fields.len()
            &&& table.columns[i].name == fields[i].name
            &&& table.columns[i].data_type == fields[i].data_type
            &&& table.columns[i].nullable && !table.columns[i].primary_key
            &&& table.primary_key == INTERNAL_ROWID_COLUMN@
        }),
{
    let base = TableModel {
        table_name,
        table_id,
        schema_version: 1,
        table_epoch: 1,
        primary_key: INTERNAL_ROWID_COLUMN@,
        check_constraints: seq![],
        unique_constraints: seq![],
        foreign_keys: seq![],
        columns: crate::server::ddl_tables::columns_of_query(fields),
    };
    law_normalized_keeps_columns(base);
}

/// What a request for a change becomes.
pub open spec fn becomes(request: AlterRequest, change: AlterModel) -> bool {
    match request {
        AlterRequest::AddColumn { column, if_not_exists } => change matches AlterModel::AddColumn {
            column: added,
            if_not_exists: flag,
        } && added.name == column.name && added.data_type == column.data_type && flag
            == if_not_exists,
        AlterRequest::ModifyColumn { column } => change matches AlterModel::ModifyColumn {
            column_name,
            column: new,
        } && column_name == column.name && new.name == column.name && new.data_type
            == column.data_type,
        AlterRequest::ChangeColumn { old_name, column } => change matches AlterModel::ModifyColumn {
            column_name,
            column: new,
        } && column_name == old_name && new.name == column.name && new.data_type
            == column.data_type,
        AlterRequest::RenameColumn { old_column_name, new_column_name } => {
            change matches AlterModel::RenameColumn { old_name, new_name } && old_name
                == old_column_name && new_name == new_column_name
        },
        AlterRequest::RenameTable { new_name } => change matches AlterModel::RenameTable {
            new_name: name,
        } && object_name(new_name) == Ok::<Seq<char>, Report>(name),
        AlterRequest::AlterColumn { column_name, op } => match op {
            ColumnChangeModel::SetDefault { value } => change == (AlterModel::SetDefault {
                column_name,
                default: Some(value),
            }),
            ColumnChangeModel::DropDefault => change == (AlterModel::SetDefault {
                column_name,
                default: None,
            }),
            ColumnChangeModel::SetNotNull => change == (AlterModel::SetNotNull {
                column_name,
                nullable: false,
            }),
            ColumnChangeModel::DropNotNull => change == (AlterModel::SetNotNull {
                column_name,
                nullable: true,
            }),
            ColumnChangeModel::Other => false,
        },
        AlterRequest::AddConstraint { constraint } => match constraint {
            ConstraintModel::Unique { columns, .. } => change matches AlterModel::AddUnique {
                constraint: new,
            } && indexed_columns(columns) == Ok::<Seq<Seq<char>>, Report>(new.columns)
                && !new.primary_key,
            ConstraintModel::Check { expr, .. } => change matches AlterModel::AddCheck {
                constraint: new,
            } && new.expr == expr,
            ConstraintModel::ForeignKey { columns, foreign_table, referred_columns, .. } => {
                change matches AlterModel::AddForeignKey { constraint: new } && new.columns
                    == columns && new.referred_columns == referred_columns && object_name(
                    foreign_table,
                ) == Ok::<Seq<char>, Report>(new.foreign_table)
            },
            ConstraintModel::Index { columns, .. } => change matches AlterModel::AddIndex {
                column_names,
                unique,
                ..
            } && !unique && indexed_columns(columns) == Ok::<Seq<Seq<char>>, Report>(column_names),
            ConstraintModel::FulltextOrSpatial { columns, .. } => {
                change matches AlterModel::AddIndex { column_names, unique, .. } && !unique
                    && indexed_columns(columns) == Ok::<Seq<Seq<char>>, Report>(column_names)
            },
            _ => false,
        },
        AlterRequest::DropForeignKey { name } => change == (AlterModel::DropForeignKey {
            name,
            if_exists: false,
        }),
        AlterRequest::DropConstraint { name, if_exists } => change == (AlterModel::DropForeignKey {
            name,
            if_exists,
        }),
        AlterRequest::DropIndex { name } => change == (AlterModel::DropIndex {
            index_name: name,
            if_exists: false,
        }),
        AlterRequest::AutoIncrement { .. } => change is SetAutoIncrement,
        _ => false,
    }
}

/// A request becomes its own change behind those that came before it, which stay; several columns
/// are dropped one by one, and hints for how to work change nothing.
pub proof fn law_requests_become_changes(
    planned: Seq<AlterModel>,
    schema_name: Seq<char>,
    table: TableModel,
    count: nat,
    request: AlterRequest,
)
    ensures
        operation_planned(planned, schema_name, table, count, request) matches Ok(
            AlterOutcome::Operations(next),
        ) ==> match request {
            AlterRequest::Algorithm => next == planned,
            AlterRequest::Lock => next == planned,
            AlterRequest::DropColumn { column_names, if_exists } => {
                &&& next.len() == planned.len() + column_names.len()
                &&& next.take(planned.len() as int) == planned
                &&& forall|i: int|
                    0 <= i < column_names.len() ==> next[planned.len() + i] == (
                    AlterModel::DropColumn { column_name: #[trigger] column_names[i], if_exists })
            },
            _ => next.len() == planned.len() + 1 && next.drop_last() == planned && becomes(
                request,
                next.last(),
            ),
        },
        operation_planned(planned, schema_name, table, count, request) matches Ok(
            AlterOutcome::PrimaryKey(key),
        ) ==> count == 1 && has_column(table.columns, key),
{
    match operation_planned(planned, schema_name, table, count, request) {
        Ok(AlterOutcome::Operations(next)) => {
            match request {
                AlterRequest::DropColumn { column_names, if_exists } => {
                    assert(next.take(planned.len() as int) =~= planned);
                },
                AlterRequest::Algorithm => {},
                AlterRequest::Lock => {},
                _ => {
                    assert(next.drop_last() =~= planned);
                },
            }
        },
        _ => {},
    }
}

/// The plan of a change of a table is for that table, with what its requests become.
pub proof fn law_alter_plans_keep_the_request(
    contents: Contents,
    database_name: Seq<char>,
    search_path: Seq<Seq<char>>,
    name: Seq<PartModel>,
    operations: Seq<AlterRequest>,
)
    ensures
        alter_planned(contents, database_name, search_path, name, operations) matches Ok(plan) ==> (
        object_name(name) matches Ok(text) && table_required(
            contents,
            database_name,
            search_path,
            text,
        ) matches Ok(found) && match plan {
            PlanModel::AlterTable {
                database_name: d,
                schema_name,
                table_name,
                operations: changes,
            } => d == database_name && schema_name == found.0 && table_name == found.1.table_name
                && operations_planned(found.0, found.1, operations.len(), operations) == Ok::<
                AlterOutcome,
                Report,
            >(AlterOutcome::Operations(changes)),
            PlanModel::AlterTableAddPrimaryKey {
                database_name: d,
                schema_name,
                table_name,
                column_name,
            } => d == database_name && schema_name == found.0 && table_name == found.1.table_name
                && operations_planned(found.0, found.1, operations.len(), operations) == Ok::<
                AlterOutcome,
                Report,
            >(AlterOutcome::PrimaryKey(column_name)),
            _ => plan is Noop && operations.len() == 0,
        }),
{
}

/// The columns of an index are those that it names, in their order; an order of its own is
/// refused.
pub proof fn law_indexes_are_on_their_columns(parts: Seq<IndexColumnModel>)
    ensures
        indexed_columns(parts) matches Ok(names) ==> names.len() == parts.len() && forall|i: int|
            0 <= i < parts.len() ==> {
                &&& (#[trigger] parts[i]).ascending != Some(false) && parts[i].nulls_first is None
                &&& parts[i].target matches TargetModel::Column { name } ==> names[i] == name
                &&& !(parts[i].target is Refused)
            },
    decreases parts.len(),
{
    if parts.len() > 0 {
        let init = parts.drop_last();
        law_indexes_are_on_their_columns(init);
        if let Ok(names) = indexed_columns(parts) {
            let before = indexed_columns(init)->Ok_0;
            assert forall|i: int| 0 <= i < parts.len() implies {
                &&& (#[trigger] parts[i]).ascending != Some(false) && parts[i].nulls_first is None
                &&& parts[i].target matches TargetModel::Column { name } ==> names[i] == name
                &&& !(parts[i].target is Refused)
            } by {
                if i < init.len() {
                    assert(init[i] == parts[i]);
                    assert(names[i] == before[i]);
                }
            }
        }
    }
}

/// The plan of a new index is for its table, on the columns that it names, which the table has,
/// unique or not as asked for; kinds of indexes that are not kept here are refused.
pub proof fn law_index_plans_keep_the_request(
    contents: Contents,
    database_name: Seq<char>,
    search_path: Seq<Seq<char>>,
    name: Option<Seq<PartModel>>,
    table: Seq<PartModel>,
    using: Option<Seq<char>>,
    columns: Seq<IndexColumnModel>,
    unique: bool,
    concurrently: bool,
    if_not_exists: bool,
    includes: nat,
    has_predicate: bool,
)
    ensures
        create_index_planned(
            contents,
            database_name,
            search_path,
            name,
            table,
            using,
            columns,
            unique,
            concurrently,
            if_not_exists,
            includes,
            has_predicate,
        ) matches Ok(plan) ==> {
            &&& !concurrently && includes == 0 && !has_predicate && columns.len() > 0
            &&& plan is CreateIndex
            &&& plan->CreateIndex_database_name == database_name
            &&& plan->CreateIndex_unique == unique
            &&& plan->CreateIndex_if_not_exists == if_not_exists
            &&& indexed_columns(columns) == Ok::<Seq<Seq<char>>, Report>(
                plan->CreateIndex_column_names,
            )
            &&& object_name(table) matches Ok(text) && table_required(
                contents,
                database_name,
                search_path,
                text,
            ) matches Ok(found) && {
                &&& plan->CreateIndex_schema_name == found.0
                &&& plan->CreateIndex_table_name == found.1.table_name
                &&& forall|i: int|
                    0 <= i < plan->CreateIndex_column_names.len() ==> has_column(
                        found.1.columns,
                        #[trigger] plan->CreateIndex_column_names[i],
                    )
            }
            &&& name matches Some(parts) ==> (object_name(parts) matches Ok(text) && (mark_at(
                text,
                '.',
            ) is None ==> plan->CreateIndex_index_name == text))
        },
{
    if let Ok(names) = indexed_columns(columns) {
        if let Ok(text) = object_name(table) {
            if let Ok(found) = table_required(contents, database_name, search_path, text) {
                lemma_unknown(found.1.columns, names);
            }
        }
    }
}

/// A table without a schema in its name is dropped from the first schema of the search path that
/// has it; one that is not there is refused, unless that is no fault.
pub proof fn law_dropped_tables_are_the_named_ones(
    contents: Contents,
    database_name: Seq<char>,
    search_path: Seq<Seq<char>>,
    name: Seq<PartModel>,
    if_exists: bool,
    text: Seq<char>,
)
    requires
        object_name(name) == Ok::<Seq<char>, Report>(text),
        mark_at(text, '.') is None,
    ensures
        table_to_drop(
            contents,
            database_name,
            search_path,
            name,
            if_exists,
        ) matches Ok(place) ==> place.name == text && (table_resolved(
            contents,
            database_name,
            search_path,
            text,
        ) matches Ok(found) && found.0 == place.schema_name && (found.1 is Some || if_exists)),
{
}

/// An index is looked for in the schemas of the search path in turn: it is found in the first that
/// has it.
pub proof fn law_indexes_are_found_in_order(
    contents: Contents,
    database_id: u32,
    search_path: Seq<Seq<char>>,
    index_name: Seq<char>,
)
    ensures
        index_searched(contents, database_id, search_path, index_name) matches Ok(Some(schema_name))
            ==> exists|i: int|
            0 <= i < search_path.len() && #[trigger] search_path[i] == schema_name && has_index(
                contents,
                database_id,
                schema_name,
                index_name,
            ) && forall|k: int|
                0 <= k < i ==> !has_index(
                    contents,
                    database_id,
                    #[trigger] search_path[k],
                    index_name,
                ),
        index_searched(contents, database_id, search_path, index_name) matches Ok(None) ==> forall|
            i: int,
        |
            0 <= i < search_path.len() ==> !has_index(
                contents,
                database_id,
                #[trigger] search_path[i],
                index_name,
            ),
    decreases search_path.len(),
{
    if search_path.len() > 0 {
        let rest = search_path.skip(1);
        law_indexes_are_found_in_order(contents, database_id, rest, index_name);
        let first = has_index(contents, database_id, search_path[0], index_name);
        match index_searched(contents, database_id, search_path, index_name) {
            Ok(Some(schema_name)) => {
                if first {
                    assert(search_path[0] == schema_name);
                } else {
                    let i = choose|i: int|
                        0 <= i < rest.len() && #[trigger] rest[i] == schema_name && has_index(
                            contents,
                            database_id,
                            schema_name,
                            index_name,
                        ) && forall|k: int|
                            0 <= k < i ==> !has_index(
                                contents,
                                database_id,
                                #[trigger] rest[k],
                                index_name,
                            );
                    assert(search_path[i + 1] == rest[i]);
                    assert forall|k: int| 0 <= k < i + 1 implies !has_index(
                        contents,
                        database_id,
                        #[trigger] search_path[k],
                        index_name,
                    ) by {
                        if k > 0 {
                            assert(rest[k - 1] == search_path[k]);
                        }
                    }
                }
            },
            Ok(None) => {
                assert forall|i: int| 0 <= i < search_path.len() implies !has_index(
                    contents,
                    database_id,
                    #[trigger] search_path[i],
                    index_name,
                ) by {
                    if i > 0 {
                        assert(rest[i - 1] == search_path[i]);
                    }
                }
            },
            Err(_) => {},
        }
    }
}

/// Whether a schema has an index of a name.
pub open spec fn has_index(
    contents: Contents,
    database_id: u32,
    schema_name: Seq<char>,
    index_name: Seq<char>,
) -> bool {
    schema_found(contents, database_id, schema_name) matches Ok(Some(schema)) && index_found(
        contents,
        database_id,
        schema.schema_id,
        index_name,
    ) matches Ok(Some(_))
}

/// A sequence starts at the number that is said last, and goes by the step that is said last,
/// which is not zero; else it starts at one and goes by one.
pub proof fn law_sequences_start_and_go_as_said(options: Seq<SequenceOptionModel>, n: i64)
    requires
        sequence_described(options) is Ok,
    ensures
        sequence_described(seq![]) == Ok::<(i64, i64), Report>((1, 1)),
        sequence_described(
            options.push(
                SequenceOptionModel::StartWith {
                    value: SequenceValueModel::Value { value: Datum::Int64(n) },
                },
            ),
        ) == Ok::<(i64, i64), Report>((n, sequence_described(options)->Ok_0.1)),
        n != 0 ==> sequence_described(
            options.push(
                SequenceOptionModel::IncrementBy {
                    value: SequenceValueModel::Value { value: Datum::Int64(n) },
                },
            ),
        ) == Ok::<(i64, i64), Report>((sequence_described(options)->Ok_0.0, n)),
        n == 0 ==> sequence_described(
            options.push(
                SequenceOptionModel::IncrementBy {
                    value: SequenceValueModel::Value { value: Datum::Int64(n) },
                },
            ),
        ) is Err,
{
    let a = SequenceOptionModel::StartWith {
        value: SequenceValueModel::Value { value: Datum::Int64(n) },
    };
    let b = SequenceOptionModel::IncrementBy {
        value: SequenceValueModel::Value { value: Datum::Int64(n) },
    };
    assert(options.push(a).drop_last() =~= options);
    assert(options.push(b).drop_last() =~= options);
}

/// Several names are resolved one by one, in their order; the first that fails is the error.
pub proof fn law_each_name_is_resolved<V, R>(
    names: Seq<V>,
    resolve: spec_fn(V) -> Result<R, Report>,
)
    ensures
        match each_resolved(names, resolve) {
            Ok(found) => found.len() == names.len() && forall|i: int|
                0 <= i < names.len() ==> resolve(names[i]) == Ok::<R, Report>(#[trigger] found[i]),
            Err(e) => exists|i: int|
                0 <= i < names.len() && resolve(#[trigger] names[i]) == Err::<R, Report>(e)
                    && forall|k: int| 0 <= k < i ==> resolve(#[trigger] names[k]) is Ok,
        },
    decreases names.len(),
{
    if names.len() > 0 {
        let init = names.drop_last();
        law_each_name_is_resolved(init, resolve);
        match each_resolved(names, resolve) {
            Ok(found) => {
                let before = each_resolved(init, resolve)->Ok_0;
                assert forall|i: int| 0 <= i < names.len() implies resolve(names[i]) == Ok::<
                    R,
                    Report,
                >(#[trigger] found[i]) by {
                    if i < init.len() {
                        assert(init[i] == names[i]);
                        assert(found[i] == before[i]);
                    }
                }
            },
            Err(e) => {
                if each_resolved(init, resolve) is Err {
                    let i = choose|i: int|
                        0 <= i < init.len() && resolve(#[trigger] init[i]) == Err::<R, Report>(e)
                            && forall|k: int| 0 <= k < i ==> resolve(#[trigger] init[k]) is Ok;
                    assert(names[i] == init[i]);
                    assert forall|k: int| 0 <= k < i implies resolve(#[trigger] names[k]) is Ok by {
                        assert(init[k] == names[k]);
                    }
                } else {
                    let before = each_resolved(init, resolve)->Ok_0;
                    assert(resolve(names[names.len() - 1]) == Err::<R, Report>(e));
                    assert forall|k: int| 0 <= k < names.len() - 1 implies resolve(
                        #[trigger] names[k],
                    ) is Ok by {
                        assert(init[k] == names[k]);
                        assert(resolve(init[k]) == Ok::<R, Report>(before[k]));
                    }
                }
            },
        }
    }
}

} // verus!
