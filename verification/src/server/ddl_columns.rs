//! Columns and indexes as statements declare them.
use vstd::prelude::*;

use crate::error::{unsupported, unsupported_report, Report, UserError};
use crate::names::{object_name, object_name_to_string, seen_text};
use crate::schema::{
    duplicate_all, option_view, seen, seen_all, views, CheckConstraintSchema, CheckModel,
    ColumnModel, ColumnSchema, Duplicate, ForeignKeyConstraintSchema, ForeignKeyModel,
    UniqueConstraintSchema, UniqueModel,
};
use crate::server::ast::{
    ColumnDef, ColumnOption, ColumnOptionKind, ColumnOptionModel, DefModel, IndexColumn,
    IndexColumnModel, IndexTarget, OptionModel, TargetModel,
};
use crate::server::sequences::{
    nextval_default, nextval_default_text, serial_name, serial_sequence_name,
};
use crate::text::three_texts;

verus! {

/// A number without the bits beyond the lowest 32.
pub open spec fn low_bits(n: nat) -> u32 {
    (n % 0x1_0000_0000) as u32
}

/// A number without the bits beyond the lowest 32.
pub fn low_u32(n: usize) -> (low: u32)
    ensures
        low == low_bits(n as nat),
{
    (n as u64 % 0x1_0000_0000) as u32
}

/// The place of a column behind some others, counted from one.
pub fn ordinal_behind(columns: usize, more: usize) -> (ordinal: u32)
    ensures
        ordinal == low_bits((columns + more + 1) as nat),
{
    let sum: u64 = low_u32(columns) as u64 + low_u32(more) as u64 + 1;
    (sum % 0x1_0000_0000) as u32
}

/// A name, or another text where there is none.
pub open spec fn named_or(name: Option<Seq<char>>, other: Seq<char>) -> Seq<char> {
    match name {
        Some(text) => text,
        None => other,
    }
}

/// A name, or another text where there is none.
pub fn name_or(name: &Option<String>, other: String) -> (text: String)
    ensures
        text@ == named_or(option_view(*name), other@),
{
    match name {
        Some(text) => text.clone(),
        None => other,
    }
}

/// The name of a constraint on a column that has none of its own.
pub open spec fn constraint_text(
    table_name: Seq<char>,
    column_name: Seq<char>,
    kind: Seq<char>,
) -> Seq<char> {
    table_name + "_"@ + column_name + kind
}

/// The name of a constraint on a column that has none of its own.
pub fn constraint_name(table_name: &str, column_name: &str, kind: &str) -> (name: String)
    ensures
        name@ == constraint_text(table_name@, column_name@, kind@),
{
    let mut name = three_texts(table_name, "_", column_name);
    name.push_str(kind);
    name
}

/// What the declarations of a column come to.
pub struct ColumnTraits {
    pub is_primary: bool,
    pub is_unique: bool,
    pub counts: bool,
    pub nullable: bool,
    pub default: Option<String>,
    pub on_update: Option<String>,
    pub character_set: Option<String>,
    pub collation: Option<String>,
    pub checks: Vec<CheckConstraintSchema>,
    pub foreign_key: Option<ForeignKeyConstraintSchema>,
}

/// What [`ColumnTraits`] say.
pub struct TraitsModel {
    pub is_primary: bool,
    pub is_unique: bool,
    pub counts: bool,
    pub nullable: bool,
    pub default: Option<Seq<char>>,
    pub on_update: Option<Seq<char>>,
    pub character_set: Option<Seq<char>>,
    pub collation: Option<Seq<char>>,
    pub checks: Seq<CheckModel>,
    pub foreign_key: Option<ForeignKeyModel>,
}

impl View for ColumnTraits {
    type V = TraitsModel;

    open spec fn view(&self) -> TraitsModel {
        TraitsModel {
            is_primary: self.is_primary,
            is_unique: self.is_unique,
            counts: self.counts,
            nullable: self.nullable,
            default: option_view(self.default),
            on_update: option_view(self.on_update),
            character_set: option_view(self.character_set),
            collation: option_view(self.collation),
            checks: views(self.checks@),
            foreign_key: option_view(self.foreign_key),
        }
    }
}

/// A column of which nothing is declared.
pub open spec fn no_traits() -> TraitsModel {
    TraitsModel {
        is_primary: false,
        is_unique: false,
        counts: false,
        nullable: true,
        default: None,
        on_update: None,
        character_set: None,
        collation: None,
        checks: seq![],
        foreign_key: None,
    }
}

/// What one more declaration makes of a column.
pub open spec fn with_option(
    traits: TraitsModel,
    table_name: Seq<char>,
    column_name: Seq<char>,
    option: ColumnOptionModel,
) -> Result<TraitsModel, Report> {
    match option.kind {
        OptionModel::PrimaryKey => Ok(
            TraitsModel { is_primary: true, nullable: false, ..traits },
        ),
        OptionModel::Unique => Ok(TraitsModel { is_unique: true, ..traits }),
        OptionModel::NotNull => Ok(TraitsModel { nullable: false, ..traits }),
        OptionModel::DefaultValue { expr } => Ok(TraitsModel { default: Some(expr), ..traits }),
        OptionModel::OnUpdate { expr } => Ok(TraitsModel { on_update: Some(expr), ..traits }),
        OptionModel::CharacterSet { name } => Ok(
            TraitsModel { character_set: Some(name), ..traits },
        ),
        OptionModel::Collation { name } => Ok(TraitsModel { collation: Some(name), ..traits }),
        OptionModel::Check { expr } => Ok(
            TraitsModel {
                checks: traits.checks.push(
                    CheckModel {
                        name: named_or(
                            option.name,
                            constraint_text(table_name, column_name, "_check"@),
                        ),
                        expr,
                    },
                ),
                ..traits
            },
        ),
        OptionModel::ForeignKey { foreign_table, referred_columns } => match object_name(
            foreign_table,
        ) {
            Err(e) => Err(e),
            Ok(table) => Ok(
                TraitsModel {
                    foreign_key: Some(
                        ForeignKeyModel {
                            name: named_or(
                                option.name,
                                constraint_text(table_name, column_name, "_fkey"@),
                            ),
                            columns: seq![column_name],
                            foreign_table: table,
                            referred_columns,
                        },
                    ),
                    ..traits
                },
            ),
        },
        OptionModel::AutoIncrement => Ok(TraitsModel { counts: true, ..traits }),
        OptionModel::Other => Ok(traits),
    }
}

/// What declarations, one after the other, make of a column.
pub open spec fn options_taken(
    table_name: Seq<char>,
    column_name: Seq<char>,
    options: Seq<ColumnOptionModel>,
) -> Result<TraitsModel, Report>
    decreases options.len(),
{
    if options.len() == 0 {
        Ok(no_traits())
    } else {
        match options_taken(table_name, column_name, options.drop_last()) {
            Err(e) => Err(e),
            Ok(traits) => with_option(traits, table_name, column_name, options.last()),
        }
    }
}

/// A failure among the first declarations is that of all.
pub proof fn lemma_options_fail(
    table_name: Seq<char>,
    column_name: Seq<char>,
    options: Seq<ColumnOptionModel>,
    n: int,
)
    requires
        0 <= n <= options.len(),
        options_taken(table_name, column_name, options.take(n)) is Err,
    ensures
        options_taken(table_name, column_name, options) == options_taken(
            table_name,
            column_name,
            options.take(n),
        ),
    decreases options.len() - n,
{
    if n == options.len() {
        assert(options.take(n) =~= options);
    } else {
        assert(options.take(n + 1).drop_last() =~= options.take(n));
        lemma_options_fail(table_name, column_name, options, n + 1);
    }
}

impl ColumnTraits {
    /// A column of which nothing is declared.
    pub fn new() -> (traits: ColumnTraits)
        ensures
            traits@ == no_traits(),
    {
        let traits = ColumnTraits {
            is_primary: false,
            is_unique: false,
            counts: false,
            nullable: true,
            default: None,
            on_update: None,
            character_set: None,
            collation: None,
            checks: Vec::new(),
            foreign_key: None,
        };
        assert(traits@.checks =~= no_traits().checks);
        traits
    }

    /// Takes one more declaration.
    pub fn take(&mut self, table_name: &str, column_name: &str, option: &ColumnOption) -> (result:
        Result<(), UserError>)
        ensures
            match result {
                Ok(_) => with_option(old(self)@, table_name@, column_name@, option@) == Ok::<
                    TraitsModel,
                    Report,
                >(final(self)@),
                Err(e) => with_option(old(self)@, table_name@, column_name@, option@) == Err::<
                    TraitsModel,
                    Report,
                >(e@),
            },
    {
        match &option.kind {
            ColumnOptionKind::PrimaryKey => {
                self.is_primary = true;
                self.nullable = false;
            },
            ColumnOptionKind::Unique => {
                self.is_unique = true;
            },
            ColumnOptionKind::NotNull => {
                self.nullable = false;
            },
            ColumnOptionKind::DefaultValue { expr } => {
                self.default = Some(expr.clone());
            },
            ColumnOptionKind::OnUpdate { expr } => {
                self.on_update = Some(expr.clone());
            },
            ColumnOptionKind::CharacterSet { name } => {
                self.character_set = Some(name.clone());
            },
            ColumnOptionKind::Collation { name } => {
                self.collation = Some(name.clone());
            },
            ColumnOptionKind::Check { expr } => {
                let ghost before = views(self.checks@);
                let check = CheckConstraintSchema {
                    name: name_or(
                        &option.name,
                        constraint_name(table_name, column_name, "_check"),
                    ),
                    expr: expr.clone(),
                };
                let ghost added = check@;
                self.checks.push(check);
                assert(views(self.checks@) =~= before.push(added));
            },
            ColumnOptionKind::ForeignKey { foreign_table, referred_columns } => {
                let table = match object_name_to_string(foreign_table) {
                    Err(e) => {
                        return Err(e);
                    },
                    Ok(table) => table,
                };
                let mut columns: Vec<String> = Vec::new();
                columns.push(column_name.to_string());
                assert(views(columns@) =~= seq![column_name@]);
                self.foreign_key = Some(
                    ForeignKeyConstraintSchema {
                        name: name_or(
                            &option.name,
                            constraint_name(table_name, column_name, "_fkey"),
                        ),
                        columns,
                        foreign_table: table,
                        referred_columns: duplicate_all(referred_columns),
                    },
                );
            },
            ColumnOptionKind::AutoIncrement => {
                self.counts = true;
            },
            ColumnOptionKind::Other => {},
        }
        Ok(())
    }
}

/// What the declaration of a column comes to.
pub struct ColumnParts {
    pub column: ColumnSchema,
    pub checks: Vec<CheckConstraintSchema>,
    pub unique: Option<UniqueConstraintSchema>,
    pub foreign_key: Option<ForeignKeyConstraintSchema>,
}

/// What [`ColumnParts`] say.
pub struct PartsModel {
    pub column: ColumnModel,
    pub checks: Seq<CheckModel>,
    pub unique: Option<UniqueModel>,
    pub foreign_key: Option<ForeignKeyModel>,
}

impl View for ColumnParts {
    type V = PartsModel;

    open spec fn view(&self) -> PartsModel {
        PartsModel {
            column: self.column@,
            checks: views(self.checks@),
            unique: option_view(self.unique),
            foreign_key: option_view(self.foreign_key),
        }
    }
}

impl PartsModel {
    /// Whether a column comes with no constraint.
    pub open spec fn is_plain(self) -> bool {
        self.checks.len() == 0 && self.unique is None && self.foreign_key is None
    }
}

/// What the declaration of a column comes to: one that counts by itself takes its values from
/// a sequence, unless it has a default, and a key is unique.
pub open spec fn column_described(
    schema_name: Seq<char>,
    table_name: Seq<char>,
    ordinal: u32,
    def: DefModel,
) -> Result<PartsModel, Report> {
    match options_taken(table_name, def.name, def.options) {
        Err(e) => Err(e),
        Ok(traits) => Ok(
            PartsModel {
                column: ColumnModel {
                    column_id: ordinal,
                    name: def.name,
                    data_type: def.data_type,
                    primary_key: traits.is_primary,
                    nullable: traits.nullable && !traits.counts,
                    default: if traits.default is None && (def.serial || traits.counts) {
                        Some(nextval_default(serial_name(schema_name, table_name, def.name)))
                    } else {
                        traits.default
                    },
                    on_update: traits.on_update,
                    character_set: traits.character_set,
                    collation: traits.collation,
                },
                checks: traits.checks,
                unique: if traits.is_primary {
                    Some(
                        UniqueModel {
                            name: table_name + "_pkey"@,
                            columns: seq![def.name],
                            primary_key: true,
                        },
                    )
                } else if traits.is_unique {
                    Some(
                        UniqueModel {
                            name: constraint_text(table_name, def.name, "_key"@),
                            columns: seq![def.name],
                            primary_key: false,
                        },
                    )
                } else {
                    None
                },
                foreign_key: traits.foreign_key,
            },
        ),
    }
}

/// A text with another behind it.
pub fn two_texts(a: &str, b: &str) -> (text: String)
    ensures
        text@ == a@ + b@,
{
    let mut text = a.to_string();
    text.push_str(b);
    text
}

/// What the declaration of a column comes to.
pub fn column_schema_from_def(
    schema_name: &str,
    table_name: &str,
    ordinal: u32,
    column: &ColumnDef,
) -> (result: Result<ColumnParts, UserError>)
    ensures
        seen(result) == column_described(schema_name@, table_name@, ordinal, column@),
{
    let ghost options = column@.options;
    let mut traits = ColumnTraits::new();
    let mut i: usize = 0;
    assert(options.take(0) =~= Seq::<ColumnOptionModel>::empty());
    while i < column.options.len()
        invariant
            i <= column.options@.len(),
            options == views(column.options@),
            options_taken(table_name@, column.name@, options.take(i as int)) == Ok::<
                TraitsModel,
                Report,
            >(traits@),
            column@.options == options,
            column@.name == column.name@,
        decreases column.options@.len() - i,
    {
        assert(options.take(i + 1).drop_last() =~= options.take(i as int));
        assert(options.take(i + 1).last() == column.options@[i as int]@);
        match traits.take(table_name, column.name.as_str(), &column.options[i]) {
            Err(e) => {
                proof {
                    lemma_options_fail(table_name@, column.name@, options, i + 1);
                }
                return Err(e);
            },
            Ok(_) => {},
        }
        i += 1;
    }
    assert(options.take(i as int) =~= options);
    let default = if traits.default.is_none() && (column.serial || traits.counts) {
        let sequence = serial_sequence_name(schema_name, table_name, column.name.as_str());
        Some(nextval_default_text(sequence.as_str()))
    } else {
        traits.default
    };
    let mut columns: Vec<String> = Vec::new();
    columns.push(column.name.clone());
    assert(views(columns@) =~= seq![column.name@]);
    let unique = if traits.is_primary {
        Some(
            UniqueConstraintSchema {
                name: two_texts(table_name, "_pkey"),
                columns,
                primary_key: true,
            },
        )
    } else if traits.is_unique {
        Some(
            UniqueConstraintSchema {
                name: constraint_name(table_name, column.name.as_str(), "_key"),
                columns,
                primary_key: false,
            },
        )
    } else {
        None
    };
    Ok(
        ColumnParts {
            column: ColumnSchema {
                column_id: ordinal,
                name: column.name.clone(),
                data_type: column.data_type.copied(),
                primary_key: traits.is_primary,
                nullable: traits.nullable && !traits.counts,
                default,
                on_update: traits.on_update,
                character_set: traits.character_set,
                collation: traits.collation,
            },
            checks: traits.checks,
            unique,
            foreign_key: traits.foreign_key,
        },
    )
}

/// A column that is the key of its table takes no null.
pub proof fn law_key_columns_are_not_null(
    schema_name: Seq<char>,
    table_name: Seq<char>,
    ordinal: u32,
    def: DefModel,
)
    ensures
        column_described(schema_name, table_name, ordinal, def) matches Ok(parts)
            ==> parts.column.primary_key ==> !parts.column.nullable,
{
    lemma_key_options_are_not_null(table_name, def.name, def.options);
}

/// Declarations that make a column a key make it take no null.
proof fn lemma_key_options_are_not_null(
    table_name: Seq<char>,
    column_name: Seq<char>,
    options: Seq<ColumnOptionModel>,
)
    ensures
        options_taken(table_name, column_name, options) matches Ok(traits)
            ==> traits.is_primary ==> !traits.nullable,
    decreases options.len(),
{
    if options.len() > 0 {
        lemma_key_options_are_not_null(table_name, column_name, options.drop_last());
    }
}

/// The column that a part of an index is made of.
pub open spec fn indexed_column(column: IndexColumnModel) -> Result<Seq<char>, Report> {
    if column.ascending == Some(false) || column.nulls_first is Some {
        Err(
            unsupported_report(
                "index sort direction and NULLS ordering are not supported yet"@,
            ),
        )
    } else {
        match column.target {
            TargetModel::Column { name } => Ok(name),
            TargetModel::Call { name } => object_name(name),
            TargetModel::Refused { error } => Err(error),
        }
    }
}

/// The column that a part of an index is made of.
pub fn index_column_name(column: &IndexColumn) -> (result: Result<String, UserError>)
    ensures
        seen_text(result) == indexed_column(column@),
{
    let descending = match column.ascending {
        Some(ascending) => !ascending,
        None => false,
    };
    if descending || column.nulls_first.is_some() {
        return Err(
            unsupported("index sort direction and NULLS ordering are not supported yet"),
        );
    }
    match &column.target {
        IndexTarget::Column { name } => Ok(name.clone()),
        IndexTarget::Call { name } => object_name_to_string(name),
        IndexTarget::Refused { error } => Err(error.duplicate()),
    }
}

/// The columns that an index is made of.
pub open spec fn indexed_columns(columns: Seq<IndexColumnModel>) -> Result<Seq<Seq<char>>, Report>
    decreases columns.len(),
{
    if columns.len() == 0 {
        Ok(seq![])
    } else {
        match indexed_columns(columns.drop_last()) {
            Err(e) => Err(e),
            Ok(names) => match indexed_column(columns.last()) {
                Err(e) => Err(e),
                Ok(name) => Ok(names.push(name)),
            },
        }
    }
}

/// A failure among the first parts of an index is that of all.
proof fn lemma_indexed_fail(columns: Seq<IndexColumnModel>, n: int)
    requires
        0 <= n <= columns.len(),
        indexed_columns(columns.take(n)) is Err,
    ensures
        indexed_columns(columns) == indexed_columns(columns.take(n)),
    decreases columns.len() - n,
{
    if n == columns.len() {
        assert(columns.take(n) =~= columns);
    } else {
        assert(columns.take(n + 1).drop_last() =~= columns.take(n));
        lemma_indexed_fail(columns, n + 1);
    }
}

/// The columns that an index is made of.
pub fn index_column_names(columns: &Vec<IndexColumn>) -> (result: Result<Vec<String>, UserError>)
    ensures
        seen_all(result) == indexed_columns(views(columns@)),
{
    let ghost all = views(columns@);
    let mut names: Vec<String> = Vec::new();
    let mut i: usize = 0;
    assert(views(names@) =~= Seq::<Seq<char>>::empty());
    assert(all.take(0) =~= Seq::<IndexColumnModel>::empty());
    while i < columns.len()
        invariant
            i <= columns@.len(),
            all == views(columns@),
            indexed_columns(all.take(i as int)) == Ok::<Seq<Seq<char>>, Report>(views(names@)),
        decreases columns@.len() - i,
    {
        assert(all.take(i + 1).drop_last() =~= all.take(i as int));
        assert(all.take(i + 1).last() == columns@[i as int]@);
        match index_column_name(&columns[i]) {
            Err(e) => {
                proof {
                    lemma_indexed_fail(all, i + 1);
                }
                return Err(e);
            },
            Ok(name) => {
                let ghost before = views(names@);
                let ghost text = name@;
                names.push(name);
                assert(views(names@) =~= before.push(text));
            },
        }
        i += 1;
    }
    assert(all.take(i as int) =~= all);
    Ok(names)
}

} // verus!
