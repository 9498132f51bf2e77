//! Table descriptors and rows.
use vstd::prelude::*;

use crate::error::{Report, UserError};
use crate::text::same_text;
use crate::types::{type_code, ColumnValue, DataType, INTERNAL_ROWID_COLUMN};

verus! {

/// A type whose values can be made anew from the value alone.
pub trait Duplicate: View + Sized {
    /// A value with the same view.
    fn duplicate(&self) -> (copy: Self)
        ensures
            copy@ == self@,
    ;
}

/// The views of a sequence of values.
pub open spec fn views<T: View>(items: Seq<T>) -> Seq<T::V> {
    items.map_values(|item: T| item@)
}

/// The view of what an option holds.
pub open spec fn option_view<T: View>(item: Option<T>) -> Option<T::V> {
    match item {
        Some(value) => Some(value@),
        None => None,
    }
}

/// What is seen of a fallible value.
pub open spec fn seen<T: View>(result: Result<T, UserError>) -> Result<T::V, Report> {
    match result {
        Ok(value) => Ok(value@),
        Err(error) => Err(error@),
    }
}

/// What is seen of a fallible optional value.
pub open spec fn seen_option<T: View>(result: Result<Option<T>, UserError>) -> Result<
    Option<T::V>,
    Report,
> {
    match result {
        Ok(value) => Ok(option_view(value)),
        Err(error) => Err(error@),
    }
}

/// What is seen of a fallible list.
pub open spec fn seen_all<T: View>(result: Result<Vec<T>, UserError>) -> Result<
    Seq<T::V>,
    Report,
> {
    match result {
        Ok(items) => Ok(views(items@)),
        Err(error) => Err(error@),
    }
}

/// Duplicates every item.
pub fn duplicate_all<T: Duplicate>(items: &Vec<T>) -> (copies: Vec<T>)
    ensures
        views(copies@) == views(items@),
        copies@.len() == items@.len(),
{
    let mut copies: Vec<T> = Vec::new();
    let mut i: usize = 0;
    while i < items.len()
        invariant
            i <= items@.len(),
            copies@.len() == i,
            forall|k: int| 0 <= k < i ==> (#[trigger] copies@[k])@ == items@[k]@,
        decreases items@.len() - i,
    {
        copies.push(items[i].duplicate());
        i += 1;
    }
    assert(views(copies@) =~= views(items@));
    copies
}

/// Duplicates what an option holds.
pub fn duplicate_option<T: Duplicate>(item: &Option<T>) -> (copy: Option<T>)
    ensures
        option_view(copy) == option_view(*item),
{
    match item {
        Some(value) => Some(value.duplicate()),
        None => None,
    }
}

impl Duplicate for String {
    fn duplicate(&self) -> (copy: Self) {
        self.clone()
    }
}

impl Duplicate for ColumnValue {
    fn duplicate(&self) -> (copy: Self) {
        self.copied()
    }
}

impl Duplicate for UserError {
    fn duplicate(&self) -> (copy: Self) {
        UserError { code: self.code.clone(), message: self.message.clone() }
    }
}

/// Whether a name is in a list of names.
pub fn contains_name(names: &Vec<String>, name: &str) -> (found: bool)
    ensures
        found == views(names@).contains(name@),
{
    let mut i: usize = 0;
    while i < names.len()
        invariant
            i <= names@.len(),
            forall|k: int| 0 <= k < i ==> views(names@)[k] != name@,
        decreases names@.len() - i,
    {
        if same_text(names[i].as_str(), name) {
            assert(views(names@)[i as int] == name@);
            return true;
        }
        i += 1;
    }
    false
}

/// Whether two lists of names are equal.
pub fn same_names(a: &Vec<String>, b: &Vec<String>) -> (same: bool)
    ensures
        same == (views(a@) == views(b@)),
{
    if a.len() != b.len() {
        assert(views(a@).len() != views(b@).len());
        return false;
    }
    let mut i: usize = 0;
    while i < a.len()
        invariant
            i <= a@.len(),
            a@.len() == b@.len(),
            forall|k: int| 0 <= k < i ==> views(a@)[k] == views(b@)[k],
        decreases a@.len() - i,
    {
        if a[i] != b[i] {
            assert(views(a@)[i as int] != views(b@)[i as int]);
            return false;
        }
        i += 1;
    }
    assert(views(a@) =~= views(b@));
    true
}

/// A column of a table.
#[derive(Debug)]
pub struct ColumnSchema {
    pub column_id: u32,
    pub name: String,
    pub data_type: DataType,
    pub primary_key: bool,
    pub nullable: bool,
    pub default: Option<String>,
    pub on_update: Option<String>,
    pub character_set: Option<String>,
    pub collation: Option<String>,
}

/// What a [`ColumnSchema`] declares; the type is given by its catalog code.
pub struct ColumnModel {
    pub column_id: u32,
    pub name: Seq<char>,
    pub data_type: Seq<char>,
    pub primary_key: bool,
    pub nullable: bool,
    pub default: Option<Seq<char>>,
    pub on_update: Option<Seq<char>>,
    pub character_set: Option<Seq<char>>,
    pub collation: Option<Seq<char>>,
}

impl View for ColumnSchema {
    type V = ColumnModel;

    open spec fn view(&self) -> ColumnModel {
        ColumnModel {
            column_id: self.column_id,
            name: self.name@,
            data_type: type_code(self.data_type),
            primary_key: self.primary_key,
            nullable: self.nullable,
            default: option_view(self.default),
            on_update: option_view(self.on_update),
            character_set: option_view(self.character_set),
            collation: option_view(self.collation),
        }
    }
}

impl Duplicate for ColumnSchema {
    fn duplicate(&self) -> (copy: Self) {
        ColumnSchema {
            column_id: self.column_id,
            name: self.name.clone(),
            data_type: self.data_type.copied(),
            primary_key: self.primary_key,
            nullable: self.nullable,
            default: duplicate_option(&self.default),
            on_update: duplicate_option(&self.on_update),
            character_set: duplicate_option(&self.character_set),
            collation: duplicate_option(&self.collation),
        }
    }
}

/// A condition that every row meets.
#[derive(Debug)]
pub struct CheckConstraintSchema {
    pub name: String,
    pub expr: String,
}

/// What a [`CheckConstraintSchema`] declares.
pub struct CheckModel {
    pub name: Seq<char>,
    pub expr: Seq<char>,
}

impl View for CheckConstraintSchema {
    type V = CheckModel;

    open spec fn view(&self) -> CheckModel {
        CheckModel { name: self.name@, expr: self.expr@ }
    }
}

impl Duplicate for CheckConstraintSchema {
    fn duplicate(&self) -> (copy: Self) {
        CheckConstraintSchema { name: self.name.clone(), expr: self.expr.clone() }
    }
}

/// Columns whose values together occur once.
#[derive(Debug)]
pub struct UniqueConstraintSchema {
    pub name: String,
    pub columns: Vec<String>,
    pub primary_key: bool,
}

/// What a [`UniqueConstraintSchema`] declares.
pub struct UniqueModel {
    pub name: Seq<char>,
    pub columns: Seq<Seq<char>>,
    pub primary_key: bool,
}

impl View for UniqueConstraintSchema {
    type V = UniqueModel;

    open spec fn view(&self) -> UniqueModel {
        UniqueModel {
            name: self.name@,
            columns: views(self.columns@),
            primary_key: self.primary_key,
        }
    }
}

impl Duplicate for UniqueConstraintSchema {
    fn duplicate(&self) -> (copy: Self) {
        UniqueConstraintSchema {
            name: self.name.clone(),
            columns: duplicate_all(&self.columns),
            primary_key: self.primary_key,
        }
    }
}

/// Columns whose values occur in another table.
#[derive(Debug)]
pub struct ForeignKeyConstraintSchema {
    pub name: String,
    pub columns: Vec<String>,
    pub foreign_table: String,
    pub referred_columns: Vec<String>,
}

/// What a [`ForeignKeyConstraintSchema`] declares.
pub struct ForeignKeyModel {
    pub name: Seq<char>,
    pub columns: Seq<Seq<char>>,
    pub foreign_table: Seq<char>,
    pub referred_columns: Seq<Seq<char>>,
}

impl View for ForeignKeyConstraintSchema {
    type V = ForeignKeyModel;

    open spec fn view(&self) -> ForeignKeyModel {
        ForeignKeyModel {
            name: self.name@,
            columns: views(self.columns@),
            foreign_table: self.foreign_table@,
            referred_columns: views(self.referred_columns@),
        }
    }
}

impl Duplicate for ForeignKeyConstraintSchema {
    fn duplicate(&self) -> (copy: Self) {
        ForeignKeyConstraintSchema {
            name: self.name.clone(),
            columns: duplicate_all(&self.columns),
            foreign_table: self.foreign_table.clone(),
            referred_columns: duplicate_all(&self.referred_columns),
        }
    }
}

/// A table: its name and identity, its columns and what rows must satisfy.
#[derive(Debug)]
pub struct TableSchema {
    pub table_name: String,
    pub table_id: u32,
    pub schema_version: u32,
    pub table_epoch: u64,
    pub primary_key: String,
    pub check_constraints: Vec<CheckConstraintSchema>,
    pub unique_constraints: Vec<UniqueConstraintSchema>,
    pub foreign_keys: Vec<ForeignKeyConstraintSchema>,
    pub columns: Vec<ColumnSchema>,
}

/// What a [`TableSchema`] declares.
pub struct TableModel {
    pub table_name: Seq<char>,
    pub table_id: u32,
    pub schema_version: u32,
    pub table_epoch: u64,
    pub primary_key: Seq<char>,
    pub check_constraints: Seq<CheckModel>,
    pub unique_constraints: Seq<UniqueModel>,
    pub foreign_keys: Seq<ForeignKeyModel>,
    pub columns: Seq<ColumnModel>,
}

impl View for TableSchema {
    type V = TableModel;

    open spec fn view(&self) -> TableModel {
        TableModel {
            table_name: self.table_name@,
            table_id: self.table_id,
            schema_version: self.schema_version,
            table_epoch: self.table_epoch,
            primary_key: self.primary_key@,
            check_constraints: views(self.check_constraints@),
            unique_constraints: views(self.unique_constraints@),
            foreign_keys: views(self.foreign_keys@),
            columns: views(self.columns@),
        }
    }
}

impl Duplicate for TableSchema {
    fn duplicate(&self) -> (copy: Self) {
        TableSchema {
            table_name: self.table_name.clone(),
            table_id: self.table_id,
            schema_version: self.schema_version,
            table_epoch: self.table_epoch,
            primary_key: self.primary_key.clone(),
            check_constraints: duplicate_all(&self.check_constraints),
            unique_constraints: duplicate_all(&self.unique_constraints),
            foreign_keys: duplicate_all(&self.foreign_keys),
            columns: duplicate_all(&self.columns),
        }
    }
}

impl Clone for TableSchema {
    fn clone(&self) -> (copy: Self)
        ensures
            copy@ == self@,
    {
        self.duplicate()
    }
}

/// The position of the first column with the given name.
pub open spec fn column_position(columns: Seq<ColumnModel>, name: Seq<char>) -> Option<nat>
    decreases columns.len(),
{
    if columns.len() == 0 {
        None
    } else if columns[0].name == name {
        Some(0)
    } else {
        match column_position(columns.skip(1), name) {
            Some(n) => Some(n + 1),
            None => None,
        }
    }
}

/// Whether a column has the given name.
pub open spec fn has_column(columns: Seq<ColumnModel>, name: Seq<char>) -> bool {
    exists|i: int| 0 <= i < columns.len() && (#[trigger] columns[i]).name == name
}

/// The first column with a name stands at the position that `column_position` gives.
pub proof fn lemma_column_position(columns: Seq<ColumnModel>, name: Seq<char>)
    ensures
        match column_position(columns, name) {
            Some(n) => n < columns.len() && columns[n as int].name == name && forall|i: int|
                0 <= i < n ==> (#[trigger] columns[i]).name != name,
            None => forall|i: int| 0 <= i < columns.len() ==> (#[trigger] columns[i]).name != name,
        },
    decreases columns.len(),
{
    if columns.len() > 0 && columns[0].name != name {
        lemma_column_position(columns.skip(1), name);
        let rest = columns.skip(1);
        assert forall|i: int| 1 <= i < columns.len() implies #[trigger] columns[i] == rest[i
            - 1] by {}
    }
}

/// The names of the columns, in order.
pub open spec fn names_of(columns: Seq<ColumnModel>) -> Seq<Seq<char>> {
    columns.map_values(|column: ColumnModel| column.name)
}

/// The largest column identifier.
pub open spec fn largest_column_id(columns: Seq<ColumnModel>) -> u32
    decreases columns.len(),
{
    if columns.len() == 0 {
        0
    } else {
        let before = largest_column_id(columns.drop_last());
        if columns.last().column_id > before {
            columns.last().column_id
        } else {
            before
        }
    }
}

/// The successor of an identifier; the largest one stays.
pub open spec fn next_id(id: u32) -> u32 {
    if id == u32::MAX {
        id
    } else {
        (id + 1) as u32
    }
}

/// Columns with identifiers: one without (zero) takes the next free one.
pub open spec fn numbered_columns(columns: Seq<ColumnModel>, next: u32) -> Seq<ColumnModel>
    decreases columns.len(),
{
    if columns.len() == 0 {
        columns
    } else if columns[0].column_id == 0 {
        seq![ColumnModel { column_id: next, ..columns[0] }] + numbered_columns(
            columns.skip(1),
            next_id(next),
        )
    } else {
        seq![columns[0]] + numbered_columns(columns.skip(1), next)
    }
}

/// A table descriptor with a version and an epoch of at least one and an identifier for
/// every column.
pub open spec fn normalized(table: TableModel) -> TableModel {
    TableModel {
        schema_version: if table.schema_version == 0 {
            1
        } else {
            table.schema_version
        },
        table_epoch: if table.table_epoch == 0 {
            1
        } else {
            table.table_epoch
        },
        columns: numbered_columns(table.columns, next_id(largest_column_id(table.columns))),
        ..table
    }
}

/// Columns that all have identifiers keep them.
pub proof fn lemma_numbered_columns_stable(columns: Seq<ColumnModel>, next: u32)
    requires
        forall|i: int| 0 <= i < columns.len() ==> (#[trigger] columns[i]).column_id != 0,
    ensures
        numbered_columns(columns, next) == columns,
    decreases columns.len(),
{
    if columns.len() > 0 {
        let rest = columns.skip(1);
        assert forall|i: int| 0 <= i < rest.len() implies (#[trigger] rest[i]).column_id != 0 by {
            assert(rest[i] == columns[i + 1]);
        }
        lemma_numbered_columns_stable(rest, next);
        assert(seq![columns[0]] + rest =~= columns);
    }
}

proof fn lemma_numbered_columns_ids(columns: Seq<ColumnModel>, next: u32)
    requires
        next != 0,
    ensures
        numbered_columns(columns, next).len() == columns.len(),
        forall|i: int|
            0 <= i < columns.len() ==> (#[trigger] numbered_columns(columns, next)[i]).column_id
                != 0 && numbered_columns(columns, next)[i] == (ColumnModel {
                column_id: numbered_columns(columns, next)[i].column_id,
                ..columns[i]
            }),
    decreases columns.len(),
{
    if columns.len() > 0 {
        let rest = columns.skip(1);
        let after = if columns[0].column_id == 0 {
            next_id(next)
        } else {
            next
        };
        lemma_numbered_columns_ids(rest, after);
        let all = numbered_columns(columns, next);
        assert forall|i: int| 0 <= i < columns.len() implies (#[trigger] all[i]).column_id != 0
            && all[i] == (ColumnModel { column_id: all[i].column_id, ..columns[i] }) by {
            if i > 0 {
                assert(all[i] == numbered_columns(rest, after)[i - 1]);
                assert(rest[i - 1] == columns[i]);
            }
        }
    }
}

/// Normalizing a descriptor twice is the same as normalizing it once.
pub proof fn law_normalized_is_stable(table: TableModel)
    ensures
        normalized(normalized(table)) == normalized(table),
{
    let once = normalized(table);
    lemma_numbered_columns_ids(table.columns, next_id(largest_column_id(table.columns)));
    lemma_numbered_columns_stable(once.columns, next_id(largest_column_id(once.columns)));
}

/// Normalizing keeps what the columns are called, their types and everything else but
/// missing identifiers.
pub proof fn law_normalized_keeps_columns(table: TableModel)
    ensures
        normalized(table).columns.len() == table.columns.len(),
        forall|i: int|
            0 <= i < table.columns.len() ==> (#[trigger] normalized(table).columns[i])
                == (ColumnModel {
                column_id: normalized(table).columns[i].column_id,
                ..table.columns[i]
            }) && normalized(table).columns[i].column_id != 0,
{
    lemma_numbered_columns_ids(table.columns, next_id(largest_column_id(table.columns)));
}

impl TableSchema {
    /// The position of the first column with the given name.
    pub fn position_of(&self, name: &str) -> (position: Option<usize>)
        ensures
            match position {
                Some(i) => column_position(self@.columns, name@) == Some(i as nat),
                None => column_position(self@.columns, name@) is None,
            },
            position matches Some(i) ==> i < self.columns@.len() && self.columns@[i as int].name@
                == name@,
            (position is Some) == has_column(self@.columns, name@),
    {
        let mut i: usize = 0;
        proof {
            lemma_column_position(self@.columns, name@);
        }
        while i < self.columns.len()
            invariant
                i <= self.columns@.len(),
                forall|k: int| 0 <= k < i ==> (#[trigger] self@.columns[k]).name != name@,
                match column_position(self@.columns, name@) {
                    Some(n) => n < self@.columns.len() && self@.columns[n as int].name == name@
                        && forall|k: int| 0 <= k < n ==> (#[trigger] self@.columns[k]).name != name@,
                    None => forall|k: int|
                        0 <= k < self@.columns.len() ==> (#[trigger] self@.columns[k]).name
                            != name@,
                },
            decreases self.columns@.len() - i,
        {
            assert(self@.columns[i as int] == self.columns@[i as int]@);
            if same_text(self.columns[i].name.as_str(), name) {
                return Some(i);
            }
            i += 1;
        }
        None
    }

    /// The first column with the given name.
    pub fn find_column(&self, name: &str) -> (column: Option<&ColumnSchema>)
        ensures
            match column {
                Some(c) => column_position(self@.columns, name@) matches Some(n) && n
                    < self.columns@.len() && *c == self.columns@[n as int] && c.name@ == name@,
                None => column_position(self@.columns, name@) is None,
            },
            (column is Some) == has_column(self@.columns, name@),
    {
        match self.position_of(name) {
            Some(i) => Some(&self.columns[i]),
            None => None,
        }
    }

    /// The names of the columns, in order.
    pub fn column_names(&self) -> (names: Vec<String>)
        ensures
            views(names@) == names_of(self@.columns),
    {
        let mut names: Vec<String> = Vec::new();
        let mut i: usize = 0;
        while i < self.columns.len()
            invariant
                i <= self.columns@.len(),
                names@.len() == i,
                forall|k: int| 0 <= k < i ==> (#[trigger] names@[k])@ == self.columns@[k].name@,
            decreases self.columns@.len() - i,
        {
            names.push(self.columns[i].name.clone());
            i += 1;
        }
        assert(views(names@) =~= names_of(self@.columns));
        names
    }

    /// Whether the table was declared with a primary key.
    pub fn has_user_primary_key(&self) -> (answer: bool)
        ensures
            answer == (self@.primary_key != INTERNAL_ROWID_COLUMN@),
    {
        !same_text(self.primary_key.as_str(), INTERNAL_ROWID_COLUMN)
    }

    /// The type of the primary key: that of its column, or the row identifier's.
    pub fn pk_data_type(&self) -> (data_type: DataType)
        ensures
            match column_position(self@.columns, self@.primary_key) {
                Some(n) => data_type == self.columns@[n as int].data_type,
                None => data_type == DataType::Int64,
            },
    {
        match self.find_column(self.primary_key.as_str()) {
            Some(column) => column.data_type.copied(),
            None => DataType::Int64,
        }
    }

    /// Gives the descriptor a version, an epoch and column identifiers where it has none.
    pub fn normalize_descriptor(&mut self)
        ensures
            final(self)@ == normalized(old(self)@),
    {
        if self.schema_version == 0 {
            self.schema_version = 1;
        }
        if self.table_epoch == 0 {
            self.table_epoch = 1;
        }
        let ghost columns = self@.columns;
        let mut largest: u32 = 0;
        let mut i: usize = 0;
        while i < self.columns.len()
            invariant
                i <= self.columns@.len(),
                columns == views(self.columns@),
                largest == largest_column_id(columns.take(i as int)),
            decreases self.columns@.len() - i,
        {
            assert(columns.take(i + 1).drop_last() =~= columns.take(i as int));
            assert(columns[i as int] == self.columns@[i as int]@);
            if self.columns[i].column_id > largest {
                largest = self.columns[i].column_id;
            }
            i += 1;
        }
        assert(columns.take(i as int) =~= columns);
        let mut next: u32 = if largest == u32::MAX {
            largest
        } else {
            largest + 1
        };
        let ghost first = next;
        let ghost before = *self;
        let mut kept: Vec<ColumnSchema> = Vec::new();
        let mut rest: Vec<ColumnSchema> = Vec::new();
        std::mem::swap(&mut rest, &mut self.columns);
        rest = reversed(rest);
        assert(Seq::<ColumnModel>::empty() + numbered_columns(columns, next) =~= numbered_columns(
            columns,
            first,
        ));
        assert(views(kept@) =~= Seq::<ColumnModel>::empty());
        assert(views(rest@).reverse() =~= columns);
        while rest.len() > 0
            invariant
                views(kept@) + numbered_columns(views(rest@).reverse(), next) == numbered_columns(
                    columns,
                    first,
                ),
            decreases rest@.len(),
        {
            let ghost waiting = views(rest@).reverse();
            let ghost done = views(kept@);
            let mut column = rest.pop().unwrap();
            let ghost taken = column@;
            assert(waiting[0] == taken);
            assert(views(rest@).reverse() =~= waiting.skip(1));
            let ghost number = next;
            if column.column_id == 0 {
                column.column_id = next;
                next = if next == u32::MAX {
                    next
                } else {
                    next + 1
                };
            }
            let ghost written = column@;
            kept.push(column);
            assert(views(kept@) =~= done.push(written));
            assert(done.push(written) + numbered_columns(waiting.skip(1), next) =~= done + (seq![
                written,
            ] + numbered_columns(waiting.skip(1), next)));
        }
        assert(numbered_columns(views(rest@).reverse(), next) =~= seq![]);
        assert(views(kept@) =~= numbered_columns(columns, first));
        self.columns = kept;
    }
}

/// The items in opposite order.
fn reversed<T: View>(items: Vec<T>) -> (result: Vec<T>)
    ensures
        views(result@) == views(items@).reverse(),
        result@ == items@.reverse(),
{
    let mut left = items;
    let mut result: Vec<T> = Vec::new();
    while left.len() > 0
        invariant
            result@ + left@.reverse() == items@.reverse(),
        decreases left@.len(),
    {
        let ghost before = left@;
        let ghost done = result@;
        let item = left.pop().unwrap();
        result.push(item);
        assert(result@ + left@.reverse() =~= done + before.reverse());
    }
    assert(result@ =~= items@.reverse());
    assert(views(result@) =~= views(items@).reverse());
    result
}

} // verus!
