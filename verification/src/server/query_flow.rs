//! How a query is run: what comes between parsing, planning and execution.
use vstd::prelude::*;

use crate::error::{is_unsupported_error, report, user_error, Report, UserError};
use crate::mode::GatewayMode;
use crate::names::{join_names, joined};
use crate::schema::{option_view, seen, views};
use crate::server::plan::{PlanModel, QueryPlan};
use crate::text::{
    bare_chars, bare_statement, begins, begins_with, chars_of, find_mark, lower, lower_text,
    mark_at, occurs_at, part, same_but_for_case, string_of, texts, trim, trim_chars, trim_end_mark,
    trim_end_of, trim_start, trim_start_chars, words, words_of,
};

verus! {

/// The kind of a statement, as far as transactions depend on it.
#[derive(Debug)]
pub enum StatementKind {
    StartTransaction,
    Commit,
    /// Back to a savepoint, or to the start.
    Rollback(Option<String>),
    Savepoint(String),
    ReleaseSavepoint(String),
    CreateDatabase,
    CreateSchema,
    CreateTable,
    CreateSequence,
    CreateView,
    AlterTable,
    CreateIndex,
    Drop,
    Truncate,
    Analyze,
    OptimizeTable,
    /// A query: whether it asks for locks on the rows that it reads, and whether it has another
    /// clause that starts with `FOR`.
    Query { has_locks: bool, has_for_clause: bool },
    Other,
}

/// Whether a statement is about transactions.
pub open spec fn controls_transactions(kind: StatementKind) -> bool {
    kind is StartTransaction || kind is Commit || kind is Rollback || kind is Savepoint
        || kind is ReleaseSavepoint
}

/// Whether a statement is about transactions.
pub fn is_transaction_control_statement(kind: &StatementKind) -> (answer: bool)
    ensures
        answer == controls_transactions(*kind),
{
    match kind {
        StatementKind::StartTransaction => true,
        StatementKind::Commit => true,
        StatementKind::Rollback(_) => true,
        StatementKind::Savepoint(_) => true,
        StatementKind::ReleaseSavepoint(_) => true,
        _ => false,
    }
}

/// Whether a statement makes, changes or looks after objects.
pub open spec fn defines(kind: StatementKind) -> bool {
    kind is CreateDatabase || kind is CreateSchema || kind is CreateTable || kind is CreateSequence
        || kind is CreateView || kind is AlterTable || kind is CreateIndex || kind is Drop
        || kind is Truncate || kind is Analyze || kind is OptimizeTable
}

/// Whether a statement commits what came before it, where clients speak MySQL: each does that
/// makes, changes or looks after objects.
pub fn is_mysql_ddl_implicit_commit_statement(kind: &StatementKind) -> (answer: bool)
    ensures
        answer == defines(*kind),
{
    match kind {
        StatementKind::CreateDatabase => true,
        StatementKind::CreateSchema => true,
        StatementKind::CreateTable => true,
        StatementKind::CreateSequence => true,
        StatementKind::CreateView => true,
        StatementKind::AlterTable => true,
        StatementKind::CreateIndex => true,
        StatementKind::Drop => true,
        StatementKind::Truncate => true,
        StatementKind::Analyze => true,
        StatementKind::OptimizeTable => true,
        _ => false,
    }
}

/// Whether a statement locks the rows that it reads.
pub open spec fn locks_what_it_reads(kind: StatementKind) -> bool {
    kind matches StatementKind::Query { has_locks, has_for_clause } && (has_locks || has_for_clause)
}

/// Whether a statement locks the rows that it reads.
pub fn is_mysql_locking_read_statement(kind: &StatementKind) -> (answer: bool)
    ensures
        answer == locks_what_it_reads(*kind),
{
    match kind {
        StatementKind::Query { has_locks, has_for_clause } => *has_locks || *has_for_clause,
        _ => false,
    }
}

/// Whether a plan writes.
pub open spec fn writes(plan: PlanModel) -> bool {
    !(plan is Noop || plan is SelectRows || plan is ExplainRows || plan is PostgresExplainRows
        || plan is TableMaintenanceRows)
}

/// Whether a plan writes.
pub fn is_write_plan(plan: &QueryPlan) -> (answer: bool)
    ensures
        answer == writes(plan@),
{
    match plan {
        QueryPlan::Noop { tag } => false,
        QueryPlan::SelectRows {
            database_name,
            schema_name,
            schema,
            projection,
            access,
            limit,
            offset,
        } => false,
        QueryPlan::ExplainRows { rows } => false,
        QueryPlan::PostgresExplainRows { rows } => false,
        QueryPlan::TableMaintenanceRows { rows } => false,
        _ => true,
    }
}

/// What a statement about transactions asks for.
#[derive(Debug)]
pub enum TransactionAction {
    Begin,
    Commit,
    Rollback,
    RollbackTo(String),
    Savepoint(String),
    Release(String),
}

/// What a [`TransactionAction`] says.
pub enum TransactionActionModel {
    Begin,
    Commit,
    Rollback,
    RollbackTo(Seq<char>),
    Savepoint(Seq<char>),
    Release(Seq<char>),
}

impl View for TransactionAction {
    type V = TransactionActionModel;

    open spec fn view(&self) -> TransactionActionModel {
        match *self {
            TransactionAction::Begin => TransactionActionModel::Begin,
            TransactionAction::Commit => TransactionActionModel::Commit,
            TransactionAction::Rollback => TransactionActionModel::Rollback,
            TransactionAction::RollbackTo(name) => TransactionActionModel::RollbackTo(name@),
            TransactionAction::Savepoint(name) => TransactionActionModel::Savepoint(name@),
            TransactionAction::Release(name) => TransactionActionModel::Release(name@),
        }
    }
}

/// What a statement about transactions asks for; nothing where it is not about them.
pub open spec fn transaction_action(kind: StatementKind) -> Option<TransactionActionModel> {
    match kind {
        StatementKind::StartTransaction => Some(TransactionActionModel::Begin),
        StatementKind::Commit => Some(TransactionActionModel::Commit),
        StatementKind::Rollback(None) => Some(TransactionActionModel::Rollback),
        StatementKind::Rollback(Some(name)) => Some(TransactionActionModel::RollbackTo(name@)),
        StatementKind::Savepoint(name) => Some(TransactionActionModel::Savepoint(name@)),
        StatementKind::ReleaseSavepoint(name) => Some(TransactionActionModel::Release(name@)),
        _ => None,
    }
}

/// What a statement about transactions asks for.
pub fn handle_transaction_statement(kind: &StatementKind) -> (action: Option<TransactionAction>)
    ensures
        option_view(action) == transaction_action(*kind),
        (action is Some) == controls_transactions(*kind),
{
    match kind {
        StatementKind::StartTransaction => Some(TransactionAction::Begin),
        StatementKind::Commit => Some(TransactionAction::Commit),
        StatementKind::Rollback(savepoint) => match savepoint {
            None => Some(TransactionAction::Rollback),
            Some(name) => Some(TransactionAction::RollbackTo(name.clone())),
        },
        StatementKind::Savepoint(name) => Some(TransactionAction::Savepoint(name.clone())),
        StatementKind::ReleaseSavepoint(name) => Some(TransactionAction::Release(name.clone())),
        _ => None,
    }
}

/// Whether several statements that came together make a transaction of their own.
pub open spec fn is_implicit(kinds: Seq<StatementKind>, in_transaction: bool) -> bool {
    kinds.len() > 1 && !in_transaction && forall|i: int|
        0 <= i < kinds.len() ==> !controls_transactions(#[trigger] kinds[i])
}

/// Whether several statements that came together make a transaction of their own.
pub fn needs_implicit_transaction(kinds: &Vec<StatementKind>, in_transaction: bool) -> (answer:
    bool)
    ensures
        answer == is_implicit(kinds@, in_transaction),
{
    if kinds.len() <= 1 || in_transaction {
        return false;
    }
    let mut i: usize = 0;
    while i < kinds.len()
        invariant
            i <= kinds@.len(),
            forall|k: int| 0 <= k < i ==> !controls_transactions(#[trigger] kinds@[k]),
        decreases kinds@.len() - i,
    {
        if is_transaction_control_statement(&kinds[i]) {
            return false;
        }
        i += 1;
    }
    true
}

/// What is done with a statement once it was planned.
pub enum PlannedStep {
    /// It is run: with locks, which are then kept but for those of the statement, or given up.
    Run { plan: QueryPlan, take_locks: bool, keep_locks: bool },
    /// It is left to the general engine.
    General,
    /// It fails: the transaction of the session may fail with it, and one that the statements
    /// made is rolled back.
    Fail { error: UserError, fail_transaction: bool, roll_back: bool },
}

/// What a [`PlannedStep`] says.
pub enum PlannedModel {
    Run { plan: PlanModel, take_locks: bool, keep_locks: bool },
    General,
    Fail { error: Report, fail_transaction: bool, roll_back: bool },
}

impl View for PlannedStep {
    type V = PlannedModel;

    open spec fn view(&self) -> PlannedModel {
        match *self {
            PlannedStep::Run { plan, take_locks, keep_locks } => PlannedModel::Run {
                plan: plan@,
                take_locks,
                keep_locks,
            },
            PlannedStep::General => PlannedModel::General,
            PlannedStep::Fail { error, fail_transaction, roll_back } => PlannedModel::Fail {
                error: error@,
                fail_transaction,
                roll_back,
            },
        }
    }
}

/// What is done with a statement once it was planned.
pub open spec fn step_of_plan(
    mode: GatewayMode,
    kind: StatementKind,
    planned: Result<PlanModel, Report>,
    active: bool,
    read_only: bool,
    implicit: bool,
) -> PlannedModel {
    match planned {
        Ok(plan) => if read_only && writes(plan) {
            PlannedModel::Fail {
                error: report(
                    "25006"@,
                    "cannot execute write statement in a read-only transaction"@,
                ),
                fail_transaction: true,
                roll_back: false,
            }
        } else {
            PlannedModel::Run {
                plan,
                take_locks: mode == GatewayMode::MySql && (locks_what_it_reads(kind) || writes(
                    plan,
                )),
                keep_locks: active,
            }
        },
        Err(error) => if error.code != "0A000"@ {
            PlannedModel::Fail {
                error,
                fail_transaction: active || implicit,
                roll_back: implicit,
            }
        } else if implicit {
            PlannedModel::Fail {
                error: report(
                    "0A000"@,
                    "slow-path statements are not supported inside pg_gateway implicit multi-statement transactions yet"@,
                ),
                fail_transaction: true,
                roll_back: true,
            }
        } else if active && !(kind is Query) {
            PlannedModel::Fail {
                error: report(
                    "0A000"@,
                    "slow-path statements are not supported inside pg_gateway transactions yet"@,
                ),
                fail_transaction: true,
                roll_back: false,
            }
        } else {
            PlannedModel::General
        },
    }
}

/// What is done with a statement once it was planned.
pub fn after_planning(
    mode: GatewayMode,
    kind: &StatementKind,
    planned: Result<QueryPlan, UserError>,
    active: bool,
    read_only: bool,
    implicit: bool,
) -> (step: PlannedStep)
    ensures
        step@ == step_of_plan(mode, *kind, seen(planned), active, read_only, implicit),
{
    match planned {
        Ok(plan) => {
            let write = is_write_plan(&plan);
            if read_only && write {
                return PlannedStep::Fail {
                    error: user_error(
                        "25006",
                        "cannot execute write statement in a read-only transaction",
                    ),
                    fail_transaction: true,
                    roll_back: false,
                };
            }
            let take_locks = mode == GatewayMode::MySql && (is_mysql_locking_read_statement(kind)
                || write);
            PlannedStep::Run { plan, take_locks, keep_locks: active }
        },
        Err(error) => {
            if !is_unsupported_error(&error) {
                return PlannedStep::Fail {
                    error,
                    fail_transaction: active || implicit,
                    roll_back: implicit,
                };
            }
            if implicit {
                return PlannedStep::Fail {
                    error: user_error(
                        "0A000",
                        "slow-path statements are not supported inside pg_gateway implicit multi-statement transactions yet",
                    ),
                    fail_transaction: true,
                    roll_back: true,
                };
            }
            let is_query = match kind {
                StatementKind::Query { has_locks, has_for_clause } => true,
                _ => false,
            };
            if active && !is_query {
                return PlannedStep::Fail {
                    error: user_error(
                        "0A000",
                        "slow-path statements are not supported inside pg_gateway transactions yet",
                    ),
                    fail_transaction: true,
                    roll_back: false,
                };
            }
            PlannedStep::General
        },
    }
}

/// A transaction that may not write never runs a plan that does.
pub proof fn law_read_only_transactions_do_not_write(
    mode: GatewayMode,
    kind: StatementKind,
    planned: Result<PlanModel, Report>,
    active: bool,
    implicit: bool,
)
    ensures
        step_of_plan(mode, kind, planned, active, true, implicit) matches PlannedModel::Run {
            plan,
            take_locks,
            keep_locks,
        } ==> !writes(plan),
{
}

/// Where clients speak MySQL, no plan that writes runs without locks.
pub proof fn law_writes_take_locks(
    kind: StatementKind,
    planned: Result<PlanModel, Report>,
    active: bool,
    read_only: bool,
    implicit: bool,
)
    ensures
        step_of_plan(
            GatewayMode::MySql,
            kind,
            planned,
            active,
            read_only,
            implicit,
        ) matches PlannedModel::Run { plan, take_locks, keep_locks } ==> writes(plan)
            ==> take_locks,
{
}

/// Whether a character is a letter, a digit or an underscore.
pub open spec fn is_word_char(ch: char) -> bool {
    'a' <= ch <= 'z' || 'A' <= ch <= 'Z' || '0' <= ch <= '9' || ch == '_'
}

pub fn is_word_letter(ch: char) -> (answer: bool)
    ensures
        answer == is_word_char(ch),
{
    ('a' <= ch && ch <= 'z') || ('A' <= ch && ch <= 'Z') || ('0' <= ch && ch <= '9') || ch == '_'
}

/// Whether a word stands at a place of a text, in any case, with no letters around it.
pub open spec fn word_at(text: Seq<char>, word: Seq<char>, at: int) -> bool {
    occurs_at(lower(text), word, at) && (at == 0 || !is_word_char(text[at - 1])) && (at + word.len()
        == text.len() || !is_word_char(text[at + word.len()]))
}

/// Whether a statement asks for statistics.
pub open spec fn asks_for_analyze(text: Seq<char>) -> bool {
    exists|at: int| word_at(text, "analyze"@, at)
}

/// Whether a statement asks for statistics.
pub fn vacuum_requests_analyze(text: &str) -> (answer: bool)
    ensures
        answer == asks_for_analyze(text@),
{
    proof {
        reveal_strlit("analyze");
        assert("analyze"@.len() == 7);
    }
    let chars = chars_of(text);
    let small = lower_text(text);
    let small_chars = chars_of(small.as_str());
    let n: usize = chars.len();
    let mut at: usize = 0;
    while at < n
        invariant
            at <= n,
            n == chars@.len(),
            chars@ == text@,
            small_chars@ == lower(text@),
            "analyze"@.len() == 7,
            forall|k: int| 0 <= k < at ==> !word_at(text@, "analyze"@, k),
        decreases n - at,
    {
        if n - at >= 7 {
            let here = begins_with(part(small_chars.as_slice(), at, n), "analyze");
            assert(lower(text@).subrange(at as int, n as int).take(7) =~= lower(
                text@,
            ).subrange(at as int, at + 7));
            if here && (at == 0 || !is_word_letter(chars[at - 1])) && (n - at == 7
                || !is_word_letter(chars[at + 7])) {
                assert(word_at(text@, "analyze"@, at as int));
                return true;
            }
        }
        at += 1;
    }
    assert forall|k: int| !word_at(text@, "analyze"@, k) by {}
    false
}

/// How many characters a text has of an option of `VACUUM` that it starts with.
pub open spec fn vacuum_option(text: Seq<char>) -> nat {
    if starts_with_word(text, "analyze"@) {
        7
    } else if starts_with_word(text, "verbose"@) {
        7
    } else if starts_with_word(text, "freeze"@) {
        6
    } else if starts_with_word(text, "full"@) {
        4
    } else {
        0
    }
}

/// Whether a text starts with a word, in any case, and no letter behind it.
pub open spec fn starts_with_word(text: Seq<char>, word: Seq<char>) -> bool {
    begins(lower(text), word) && (text.len() == word.len() || !is_word_char(text[word.len() as int]))
}

fn is_first_word(text: &[char], word: &str, width: usize) -> (answer: bool)
    requires
        width == word@.len(),
    ensures
        answer == starts_with_word(text@, word@),
{
    let copy = string_of(text);
    let small = lower_text(copy.as_str());
    let small_chars = chars_of(small.as_str());
    begins_with(small_chars.as_slice(), word) && (text.len() == width || !is_word_letter(
        text[width],
    ))
}

/// How many characters a text has of an option of `VACUUM` that it starts with.
pub fn take_vacuum_option_keyword(text: &[char]) -> (width: usize)
    ensures
        width == vacuum_option(text@),
        width <= text@.len(),
{
    proof {
        reveal_strlit("analyze");
        reveal_strlit("verbose");
        reveal_strlit("freeze");
        reveal_strlit("full");
        assert("analyze"@.len() == 7);
        assert("verbose"@.len() == 7);
        assert("freeze"@.len() == 6);
        assert("full"@.len() == 4);
    }
    if is_first_word(text, "analyze", 7) {
        7
    } else if is_first_word(text, "verbose", 7) {
        7
    } else if is_first_word(text, "freeze", 6) {
        6
    } else if is_first_word(text, "full", 4) {
        4
    } else {
        0
    }
}

/// A text without the options of `VACUUM` that it starts with.
pub open spec fn without_options(text: Seq<char>) -> Seq<char>
    decreases text.len(),
{
    let width = vacuum_option(text);
    if 0 < width <= text.len() {
        proof {
            lemma_trim_start_shortens(text.skip(width as int));
        }
        without_options(trim_start(text.skip(width as int)))
    } else {
        text
    }
}

/// A text is not longer without the white space it starts with.
pub proof fn lemma_trim_start_shortens(text: Seq<char>)
    ensures
        trim_start(text).len() <= text.len(),
    decreases text.len(),
{
    if text.len() > 0 && is_space_at(text) {
        lemma_trim_start_shortens(text.skip(1));
    }
}

spec fn is_space_at(text: Seq<char>) -> bool {
    crate::text::is_space(text[0])
}

/// A text without the commas and semicolons around it.
pub open spec fn without_marks(text: Seq<char>) -> Seq<char>
    decreases text.len(),
{
    if text.len() > 0 && (text[0] == ',' || text[0] == ';') {
        without_marks(text.skip(1))
    } else if text.len() > 0 && (text.last() == ',' || text.last() == ';') {
        without_marks(text.drop_last())
    } else {
        text
    }
}

/// What stands behind the word of a statement.
pub open spec fn behind_vacuum(trimmed: Seq<char>) -> Option<Seq<char>> {
    let found = words(trimmed);
    if found.len() == 0 || lower(found[0]) != lower("vacuum"@) {
        None
    } else {
        Some(trim_start(trimmed.skip(6)))
    }
}

/// The text of the table that `VACUUM` is to take statistics of, where it names one.
pub open spec fn vacuum_target(query: Seq<char>) -> Option<Seq<char>> {
    match behind_vacuum(bare_statement(query)) {
        None => None,
        Some(rest) => {
            let options = if rest.len() > 0 && rest[0] == '(' {
                match mark_at(rest, ')') {
                    Some(n) => trim_start(rest.skip(n as int + 1)),
                    None => rest,
                }
            } else if begins(lower(rest), "analyze"@) {
                trim_start(rest.skip(7))
            } else {
                rest
            };
            let found = words(without_options(options));
            if found.len() == 0 {
                None
            } else if trim(without_marks(found[0])).len() == 0 {
                None
            } else {
                Some(trim(without_marks(found[0])))
            }
        },
    }
}

fn drop_marks(text: &[char]) -> (rest: &[char])
    ensures
        rest@ == without_marks(text@),
{
    let mut from: usize = 0;
    let mut to: usize = text.len();
    assert(text@.subrange(0, text@.len() as int) =~= text@);
    while from < to && (text[from] == ',' || text[from] == ';')
        invariant
            from <= to,
            to == text@.len(),
            without_marks(text@) == without_marks(text@.subrange(from as int, to as int)),
        decreases to - from,
    {
        assert(text@.subrange(from as int, to as int).skip(1) =~= text@.subrange(
            from + 1,
            to as int,
        ));
        from += 1;
    }
    while from < to && (text[to - 1] == ',' || text[to - 1] == ';')
        invariant
            from <= to <= text@.len(),
            from < to ==> text@[from as int] != ',' && text@[from as int] != ';',
            without_marks(text@) == without_marks(text@.subrange(from as int, to as int)),
        decreases to - from,
    {
        assert(text@.subrange(from as int, to as int).drop_last() =~= text@.subrange(
            from as int,
            to - 1,
        ));
        to -= 1;
    }
    part(text, from, to)
}

fn skip_chars(text: &[char], n: usize) -> (rest: &[char])
    requires
        n <= text@.len(),
    ensures
        rest@ == text@.skip(n as int),
{
    assert(text@.subrange(n as int, text@.len() as int) =~= text@.skip(n as int));
    part(text, n, text.len())
}

/// The first word of a text is no longer than the text.
proof fn lemma_first_word(text: Seq<char>)
    ensures
        words(text).len() > 0 ==> words(text)[0].len() <= text.len(),
    decreases text.len(),
{
    crate::text::lemma_words_fit(text);
}

/// The text of the table that `VACUUM` is to take statistics of, where it names one.
pub fn vacuum_analyze_table_name(query: &str) -> (name: Option<String>)
    ensures
        option_view(name) == vacuum_target(query@),
{
    proof {
        reveal_strlit("vacuum");
        reveal_strlit("analyze");
        assert("vacuum"@.len() == 6);
        assert("analyze"@.len() == 7);
        assert(lower("vacuum"@).len() == 6);
    }
    let chars = chars_of(query);
    let trimmed = bare_chars(chars.as_slice());
    let found = words_of(trimmed);
    let ghost all = words(trimmed@);
    if found.len() == 0 {
        return None;
    }
    assert(all[0] == found@[0]@);
    if !same_but_for_case(found[0].as_str(), "vacuum") {
        return None;
    }
    proof {
        lemma_first_word(trimmed@);
        assert(lower(all[0]).len() == all[0].len());
    }
    let rest = trim_start_chars(skip_chars(trimmed, 6));
    let options = if rest.len() > 0 && rest[0] == '(' {
        match find_mark(rest, ')') {
            Some(n) => {
                proof {
                    crate::server::commands::lemma_mark_inside(rest@, ')');
                }
                let end: usize = rest.len();
                assert(n < end);
                trim_start_chars(skip_chars(rest, n + 1))
            },
            None => rest,
        }
    } else {
        let copy = string_of(rest);
        let small = lower_text(copy.as_str());
        let small_chars = chars_of(small.as_str());
        if begins_with(small_chars.as_slice(), "analyze") {
            trim_start_chars(skip_chars(rest, 7))
        } else {
            rest
        }
    };
    let mut left = options;
    let mut width: usize = take_vacuum_option_keyword(left);
    while width > 0
        invariant
            width == vacuum_option(left@),
            width <= left@.len(),
            without_options(options@) == without_options(left@),
        decreases left@.len(),
    {
        let next = trim_start_chars(skip_chars(left, width));
        proof {
            lemma_trim_start_shortens(left@.skip(width as int));
        }
        left = next;
        width = take_vacuum_option_keyword(left);
    }
    let names = words_of(left);
    let ghost targets = words(left@);
    if names.len() == 0 {
        return None;
    }
    assert(targets[0] == names@[0]@);
    let first = chars_of(names[0].as_str());
    let name = trim_chars(drop_marks(first.as_slice()));
    if name.len() == 0 {
        return None;
    }
    Some(string_of(name))
}

/// A statement in small letters, with single spaces between its words.
pub open spec fn normalized_sql(sql: Seq<char>) -> Seq<char> {
    lower(joined(words(sql), " "@))
}

/// A statement in small letters, with single spaces between its words.
pub fn normalize_sql_whitespace(sql: &str) -> (text: String)
    ensures
        text@ == normalized_sql(sql@),
{
    let chars = chars_of(sql);
    let found = words_of(chars.as_slice());
    assert(views(found@) =~= texts(found@));
    let text = join_names(&found, " ");
    lower_text(text.as_str())
}

/// What is done with a statement that may be `VACUUM`.
#[derive(Debug)]
pub enum VacuumStep {
    /// It is another statement.
    NotVacuum,
    /// It is done at once.
    Done,
    /// Statistics are taken: of a table by its text, or of all tables.
    Analyze(Option<String>),
}

/// What a [`VacuumStep`] says.
pub enum VacuumModel {
    NotVacuum,
    Done,
    Analyze(Option<Seq<char>>),
}

impl View for VacuumStep {
    type V = VacuumModel;

    open spec fn view(&self) -> VacuumModel {
        match *self {
            VacuumStep::NotVacuum => VacuumModel::NotVacuum,
            VacuumStep::Done => VacuumModel::Done,
            VacuumStep::Analyze(name) => VacuumModel::Analyze(option_view(name)),
        }
    }
}

/// What is done with a statement that may be `VACUUM`, which PostgreSQL clients alone have.
pub open spec fn vacuum_step_of(mode: GatewayMode, query: Seq<char>) -> VacuumModel {
    let normalized = trim(trim_end_of(normalized_sql(query), ';'));
    if mode == GatewayMode::MySql || !begins(normalized, "vacuum"@) {
        VacuumModel::NotVacuum
    } else if !asks_for_analyze(normalized) {
        VacuumModel::Done
    } else {
        VacuumModel::Analyze(vacuum_target(query))
    }
}

/// What is done with a statement that may be `VACUUM`.
pub fn vacuum_step(mode: GatewayMode, query: &str) -> (step: VacuumStep)
    ensures
        step@ == vacuum_step_of(mode, query@),
{
    if mode == GatewayMode::MySql {
        return VacuumStep::NotVacuum;
    }
    let text = normalize_sql_whitespace(query);
    let chars = chars_of(text.as_str());
    let normalized = trim_chars(trim_end_mark(chars.as_slice(), ';'));
    if !begins_with(normalized, "vacuum") {
        return VacuumStep::NotVacuum;
    }
    let bare = string_of(normalized);
    if !vacuum_requests_analyze(bare.as_str()) {
        return VacuumStep::Done;
    }
    VacuumStep::Analyze(vacuum_analyze_table_name(query))
}

} // verus!
