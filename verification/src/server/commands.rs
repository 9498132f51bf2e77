//! Statements about the session itself, read from their text.
use vstd::prelude::*;

use crate::error::{report, user_error, Report, UserError};
use crate::names::seen_text;
use crate::schema::{option_view, seen_option, views};
use crate::server::session::{
    isolation_named, parse_search_path, parse_transaction_isolation, search_path_of,
    TransactionIsolation,
};
use crate::text::{
    bare_chars, bare_statement, begins, begins_with, chars_of, contains_text, find_mark, has_text,
    is_space, is_space_char, lower, lower_text, mark_at, parse_signed, parse_unsigned, part,
    same_but_for_case, same_text, signed_number, string_of, trim, trim_chars, trim_end_mark,
    trim_end_of, trim_mark, trim_of, trim_start, unsigned_number, words, words_of,
};

verus! {

/// A statement that is about the session itself.
#[derive(Debug)]
#[allow(inconsistent_fields)]
pub enum SessionCommand {
    Begin { isolation: Option<TransactionIsolation>, read_only: bool },
    Commit,
    Rollback,
    Autocommit { enabled: bool },
    LockWaitTimeout { seconds: u64 },
    Isolation { isolation: TransactionIsolation },
    Savepoint { name: String },
    RollbackTo { name: String },
    Release { name: String },
    Kill { target: i32 },
    NextValue { sequence: String },
    SearchPath { text: String, schemas: Vec<String> },
}

/// What a [`SessionCommand`] says.
#[allow(inconsistent_fields)]
pub enum CommandModel {
    Begin { isolation: Option<TransactionIsolation>, read_only: bool },
    Commit,
    Rollback,
    Autocommit { enabled: bool },
    LockWaitTimeout { seconds: u64 },
    Isolation { isolation: TransactionIsolation },
    Savepoint { name: Seq<char> },
    RollbackTo { name: Seq<char> },
    Release { name: Seq<char> },
    Kill { target: i32 },
    NextValue { sequence: Seq<char> },
    SearchPath { text: Seq<char>, schemas: Seq<Seq<char>> },
}

impl View for SessionCommand {
    type V = CommandModel;

    open spec fn view(&self) -> CommandModel {
        match *self {
            SessionCommand::Begin { isolation, read_only } => CommandModel::Begin {
                isolation,
                read_only,
            },
            SessionCommand::Commit => CommandModel::Commit,
            SessionCommand::Rollback => CommandModel::Rollback,
            SessionCommand::Autocommit { enabled } => CommandModel::Autocommit {
                enabled,
            },
            SessionCommand::LockWaitTimeout { seconds } => CommandModel::LockWaitTimeout {
                seconds,
            },
            SessionCommand::Isolation { isolation } => CommandModel::Isolation {
                isolation,
            },
            SessionCommand::Savepoint { name } => CommandModel::Savepoint {
                name: name@,
            },
            SessionCommand::RollbackTo { name } => CommandModel::RollbackTo {
                name: name@,
            },
            SessionCommand::Release { name } => CommandModel::Release {
                name: name@,
            },
            SessionCommand::Kill { target } => CommandModel::Kill {
                target,
            },
            SessionCommand::NextValue { sequence } => CommandModel::NextValue {
                sequence: sequence@,
            },
            SessionCommand::SearchPath { text, schemas } => CommandModel::SearchPath {
                text: text@,
                schemas: views(schemas@),
            },
        }
    }
}

/// What stands behind the first mark of a text.
pub open spec fn behind_mark(text: Seq<char>, mark: char) -> Option<Seq<char>> {
    match mark_at(text, mark) {
        Some(n) => Some(text.skip(n as int + 1)),
        None => None,
    }
}

/// What stands behind the first mark of a text.
fn rest_behind_mark(text: &[char], mark: char) -> (rest: Option<&[char]>)
    ensures
        match rest {
            Some(found) => behind_mark(text@, mark) == Some(found@),
            None => behind_mark(text@, mark) is None,
        },
{
    let end: usize = text.len();
    match find_mark(text, mark) {
        Some(n) => {
            proof {
                lemma_mark_inside(text@, mark);
            }
            assert(n < end);
            assert(text@.subrange(n + 1, text@.len() as int) =~= text@.skip(n + 1));
            Some(part(text, n + 1, end))
        },
        None => None,
    }
}

/// A mark of a text stands inside it.
pub proof fn lemma_mark_inside(text: Seq<char>, mark: char)
    ensures
        mark_at(text, mark) matches Some(n) ==> n < text.len(),
    decreases text.len(),
{
    if text.len() > 0 && text[0] != mark {
        lemma_mark_inside(text.skip(1), mark);
    }
}

/// The value that a statement gives the setting for commits, where it gives it one.
pub open spec fn autocommit_value(text: Seq<char>) -> Option<Seq<char>> {
    let small = lower(text);
    let rest = if begins(small, "set autocommit"@) {
        Some(text.skip(14))
    } else if begins(small, "set session autocommit"@) {
        Some(text.skip(22))
    } else if begins(small, "set @@autocommit"@) {
        Some(text.skip(16))
    } else if begins(small, "set @@session.autocommit"@) {
        Some(text.skip(24))
    } else {
        None
    };
    match rest {
        Some(rest) => if trim(rest).len() > 0 && trim(rest)[0] == '=' {
            Some(trim(trim(rest).skip(1)))
        } else {
            None
        },
        None => None,
    }
}

fn skipped(text: &[char], n: usize) -> (rest: &[char])
    requires
        n <= text@.len(),
    ensures
        rest@ == text@.skip(n as int),
{
    assert(text@.subrange(n as int, text@.len() as int) =~= text@.skip(n as int));
    part(text, n, text.len())
}

/// The value that a statement gives the setting for commits.
pub fn parse_mysql_autocommit_assignment(text: &[char]) -> (value: Option<String>)
    ensures
        option_view(value) == autocommit_value(text@),
{
    proof {
        reveal_strlit("set autocommit");
        reveal_strlit("set session autocommit");
        reveal_strlit("set @@autocommit");
        reveal_strlit("set @@session.autocommit");
        assert("set autocommit"@.len() == 14);
        assert("set session autocommit"@.len() == 22);
        assert("set @@autocommit"@.len() == 16);
        assert("set @@session.autocommit"@.len() == 24);
    }
    let small = lower_chars(text);
    let width: usize = if begins_with(small.as_slice(), "set autocommit") {
        14
    } else if begins_with(small.as_slice(), "set session autocommit") {
        22
    } else if begins_with(small.as_slice(), "set @@autocommit") {
        16
    } else if begins_with(small.as_slice(), "set @@session.autocommit") {
        24
    } else {
        return None;
    };
    let rest = trim_chars(skipped(text, width));
    if rest.len() > 0 && rest[0] == '=' {
        Some(string_of(trim_chars(skipped(rest, 1))))
    } else {
        None
    }
}

/// The characters of a text with ASCII capitals made small.
fn lower_chars(text: &[char]) -> (small: Vec<char>)
    ensures
        small@ == lower(text@),
{
    let copy = string_of(text);
    let small = lower_text(copy.as_str());
    chars_of(small.as_str())
}

/// The name of a savepoint: one word, without the quotes around it.
pub open spec fn savepoint_name(text: Seq<char>) -> Result<Seq<char>, Report> {
    let name = trim_of(trim_of(trim(text), '"'), '`');
    if name.len() == 0 || exists|i: int| 0 <= i < name.len() && is_space(#[trigger] name[i]) {
        Err(report("42601"@, "invalid savepoint name"@))
    } else {
        Ok(name)
    }
}

/// The name of a savepoint.
pub fn parse_savepoint_identifier(text: &[char]) -> (result: Result<String, UserError>)
    ensures
        seen_text(result) == savepoint_name(text@),
{
    let name = trim_mark(trim_mark(trim_chars(text), '"'), '`');
    if name.len() == 0 {
        return Err(user_error("42601", "invalid savepoint name"));
    }
    let mut i: usize = 0;
    while i < name.len()
        invariant
            i <= name@.len(),
            name@.len() > 0,
            name@ == trim_of(trim_of(trim(text@), '"'), '`'),
            forall|k: int| 0 <= k < i ==> !is_space(#[trigger] name@[k]),
        decreases name@.len() - i,
    {
        if is_space_char(name[i]) {
            return Err(user_error("42601", "invalid savepoint name"));
        }
        i += 1;
    }
    Ok(string_of(name))
}

/// The session that a statement is to end.
pub open spec fn kill_target(query: Seq<char>) -> Option<int> {
    let found = words(trim_end_of(trim(query), ';'));
    if found.len() < 2 || lower(found[0]) != lower("kill"@) {
        None
    } else if lower(found[1]) == lower("connection"@) || lower(found[1]) == lower("query"@) {
        if found.len() < 3 {
            None
        } else {
            signed_number(found[2])
        }
    } else {
        signed_number(found[1])
    }
}

/// The session that a statement is to end.
pub fn parse_mysql_kill_target(query: &[char]) -> (target: Option<i32>)
    ensures
        match target {
            Some(n) => kill_target(query@) == Some(n as int),
            None => kill_target(query@) is None,
        },
{
    let found = words_of(trim_end_mark(trim_chars(query), ';'));
    let ghost all = words(trim_end_of(trim(query@), ';'));
    if found.len() < 2 {
        return None;
    }
    assert(all[0] == found@[0]@ && all[1] == found@[1]@);
    if !same_but_for_case(found[0].as_str(), "kill") {
        return None;
    }
    if same_but_for_case(found[1].as_str(), "connection") || same_but_for_case(
        found[1].as_str(),
        "query",
    ) {
        if found.len() < 3 {
            return None;
        }
        assert(all[2] == found@[2]@);
        let chars = chars_of(found[2].as_str());
        parse_signed(chars.as_slice())
    } else {
        let chars = chars_of(found[1].as_str());
        parse_signed(chars.as_slice())
    }
}

/// The sequence that a query takes the next value of.
pub open spec fn nextval_query(text: Seq<char>) -> Option<Seq<char>> {
    let small = lower(text);
    if begins(small, "select nextval('"@) && text.len() >= 18 && text[text.len() - 2] == '\''
        && text[text.len() - 1] == ')' {
        Some(text.subrange(16, text.len() - 2))
    } else {
        None
    }
}

/// The sequence that a query takes the next value of.
pub fn parse_nextval_query(text: &[char]) -> (sequence: Option<String>)
    ensures
        option_view(sequence) == nextval_query(text@),
{
    let small = lower_chars(text);
    let n: usize = text.len();
    if !begins_with(small.as_slice(), "select nextval('") || n < 18 {
        return None;
    }
    if text[n - 2] != '\'' || text[n - 1] != ')' {
        return None;
    }
    Some(string_of(part(text, 16, n - 2)))
}

/// How long a client is to wait for locks.
pub open spec fn lock_wait_seconds(text: Seq<char>) -> Result<CommandModel, Report> {
    let value = match behind_mark(text, '=') {
        Some(rest) => trim_of(trim_of(trim(rest), '\''), '"'),
        None => "50"@,
    };
    match unsigned_number(value, u64::MAX as nat) {
        Some(n) => Ok(CommandModel::LockWaitTimeout { seconds: n as u64 }),
        None => Err(report("42000"@, "innodb_lock_wait_timeout must be numeric"@)),
    }
}

fn read_lock_wait_seconds(text: &[char]) -> (result: Result<SessionCommand, UserError>)
    ensures
        crate::schema::seen(result) == lock_wait_seconds(text@),
{
    let number = match rest_behind_mark(text, '=') {
        Some(rest) => parse_unsigned(
            trim_mark(trim_mark(trim_chars(rest), '\''), '"'),
            u64::MAX,
        ),
        None => {
            let chars = chars_of("50");
            parse_unsigned(chars.as_slice(), u64::MAX)
        },
    };
    match number {
        Some(seconds) => Ok(SessionCommand::LockWaitTimeout { seconds }),
        None => Err(user_error("42000", "innodb_lock_wait_timeout must be numeric")),
    }
}

/// Whether a statement begins a transaction and says of what kind.
pub open spec fn begins_with_options(small: Seq<char>) -> bool {
    (begins(small, "begin "@) || begins(small, "start transaction "@)) && (contains_text(
        small,
        "isolation level"@,
    ) || contains_text(small, "read only"@) || contains_text(small, "read write"@)
        || contains_text(small, "consistent snapshot"@))
}

/// A transaction of the kind that a statement says.
pub open spec fn begin_command(small: Seq<char>) -> Result<CommandModel, Report> {
    let read_only = contains_text(small, "read only"@);
    if contains_text(small, "isolation level"@) {
        match isolation_named(small) {
            Some(isolation) => Ok(
                CommandModel::Begin { isolation: Some(isolation), read_only },
            ),
            None => Err(report("42601"@, "unsupported transaction isolation level"@)),
        }
    } else {
        Ok(CommandModel::Begin { isolation: None, read_only })
    }
}

fn read_begin_command(small: &str) -> (result: Result<SessionCommand, UserError>)
    ensures
        crate::schema::seen(result) == begin_command(small@),
{
    let chars = chars_of(small);
    let read_only = has_text(chars.as_slice(), "read only");
    if has_text(chars.as_slice(), "isolation level") {
        match parse_transaction_isolation(small) {
            Some(isolation) => Ok(SessionCommand::Begin { isolation: Some(isolation), read_only }),
            None => Err(user_error("42601", "unsupported transaction isolation level")),
        }
    } else {
        Ok(SessionCommand::Begin { isolation: None, read_only })
    }
}

/// The isolation that a statement sets.
pub open spec fn isolation_command(small: Seq<char>) -> Result<CommandModel, Report> {
    match isolation_named(small) {
        Some(isolation) => Ok(CommandModel::Isolation { isolation }),
        None => Err(report("42601"@, "unsupported transaction isolation level"@)),
    }
}

/// The search path that a statement sets: it has at least one schema.
pub open spec fn search_path_command(rest: Seq<char>) -> Result<CommandModel, Report> {
    let text = trim(rest);
    if search_path_of(text).len() == 0 {
        Err(report("42601"@, "SET search_path requires at least one schema"@))
    } else {
        Ok(CommandModel::SearchPath { text, schemas: search_path_of(text) })
    }
}

fn read_search_path_command(rest: &[char]) -> (result: Result<SessionCommand, UserError>)
    ensures
        crate::schema::seen(result) == search_path_command(rest@),
{
    let text = string_of(trim_chars(rest));
    let schemas = parse_search_path(text.as_str());
    if schemas.len() == 0 {
        return Err(user_error("42601", "SET search_path requires at least one schema"));
    }
    Ok(SessionCommand::SearchPath { text, schemas })
}

/// A command for which a name was read.
pub open spec fn named_command(
    name: Result<Seq<char>, Report>,
    make: spec_fn(Seq<char>) -> CommandModel,
) -> Result<Option<CommandModel>, Report> {
    match name {
        Err(e) => Err(e),
        Ok(text) => Ok(Some(make(text))),
    }
}

/// A command, where it was read.
pub open spec fn found_command(command: Result<CommandModel, Report>) -> Result<
    Option<CommandModel>,
    Report,
> {
    match command {
        Err(e) => Err(e),
        Ok(command) => Ok(Some(command)),
    }
}

/// The command of a statement about the session itself; none for any other statement.
pub open spec fn command_of(query: Seq<char>) -> Result<Option<CommandModel>, Report> {
    let text = bare_statement(query);
    let small = lower(text);
    if small == "begin"@ || small == "start transaction"@ {
        Ok(Some(CommandModel::Begin { isolation: None, read_only: false }))
    } else if small == "commit"@ || small == "end"@ {
        Ok(Some(CommandModel::Commit))
    } else if small == "rollback"@ {
        Ok(Some(CommandModel::Rollback))
    } else if autocommit_value(text) is Some {
        let value = autocommit_value(text)->0;
        Ok(
            Some(
                CommandModel::Autocommit {
                    enabled: !(value == "0"@ || lower(value) == lower("off"@)),
                },
            ),
        )
    } else if begins(small, "set innodb_lock_wait_timeout"@) || begins(
        small,
        "set session innodb_lock_wait_timeout"@,
    ) || begins(small, "set @@innodb_lock_wait_timeout"@) {
        found_command(lock_wait_seconds(text))
    } else if begins_with_options(small) {
        found_command(begin_command(small))
    } else if begins(small, "set transaction isolation level "@) || begins(
        small,
        "set session characteristics as transaction isolation level "@,
    ) || begins(small, "set default transaction isolation level "@) {
        found_command(isolation_command(small))
    } else if begins(small, "savepoint "@) {
        named_command(
            savepoint_name(text.skip(10)),
            |name: Seq<char>| CommandModel::Savepoint { name },
        )
    } else if begins(small, "rollback to savepoint "@) {
        named_command(
            savepoint_name(text.skip(22)),
            |name: Seq<char>| CommandModel::RollbackTo { name },
        )
    } else if begins(small, "rollback to "@) {
        named_command(
            savepoint_name(text.skip(12)),
            |name: Seq<char>| CommandModel::RollbackTo { name },
        )
    } else if begins(small, "release savepoint "@) {
        named_command(
            savepoint_name(text.skip(18)),
            |name: Seq<char>| CommandModel::Release { name },
        )
    } else if begins(small, "release "@) {
        named_command(
            savepoint_name(text.skip(8)),
            |name: Seq<char>| CommandModel::Release { name },
        )
    } else if kill_target(text) is Some {
        Ok(Some(CommandModel::Kill { target: kill_target(text)->0 as i32 }))
    } else if nextval_query(text) is Some {
        Ok(Some(CommandModel::NextValue { sequence: nextval_query(text)->0 }))
    } else if begins(small, "set search_path to "@) {
        found_command(search_path_command(text.skip(19)))
    } else if begins(small, "set search_path = "@) {
        found_command(search_path_command(text.skip(18)))
    } else {
        Ok(None)
    }
}

fn found(result: Result<SessionCommand, UserError>) -> (out: Result<
    Option<SessionCommand>,
    UserError,
>)
    ensures
        seen_option(out) == found_command(crate::schema::seen(result)),
{
    match result {
        Err(e) => Err(e),
        Ok(command) => Ok(Some(command)),
    }
}

/// The command of a statement about the session itself.
#[verifier::rlimit(60)]
#[verifier::spinoff_prover]
pub fn session_command(query: &str) -> (result: Result<Option<SessionCommand>, UserError>)
    ensures
        seen_option(result) == command_of(query@),
{
    proof {
        reveal_strlit("savepoint ");
        reveal_strlit("rollback to savepoint ");
        reveal_strlit("rollback to ");
        reveal_strlit("release savepoint ");
        reveal_strlit("release ");
        reveal_strlit("set search_path to ");
        reveal_strlit("set search_path = ");
        assert("savepoint "@.len() == 10);
        assert("rollback to savepoint "@.len() == 22);
        assert("rollback to "@.len() == 12);
        assert("release savepoint "@.len() == 18);
        assert("release "@.len() == 8);
        assert("set search_path to "@.len() == 19);
        assert("set search_path = "@.len() == 18);
    }
    let chars = chars_of(query);
    let text = bare_chars(chars.as_slice());
    let small_chars = lower_chars(text);
    let small = small_chars.as_slice();
    let small_text = string_of(small);
    if same_text(small_text.as_str(), "begin") || same_text(
        small_text.as_str(),
        "start transaction",
    ) {
        return Ok(Some(SessionCommand::Begin { isolation: None, read_only: false }));
    }
    if same_text(small_text.as_str(), "commit") || same_text(small_text.as_str(), "end") {
        return Ok(Some(SessionCommand::Commit));
    }
    if same_text(small_text.as_str(), "rollback") {
        return Ok(Some(SessionCommand::Rollback));
    }
    match parse_mysql_autocommit_assignment(text) {
        Some(value) => {
            let disabled = same_text(value.as_str(), "0") || same_but_for_case(
                value.as_str(),
                "off",
            );
            return Ok(Some(SessionCommand::Autocommit { enabled: !disabled }));
        },
        None => {},
    }
    if begins_with(small, "set innodb_lock_wait_timeout") || begins_with(
        small,
        "set session innodb_lock_wait_timeout",
    ) || begins_with(small, "set @@innodb_lock_wait_timeout") {
        return found(read_lock_wait_seconds(text));
    }
    if (begins_with(small, "begin ") || begins_with(small, "start transaction ")) && (has_text(
        small,
        "isolation level",
    ) || has_text(small, "read only") || has_text(small, "read write") || has_text(
        small,
        "consistent snapshot",
    )) {
        return found(read_begin_command(small_text.as_str()));
    }
    if begins_with(small, "set transaction isolation level ") || begins_with(
        small,
        "set session characteristics as transaction isolation level ",
    ) || begins_with(small, "set default transaction isolation level ") {
        return match parse_transaction_isolation(small_text.as_str()) {
            Some(isolation) => Ok(Some(SessionCommand::Isolation { isolation })),
            None => Err(user_error("42601", "unsupported transaction isolation level")),
        };
    }
    if begins_with(small, "savepoint ") {
        return match parse_savepoint_identifier(skipped(text, 10)) {
            Err(e) => Err(e),
            Ok(name) => Ok(Some(SessionCommand::Savepoint { name })),
        };
    }
    if begins_with(small, "rollback to savepoint ") {
        return match parse_savepoint_identifier(skipped(text, 22)) {
            Err(e) => Err(e),
            Ok(name) => Ok(Some(SessionCommand::RollbackTo { name })),
        };
    }
    if begins_with(small, "rollback to ") {
        return match parse_savepoint_identifier(skipped(text, 12)) {
            Err(e) => Err(e),
            Ok(name) => Ok(Some(SessionCommand::RollbackTo { name })),
        };
    }
    if begins_with(small, "release savepoint ") {
        return match parse_savepoint_identifier(skipped(text, 18)) {
            Err(e) => Err(e),
            Ok(name) => Ok(Some(SessionCommand::Release { name })),
        };
    }
    if begins_with(small, "release ") {
        return match parse_savepoint_identifier(skipped(text, 8)) {
            Err(e) => Err(e),
            Ok(name) => Ok(Some(SessionCommand::Release { name })),
        };
    }
    match parse_mysql_kill_target(text) {
        Some(target) => {
            return Ok(Some(SessionCommand::Kill { target }));
        },
        None => {},
    }
    match parse_nextval_query(text) {
        Some(sequence) => {
            return Ok(Some(SessionCommand::NextValue { sequence }));
        },
        None => {},
    }
    if begins_with(small, "set search_path to ") {
        return found(read_search_path_command(skipped(text, 19)));
    }
    if begins_with(small, "set search_path = ") {
        return found(read_search_path_command(skipped(text, 18)));
    }
    Ok(None)
}

/// A statement reads the same with semicolons behind it.
pub proof fn law_semicolons_do_not_matter(query: Seq<char>)
    requires
        query.len() == 0 || !is_space(query[0]),
        query.len() == 0 || !is_space(query.last()),
    ensures
        command_of(query + ";"@) == command_of(query),
{
    reveal_strlit(";");
    let more = query + ";"@;
    assert(more.last() == ';');
    assert(more.drop_last() =~= query);
    assert(!is_space(';'));
    if query.len() > 0 {
        assert(more[0] == query[0]);
    } else {
        assert(more[0] == ';');
    }
    assert(trim_start(more) == more);
    assert(trim(more) == more);
    assert(trim_start(query) == query);
    assert(trim(query) == query);
    assert(trim_end_of(more, ';') == trim_end_of(query, ';'));
}

} // verus!
