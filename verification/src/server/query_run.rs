//! Running the statements of a query one after another.
use vstd::prelude::*;

use crate::error::{unsupported, unsupported_report, Report, UserError};
use crate::mode::GatewayMode;
use crate::response::{empty_query_response, empty_response, Response, ResponseModel};
use crate::schema::{option_view, views};
use crate::server::query_flow::{
    defines, handle_transaction_statement, is_implicit, is_mysql_ddl_implicit_commit_statement,
    needs_implicit_transaction, transaction_action, StatementKind, TransactionAction,
};

verus! {

/// A statement, as far as it is handled before all others are.
#[derive(Clone, Copy, Debug, PartialEq, Eq, Structural)]
pub enum EntryStatement {
    /// Data for a table, which may stand in the statement itself.
    CopyIn { has_values: bool },
    Prepare,
    Deallocate,
    Execute,
    Other,
}

/// How the statements of a query are handled.
#[derive(Clone, Copy, Debug, PartialEq, Eq, Structural)]
pub enum EntryStep {
    /// Take data for a table.
    Copy,
    /// Keep a statement for later.
    Prepare,
    /// Forget a statement.
    Deallocate,
    /// Put a kept statement in the place of this one, and run it.
    Execute,
    /// Run the statements.
    Run,
}

/// How the statements of a query are handled: one by itself may be about data or about kept
/// statements.
pub open spec fn entry(statements: Seq<EntryStatement>) -> Result<EntryStep, Report> {
    if statements.len() != 1 {
        Ok(EntryStep::Run)
    } else {
        match statements[0] {
            EntryStatement::CopyIn { has_values } => if has_values {
                Err(unsupported_report("COPY FROM STDIN VALUES is not supported yet"@))
            } else {
                Ok(EntryStep::Copy)
            },
            EntryStatement::Prepare => Ok(EntryStep::Prepare),
            EntryStatement::Deallocate => Ok(EntryStep::Deallocate),
            EntryStatement::Execute => Ok(EntryStep::Execute),
            EntryStatement::Other => Ok(EntryStep::Run),
        }
    }
}

/// How the statements of a query are handled.
pub fn entry_step(statements: &Vec<EntryStatement>) -> (result: Result<EntryStep, UserError>)
    ensures
        (match result {
            Ok(step) => Ok(step),
            Err(e) => Err(e@),
        }) == entry(statements@),
{
    if statements.len() != 1 {
        return Ok(EntryStep::Run);
    }
    match statements[0] {
        EntryStatement::CopyIn { has_values } => {
            if has_values {
                Err(unsupported("COPY FROM STDIN VALUES is not supported yet"))
            } else {
                Ok(EntryStep::Copy)
            }
        },
        EntryStatement::Prepare => Ok(EntryStep::Prepare),
        EntryStatement::Deallocate => Ok(EntryStep::Deallocate),
        EntryStatement::Execute => Ok(EntryStep::Execute),
        EntryStatement::Other => Ok(EntryStep::Run),
    }
}

/// What comes next in a run.
#[derive(Clone, Copy, Debug, PartialEq, Eq, Structural)]
pub enum RunStep {
    /// The statement with this number.
    Statement { number: usize },
    /// The transaction that the statements made is committed.
    Commit,
    /// The client is answered.
    Done,
}

/// What is done with a statement before it is planned.
#[derive(Debug)]
pub struct StatementStep {
    /// Whether the transaction of the session is committed first.
    pub commit_first: bool,
    /// What a statement about transactions asks for; any other is planned.
    pub transaction: Option<TransactionAction>,
}

/// The statements of a query, and how far they were run.
#[derive(Debug)]
pub struct QueryRun {
    pub mode: GatewayMode,
    pub kinds: Vec<StatementKind>,
    pub at: usize,
    pub implicit: bool,
    pub responses: Vec<Response>,
}

/// What a [`QueryRun`] says.
pub struct RunModel {
    pub mode: GatewayMode,
    pub kinds: Seq<StatementKind>,
    pub at: nat,
    pub implicit: bool,
    pub responses: Seq<ResponseModel>,
}

impl View for QueryRun {
    type V = RunModel;

    open spec fn view(&self) -> RunModel {
        RunModel {
            mode: self.mode,
            kinds: self.kinds@,
            at: self.at as nat,
            implicit: self.implicit,
            responses: views(self.responses@),
        }
    }
}

/// Whether a run has an answer for each of the statements that it ran.
pub open spec fn answers_each(run: RunModel) -> bool {
    run.at <= run.kinds.len() && run.responses.len() == run.at
}

/// A run at its start.
pub open spec fn run_started(
    mode: GatewayMode,
    kinds: Seq<StatementKind>,
    in_transaction: bool,
) -> RunModel {
    RunModel {
        mode,
        kinds,
        at: 0,
        implicit: is_implicit(kinds, in_transaction),
        responses: seq![],
    }
}

/// What comes next in a run.
pub open spec fn run_next(run: RunModel) -> RunStep {
    if run.at < run.kinds.len() {
        RunStep::Statement { number: run.at as usize }
    } else if run.implicit {
        RunStep::Commit
    } else {
        RunStep::Done
    }
}

/// A run in which the next statement was answered.
pub open spec fn answered(run: RunModel, response: ResponseModel) -> RunModel {
    RunModel { at: run.at + 1, responses: run.responses.push(response), ..run }
}

/// The answer of a run: that of each statement, or that of an empty query.
pub open spec fn run_answer(run: RunModel) -> Seq<ResponseModel> {
    if run.responses.len() == 0 {
        seq![empty_response()]
    } else {
        run.responses
    }
}

/// Whether a statement commits what came before it.
pub open spec fn commits_by_itself(mode: GatewayMode, kind: StatementKind) -> bool {
    mode == GatewayMode::MySql && defines(kind)
}

/// A run has an answer for each statement that it ran, from its start and through every answer.
pub proof fn law_every_statement_is_answered(
    mode: GatewayMode,
    kinds: Seq<StatementKind>,
    in_transaction: bool,
    run: RunModel,
    response: ResponseModel,
)
    requires
        answers_each(run),
        run_next(run) is Statement,
    ensures
        answers_each(run_started(mode, kinds, in_transaction)),
        answers_each(answered(run, response)),
{
}

/// A run that is done has one answer for each of its statements, and one for none.
pub proof fn law_answers_are_complete(run: RunModel)
    requires
        answers_each(run),
        run_next(run) !is Statement,
    ensures
        run_answer(run).len() == (if run.kinds.len() == 0 {
            1
        } else {
            run.kinds.len()
        }),
{
}

impl QueryRun {
    /// A run of statements at its start. Those that make a transaction of their own begin one.
    pub fn start(mode: GatewayMode, kinds: Vec<StatementKind>, in_transaction: bool) -> (run: QueryRun)
        ensures
            run@ == run_started(mode, kinds@, in_transaction),
    {
        let implicit = needs_implicit_transaction(&kinds, in_transaction);
        let run = QueryRun { mode, kinds, at: 0, implicit, responses: Vec::new() };
        assert(run@.responses =~= Seq::<ResponseModel>::empty());
        run
    }

    /// What comes next.
    pub fn next_step(&self) -> (step: RunStep)
        ensures
            step == run_next(self@),
    {
        if self.at < self.kinds.len() {
            RunStep::Statement { number: self.at }
        } else if self.implicit {
            RunStep::Commit
        } else {
            RunStep::Done
        }
    }

    /// What is done with the next statement before it is planned, in a session that has a
    /// transaction or not.
    pub fn statement_step(&self, active: bool) -> (step: StatementStep)
        requires
            run_next(self@) is Statement,
        ensures
            step.commit_first == (commits_by_itself(self@.mode, self@.kinds[self@.at as int])
                && active),
            option_view(step.transaction) == transaction_action(self@.kinds[self@.at as int]),
    {
        let kind = &self.kinds[self.at];
        StatementStep {
            commit_first: self.mode == GatewayMode::MySql
                && is_mysql_ddl_implicit_commit_statement(kind) && active,
            transaction: handle_transaction_statement(kind),
        }
    }

    /// Takes the answer to a statement about transactions.
    pub fn answer(&mut self, response: Response)
        requires
            run_next(old(self)@) is Statement,
        ensures
            final(self)@ == answered(old(self)@, response@),
    {
        let ghost before = self@.responses;
        let ghost added = response@;
        self.responses.push(response);
        assert(self@.responses =~= before.push(added));
        let end: usize = self.kinds.len();
        assert(self.at < end);
        self.at += 1;
    }

    /// Takes the outcome of a statement that was run; says whether a session that waits for
    /// commits is to begin another transaction.
    pub fn executed(&mut self, outcome: Result<Response, UserError>) -> (result: Result<
        bool,
        UserError,
    >)
        requires
            run_next(old(self)@) is Statement,
        ensures
            match outcome {
                Ok(response) => final(self)@ == answered(old(self)@, response@) && result == Ok::<
                    bool,
                    UserError,
                >(
                    commits_by_itself(
                        old(self)@.mode,
                        old(self)@.kinds[old(self)@.at as int],
                    ),
                ),
                Err(e) => final(self)@ == old(self)@ && result == Err::<bool, UserError>(e),
            },
    {
        match outcome {
            Err(e) => Err(e),
            Ok(response) => {
                let commits = self.mode == GatewayMode::MySql
                    && is_mysql_ddl_implicit_commit_statement(&self.kinds[self.at]);
                self.answer(response);
                Ok(commits)
            },
        }
    }

    /// The answer to the client.
    pub fn finish(self) -> (responses: Vec<Response>)
        ensures
            views(responses@) == run_answer(self@),
    {
        let mut responses = self.responses;
        if responses.len() == 0 {
            responses.push(empty_query_response());
            assert(views(responses@) =~= seq![empty_response()]);
        }
        responses
    }
}

} // verus!
