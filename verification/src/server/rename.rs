//! Giving an index another name: a new index is made, then the old one goes with its entries.
use vstd::prelude::*;

use crate::catalog::model::{bootstrapped, index_dropped, law_bootstrap_is_stable, scope_found};
use crate::catalog::types::IndexModel;
use crate::error::{not_internal, user_error_text, Report, UserError};
use crate::mem_store::{Contents, KvStore};
use crate::schema::seen_option;
use crate::server::exec::{ActionModel, StorageAction};
use crate::server::exec_rows::index_to_rename;
use crate::server::gateway::GatewayServer;
use crate::server::plan::{IndexPlan, IndexPlanModel};
use crate::text::three_texts;

verus! {

/// How far the renaming of an index has come.
#[derive(Clone, Copy, Debug, PartialEq, Eq, Structural)]
pub enum RenameStage {
    /// The new index is to be made.
    Making,
    /// The old index is to go.
    Dropping,
    Done,
}

/// An index that is being renamed, and its table.
#[derive(Debug)]
pub struct IndexRename {
    pub database_name: String,
    pub schema_name: String,
    pub table_name: String,
    pub table_id: u32,
    pub old_name: String,
    pub new_name: String,
    pub stage: RenameStage,
}

/// What an [`IndexRename`] says.
pub struct RenameModel {
    pub database_name: Seq<char>,
    pub schema_name: Seq<char>,
    pub table_name: Seq<char>,
    pub table_id: u32,
    pub old_name: Seq<char>,
    pub new_name: Seq<char>,
    pub stage: RenameStage,
}

impl View for IndexRename {
    type V = RenameModel;

    open spec fn view(&self) -> RenameModel {
        RenameModel {
            database_name: self.database_name@,
            schema_name: self.schema_name@,
            table_name: self.table_name@,
            table_id: self.table_id,
            old_name: self.old_name@,
            new_name: self.new_name@,
            stage: self.stage,
        }
    }
}

/// The work that makes an index like another under a new name; there may be none of that name.
pub open spec fn made_anew(rename: RenameModel, index: IndexModel) -> ActionModel {
    ActionModel::CreateIndex {
        database_name: rename.database_name,
        schema_name: rename.schema_name,
        table_name: rename.table_name,
        index: IndexPlanModel {
            index_name: rename.new_name,
            column_names: index.column_names,
            unique: index.unique,
        },
        if_not_exists: false,
    }
}

/// The next work of a renaming, what the catalog is like then, and how far it has come. The old
/// index goes from the catalog before its entries do; where it is not there under its very name,
/// nothing is left to be done.
pub open spec fn rename_advanced(contents: Contents, rename: RenameModel) -> (
    Result<Option<ActionModel>, Report>,
    Contents,
    RenameStage,
) {
    match rename.stage {
        RenameStage::Making => match index_to_rename(
            contents,
            rename.table_id,
            rename.old_name,
        ) {
            Err(e) => (Err(e), contents, RenameStage::Making),
            Ok(index) => (Ok(Some(made_anew(rename, index))), contents, RenameStage::Dropping),
        },
        RenameStage::Dropping => match scope_found(
            contents,
            rename.database_name,
            rename.schema_name,
        ) {
            Err(e) => (Err(e), contents, RenameStage::Dropping),
            Ok((database, schema)) => {
                let (dropped, after) = index_dropped(
                    contents,
                    database.database_id,
                    schema.schema_id,
                    rename.old_name,
                );
                match dropped {
                    Err(e) => (Err(e), after, RenameStage::Dropping),
                    Ok(None) => (Ok(None), after, RenameStage::Done),
                    Ok(Some(index)) => (
                        Ok(Some(ActionModel::ClearIndex { index_id: index.index_id })),
                        after,
                        RenameStage::Done,
                    ),
                }
            },
        },
        RenameStage::Done => (Ok(None), contents, RenameStage::Done),
    }
}

/// A renaming asks for its work in order: the new index first, at most one step after it, then
/// nothing.
pub proof fn law_renaming_comes_to_an_end(contents: Contents, later: Contents, rename: RenameModel)
    requires
        rename.stage == RenameStage::Making,
        rename_advanced(contents, rename).0 is Ok,
        rename_advanced(
            later,
            RenameModel { stage: rename_advanced(contents, rename).2, ..rename },
        ).0 is Ok,
    ensures
        ({
            let first = rename_advanced(contents, rename);
            let second = rename_advanced(later, RenameModel { stage: first.2, ..rename });
            &&& first.0->Ok_0 matches Some(ActionModel::CreateIndex { .. })
            &&& first.1 == contents
            &&& second.0->Ok_0 matches Some(action) ==> action is ClearIndex
            &&& second.2 == RenameStage::Done
        }),
{
}

impl<S: KvStore> GatewayServer<S> {
    /// The next work of a renaming; none where all is done.
    pub fn next_rename_action(&mut self, rename: &mut IndexRename) -> (result: Result<
        Option<StorageAction>,
        UserError,
    >)
        ensures
            final(self).reliable() == old(self).reliable(),
            final(self).same_sessions(old(self)),
            final(rename)@ == (RenameModel { stage: final(rename).stage, ..old(rename)@ }),
            result is Err ==> final(rename).stage == old(rename).stage,
            old(rename).stage == RenameStage::Done ==> result == Ok::<
                Option<StorageAction>,
                UserError,
            >(None) && final(self).contents() == old(self).contents() && final(rename).stage
                == RenameStage::Done,
            not_internal(result) || old(self).reliable() ==> ({
                let found = rename_advanced(bootstrapped(old(self).contents()), old(rename)@);
                &&& seen_option(result) == found.0
                &&& bootstrapped(final(self).contents()) == bootstrapped(found.1)
                &&& final(rename).stage == found.2
            }),
    {
        proof {
            law_bootstrap_is_stable(self.contents());
        }
        match rename.stage {
            RenameStage::Making => {
                let index = match self.find_index_to_rename(
                    rename.table_id,
                    rename.old_name.as_str(),
                ) {
                    Err(e) => {
                        return Err(e);
                    },
                    Ok(index) => index,
                };
                rename.stage = RenameStage::Dropping;
                Ok(
                    Some(
                        StorageAction::CreateIndex {
                            database_name: rename.database_name.clone(),
                            schema_name: rename.schema_name.clone(),
                            table_name: rename.table_name.clone(),
                            index: IndexPlan {
                                index_name: rename.new_name.clone(),
                                column_names: index.column_names,
                                unique: index.unique,
                            },
                            if_not_exists: false,
                        },
                    ),
                )
            },
            RenameStage::Dropping => {
                let database = match self.catalog.get_database(rename.database_name.as_str()) {
                    Err(e) => {
                        return Err(e);
                    },
                    Ok(None) => {
                        return Err(
                            user_error_text(
                                "3D000",
                                three_texts(
                                    "database '",
                                    rename.database_name.as_str(),
                                    "' does not exist",
                                ),
                            ),
                        );
                    },
                    Ok(Some(database)) => database,
                };
                let schema = match self.catalog.get_schema(
                    database.database_id,
                    rename.schema_name.as_str(),
                ) {
                    Err(e) => {
                        return Err(e);
                    },
                    Ok(None) => {
                        return Err(
                            user_error_text(
                                "3F000",
                                three_texts(
                                    "schema '",
                                    rename.schema_name.as_str(),
                                    "' does not exist",
                                ),
                            ),
                        );
                    },
                    Ok(Some(schema)) => schema,
                };
                let dropped = match self.catalog.drop_index(
                    database.database_id,
                    schema.schema_id,
                    rename.old_name.as_str(),
                ) {
                    Err(e) => {
                        return Err(e);
                    },
                    Ok(dropped) => dropped,
                };
                rename.stage = RenameStage::Done;
                match dropped {
                    None => Ok(None),
                    Some(index) => Ok(Some(StorageAction::ClearIndex { index_id: index.index_id })),
                }
            },
            RenameStage::Done => Ok(None),
        }
    }
}

} // verus!
