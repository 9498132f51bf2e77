//! The gateway: sessions, locks, planning and execution of statements.
pub mod locks;
pub mod lock_table;
pub mod plan;
pub mod rows;
pub mod gateway;
pub mod lock_plan;
pub mod lock_laws;
pub mod alter;
pub mod sequences;
pub mod exec;
pub mod exec_laws;
pub mod insert_run;
pub mod insert_laws;
pub mod row_flow;
pub mod rule_laws;
pub mod table_flow;
pub mod table_laws;
pub mod row_work;
pub mod exec_rows;
pub mod answer_laws;
pub mod rename;
pub mod ast;
pub mod ddl_columns;
pub mod alter_laws;
pub mod ddl_tables;
pub mod ddl_laws;
pub mod ddl_plan;
pub mod literals;
pub mod explain;
pub mod conflict;
pub mod dml_select;
pub mod access_laws;
pub mod dml_insert;
pub mod statements;
pub mod statement_laws;
pub mod placeholders;
pub mod prepared;
pub mod session;
pub mod session_laws;
pub mod commands;
pub mod query_flow;
pub mod copy_text;
pub mod load_data;
pub mod copy;
pub mod copy_laws;
pub mod spoofed;
pub mod mysql_metadata;
pub mod scans;
pub mod qualify;
pub mod slow_path;
pub mod read_laws;
pub mod request_laws;
pub mod service_laws;
pub mod olap;
pub mod startup;
pub mod mutate;
pub mod update_laws;
pub mod query_run;
pub mod command_steps;
