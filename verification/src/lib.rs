//! A verified core for a SQL migration tool: a tagged-SQL-file parser that
//! splits a text file into named, content-hashed groups of statements, and a
//! migration-ledger protocol that applies pending groups exactly once and
//! detects drift between current file contents and what was applied.

pub mod database;
pub mod error;
pub mod hash;
pub mod migrations;
pub mod migrations_table;
pub mod osprey;
pub mod sql_file;
pub mod tag_map;
pub mod text;
