//! A small relational engine: a parser for `CREATE TABLE` and `SELECT`
//! statements, and an in-memory table store whose rows keep the shape of
//! their table's column declarations.
//!
//! - [`text`]: characters, classes of characters and runs of them.
//! - [`grammar`]: what a statement is, as functions on character sequences.
//! - [`query`]: the parser, proved to read every text as the grammar does.
//! - [`closing`]: a statement and the same statement closed with `;` are one.
//! - [`database`]: values, columns, tables and the registry of tables.
//! - [`error`]: the failures, and the slot that keeps the last of them.
//!
//! The parser and the store do not know each other: a parsed `CREATE TABLE`
//! carries a table that is ready to be registered, and a parsed `SELECT`
//! carries what a caller needs to project a table.

pub mod closing;
pub mod database;
pub mod error;
pub mod grammar;
pub mod query;
pub mod text;
