//! Data-layer core of a personal-finance ledger.
//!
//! Accounts, hierarchical categories and transactions live in three tables
//! of a storage engine with foreign keys. This crate defines their rows, the
//! effect of every operation of the data layer on the tables, and the
//! procedure that deletes a category without leaving a child category or a
//! transaction pointing at a missing row.
//!
//! * [`records`]: the rows and their mathematical views.
//! * [`store`]: the tables, their integrity, and a ledger held in memory.
//! * [`accounts`], [`categories`], [`transactions`]: the operations of the
//!   data layer, each with its effect on the tables.
//! * [`database`]: setting up a ledger with its "Uncategorized" category.
//! * [`engine`]: the commands that a deletion sends to the storage engine,
//!   what an engine does on each, and an engine in memory.
//! * [`deletion`]: the deletion of a category as a plan, which names one
//!   command at a time and takes the engine's reply.
//! * [`laws`]: what a deletion guarantees, proved for every ledger.
//! * [`migrations`]: which schema changes are still to run.
//! * [`error`]: the failures.
//!
//! The storage engine on disk stays outside: a caller that holds one sends
//! it the plan's commands and hands the replies back.

pub mod accounts;
pub mod categories;
pub mod database;
pub mod deletion;
pub mod engine;
pub mod error;
pub mod laws;
pub mod migrations;
pub mod records;
pub mod store;
pub mod transactions;
