//! The storage layer of an agent: where its state lives, which statements read and
//! write it, and what becomes of the replies.
//!
//! Nothing here touches a disk. Each operation is a pair of functions: one says what
//! to run (a file to write, a statement for `agent.db`), the other turns what came
//! back into the operation's result. The database that the statements work on is
//! modelled by [`model::Database`], and the module [`laws`] states what the operations
//! promise together. What the texts of the statements come to as SQL stands in [`dialect`],
//! and [`sql_laws`] holds the statements to it; [`reading_laws`] states what is kept of
//! what was read.

pub mod backend;
pub mod chats;
pub mod dialect;
pub mod disk;
pub mod docs;
pub mod files;
pub mod flow_runs;
pub mod json;
pub mod laws;
pub mod listing;
pub mod migrate;
pub mod model;
pub mod paths;
pub mod reading_laws;
pub mod rows;
pub mod sql;
pub mod sql_laws;
