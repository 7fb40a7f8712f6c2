//! A synthetic storage backend: one table of text keys and text values, kept
//! in memory, behind the calls by which a database engine attaches a catalog,
//! scans a table and writes to it in transactions.
//!
//! The backend is a state, [`state::KvState`], and the calls of
//! [`guest::Component`] on it. Every call that may be refused says with which
//! error, and when; every call that may change the state says what the state
//! is afterwards.
//!
//! * [`types`]: the values that cross the host boundary.
//! * [`text`]: decimal numbers for messages, and the order of text.
//! * [`checks`]: what is served, and the refusals of what is not.
//! * [`rows`]: the rows of the table.
//! * [`state`]: committed rows, open transaction and open scans.
//! * [`filter`]: pushed-down filters.
//! * [`guest`]: loading, and the callbacks that are not offered.
//! * [`reading`]: attaching, describing and scanning.
//! * [`writing`]: transactions, and changes to the rows.
//! * [`answers`], [`effects`]: what each call answers and does, in plain terms.
//! * [`history`], [`laws`]: what holds over several calls.

pub mod answers;
pub mod checks;
pub mod effects;
pub mod filter;
pub mod guest;
pub mod history;
pub mod laws;
pub mod reading;
pub mod rows;
pub mod state;
pub mod text;
pub mod types;
pub mod writing;
