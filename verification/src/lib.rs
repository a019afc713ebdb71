//! A book of personal expenses, kept in a text file: one line for each
//! expense, with its time, category, amount, description and tags.
//!
//! The library writes and reads the lines, holds the expenses of a file in
//! their order, and finds those that answer a query. It opens no file and
//! does no arithmetic on amounts: its caller reads and writes the file, and
//! turns numbers into text and text into numbers.
//!
//! - [`record`] says what a line holds, and [`round_trip`] that what is
//!   written can be read again.
//! - [`expense`] has the expenses and the list of them; [`query`] says which
//!   expenses answer a query.
//! - [`amount`], [`timestamp`] and [`text`] are what an expense is made of.
//! - [`path`], [`args_parser`], [`stdin_utils`], [`utils`] and [`category`]
//!   decide what the program around the library does with its arguments and
//!   with what its user types.
pub mod amount;
pub mod args_parser;
pub mod category;
pub mod config;
pub mod error;
pub mod expense;
pub mod path;
pub mod query;
pub mod record;
pub mod round_trip;
pub mod stdin_utils;
pub mod text;
pub mod timestamp;
pub mod utils;
