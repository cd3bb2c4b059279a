//! A small line-oriented text search: the lines of a text that hold a query,
//! with or without regard to letter case.
//!
//! [`search`] and [`search_case_insensitive`] are the search itself. [`Config`]
//! and [`run`] are what a program around it needs: they take what the program
//! has read, its arguments, its environment and the file, as plain values, and
//! say what it is to write.

pub mod config;
pub mod encoding;
pub mod error;
pub mod lines;
pub mod lowercase;
pub mod pattern;
pub mod run;
pub mod search;

pub use config::Config;
pub use error::{GrepError, ReadFailure};
pub use pattern::contains;
pub use run::run;
pub use search::{search, search_case_insensitive};
