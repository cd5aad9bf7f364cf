//! Change-impact analysis for repositories that hold many services.
//!
//! Given the files of a repository and the paths that have changed, the
//! library tells which services must be built, and why. `discovery` finds
//! the services and what each depends on, `dependency` follows the changed
//! files to the services, `output` writes the result as text, and
//! `operation` puts the three together. Every function states what it
//! returns and is proved to meet it; what is taken on trust of other
//! crates is named where it is declared.

pub mod cli;
pub mod config;
pub mod dependency;
pub mod discovery;
pub mod files;
pub mod marker;
pub mod operation;
pub mod output;
pub mod path;
pub mod reach;
pub mod service;
pub mod text;
pub mod utils;
