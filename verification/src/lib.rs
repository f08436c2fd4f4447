//! The core of a volume mixer for per-application audio streams.
//!
//! The audio server is driven through its command-line control tool, the
//! collaborator. This crate holds everything that can be decided without
//! running it: how its listing is read, how the registry of tracked streams
//! follows successive listings, and which commands push edits back, in which
//! order. Running the commands is left to the caller, who hands in what they
//! wrote and how they ended.
//!
//! - `listing` reads the collaborator's listing into stream records.
//! - `source` holds the registry: entries, lookup, refresh and flush.
//! - `command` has the commands, their command lines and their outcomes.
//! - `cli` and `gui` decide what the command line and the interactive mixer
//!   ask of the registry.
//! - `laws` states what every refresh and every flush keeps to.
//! - `text`, `number` and `pattern` are what the parser is built from.
//! - `error` names what can go wrong.

pub mod cli;
pub mod command;
pub mod error;
pub mod gui;
pub mod laws;
pub mod listing;
pub mod number;
pub mod pattern;
pub mod source;
pub mod text;
