//! A registry of programs (scripts and projects) with a small query engine: each
//! field of a program has a byte encoding; filter expressions select programs by
//! equality, inequality and containment on those bytes; sort terms order them by a
//! composite key, stably.

/// Filter, sort and field tokens, and the options of each command.
pub mod args;
/// The registry with its file's place, and the commands that change it.
pub mod boil;
/// Byte strings: ASCII lowercase, containment, splitting, lexicographic order.
pub mod bytes;
/// The command line: its definition, built with clap, and clap's matches read into the
/// library's types.
pub mod cli;
/// Programs, their field encoding, and the name-keyed store.
pub mod config;
/// The registry's errors.
pub mod error;
/// Properties of filtering, encoding and sorting.
pub mod laws;
/// Filter evaluation, sort keys, stable sorting and the query pipeline.
pub mod table;
/// Character strings: equality, splitting, decimal numbers.
pub mod text;
