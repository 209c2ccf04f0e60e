use vstd::prelude::*;

verus! {

/// What can go wrong in the registry's own logic.
#[derive(Debug, Clone, PartialEq, Eq)]
pub enum BoilError {
    /// No place for the configuration file could be found or made.
    ConfigCreate,
    /// The path that a new program would take is already there.
    PathExists(String),
    /// The path cannot be registered as a program.
    InvalidPath(String),
    /// A program of this name is already registered.
    NameExists(String),
    /// No program of this name is registered.
    NotFound(String),
    /// A token of the field list names no field.
    ListFormat(String),
    /// A token of the sort list names no field.
    SortFormat(String),
    /// A configuration file is already at this place.
    ConfigExists(String),
    /// There is no configuration file yet.
    NeedInit,
}

} // verus!
