use vstd::prelude::*;

verus! {

/// Errors reported by the command-line tool around the library.
#[derive(Clone, Debug, PartialEq)]
pub enum Error {
    /// A project of that name exists already.
    ExistsAlready,
    /// No project of that name exists.
    DoesNotExist,
    /// A failure reported by something outside the tool, with its message.
    External(String),
}

} // verus!
