use vstd::prelude::*;

use crate::models::todo::Todo;

verus! {

/// The error cases the library distinguishes.
///
/// An empty list is deliberately not an error: operations that need an
/// existing item report it through [`crate::data::todos::Outcome`] instead,
/// since "nothing to do" is a valid, displayable state rather than a caller
/// mistake.
#[derive(Clone, Copy, Debug, PartialEq, Eq, Structural)]
pub enum TodoError {
    /// The caller supplied index 0; indices are 1-based, so the first
    /// item is index 1. Kept distinct from the range error because 0 is a
    /// common off-by-one mistake that deserves its own message.
    IndexZero,
    /// The caller supplied an index beyond the valid bound. Carries the
    /// offending index and the current list length so the caller can
    /// report both.
    IndexOutOfRange { index: usize, length: usize },
    /// The stored text exists but cannot be parsed as a todo list.
    DataCorrupt,
    /// A read or write of the storage file failed.
    IoError,
    /// The home directory cannot be determined or the storage directory
    /// cannot be created.
    EnvironmentFatal,
}

/// The error for an index beyond the list's bound, carrying the length of
/// the given list.
pub fn invalid_number_with_length(index: usize, todos: &[Todo]) -> (e: TodoError)
    ensures
        e == (TodoError::IndexOutOfRange { index, length: todos@.len() as usize }),
{
    TodoError::IndexOutOfRange { index, length: todos.len() }
}

/// The error for index 0, which no item ever has.
pub fn invalid_number_zero() -> (e: TodoError)
    ensures
        e == TodoError::IndexZero,
{
    TodoError::IndexZero
}

} // verus!
