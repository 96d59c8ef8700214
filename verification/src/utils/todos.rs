use vstd::prelude::*;

use crate::errors::{self, TodoError};
use crate::models::todo::Todo;
use crate::utils::text::dec_rep;

verus! {

/// A decimal rendering of `index` with one leading space when the list
/// has two-digit length but the index has one digit, so columns line up.
pub fn pad_index(index: usize, length: usize) -> (s: String)
    ensures
        length >= 10 && index < 10 ==> s@ == seq![' '] + dec_rep(index as nat),
        !(length >= 10 && index < 10) ==> s@ == dec_rep(index as nat),
{
    let need_padding = length >= 10 && index < 10;
    crate::utils::format_index(index, need_padding)
}

/// Checks a 1-based index against the current list: index 0 is always
/// rejected, and the index must name an existing item.
pub fn validate_index(index: usize, todos: &[Todo]) -> (r: Result<(), TodoError>)
    ensures
        r is Ok <==> 1 <= index <= todos@.len(),
        index == 0 ==> r == Result::<(), TodoError>::Err(TodoError::IndexZero),
        index > todos@.len() ==> r == Result::<(), TodoError>::Err(
            TodoError::IndexOutOfRange { index, length: todos@.len() as usize },
        ),
{
    if index == 0 {
        return Err(errors::invalid_number_zero());
    }
    if index > todos.len() {
        return Err(errors::invalid_number_with_length(index, todos));
    }
    Ok(())
}

/// Checks a 1-based index for insertion: as [`validate_index`], but the
/// upper bound is relaxed by one, so that inserting just past the last
/// item (an append) is allowed.
pub fn validate_index_on_add(index: usize, todos: &[Todo]) -> (r: Result<(), TodoError>)
    ensures
        r is Ok <==> 1 <= index <= todos@.len() + 1,
        index == 0 ==> r == Result::<(), TodoError>::Err(TodoError::IndexZero),
        index > todos@.len() + 1 ==> r == Result::<(), TodoError>::Err(
            TodoError::IndexOutOfRange { index, length: todos@.len() as usize },
        ),
{
    if index == 0 {
        return Err(errors::invalid_number_zero());
    }
    if index - 1 > todos.len() {
        return Err(errors::invalid_number_with_length(index, todos));
    }
    Ok(())
}

} // verus!
