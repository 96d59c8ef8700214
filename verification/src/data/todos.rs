use vstd::prelude::*;

use crate::errors::TodoError;
use crate::models::todo::{Todo, TodoView};
use crate::utils::todos::{validate_index, validate_index_on_add};

verus! {

/// What an operation that needs at least one item reports: either the
/// list was empty, a valid and displayable state in which there is
/// nothing to do, or the operation ran and produced its result.
#[derive(Debug)]
pub enum Outcome<T> {
    /// The list has no items, so the operation did not run.
    EmptyList,
    /// The operation ran; the payload is what the caller shows.
    Done(T),
}

/// Inserts a new, not yet done, item holding `text`.
///
/// With an index (1-based), the item is inserted at that position, where
/// length + 1 means append; without one it is appended. Returns the
/// 1-based position at which the item now stands. On a bad index the
/// list is unchanged.
pub fn add(todos: &mut Vec<Todo>, text: &str, index: Option<usize>) -> (r: Result<
    usize,
    TodoError,
>)
    ensures
        match r {
            Ok(pos) => {
                &&& match index {
                    Some(i) => 1 <= i <= old(todos)@.len() + 1 && pos == i,
                    None => pos == old(todos)@.len() + 1,
                }
                &&& final(todos).deep_view() == old(todos).deep_view().insert(
                    pos - 1,
                    (TodoView { text: text@, done: false }),
                )
            },
            Err(e) => {
                &&& *final(todos) == *old(todos)
                &&& index is Some
                &&& (index->0 == 0 || index->0 > old(todos)@.len() + 1)
                &&& (index->0 == 0 ==> e == TodoError::IndexZero)
                &&& (index->0 > old(todos)@.len() + 1 ==> e == (TodoError::IndexOutOfRange {
                    index: index->0,
                    length: old(todos)@.len() as usize,
                }))
            },
        },
{
    let new_todo = Todo::new(text.to_owned());
    match index {
        Some(idx) => {
            match validate_index_on_add(idx, todos.as_slice()) {
                Ok(()) => {
                    todos.insert(idx - 1, new_todo);
                    proof {
                        assert(todos.deep_view() =~~= old(todos).deep_view().insert(
                            idx - 1,
                            (TodoView { text: text@, done: false }),
                        ));
                    }
                    Ok(idx)
                },
                Err(e) => Err(e),
            }
        },
        None => {
            todos.push(new_todo);
            let pos = todos.len();
            proof {
                assert(todos.deep_view() =~~= old(todos).deep_view().insert(
                    old(todos)@.len() as int,
                    (TodoView { text: text@, done: false }),
                ));
            }
            Ok(pos)
        },
    }
}

/// Removes the item at the 1-based `index` and returns it; all later
/// items move up one position. An empty list reports [`Outcome::EmptyList`];
/// on a bad index the list is unchanged.
pub fn remove(todos: &mut Vec<Todo>, index: usize) -> (r: Result<Outcome<Todo>, TodoError>)
    ensures
        match r {
            Ok(Outcome::EmptyList) => old(todos)@.len() == 0 && *final(todos) == *old(todos),
            Ok(Outcome::Done(t)) => {
                &&& old(todos)@.len() > 0
                &&& 1 <= index <= old(todos)@.len()
                &&& t@ == old(todos).deep_view()[index - 1]
                &&& final(todos).deep_view() == old(todos).deep_view().remove(index - 1)
            },
            Err(e) => {
                &&& *final(todos) == *old(todos)
                &&& old(todos)@.len() > 0
                &&& (index == 0 || index > old(todos)@.len())
                &&& (index == 0 ==> e == TodoError::IndexZero)
                &&& (index > old(todos)@.len() ==> e == (TodoError::IndexOutOfRange {
                    index,
                    length: old(todos)@.len() as usize,
                }))
            },
        },
{
    if todos.len() == 0 {
        return Ok(Outcome::EmptyList);
    }
    match validate_index(index, todos.as_slice()) {
        Ok(()) => {
            let t = todos.remove(index - 1);
            proof {
                assert(todos.deep_view() =~~= old(todos).deep_view().remove(index - 1));
            }
            Ok(Outcome::Done(t))
        },
        Err(e) => Err(e),
    }
}

/// The list with the done-flag of the item at `i` flipped, its text and
/// every other item untouched.
pub open spec fn toggled(l: Seq<TodoView>, i: int) -> Seq<TodoView> {
    l.update(i, TodoView { text: l[i].text, done: !l[i].done })
}

/// LAW: toggling the same item twice restores the original list.
pub proof fn lemma_toggle_involutive(l: Seq<TodoView>, i: int)
    requires
        0 <= i < l.len(),
    ensures
        toggled(toggled(l, i), i) == l,
{
    assert(toggled(toggled(l, i), i) =~~= l);
}

/// Flips the completion flag of the item at the 1-based `index` and
/// returns the new flag. An empty list reports [`Outcome::EmptyList`]; on
/// a bad index the list is unchanged.
pub fn toggle(todos: &mut Vec<Todo>, index: usize) -> (r: Result<Outcome<bool>, TodoError>)
    ensures
        match r {
            Ok(Outcome::EmptyList) => old(todos)@.len() == 0 && *final(todos) == *old(todos),
            Ok(Outcome::Done(now_done)) => {
                &&& old(todos)@.len() > 0
                &&& 1 <= index <= old(todos)@.len()
                &&& now_done == !old(todos).deep_view()[index - 1].done
                &&& final(todos).deep_view() == toggled(old(todos).deep_view(), index - 1)
            },
            Err(e) => {
                &&& *final(todos) == *old(todos)
                &&& old(todos)@.len() > 0
                &&& (index == 0 || index > old(todos)@.len())
                &&& (index == 0 ==> e == TodoError::IndexZero)
                &&& (index > old(todos)@.len() ==> e == (TodoError::IndexOutOfRange {
                    index,
                    length: old(todos)@.len() as usize,
                }))
            },
        },
{
    if todos.len() == 0 {
        return Ok(Outcome::EmptyList);
    }
    match validate_index(index, todos.as_slice()) {
        Ok(()) => {
            let t = todos.remove(index - 1);
            let now_done = !t.done;
            todos.insert(index - 1, Todo { text: t.text, done: now_done });
            proof {
                assert(todos.deep_view() =~~= old(todos).deep_view().update(
                    index - 1,
                    (TodoView {
                        text: old(todos).deep_view()[index - 1].text,
                        done: now_done,
                    }),
                ));
            }
            Ok(Outcome::Done(now_done))
        },
        Err(e) => Err(e),
    }
}

/// Overwrites the text of the item at the 1-based `index`, preserving its
/// completion flag, and returns the old text. An empty list reports
/// [`Outcome::EmptyList`]; on a bad index the list is unchanged.
pub fn replace(todos: &mut Vec<Todo>, index: usize, new_text: &str) -> (r: Result<
    Outcome<String>,
    TodoError,
>)
    ensures
        match r {
            Ok(Outcome::EmptyList) => old(todos)@.len() == 0 && *final(todos) == *old(todos),
            Ok(Outcome::Done(old_text)) => {
                &&& old(todos)@.len() > 0
                &&& 1 <= index <= old(todos)@.len()
                &&& old_text@ == old(todos).deep_view()[index - 1].text
                &&& final(todos).deep_view() == old(todos).deep_view().update(
                    index - 1,
                    (TodoView {
                        text: new_text@,
                        done: old(todos).deep_view()[index - 1].done,
                    }),
                )
            },
            Err(e) => {
                &&& *final(todos) == *old(todos)
                &&& old(todos)@.len() > 0
                &&& (index == 0 || index > old(todos)@.len())
                &&& (index == 0 ==> e == TodoError::IndexZero)
                &&& (index > old(todos)@.len() ==> e == (TodoError::IndexOutOfRange {
                    index,
                    length: old(todos)@.len() as usize,
                }))
            },
        },
{
    if todos.len() == 0 {
        return Ok(Outcome::EmptyList);
    }
    match validate_index(index, todos.as_slice()) {
        Ok(()) => {
            let t = todos.remove(index - 1);
            let old_text = t.text;
            todos.insert(index - 1, Todo { text: new_text.to_owned(), done: t.done });
            proof {
                assert(todos.deep_view() =~~= old(todos).deep_view().update(
                    index - 1,
                    (TodoView {
                        text: new_text@,
                        done: old(todos).deep_view()[index - 1].done,
                    }),
                ));
            }
            Ok(Outcome::Done(old_text))
        },
        Err(e) => Err(e),
    }
}

/// Empties the list. An already empty list reports
/// [`Outcome::EmptyList`] and is left as it is, so the caller knows not
/// to write anything.
pub fn clear(todos: &mut Vec<Todo>) -> (r: Outcome<()>)
    ensures
        old(todos)@.len() == 0 ==> r is EmptyList && *final(todos) == *old(todos),
        old(todos)@.len() > 0 ==> r is Done && final(todos)@ == Seq::<Todo>::empty(),
{
    if todos.len() == 0 {
        return Outcome::EmptyList;
    }
    todos.clear();
    Outcome::Done(())
}

} // verus!
