use vstd::prelude::*;

use crate::data::todos::Outcome;
use crate::errors::TodoError;
use crate::models::todo::{Todo, TodoView};
use crate::utils::text::{trim, trim_of};
use crate::utils::todos::validate_index;

verus! {

/// Where an interactive edit stands: picking an item, editing the picked
/// item's text, or finished one way or the other.
#[derive(Clone, Copy, Debug, PartialEq, Eq, Structural)]
pub enum EditState {
    /// A cursor (0-based) is moving over the list.
    Selecting { cursor: usize },
    /// The item under `cursor` is having its text rewritten.
    Editing { cursor: usize },
    /// The replacement was written into the list.
    Committed,
    /// The session ended without touching the list.
    Cancelled,
}

/// One input to an edit session: cursor movement, confirmation of the
/// selection, the submitted replacement text, or abandonment.
#[derive(Debug)]
pub enum EditSignal {
    MoveUp,
    MoveDown,
    Confirm,
    SubmitText(String),
    Abort,
}

/// Whether the state's cursor, if it has one, names an item of a list of
/// the given length.
pub open spec fn cursor_in_bounds(len: nat, state: EditState) -> bool {
    match state {
        EditState::Selecting { cursor } => cursor < len,
        EditState::Editing { cursor } => cursor < len,
        _ => true,
    }
}

/// One transition of the edit session.
///
/// In `Selecting`, the cursor moves without wraparound, `Confirm` starts
/// editing the selected item, and `Abort` cancels. In `Editing`,
/// submitted text is trimmed of surrounding whitespace; blank text
/// cancels with no change, anything else overwrites the selected item's
/// text, keeps its done-flag, and commits. Every other signal, and every
/// signal in a terminal state, changes nothing.
pub open spec fn step_spec(todos: Seq<TodoView>, state: EditState, sig: EditSignal) -> (Seq<
    TodoView,
>, EditState) {
    match state {
        EditState::Selecting { cursor } => match sig {
            EditSignal::MoveUp => (
                todos,
                EditState::Selecting {
                    cursor: if cursor > 0 {
                        (cursor - 1) as usize
                    } else {
                        0
                    },
                },
            ),
            EditSignal::MoveDown => (
                todos,
                EditState::Selecting {
                    cursor: if cursor + 1 < todos.len() {
                        (cursor + 1) as usize
                    } else {
                        cursor
                    },
                },
            ),
            EditSignal::Confirm => (todos, EditState::Editing { cursor }),
            EditSignal::Abort => (todos, EditState::Cancelled),
            EditSignal::SubmitText(_) => (todos, state),
        },
        EditState::Editing { cursor } => match sig {
            EditSignal::SubmitText(t) => {
                let new_text = trim_of(t@);
                if new_text.len() == 0 || todos.len() <= cursor {
                    (todos, EditState::Cancelled)
                } else {
                    (
                        todos.update(
                            cursor as int,
                            TodoView { text: new_text, done: todos[cursor as int].done },
                        ),
                        EditState::Committed,
                    )
                }
            },
            _ => (todos, state),
        },
        _ => (todos, state),
    }
}

/// The state after feeding a whole sequence of signals, first to last.
pub open spec fn run_spec(todos: Seq<TodoView>, state: EditState, sigs: Seq<EditSignal>) -> (Seq<
    TodoView,
>, EditState)
    decreases sigs.len(),
{
    if sigs.len() == 0 {
        (todos, state)
    } else {
        let first = step_spec(todos, state, sigs[0]);
        run_spec(first.0, first.1, sigs.drop_first())
    }
}

/// An interactive edit over one loaded list: a cursor is moved over the
/// items, one item is picked, and its text is replaced in place.
///
/// The session owns its copy of the list; only a committed session has
/// changed it, so a caller persists `todos` exactly when `state` ends up
/// `Committed`, and storage stays untouched on cancellation.
pub struct EditSession {
    pub todos: Vec<Todo>,
    pub state: EditState,
}

impl EditSession {
    /// The session's cursor never leaves the list.
    pub open spec fn wf(&self) -> bool {
        cursor_in_bounds(self.todos@.len(), self.state)
    }

    /// Opens a session over a loaded list. An empty list reports
    /// [`Outcome::EmptyList`] and no session starts. With an index
    /// (1-based, validated), the cursor starts on that item; without
    /// one, on the first.
    pub fn start(todos: Vec<Todo>, index: Option<usize>) -> (r: Result<
        Outcome<EditSession>,
        TodoError,
    >)
        ensures
            match r {
                Ok(Outcome::EmptyList) => todos@.len() == 0,
                Ok(Outcome::Done(s)) => {
                    &&& todos@.len() > 0
                    &&& s.todos == todos
                    &&& s.wf()
                    &&& match index {
                        Some(i) => 1 <= i <= todos@.len() && s.state == (EditState::Selecting {
                            cursor: (i - 1) as usize,
                        }),
                        None => s.state == (EditState::Selecting { cursor: 0 }),
                    }
                },
                Err(e) => {
                    &&& todos@.len() > 0
                    &&& match index {
                        Some(i) => {
                            &&& (i == 0 || i > todos@.len())
                            &&& (i == 0 ==> e == TodoError::IndexZero)
                            &&& (i > todos@.len() ==> e == (TodoError::IndexOutOfRange {
                                index: i,
                                length: todos@.len() as usize,
                            }))
                        },
                        None => false,
                    }
                },
            },
    {
        if todos.len() == 0 {
            return Ok(Outcome::EmptyList);
        }
        let cursor: usize = match index {
            Some(idx) => match validate_index(idx, todos.as_slice()) {
                Ok(()) => idx - 1,
                Err(e) => {
                    return Err(e);
                },
            },
            None => 0,
        };
        Ok(Outcome::Done(EditSession { todos, state: EditState::Selecting { cursor } }))
    }

    /// Feeds one signal to the session; the session follows
    /// [`step_spec`] exactly.
    pub fn apply(&mut self, sig: EditSignal)
        requires
            old(self).wf(),
        ensures
            final(self).wf(),
            final(self).todos.deep_view() == step_spec(
                old(self).todos.deep_view(),
                old(self).state,
                sig,
            ).0,
            final(self).state == step_spec(old(self).todos.deep_view(), old(self).state, sig).1,
    {
        match self.state {
            EditState::Selecting { cursor } => match sig {
                EditSignal::MoveUp => {
                    if cursor > 0 {
                        self.state = EditState::Selecting { cursor: cursor - 1 };
                    }
                },
                EditSignal::MoveDown => {
                    let len = self.todos.len();
                    if cursor + 1 < len {
                        self.state = EditState::Selecting { cursor: cursor + 1 };
                    }
                },
                EditSignal::Confirm => {
                    self.state = EditState::Editing { cursor };
                },
                EditSignal::Abort => {
                    self.state = EditState::Cancelled;
                },
                EditSignal::SubmitText(_) => {},
            },
            EditState::Editing { cursor } => match sig {
                EditSignal::SubmitText(t) => {
                    let new_text = trim(t.as_str());
                    if new_text.as_str().is_empty() {
                        self.state = EditState::Cancelled;
                    } else {
                        let ghost before = self.todos.deep_view();
                        let old_item = self.todos.remove(cursor);
                        self.todos.insert(cursor, Todo { text: new_text, done: old_item.done });
                        self.state = EditState::Committed;
                        proof {
                            assert(self.todos.deep_view() =~~= before.update(
                                cursor as int,
                                TodoView { text: trim_of(t@), done: before[cursor as int].done },
                            ));
                        }
                    }
                },
                _ => {},
            },
            _ => {},
        }
    }

    /// The text of the item under the cursor, to pre-fill the editor;
    /// nothing once the session has ended.
    pub fn current_text(&self) -> (r: Option<String>)
        requires
            self.wf(),
        ensures
            match self.state {
                EditState::Selecting { cursor } => match r {
                    Some(t) => t@ == self.todos.deep_view()[cursor as int].text,
                    None => false,
                },
                EditState::Editing { cursor } => match r {
                    Some(t) => t@ == self.todos.deep_view()[cursor as int].text,
                    None => false,
                },
                _ => r is None,
            },
    {
        match self.state {
            EditState::Selecting { cursor } => Some(self.todos[cursor].text.clone()),
            EditState::Editing { cursor } => Some(self.todos[cursor].text.clone()),
            _ => None,
        }
    }
}

/// LAW: the cursor never wraps around — `MoveUp` on the first item stays
/// on the first item, and `MoveDown` on the last item stays on the last.
pub proof fn lemma_cursor_no_wraparound(todos: Seq<TodoView>, cursor: usize)
    ensures
        step_spec(todos, EditState::Selecting { cursor: 0 }, EditSignal::MoveUp).1
            == (EditState::Selecting { cursor: 0 }),
        cursor + 1 == todos.len() ==> step_spec(
            todos,
            EditState::Selecting { cursor },
            EditSignal::MoveDown,
        ).1 == (EditState::Selecting { cursor }),
{
}

/// LAW: every transition keeps the cursor on the list.
pub proof fn lemma_step_preserves_bounds(todos: Seq<TodoView>, state: EditState, sig: EditSignal)
    requires
        cursor_in_bounds(todos.len(), state),
    ensures
        cursor_in_bounds(step_spec(todos, state, sig).0.len(), step_spec(todos, state, sig).1),
{
}

/// LAW: submitting text that is blank after trimming cancels the session
/// and changes nothing.
pub proof fn lemma_blank_submit_cancels(todos: Seq<TodoView>, cursor: usize, t: String)
    requires
        trim_of(t@).len() == 0,
    ensures
        step_spec(todos, EditState::Editing { cursor }, EditSignal::SubmitText(t)).0 == todos,
        step_spec(todos, EditState::Editing { cursor }, EditSignal::SubmitText(t)).1
            == EditState::Cancelled,
{
}

/// From a committed session every further signal is ignored.
proof fn lemma_run_after_commit(todos: Seq<TodoView>, sigs: Seq<EditSignal>)
    ensures
        run_spec(todos, EditState::Committed, sigs) == (todos, EditState::Committed),
    decreases sigs.len(),
{
    if sigs.len() > 0 {
        lemma_run_after_commit(todos, sigs.drop_first());
    }
}

/// LAW: a session that does not end committed leaves the list exactly as
/// it was, whatever signals were fed to it — in particular, moving the
/// cursor around and then aborting changes nothing.
pub proof fn lemma_no_commit_no_change(
    todos: Seq<TodoView>,
    state: EditState,
    sigs: Seq<EditSignal>,
)
    requires
        !(run_spec(todos, state, sigs).1 is Committed),
    ensures
        run_spec(todos, state, sigs).0 == todos,
    decreases sigs.len(),
{
    if sigs.len() > 0 {
        let first = step_spec(todos, state, sigs[0]);
        if first.1 is Committed {
            lemma_run_after_commit(first.0, sigs.drop_first());
            assert(false);
        } else {
            assert(first.0 == todos);
            lemma_no_commit_no_change(first.0, first.1, sigs.drop_first());
        }
    }
}

} // verus!
