use todo_list::data::codec::to_json;
use todo_list::data::todos::Outcome;
use todo_list::errors::TodoError;
use todo_list::models::todo::Todo;
use todo_list::session::{EditSession, EditSignal, EditState};

fn list(items: &[(&str, bool)]) -> Vec<Todo> {
    let mut v = Vec::new();
    for (text, done) in items {
        v.push(Todo { text: (*text).to_string(), done: *done });
    }
    v
}

fn started(items: &[(&str, bool)], index: Option<usize>) -> EditSession {
    match EditSession::start(list(items), index).unwrap() {
        Outcome::Done(s) => s,
        Outcome::EmptyList => panic!("list was not empty"),
    }
}

#[test]
fn start_on_empty_list_reports_empty() {
    let todos: Vec<Todo> = Vec::new();
    assert!(matches!(
        EditSession::start(todos, None),
        Ok(Outcome::EmptyList)
    ));
}

#[test]
fn start_validates_the_given_index() {
    assert!(matches!(
        EditSession::start(list(&[("A", false)]), Some(0)),
        Err(TodoError::IndexZero)
    ));
    assert!(matches!(
        EditSession::start(list(&[("A", false)]), Some(2)),
        Err(TodoError::IndexOutOfRange { index: 2, length: 1 })
    ));
    let s = started(&[("A", false), ("B", false)], Some(2));
    assert_eq!(s.state, EditState::Selecting { cursor: 1 });
}

#[test]
fn cursor_does_not_wrap_at_either_end() {
    let mut s = started(&[("A", false), ("B", false), ("C", false)], None);
    assert_eq!(s.state, EditState::Selecting { cursor: 0 });
    s.apply(EditSignal::MoveUp);
    assert_eq!(s.state, EditState::Selecting { cursor: 0 });
    s.apply(EditSignal::MoveDown);
    s.apply(EditSignal::MoveDown);
    assert_eq!(s.state, EditState::Selecting { cursor: 2 });
    s.apply(EditSignal::MoveDown);
    assert_eq!(s.state, EditState::Selecting { cursor: 2 });
}

#[test]
fn cancel_leaves_storage_untouched() {
    let before = to_json(&list(&[("A", false), ("B", true)]));
    let mut s = started(&[("A", false), ("B", true)], None);
    s.apply(EditSignal::MoveDown);
    s.apply(EditSignal::MoveUp);
    s.apply(EditSignal::Abort);
    assert_eq!(s.state, EditState::Cancelled);
    assert_eq!(to_json(&s.todos), before);
}

#[test]
fn blank_submit_cancels_without_change() {
    let before = to_json(&list(&[("A", false), ("B", true)]));
    let mut s = started(&[("A", false), ("B", true)], None);
    s.apply(EditSignal::Confirm);
    assert_eq!(s.state, EditState::Editing { cursor: 0 });
    s.apply(EditSignal::SubmitText("   \t\n  ".to_string()));
    assert_eq!(s.state, EditState::Cancelled);
    assert_eq!(to_json(&s.todos), before);
}

#[test]
fn commit_replaces_trimmed_text_and_keeps_flag() {
    let mut s = started(&[("A", false), ("B", true)], None);
    s.apply(EditSignal::MoveDown);
    s.apply(EditSignal::Confirm);
    assert_eq!(s.current_text().unwrap(), "B");
    s.apply(EditSignal::SubmitText("  New text  ".to_string()));
    assert_eq!(s.state, EditState::Committed);
    assert_eq!(s.todos[0].text, "A");
    assert!(!s.todos[0].done);
    assert_eq!(s.todos[1].text, "New text");
    assert!(s.todos[1].done);
}

#[test]
fn signals_out_of_place_change_nothing() {
    let mut s = started(&[("A", false)], None);
    s.apply(EditSignal::SubmitText("ignored".to_string()));
    assert_eq!(s.state, EditState::Selecting { cursor: 0 });
    s.apply(EditSignal::Confirm);
    s.apply(EditSignal::MoveDown);
    assert_eq!(s.state, EditState::Editing { cursor: 0 });
    s.apply(EditSignal::Abort);
    assert_eq!(s.state, EditState::Editing { cursor: 0 });
    s.apply(EditSignal::SubmitText("done editing".to_string()));
    assert_eq!(s.state, EditState::Committed);
    assert_eq!(s.current_text(), None);
    s.apply(EditSignal::MoveDown);
    assert_eq!(s.state, EditState::Committed);
    assert_eq!(s.todos[0].text, "done editing");
}
