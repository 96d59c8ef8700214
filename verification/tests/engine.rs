use todo_list::data::todos::{add, clear, remove, replace, toggle, Outcome};
use todo_list::errors::TodoError;
use todo_list::models::todo::Todo;
use todo_list::utils::todos::{validate_index, validate_index_on_add};

fn list(items: &[(&str, bool)]) -> Vec<Todo> {
    let mut v = Vec::new();
    for (text, done) in items {
        v.push(Todo { text: (*text).to_string(), done: *done });
    }
    v
}

fn texts(todos: &Vec<Todo>) -> Vec<String> {
    let mut v = Vec::new();
    for t in todos {
        v.push(t.text.clone());
    }
    v
}

#[test]
fn validate_index_rejects_zero() {
    let todos = list(&[("A", false), ("B", false)]);
    assert_eq!(validate_index(0, &todos), Err(TodoError::IndexZero));
}

#[test]
fn validate_index_rejects_past_end() {
    let todos = list(&[("A", false), ("B", false)]);
    assert_eq!(
        validate_index(3, &todos),
        Err(TodoError::IndexOutOfRange { index: 3, length: 2 })
    );
}

#[test]
fn validate_index_accepts_whole_range() {
    let todos = list(&[("A", false), ("B", false), ("C", false)]);
    for k in 1..=3 {
        assert_eq!(validate_index(k, &todos), Ok(()));
    }
}

#[test]
fn validate_index_on_add_allows_append_position() {
    let todos = list(&[("A", false), ("B", false)]);
    assert_eq!(validate_index_on_add(3, &todos), Ok(()));
}

#[test]
fn validate_index_on_add_rejects_past_append() {
    let todos = list(&[("A", false), ("B", false)]);
    assert_eq!(
        validate_index_on_add(4, &todos),
        Err(TodoError::IndexOutOfRange { index: 4, length: 2 })
    );
    assert_eq!(validate_index_on_add(0, &todos), Err(TodoError::IndexZero));
}

#[test]
fn add_preserves_order() {
    let mut todos = list(&[("A", false), ("C", false)]);
    let pos = add(&mut todos, "B", Some(2)).unwrap();
    assert_eq!(pos, 2);
    assert_eq!(texts(&todos), vec!["A", "B", "C"]);
    assert!(!todos[1].done);
}

#[test]
fn add_without_index_appends() {
    let mut todos = list(&[("A", false)]);
    let pos = add(&mut todos, "B", None).unwrap();
    assert_eq!(pos, 2);
    assert_eq!(texts(&todos), vec!["A", "B"]);
}

#[test]
fn add_with_bad_index_changes_nothing() {
    let mut todos = list(&[("A", false)]);
    assert_eq!(
        add(&mut todos, "B", Some(3)),
        Err(TodoError::IndexOutOfRange { index: 3, length: 1 })
    );
    assert_eq!(add(&mut todos, "B", Some(0)), Err(TodoError::IndexZero));
    assert_eq!(texts(&todos), vec!["A"]);
}

#[test]
fn remove_renumbers() {
    let mut todos = list(&[("A", false), ("B", false), ("C", false)]);
    match remove(&mut todos, 1).unwrap() {
        Outcome::Done(t) => assert_eq!(t.text, "A"),
        Outcome::EmptyList => panic!("list was not empty"),
    }
    assert_eq!(texts(&todos), vec!["B", "C"]);
}

#[test]
fn remove_on_empty_reports_empty() {
    let mut todos: Vec<Todo> = Vec::new();
    assert!(matches!(remove(&mut todos, 1), Ok(Outcome::EmptyList)));
}

#[test]
fn remove_bad_index_is_an_error() {
    let mut todos = list(&[("A", false)]);
    assert!(matches!(
        remove(&mut todos, 2),
        Err(TodoError::IndexOutOfRange { index: 2, length: 1 })
    ));
    assert_eq!(texts(&todos), vec!["A"]);
}

#[test]
fn toggle_twice_restores() {
    let mut todos = list(&[("A", false), ("B", true)]);
    assert!(matches!(toggle(&mut todos, 2), Ok(Outcome::Done(false))));
    assert!(!todos[1].done);
    assert!(matches!(toggle(&mut todos, 2), Ok(Outcome::Done(true))));
    assert!(todos[1].done);
    assert_eq!(texts(&todos), vec!["A", "B"]);
}

#[test]
fn toggle_on_empty_reports_empty() {
    let mut todos: Vec<Todo> = Vec::new();
    assert!(matches!(toggle(&mut todos, 1), Ok(Outcome::EmptyList)));
}

#[test]
fn replace_preserves_done_flag() {
    let mut todos = list(&[("A", false), ("B", true)]);
    match replace(&mut todos, 2, "NEW").unwrap() {
        Outcome::Done(old_text) => assert_eq!(old_text, "B"),
        Outcome::EmptyList => panic!("list was not empty"),
    }
    assert_eq!(todos[0].text, "A");
    assert!(!todos[0].done);
    assert_eq!(todos[1].text, "NEW");
    assert!(todos[1].done);
}

#[test]
fn replace_on_empty_reports_empty() {
    let mut todos: Vec<Todo> = Vec::new();
    assert!(matches!(replace(&mut todos, 1, "X"), Ok(Outcome::EmptyList)));
}

#[test]
fn clear_on_empty_is_a_no_op() {
    let mut todos: Vec<Todo> = Vec::new();
    assert!(matches!(clear(&mut todos), Outcome::EmptyList));
    assert!(todos.is_empty());
}

#[test]
fn clear_empties_a_non_empty_list() {
    let mut todos = list(&[("A", false), ("B", true)]);
    assert!(matches!(clear(&mut todos), Outcome::Done(())));
    assert!(todos.is_empty());
}

#[test]
fn end_to_end_add_toggle_remove() {
    let mut todos: Vec<Todo> = Vec::new();
    assert_eq!(add(&mut todos, "Buy milk", None), Ok(1));
    assert_eq!(texts(&todos), vec!["Buy milk"]);
    assert!(!todos[0].done);

    assert_eq!(add(&mut todos, "Walk dog", Some(1)), Ok(1));
    assert_eq!(texts(&todos), vec!["Walk dog", "Buy milk"]);
    assert!(!todos[0].done && !todos[1].done);

    assert!(matches!(toggle(&mut todos, 2), Ok(Outcome::Done(true))));
    assert!(!todos[0].done);
    assert!(todos[1].done);

    match remove(&mut todos, 1).unwrap() {
        Outcome::Done(removed) => {
            assert_eq!(removed.text, "Walk dog");
            assert!(!removed.done);
        },
        Outcome::EmptyList => panic!("list was not empty"),
    }
    assert_eq!(texts(&todos), vec!["Buy milk"]);
    assert!(todos[0].done);
}
