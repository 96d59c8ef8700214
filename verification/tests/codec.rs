use todo_list::data::codec::{from_json, to_json};
use todo_list::errors::TodoError;
use todo_list::models::todo::Todo;

fn item(text: &str, done: bool) -> Todo {
    Todo { text: text.to_string(), done }
}

fn pairs(todos: &Vec<Todo>) -> Vec<(String, bool)> {
    let mut v = Vec::new();
    for t in todos {
        v.push((t.text.clone(), t.done));
    }
    v
}

#[test]
fn empty_list_encodes_as_empty_array() {
    let todos: Vec<Todo> = Vec::new();
    assert_eq!(to_json(&todos), "[]");
}

#[test]
fn one_item_encodes_pretty_printed() {
    let todos = vec![item("Buy milk", false)];
    let expected = "[\n  {\n    \"text\": \"Buy milk\",\n    \"done\": false\n  }\n]";
    assert_eq!(to_json(&todos), expected);
}

#[test]
fn two_items_encode_with_separator() {
    let todos = vec![item("A", false), item("B", true)];
    let expected = "[\n  {\n    \"text\": \"A\",\n    \"done\": false\n  },\n  {\n    \"text\": \"B\",\n    \"done\": true\n  }\n]";
    assert_eq!(to_json(&todos), expected);
}

#[test]
fn round_trip_preserves_text_flags_and_order() {
    let todos = vec![
        item("Buy milk", false),
        item("Walk dog", true),
        item("Quote \" and backslash \\", false),
        item("Tabs\tand\nnewlines", true),
        item("Unicode: åäö µ 漢字", false),
        item("Control \u{1} \u{1f}", true),
        item("", false),
    ];
    let text = to_json(&todos);
    let back = from_json(&text).unwrap();
    assert_eq!(pairs(&back), pairs(&todos));
}

#[test]
fn round_trip_of_empty_list() {
    let todos: Vec<Todo> = Vec::new();
    let back = from_json(&to_json(&todos)).unwrap();
    assert!(back.is_empty());
}

#[test]
fn reading_accepts_compact_and_reordered_members() {
    let back = from_json("[{\"done\": true, \"text\": \"A\"}]").unwrap();
    assert_eq!(pairs(&back), vec![("A".to_string(), true)]);
}

#[test]
fn reading_decodes_escapes() {
    let back = from_json("[{\"text\": \"a\\nb\\t\\\"c\\\"\\u0041\\u00e9\", \"done\": false}]")
        .unwrap();
    assert_eq!(back[0].text, "a\nb\t\"c\"Aé");
}

#[test]
fn rewriting_a_loaded_list_is_stable() {
    let text = "[ {\"done\": true, \"text\": \"A\"},\n\t{\"text\": \"B\", \"done\": false} ]";
    let loaded = from_json(text).unwrap();
    let canon = to_json(&loaded);
    let reloaded = from_json(&canon).unwrap();
    assert_eq!(pairs(&reloaded), pairs(&loaded));
    assert_eq!(to_json(&reloaded), canon);
}

#[test]
fn malformed_text_is_data_corrupt() {
    assert_eq!(from_json("not json").unwrap_err(), TodoError::DataCorrupt);
    assert_eq!(from_json("").unwrap_err(), TodoError::DataCorrupt);
    assert_eq!(from_json("[").unwrap_err(), TodoError::DataCorrupt);
    assert_eq!(from_json("[{}]").unwrap_err(), TodoError::DataCorrupt);
    assert_eq!(
        from_json("[{\"text\": \"A\"}]").unwrap_err(),
        TodoError::DataCorrupt
    );
    assert_eq!(
        from_json("[{\"text\": \"A\", \"done\": false}] trailing").unwrap_err(),
        TodoError::DataCorrupt
    );
    assert_eq!(
        from_json("[{\"text\": \"A\", \"done\": maybe}]").unwrap_err(),
        TodoError::DataCorrupt
    );
    assert_eq!(
        from_json("[{\"text\": \"bad \\u00zz escape\", \"done\": false}]").unwrap_err(),
        TodoError::DataCorrupt
    );
    assert_eq!(
        from_json("[{\"text\": \"lone surrogate \\ud800\", \"done\": false}]").unwrap_err(),
        TodoError::DataCorrupt
    );
}

#[test]
fn stored_form_is_json_serde_agrees() {
    let todos = vec![item("Buy milk", false), item("Quote \" here", true)];
    let text = to_json(&todos);

    let value: serde_json::Value = serde_json::from_str(&text).unwrap();
    let array = value.as_array().unwrap();
    assert_eq!(array.len(), 2);
    assert_eq!(array[0]["text"].as_str().unwrap(), "Buy milk");
    assert_eq!(array[0]["done"].as_bool().unwrap(), false);
    assert_eq!(array[1]["text"].as_str().unwrap(), "Quote \" here");
    assert_eq!(array[1]["done"].as_bool().unwrap(), true);
}

#[test]
fn reading_what_serde_writes() {
    let mut obj = serde_json::Map::new();
    obj.insert("text".to_string(), serde_json::Value::String("from serde".to_string()));
    obj.insert("done".to_string(), serde_json::Value::Bool(true));
    let value = serde_json::Value::Array(vec![serde_json::Value::Object(obj)]);
    let text = serde_json::to_string_pretty(&value).unwrap();
    let back = from_json(&text).unwrap();
    assert_eq!(pairs(&back), vec![("from serde".to_string(), true)]);
}
