use todo_list::data::help::{get_aliases, get_commands};
use todo_list::models::help::HelpCommand;
use todo_list::utils::format_index;
use todo_list::utils::help::{calculate_components_length, calculate_max_command_length};
use todo_list::utils::timer::format_duration;

#[test]
fn format_index_pads_on_request() {
    assert_eq!(format_index(3, true), " 3");
    assert_eq!(format_index(3, false), "3");
    assert_eq!(format_index(42, false), "42");
}

#[test]
fn pad_index_pads_single_digits_in_long_lists() {
    assert_eq!(todo_list::utils::todos::pad_index(5, 12), " 5");
    assert_eq!(todo_list::utils::todos::pad_index(11, 12), "11");
    assert_eq!(todo_list::utils::todos::pad_index(5, 9), "5");
    assert_eq!(todo_list::utils::format::pad_index(5, 12), " 5");
    assert_eq!(todo_list::utils::format::pad_index(10, 10), "10");
    assert_eq!(todo_list::utils::format::pad_index(1, 1), "1");
}

#[test]
fn format_duration_picks_the_largest_nonzero_unit() {
    assert_eq!(format_duration(1_500_000), "1ms");
    assert_eq!(format_duration(2_000_000_000), "2000ms");
    assert_eq!(format_duration(1_500), "1µs");
    assert_eq!(format_duration(999_999), "999µs");
    assert_eq!(format_duration(999), "999ns");
    assert_eq!(format_duration(0), "0ns");
}

#[test]
fn command_tables_have_all_rows() {
    assert_eq!(get_commands().len(), 11);
    assert_eq!(get_aliases().len(), 7);
}

#[test]
fn components_length_counts_command_and_placeholders() {
    let cmd = HelpCommand {
        command: "todo replace".to_string(),
        description: "Replace a todo's text with new text".to_string(),
        command_text: Some("\"new text\"".to_string()),
        command_arg: Some("<n>".to_string()),
    };
    assert_eq!(calculate_components_length(&cmd), 12 + 11 + 4);
    let bare = HelpCommand {
        command: "todo".to_string(),
        description: "List all todos".to_string(),
        command_text: None,
        command_arg: None,
    };
    assert_eq!(calculate_components_length(&bare), 4);
}

#[test]
fn max_command_length_over_the_usage_table() {
    let commands = get_commands();
    assert_eq!(calculate_max_command_length(&commands), 27);
    let none: Vec<HelpCommand> = Vec::new();
    assert_eq!(calculate_max_command_length(&none), 0);
}
