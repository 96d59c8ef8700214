use vstd::prelude::*;

use crate::models::help::HelpCommand;

verus! {

/// Builds one row of the usage table.
fn help_command(command: &str, description: &str, command_text: Option<&str>, command_arg: Option<
    &str,
>) -> (r: HelpCommand)
    ensures
        r.command@ == command@,
        r.description@ == description@,
        match command_text {
            Some(t) => r.command_text is Some && r.command_text->0@ == t@,
            None => r.command_text is None,
        },
        match command_arg {
            Some(a) => r.command_arg is Some && r.command_arg->0@ == a@,
            None => r.command_arg is None,
        },
{
    HelpCommand {
        command: command.to_owned(),
        description: description.to_owned(),
        command_text: match command_text {
            Some(t) => Some(t.to_owned()),
            None => None,
        },
        command_arg: match command_arg {
            Some(a) => Some(a.to_owned()),
            None => None,
        },
    }
}

/// The usage table: every command the program answers to, with its
/// placeholders and description.
pub fn get_commands() -> (r: Vec<HelpCommand>)
    ensures
        r@.len() == 11,
{
    let mut v: Vec<HelpCommand> = Vec::new();
    v.push(help_command("todo", "List all todos", None, None));
    v.push(help_command("todo add", "Add a new todo", Some("\"text\""), None));
    v.push(
        help_command("todo add", "Add a new todo at specific position", Some("\"text\""), Some("<n>")),
    );
    v.push(help_command("todo rm", "Remove the first todo", None, None));
    v.push(help_command("todo rm", "Remove a specific todo by number", None, Some("<n>")));
    v.push(help_command("todo done", "Toggle the first todo completion status", None, None));
    v.push(help_command("todo done", "Toggle todo completion status", None, Some("<n>")));
    v.push(help_command("todo clear", "Remove all todos", None, None));
    v.push(
        help_command(
            "todo replace",
            "Replace a todo's text with new text",
            Some("\"new text\""),
            Some("<n>"),
        ),
    );
    v.push(
        help_command(
            "todo insert",
            "Insert a new todo at a specific position",
            Some("\"text\""),
            Some("<n>"),
        ),
    );
    v.push(help_command("todo help", "Show this help message", None, None));
    v
}

/// The alias table: the short forms each command also answers to.
pub fn get_aliases() -> (r: Vec<HelpCommand>)
    ensures
        r@.len() == 7,
{
    let mut v: Vec<HelpCommand> = Vec::new();
    v.push(help_command("todo a", "Alias for `todo add`", None, None));
    v.push(help_command("todo r, remove", "Aliases for `todo rm`", None, None));
    v.push(help_command("todo d", "Alias for `todo done`", None, None));
    v.push(help_command("todo c", "Alias for `todo clear`", None, None));
    v.push(help_command("todo rp", "Alias for `todo replace`", None, None));
    v.push(help_command("todo i", "Alias for `todo insert`", None, None));
    v.push(help_command("todo h", "Alias for `todo help`", None, None));
    v
}

} // verus!
