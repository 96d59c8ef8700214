use vstd::prelude::*;

verus! {

/// One row of the usage text: the command itself, a description, and the
/// optional placeholders for its text and numeric arguments.
#[derive(Debug)]
pub struct HelpCommand {
    pub command: String,
    pub description: String,
    pub command_text: Option<String>,
    pub command_arg: Option<String>,
}

} // verus!
