use vstd::prelude::*;

use crate::models::help::HelpCommand;

verus! {

/// The width of a command's components in characters: the command, then
/// each present placeholder with one space before it.
pub open spec fn components_length(cmd: HelpCommand) -> int {
    cmd.command@.len() as int + (match cmd.command_text {
        Some(t) => t@.len() as int + 1,
        None => 0int,
    }) + (match cmd.command_arg {
        Some(a) => a@.len() as int + 1,
        None => 0int,
    })
}

/// The widest components width over a row of commands, 0 when there are
/// none.
pub open spec fn max_components_length(cmds: Seq<HelpCommand>) -> int
    decreases cmds.len(),
{
    if cmds.len() == 0 {
        0
    } else {
        let rest = max_components_length(cmds.drop_last());
        let last = components_length(cmds.last());
        if last > rest {
            last
        } else {
            rest
        }
    }
}

/// The width of one command's components, for column alignment.
pub fn calculate_components_length(cmd: &HelpCommand) -> (n: usize)
    requires
        components_length(*cmd) <= usize::MAX,
    ensures
        n == components_length(*cmd),
{
    let mut n: usize = cmd.command.as_str().unicode_len();
    match &cmd.command_text {
        Some(t) => {
            n = n + t.as_str().unicode_len() + 1;
        },
        None => {},
    }
    match &cmd.command_arg {
        Some(a) => {
            n = n + a.as_str().unicode_len() + 1;
        },
        None => {},
    }
    n
}

/// The widest components width over all given commands, so each row can
/// be padded to it.
pub fn calculate_max_command_length(commands: &[HelpCommand]) -> (n: usize)
    requires
        forall|i: int| 0 <= i < commands@.len() ==> components_length(#[trigger] commands@[i]) <= usize::MAX,
    ensures
        n == max_components_length(commands@),
{
    let mut n: usize = 0;
    let mut i: usize = 0;
    while i < commands.len()
        invariant
            i <= commands@.len(),
            forall|j: int| 0 <= j < commands@.len() ==> components_length(#[trigger] commands@[j]) <= usize::MAX,
            n == max_components_length(commands@.take(i as int)),
        decreases commands@.len() - i,
    {
        let len = calculate_components_length(&commands[i]);
        if len > n {
            n = len;
        }
        proof {
            assert(commands@.take(i + 1).drop_last() =~= commands@.take(i as int));
            assert(commands@.take(i + 1).last() == commands@[i as int]);
        }
        i = i + 1;
    }
    proof {
        assert(commands@.take(commands@.len() as int) =~= commands@);
    }
    n
}

} // verus!
