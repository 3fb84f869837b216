//! The table of commands that the front end is built from.

use vstd::prelude::*;

verus! {

/// One row of the command table.
#[derive(Clone, Copy, Debug)]
pub struct ReplCommand {
    /// The word that the user types.
    pub name: &'static str,
    /// What the help screen says of it.
    pub description: &'static str,
    /// Whether input that begins with this command may span several lines.
    pub multiline: bool,
}

/// The names of all rows of `commands`, in table order.
pub open spec fn command_names(commands: Seq<ReplCommand>) -> Seq<Seq<char>> {
    Seq::new(commands.len(), |i: int| commands[i].name@)
}

/// The names of the rows of `commands` that enable multiline input, in table
/// order.
pub open spec fn trigger_names(commands: Seq<ReplCommand>) -> Seq<Seq<char>>
    decreases commands.len(),
{
    if commands.len() == 0 {
        Seq::empty()
    } else if commands.last().multiline {
        trigger_names(commands.drop_last()).push(commands.last().name@)
    } else {
        trigger_names(commands.drop_last())
    }
}

/// The views of a list of string slices.
pub open spec fn str_views(words: Seq<&str>) -> Seq<Seq<char>> {
    Seq::new(words.len(), |i: int| words[i]@)
}

/// The trigger set: the names of the commands that enable multiline input.
pub fn multiline_commands(commands: &[ReplCommand]) -> (triggers: Vec<&'static str>)
    ensures
        str_views(triggers@) == trigger_names(commands@),
{
    let mut triggers: Vec<&'static str> = Vec::new();
    let n: usize = commands.len();
    let mut i: usize = 0;
    proof {
        assert(commands@.take(0) =~= Seq::empty());
        assert(str_views(triggers@) =~= trigger_names(commands@.take(0)));
    }
    while i < n
        invariant
            n == commands@.len(),
            i <= n,
            str_views(triggers@) == trigger_names(commands@.take(i as int)),
        decreases n - i,
    {
        let ghost before = triggers@;
        proof {
            assert(commands@.take(i + 1).drop_last() =~= commands@.take(i as int));
            assert(commands@.take(i + 1).last() == commands@[i as int]);
        }
        if commands[i].multiline {
            triggers.push(commands[i].name);
            proof {
                assert(str_views(triggers@) =~= str_views(before).push(commands@[i as int].name@));
            }
        }
        i = i + 1;
    }
    proof {
        assert(commands@.take(n as int) =~= commands@);
    }
    triggers
}

/// A trigger is the name of a command of the table that enables multiline
/// input, and each such name is a trigger.
pub proof fn trigger_names_are_multiline_names(commands: Seq<ReplCommand>, word: Seq<char>)
    ensures
        trigger_names(commands).contains(word) <==> exists|i: int|
            0 <= i < commands.len() && (#[trigger] commands[i]).multiline && commands[i].name@
                == word,
    decreases commands.len(),
{
    if commands.len() > 0 {
        let rest = commands.drop_last();
        let last = commands.last();
        trigger_names_are_multiline_names(rest, word);
        let found = exists|i: int|
            0 <= i < commands.len() && (#[trigger] commands[i]).multiline && commands[i].name@
                == word;
        if trigger_names(commands).contains(word) {
            let k = choose|k: int|
                0 <= k < trigger_names(commands).len() && trigger_names(commands)[k] == word;
            if last.multiline && k == trigger_names(rest).len() {
                assert(commands[commands.len() - 1].multiline);
            } else {
                assert(trigger_names(rest)[k] == word);
                assert(trigger_names(rest).contains(word));
                let i = choose|i: int|
                    0 <= i < rest.len() && (#[trigger] rest[i]).multiline && rest[i].name@ == word;
                assert(commands[i] == rest[i]);
            }
            assert(found);
        }
        if found {
            let i = choose|i: int|
                0 <= i < commands.len() && (#[trigger] commands[i]).multiline && commands[i].name@
                    == word;
            if i == commands.len() - 1 {
                assert(trigger_names(commands).last() == word);
            } else {
                assert(rest[i] == commands[i]);
                assert(trigger_names(rest).contains(word));
                let k = choose|k: int|
                    0 <= k < trigger_names(rest).len() && trigger_names(rest)[k] == word;
                assert(trigger_names(commands)[k] == word);
            }
            assert(trigger_names(commands).contains(word));
        }
    }
}

} // verus!
