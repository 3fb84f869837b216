//! Deciding whether an input buffer is complete or continues on a new line.
//!
//! The decision is a heuristic on quotes and braces, not a parse: a brace
//! inside a quoted string counts like any other.

use vstd::prelude::*;
use crate::commands::{multiline_commands, str_views, trigger_names, ReplCommand};
use crate::text::{is_white_space, starts_with, trim_leading_whitespace, trim_start};

verus! {

/// What the validator says of a buffer.
#[derive(Clone, Copy, Debug, PartialEq, Eq, Structural)]
pub enum Validation {
    /// The buffer can be submitted.
    Complete,
    /// The input continues on a new line.
    Incomplete,
}

/// The number of double-quote characters in `s`.
pub open spec fn quote_count(s: Seq<char>) -> nat
    decreases s.len(),
{
    if s.len() == 0 {
        0
    } else {
        quote_count(s.drop_last()) + if s.last() == '"' { 1nat } else { 0nat }
    }
}

/// The closing braces still expected after reading `s` from left to right: a
/// `{` pushes the `}` that closes it, and a `}` pops the top if it is the
/// brace expected there.
pub open spec fn brace_stack(s: Seq<char>) -> Seq<char>
    decreases s.len(),
{
    if s.len() == 0 {
        Seq::empty()
    } else {
        let stack = brace_stack(s.drop_last());
        if s.last() == '{' {
            stack.push('}')
        } else if s.last() == '}' && stack.len() > 0 && stack.last() == s.last() {
            stack.drop_last()
        } else {
            stack
        }
    }
}

/// Whether `line` begins with one of `triggers`.
pub open spec fn starts_with_any(line: Seq<char>, triggers: Seq<Seq<char>>) -> bool {
    exists|i: int| 0 <= i < triggers.len() && (#[trigger] triggers[i]).is_prefix_of(line)
}

/// Whether a line under `triggers` is left with an open brace: it begins, after
/// its leading whitespace, with a trigger, and its scan ends with a closing
/// brace still expected.
pub open spec fn has_open_braces(line: Seq<char>, triggers: Seq<Seq<char>>) -> bool {
    starts_with_any(trim_leading_whitespace(line), triggers) && brace_stack(line).len() > 0
}

/// Whether `line` holds nothing but whitespace; the empty line does.
pub open spec fn is_blank(line: Seq<char>) -> bool {
    forall|i: int| 0 <= i < line.len() ==> is_white_space(#[trigger] line[i])
}

/// The verdict on `line` under `triggers`.
pub open spec fn validation_of(line: Seq<char>, triggers: Seq<Seq<char>>) -> Validation {
    if quote_count(line) % 2 == 1 || has_open_braces(line, triggers) {
        Validation::Incomplete
    } else {
        Validation::Complete
    }
}

/// Whether `line` holds an odd number of double-quote characters.
pub fn odd_quotes(line: &str) -> (odd: bool)
    ensures
        odd == (quote_count(line@) % 2 == 1),
{
    let mut odd: bool = false;
    for c in it: line.chars()
        invariant
            it.seq() == line@,
            odd == (quote_count(line@.take(it.index())) % 2 == 1),
    {
        proof {
            assert(line@.take(it.index() + 1).drop_last() =~= line@.take(it.index()));
        }
        if c == '"' {
            odd = !odd;
        }
    }
    proof {
        assert(line@.take(line@.len() as int) =~= line@);
    }
    odd
}

/// Whether `line` begins with one of `words`.
pub fn starts_with_one_of(line: &str, words: &[&str]) -> (found: bool)
    ensures
        found == starts_with_any(line@, str_views(words@)),
{
    let n: usize = words.len();
    let mut i: usize = 0;
    while i < n
        invariant
            n == words@.len(),
            i <= n,
            forall|k: int| 0 <= k < i ==> !(#[trigger] str_views(words@)[k]).is_prefix_of(line@),
        decreases n - i,
    {
        if starts_with(line, words[i]) {
            assert(str_views(words@)[i as int].is_prefix_of(line@));
            return true;
        }
        i = i + 1;
    }
    false
}

/// Whether `line` begins, after its leading whitespace, with a multiline
/// command and leaves a brace open.
pub fn incomplete_brackets(line: &str, multiline_commands: &[&str]) -> (open: bool)
    ensures
        open == has_open_braces(line@, str_views(multiline_commands@)),
        is_blank(line@) ==> !open,
{
    proof {
        if is_blank(line@) {
            blank_line_is_complete(line@, str_views(multiline_commands@));
        }
    }
    let mut balance: Vec<char> = Vec::new();
    if !starts_with_one_of(trim_start(line), multiline_commands) {
        return false;
    }
    for c in it: line.chars()
        invariant
            it.seq() == line@,
            balance@ == brace_stack(line@.take(it.index())),
    {
        proof {
            assert(line@.take(it.index() + 1).drop_last() =~= line@.take(it.index()));
        }
        if c == '{' {
            balance.push('}');
        } else if c == '}' {
            let depth: usize = balance.len();
            if depth > 0 && balance[depth - 1] == c {
                balance.pop();
            }
        }
    }
    proof {
        assert(line@.take(line@.len() as int) =~= line@);
    }
    balance.len() > 0
}

/// The validator of one session: it holds the trigger set, which does not
/// change after construction.
pub struct ReplValidator {
    multiline_commands: Vec<&'static str>,
}

impl ReplValidator {
    /// The trigger set, in table order.
    pub closed spec fn triggers(&self) -> Seq<Seq<char>> {
        str_views(self.multiline_commands@)
    }

    /// A validator whose triggers are the multiline commands of `commands`.
    pub fn new(commands: &[ReplCommand]) -> (validator: Self)
        ensures
            validator.triggers() == trigger_names(commands@),
    {
        ReplValidator { multiline_commands: multiline_commands(commands) }
    }

    /// The verdict on `line`: incomplete if it holds an odd number of double
    /// quotes, whatever else it holds; else incomplete only if it begins with a
    /// trigger and leaves a brace open.
    pub fn validate(&self, line: &str) -> (verdict: Validation)
        ensures
            verdict == validation_of(line@, self.triggers()),
            quote_count(line@) % 2 == 1 ==> verdict == Validation::Incomplete,
            quote_count(line@) % 2 == 0 && !starts_with_any(
                trim_leading_whitespace(line@),
                self.triggers(),
            ) ==> verdict == Validation::Complete,
            quote_count(line@) % 2 == 0 && starts_with_any(
                trim_leading_whitespace(line@),
                self.triggers(),
            ) ==> (verdict == Validation::Incomplete <==> brace_stack(line@).len() > 0),
            line@.len() == 0 ==> verdict == Validation::Complete,
            is_blank(line@) ==> verdict == Validation::Complete,
    {
        proof {
            if is_blank(line@) {
                blank_line_is_complete(line@, self.triggers());
            }
        }
        if odd_quotes(line) || incomplete_brackets(line, self.multiline_commands.as_slice()) {
            Validation::Incomplete
        } else {
            Validation::Complete
        }
    }
}

/// Every entry of the brace stack is a closing brace, so a `}` always matches
/// the top of a stack that is not empty.
pub proof fn brace_stack_holds_closing_braces(s: Seq<char>)
    ensures
        forall|i: int| 0 <= i < brace_stack(s).len() ==> brace_stack(s)[i] == '}',
        brace_stack(s).len() <= s.len(),
    decreases s.len(),
{
    if s.len() > 0 {
        brace_stack_holds_closing_braces(s.drop_last());
    }
}

/// A line of nothing but whitespace holds neither a quote nor a brace, so it
/// is complete under any triggers, the empty trigger among them.
pub proof fn blank_line_is_complete(line: Seq<char>, triggers: Seq<Seq<char>>)
    requires
        is_blank(line),
    ensures
        quote_count(line) == 0,
        brace_stack(line).len() == 0,
        !has_open_braces(line, triggers),
        validation_of(line, triggers) == Validation::Complete,
    decreases line.len(),
{
    if line.len() > 0 {
        assert(is_white_space(line[line.len() - 1]));
        assert forall|i: int| 0 <= i < line.drop_last().len() implies is_white_space(
            #[trigger] line.drop_last()[i],
        ) by {
            assert(line.drop_last()[i] == line[i]);
        }
        blank_line_is_complete(line.drop_last(), triggers);
    }
}

} // verus!
