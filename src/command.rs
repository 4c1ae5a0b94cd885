use vstd::prelude::*;

use crate::text::{split_words, str_equals, tokens, trim, trim_of};

verus! {

/// Which items a listing shows.
#[derive(Clone, Copy, Debug, PartialEq, Eq, Structural)]
pub enum ListType {
    All,
    Open,
    Done,
}

/// One command of the interactive session.
#[derive(Clone, Copy, Debug, PartialEq, Eq, Structural)]
pub enum Command {
    Add,
    Delete,
    Complete,
    List(ListType),
    Help,
    Quit,
}

/// A line that names no command, or a listing scope that does not exist.
#[derive(Debug)]
pub struct CmdParseError {
    details: String,
}

impl View for CmdParseError {
    type V = Seq<char>;

    closed spec fn view(&self) -> Seq<char> {
        self.details@
    }
}

impl CmdParseError {
    pub fn new(msg: String) -> (r: CmdParseError)
        ensures
            r@ == msg@,
    {
        CmdParseError { details: msg }
    }

    /// The human-readable message.
    pub fn description(&self) -> (r: &str)
        ensures
            r@ == self@,
    {
        self.details.as_str()
    }
}

/// The message for a line whose first word is no command.
pub open spec fn unknown_command(line: Seq<char>) -> Seq<char> {
    "unknown command: "@ + line
}

/// The message for a listing scope that does not exist.
pub open spec fn unknown_list_argument(word: Seq<char>) -> Seq<char> {
    "unknown list argument: "@ + word
}

/// The scope named by the word after `list`.
pub open spec fn scope_of(word: Seq<char>) -> Option<ListType> {
    if word == "all"@ || word == "a"@ {
        Some(ListType::All)
    } else if word == "done"@ || word == "d"@ {
        Some(ListType::Done)
    } else if word == "open"@ || word == "o"@ {
        Some(ListType::Open)
    } else {
        None
    }
}

/// What a line means: its first word picks the command, and for `list` the
/// second word, if any, picks the scope. Errors are given by their message.
pub open spec fn parse_spec(line: Seq<char>) -> Result<Command, Seq<char>> {
    let t = tokens(line);
    if t.len() == 0 {
        Err(unknown_command(line))
    } else if t[0] == "help"@ || t[0] == "h"@ {
        Ok(Command::Help)
    } else if t[0] == "quit"@ || t[0] == "q"@ {
        Ok(Command::Quit)
    } else if t[0] == "add"@ || t[0] == "a"@ {
        Ok(Command::Add)
    } else if t[0] == "delete"@ || t[0] == "d"@ {
        Ok(Command::Delete)
    } else if t[0] == "complete"@ || t[0] == "x"@ {
        Ok(Command::Complete)
    } else if t[0] == "list"@ || t[0] == "l"@ {
        if t.len() == 1 {
            Ok(Command::List(ListType::All))
        } else {
            match scope_of(t[1]) {
                Some(scope) => Ok(Command::List(scope)),
                None => Err(unknown_list_argument(t[1])),
            }
        }
    } else {
        Err(unknown_command(line))
    }
}

/// A parse result with the error replaced by its message.
pub open spec fn outcome_view(r: Result<Command, CmdParseError>) -> Result<Command, Seq<char>> {
    match r {
        Ok(c) => Ok(c),
        Err(e) => Err(e@),
    }
}

fn either(w: &str, long: &str, short: &str) -> (r: bool)
    ensures
        r == (w@ == long@ || w@ == short@),
{
    str_equals(w, long) || str_equals(w, short)
}

fn parse_scope(w: &str) -> (r: Option<ListType>)
    ensures
        r == scope_of(w@),
{
    if either(w, "all", "a") {
        Some(ListType::All)
    } else if either(w, "done", "d") {
        Some(ListType::Done)
    } else if either(w, "open", "o") {
        Some(ListType::Open)
    } else {
        None
    }
}

impl Command {
    /// Reads one command from `s`; total: every line gives a command or an error.
    pub fn parse(s: &str) -> (r: Result<Command, CmdParseError>)
        ensures
            outcome_view(r) == parse_spec(s@),
    {
        let words = split_words(s);
        if words.len() == 0 {
            return Err(unknown_command_error(s));
        }
        let cmd = words[0];
        if either(cmd, "help", "h") {
            Ok(Command::Help)
        } else if either(cmd, "quit", "q") {
            Ok(Command::Quit)
        } else if either(cmd, "add", "a") {
            Ok(Command::Add)
        } else if either(cmd, "delete", "d") {
            Ok(Command::Delete)
        } else if either(cmd, "complete", "x") {
            Ok(Command::Complete)
        } else if either(cmd, "list", "l") {
            if words.len() == 1 {
                Ok(Command::List(ListType::All))
            } else {
                let arg = words[1];
                match parse_scope(arg) {
                    Some(scope) => Ok(Command::List(scope)),
                    None => {
                        let mut msg = "unknown list argument: ".to_owned();
                        msg.append(arg);
                        Err(CmdParseError::new(msg))
                    },
                }
            }
        } else {
            Err(unknown_command_error(s))
        }
    }
}

fn unknown_command_error(s: &str) -> (r: CmdParseError)
    ensures
        r@ == unknown_command(s@),
{
    let mut msg = "unknown command: ".to_owned();
    msg.append(s);
    CmdParseError::new(msg)
}

impl std::str::FromStr for Command {
    type Err = CmdParseError;

    fn from_str(s: &str) -> (r: Result<Command, CmdParseError>)
        ensures
            outcome_view(r) == parse_spec(s@),
    {
        Command::parse(s)
    }
}

/// Reads the command on an input line, after trimming the whitespace around it.
pub fn parse_command_line(line: &str) -> (r: Result<Command, CmdParseError>)
    ensures
        outcome_view(r) == parse_spec(trim_of(line@)),
{
    let t = trim(line);
    Command::parse(t.as_str())
}

/// The one-letter command words and the full words they abbreviate.
pub open spec fn command_alias(short: Seq<char>, long: Seq<char>) -> bool {
    ||| short == "h"@ && long == "help"@
    ||| short == "q"@ && long == "quit"@
    ||| short == "a"@ && long == "add"@
    ||| short == "d"@ && long == "delete"@
    ||| short == "x"@ && long == "complete"@
    ||| short == "l"@ && long == "list"@
}

/// The one-letter scope words and the full words they abbreviate.
pub open spec fn scope_alias(short: Seq<char>, long: Seq<char>) -> bool {
    ||| short == "a"@ && long == "all"@
    ||| short == "d"@ && long == "done"@
    ||| short == "o"@ && long == "open"@
}

/// The command and scope words differ in length or in their first letter.
proof fn lemma_word_shapes()
    ensures
        "help"@.len() == 4 && "help"@[0] == 'h',
        "h"@.len() == 1 && "h"@[0] == 'h',
        "quit"@.len() == 4 && "quit"@[0] == 'q',
        "q"@.len() == 1 && "q"@[0] == 'q',
        "add"@.len() == 3 && "add"@[0] == 'a',
        "a"@.len() == 1 && "a"@[0] == 'a',
        "delete"@.len() == 6 && "delete"@[0] == 'd',
        "d"@.len() == 1 && "d"@[0] == 'd',
        "complete"@.len() == 8 && "complete"@[0] == 'c',
        "x"@.len() == 1 && "x"@[0] == 'x',
        "list"@.len() == 4 && "list"@[0] == 'l',
        "l"@.len() == 1 && "l"@[0] == 'l',
        "all"@.len() == 3 && "all"@[0] == 'a',
        "done"@.len() == 4 && "done"@[0] == 'd',
        "open"@.len() == 4 && "open"@[0] == 'o',
        "o"@.len() == 1 && "o"@[0] == 'o',
{
    reveal_strlit("help");
    reveal_strlit("h");
    reveal_strlit("quit");
    reveal_strlit("q");
    reveal_strlit("add");
    reveal_strlit("a");
    reveal_strlit("delete");
    reveal_strlit("d");
    reveal_strlit("complete");
    reveal_strlit("x");
    reveal_strlit("list");
    reveal_strlit("l");
    reveal_strlit("all");
    reveal_strlit("done");
    reveal_strlit("open");
    reveal_strlit("o");
}

/// A command word and its one-letter alias mean the same: two lines that differ
/// only in that choice parse to the same result.
pub proof fn lemma_command_alias(short_line: Seq<char>, long_line: Seq<char>)
    requires
        tokens(short_line).len() >= 1,
        tokens(long_line).len() >= 1,
        command_alias(tokens(short_line)[0], tokens(long_line)[0]),
        tokens(short_line).drop_first() == tokens(long_line).drop_first(),
    ensures
        parse_spec(short_line) == parse_spec(long_line),
{
    lemma_word_shapes();
    let t1 = tokens(short_line);
    let t2 = tokens(long_line);
    assert(t1.len() == t2.len()) by {
        assert(t1.drop_first().len() == t2.drop_first().len());
    }
    if t1.len() > 1 {
        assert(t1[1] == t1.drop_first()[0]);
        assert(t2[1] == t2.drop_first()[0]);
    }
}

/// A scope word and its one-letter alias mean the same: two `list` lines that
/// differ only in that choice parse to the same result.
pub proof fn lemma_scope_alias(short_line: Seq<char>, long_line: Seq<char>)
    requires
        tokens(short_line).len() >= 2,
        tokens(long_line).len() >= 2,
        tokens(short_line)[0] == tokens(long_line)[0],
        tokens(short_line)[0] == "list"@ || tokens(short_line)[0] == "l"@,
        scope_alias(tokens(short_line)[1], tokens(long_line)[1]),
    ensures
        parse_spec(short_line) == parse_spec(long_line),
        parse_spec(short_line) is Ok,
{
    lemma_word_shapes();
}

} // verus!
