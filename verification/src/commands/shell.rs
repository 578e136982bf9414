//! Classifying a line typed into the interactive shell.
use vstd::prelude::*;

use crate::text::{begins, chars_of, same_chars, slice_chars, starts_with, to_string, trim, trim_chars};

verus! {

/// What a line typed into the shell asks for.
#[derive(Debug, Clone, PartialEq, Eq)]
pub enum Input {
    /// A blank line.
    Empty,
    /// `exit` or `quit`.
    Exit,
    /// `/name`: a built-in command.
    Builtin(String),
    /// `!cmd`: a command run as typed.
    Raw(String),
    /// `cd` or `cd dir`: change the working directory.
    Cd(String),
    /// Anything else: a request for the model.
    Ai(String),
}

/// A shell input as the specifications see it.
pub enum InputSpec {
    Empty,
    Exit,
    Builtin(Seq<char>),
    Raw(Seq<char>),
    Cd(Seq<char>),
    Ai(Seq<char>),
}

impl View for Input {
    type V = InputSpec;

    open spec fn view(&self) -> InputSpec {
        match self {
            Input::Empty => InputSpec::Empty,
            Input::Exit => InputSpec::Exit,
            Input::Builtin(s) => InputSpec::Builtin(s@),
            Input::Raw(s) => InputSpec::Raw(s@),
            Input::Cd(s) => InputSpec::Cd(s@),
            Input::Ai(s) => InputSpec::Ai(s@),
        }
    }
}

/// How a line is classified, once trimmed: blank, `exit`/`quit`, `/` prefix,
/// `!` prefix, a bare `cd`, a `cd ` prefix, and otherwise a model request.
pub open spec fn parse_input(line: Seq<char>) -> InputSpec {
    let c = trim(line);
    if c.len() == 0 {
        InputSpec::Empty
    } else if c == "exit"@ || c == "quit"@ {
        InputSpec::Exit
    } else if starts_with(c, "/"@) {
        InputSpec::Builtin(c.skip("/"@.len() as int))
    } else if starts_with(c, "!"@) {
        InputSpec::Raw(c.skip("!"@.len() as int))
    } else if c == "cd"@ {
        InputSpec::Cd(seq![])
    } else if starts_with(c, "cd "@) {
        InputSpec::Cd(c.skip("cd "@.len() as int))
    } else {
        InputSpec::Ai(c)
    }
}

impl Input {
    /// Classifies a line typed into the shell.
    pub fn parse(line: &str) -> (r: Input)
        ensures
            r@ == parse_input(line@),
    {
        let raw = chars_of(line);
        let c = trim_chars(&raw);
        proof {
            reveal_strlit("/");
            reveal_strlit("!");
            reveal_strlit("cd ");
        }
        if c.len() == 0 {
            Input::Empty
        } else if same_chars(&c, &chars_of("exit")) || same_chars(&c, &chars_of("quit")) {
            Input::Exit
        } else if begins(&c, "/") {
            let rest = slice_chars(&c, 1, c.len());
            assert(rest@ =~= c@.skip(1));
            Input::Builtin(to_string(&rest))
        } else if begins(&c, "!") {
            let rest = slice_chars(&c, 1, c.len());
            assert(rest@ =~= c@.skip(1));
            Input::Raw(to_string(&rest))
        } else if same_chars(&c, &chars_of("cd")) {
            let empty: Vec<char> = Vec::new();
            Input::Cd(to_string(&empty))
        } else if begins(&c, "cd ") {
            let rest = slice_chars(&c, 3, c.len());
            assert(rest@ =~= c@.skip(3));
            Input::Cd(to_string(&rest))
        } else {
            Input::Ai(to_string(&c))
        }
    }
}


/// Law: how a shell line is classified, stated on its trimmed text `c`.
/// It is empty exactly when `c` is; it exits exactly when `c` is `exit` or
/// `quit` (so `exit vim` does not exit); a `/` or `!` first character gives a
/// built-in name or a raw command, the rest of `c`; `cd` alone or followed by
/// a space changes the directory; every other non-empty line goes to the
/// model as `c` itself.
pub proof fn law_parse_input(line: Seq<char>)
    ensures
        ({
            let c = trim(line);
            let p = parse_input(line);
            &&& (p == InputSpec::Empty) <==> c.len() == 0
            &&& (p == InputSpec::Exit) <==> (c == "exit"@ || c == "quit"@)
            &&& (c.len() > 0 && c[0] == '/') ==> p == InputSpec::Builtin(c.subrange(1, c.len() as int))
            &&& (c.len() > 0 && c[0] == '!') ==> p == InputSpec::Raw(c.subrange(1, c.len() as int))
            &&& c == "cd"@ ==> p == InputSpec::Cd(seq![])
            &&& (c.len() >= 3 && c[0] == 'c' && c[1] == 'd' && c[2] == ' ') ==> p == InputSpec::Cd(
                c.subrange(3, c.len() as int),
            )
            &&& (c.len() > 0 && c != "exit"@ && c != "quit"@ && c[0] != '/' && c[0] != '!' && c
                != "cd"@ && !(c.len() >= 3 && c[0] == 'c' && c[1] == 'd' && c[2] == ' '))
                ==> p == InputSpec::Ai(c)
        }),
{
    reveal_strlit("/");
    reveal_strlit("!");
    reveal_strlit("cd ");
    reveal_strlit("cd");
    reveal_strlit("exit");
    reveal_strlit("quit");
    let c = trim(line);
    if c.len() >= 3 && c[0] == 'c' && c[1] == 'd' && c[2] == ' ' {
        assert(c.subrange(0, 3) =~= "cd "@);
    }
    if starts_with(c, "cd "@) {
        assert(c[0] == "cd "@[0] && c[1] == "cd "@[1] && c[2] == "cd "@[2]);
    }
    if c.len() > 0 && c[0] == '/' {
        assert(c.subrange(0, 1) =~= "/"@);
    }
    if c.len() > 0 && c[0] == '!' {
        assert(c.subrange(0, 1) =~= "!"@);
    }
    if starts_with(c, "/"@) {
        assert(c[0] == "/"@[0]);
    }
    if starts_with(c, "!"@) {
        assert(c[0] == "!"@[0]);
    }
}

} // verus!
