//! The line protocol: one inbound line is either a command (leading
//! `/`) or a broadcast message to the sender's current room.
//!
//! A command is the `/`, a name, and optionally a single space followed
//! by a space-separated argument list.  Parsing is total: every line
//! maps to exactly one command or to one protocol error.

use vstd::prelude::*;
use vstd::string::StrSliceExecFns;

use crate::errors::ChatError;

verus! {

/// A parsed inbound line, at the specification level.
pub ghost enum CommandRep {
    Broadcast(Seq<char>),
    Join(Seq<char>),
    Leave,
    List,
    Users,
    Nick(Seq<char>),
    Disconnect,
    Help,
}

/// A parsed inbound line.
#[derive(Debug)]
pub enum Command {
    /// A plain line: a message to broadcast to the sender's room.
    Broadcast(String),
    /// `/join <room>`
    Join(String),
    /// `/leave`
    Leave,
    /// `/list`
    List,
    /// `/users`
    Users,
    /// `/nick <new_nick>`
    Nick(String),
    /// `/disconnect`
    Disconnect,
    /// `/help`
    Help,
}

impl View for Command {
    type V = CommandRep;

    open spec fn view(&self) -> CommandRep {
        match self {
            Command::Broadcast(t) => CommandRep::Broadcast(t@),
            Command::Join(r) => CommandRep::Join(r@),
            Command::Leave => CommandRep::Leave,
            Command::List => CommandRep::List,
            Command::Users => CommandRep::Users,
            Command::Nick(n) => CommandRep::Nick(n@),
            Command::Disconnect => CommandRep::Disconnect,
            Command::Help => CommandRep::Help,
        }
    }
}

/// Whether a line is a command line.
pub open spec fn is_command(line: Seq<char>) -> bool {
    line.len() > 0 && line[0] == '/'
}

/// The segments of `s` between its spaces.  Splitting the empty string
/// gives one empty segment, and every space separates two segments, so
/// adjacent spaces produce empty segments.
pub open spec fn split_spaces(s: Seq<char>) -> Seq<Seq<char>>
    decreases s.len(),
{
    if s.len() == 0 {
        seq![Seq::<char>::empty()]
    } else if s.last() == ' ' {
        split_spaces(s.drop_last()).push(Seq::<char>::empty())
    } else {
        let sp = split_spaces(s.drop_last());
        sp.update(sp.len() - 1, sp.last().push(s.last()))
    }
}

/// The argument list of a command whose tokens are `toks`: everything
/// after the command name, except that a name followed by nothing or by
/// a single trailing space has no arguments at all.
pub open spec fn args_rep(toks: Seq<Seq<char>>) -> Seq<Seq<char>> {
    if toks.len() <= 1 {
        Seq::empty()
    } else if toks.len() == 2 && toks[1].len() == 0 {
        Seq::empty()
    } else {
        toks.drop_first()
    }
}

/// What parsing an inbound line yields: a plain line is a broadcast; a
/// command line is dispatched on its name with its argument count
/// checked.
pub open spec fn parse_rep(line: Seq<char>) -> Result<CommandRep, ChatError> {
    if !is_command(line) {
        Ok(CommandRep::Broadcast(line))
    } else {
        let toks = split_spaces(line.drop_first());
        let name = toks[0];
        let args = args_rep(toks);
        if name == "join"@ {
            if args.len() == 1 {
                Ok(CommandRep::Join(args[0]))
            } else {
                Err(ChatError::WrongArgCount)
            }
        } else if name == "disconnect"@ {
            if args.len() == 0 {
                Ok(CommandRep::Disconnect)
            } else {
                Err(ChatError::WrongArgCount)
            }
        } else if name == "list"@ {
            if args.len() == 0 {
                Ok(CommandRep::List)
            } else {
                Err(ChatError::WrongArgCount)
            }
        } else if name == "users"@ {
            if args.len() == 0 {
                Ok(CommandRep::Users)
            } else {
                Err(ChatError::WrongArgCount)
            }
        } else if name == "leave"@ {
            if args.len() == 0 {
                Ok(CommandRep::Leave)
            } else {
                Err(ChatError::WrongArgCount)
            }
        } else if name == "nick"@ {
            if args.len() == 1 {
                Ok(CommandRep::Nick(args[0]))
            } else {
                Err(ChatError::WrongArgCount)
            }
        } else if name == "help"@ {
            if args.len() == 0 {
                Ok(CommandRep::Help)
            } else {
                Err(ChatError::WrongArgCount)
            }
        } else {
            Err(ChatError::UnknownCommand)
        }
    }
}

/// A single command argument is never empty: the grammar turns an empty
/// trailing argument into an empty argument list, and an embedded empty
/// segment into a second argument.
pub proof fn lemma_single_arg_nonempty(line: Seq<char>)
    ensures
        parse_rep(line) matches Ok(c) ==> match c {
            CommandRep::Join(room) => room.len() > 0,
            CommandRep::Nick(nick) => nick.len() > 0,
            _ => true,
        },
{
    if is_command(line) {
        let toks = split_spaces(line.drop_first());
        let args = args_rep(toks);
        if args.len() == 1 {
            assert(toks.len() == 2 && toks[1].len() > 0);
            assert(args[0] == toks[1]);
        }
    }
}

/// The views of a vector of strings.
pub open spec fn string_views(v: Seq<String>) -> Seq<Seq<char>> {
    Seq::new(v.len(), |i: int| v[i]@)
}

/// Splits a string into its segments between spaces.
fn split_spaces_exec(s: &str) -> (r: Vec<String>)
    ensures
        string_views(r@) == split_spaces(s@),
        r@.len() >= 1,
{
    let n = s.unicode_len();
    let mut out: Vec<String> = Vec::new();
    out.push(String::new());
    proof {
        assert(string_views(out@) =~= split_spaces(s@.take(0)));
    }
    let mut i: usize = 0;
    while i < n
        invariant
            n == s@.len(),
            0 <= i <= n,
            out@.len() >= 1,
            string_views(out@) == split_spaces(s@.take(i as int)),
        decreases n - i,
    {
        let c = s.get_char(i);
        let ghost prev = out@;
        if c == ' ' {
            out.push(String::new());
        } else {
            let last = out.len() - 1;
            let e = &mut out[last];
            e.push(c);
        }
        proof {
            let t = s@.take(i + 1);
            assert(t.drop_last() =~= s@.take(i as int));
            assert(t.last() == s@[i as int]);
            if c == ' ' {
                assert(string_views(out@) =~= split_spaces(t));
            } else {
                let sp = split_spaces(s@.take(i as int));
                assert(string_views(prev) == sp);
                assert(string_views(out@) =~= sp.update(sp.len() - 1, sp.last().push(c)));
            }
        }
        i = i + 1;
    }
    proof {
        assert(s@.take(n as int) =~= s@);
    }
    out
}

/// Parses one inbound line, already stripped of its trailing newline.
/// Yields the command it denotes, or `WrongArgCount` or
/// `UnknownCommand` for a malformed command line.
pub fn parse_line(line: &String) -> (r: Result<Command, ChatError>)
    ensures
        match r {
            Ok(c) => parse_rep(line@) == Ok::<CommandRep, ChatError>(c@),
            Err(e) => parse_rep(line@) == Err::<CommandRep, ChatError>(e),
        },
{
    let s = line.as_str();
    let n = s.unicode_len();
    if n == 0 || s.get_char(0) != '/' {
        return Ok(Command::Broadcast(line.clone()));
    }
    let body = s.substring_char(1, n);
    proof {
        assert(body@ =~= line@.drop_first());
    }
    let toks = split_spaces_exec(body);
    let ghost toks_rep = split_spaces(line@.drop_first());
    proof {
        assert(toks@[0]@ == string_views(toks@)[0]);
    }
    let argc: usize = if toks.len() == 1 {
        0
    } else if toks.len() == 2 && toks[1].as_str().unicode_len() == 0 {
        0
    } else {
        toks.len() - 1
    };
    proof {
        assert(argc == args_rep(toks_rep).len()) by {
            if toks@.len() > 1 && !(toks@.len() == 2 && toks@[1]@.len() == 0) {
                assert(args_rep(toks_rep) == toks_rep.drop_first());
            }
            assert(forall|k: int| 0 <= k < toks@.len() ==> (#[trigger] toks@[k])@ == toks_rep[k]);
        }
    }
    let name = &toks[0];
    if *name == "join".to_owned() {
        if argc != 1 {
            return Err(ChatError::WrongArgCount);
        }
        proof {
            assert(toks_rep.len() == 2);
            assert(args_rep(toks_rep)[0] == toks_rep[1]);
            assert(toks@[1]@ == toks_rep[1]);
        }
        Ok(Command::Join(toks[1].clone()))
    } else if *name == "disconnect".to_owned() {
        if argc != 0 {
            return Err(ChatError::WrongArgCount);
        }
        Ok(Command::Disconnect)
    } else if *name == "list".to_owned() {
        if argc != 0 {
            return Err(ChatError::WrongArgCount);
        }
        Ok(Command::List)
    } else if *name == "users".to_owned() {
        if argc != 0 {
            return Err(ChatError::WrongArgCount);
        }
        Ok(Command::Users)
    } else if *name == "leave".to_owned() {
        if argc != 0 {
            return Err(ChatError::WrongArgCount);
        }
        Ok(Command::Leave)
    } else if *name == "nick".to_owned() {
        if argc != 1 {
            return Err(ChatError::WrongArgCount);
        }
        proof {
            assert(toks_rep.len() == 2);
            assert(args_rep(toks_rep)[0] == toks_rep[1]);
            assert(toks@[1]@ == toks_rep[1]);
        }
        Ok(Command::Nick(toks[1].clone()))
    } else if *name == "help".to_owned() {
        if argc != 0 {
            return Err(ChatError::WrongArgCount);
        }
        Ok(Command::Help)
    } else {
        Err(ChatError::UnknownCommand)
    }
}

} // verus!
