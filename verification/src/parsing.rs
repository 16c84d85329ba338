//! The command model: turning one text line into a `Command`. Tokens are
//! split on whitespace; the first token is a case-sensitive verb; the
//! EXPIRE verb takes one to three duration tokens that are rejoined with
//! single spaces and read by humantime's duration grammar.

use vstd::prelude::*;
use crate::command::{Command, CommandView};
use crate::errors::ParseError;
use crate::text::{join_space, spec_tokens, str_eq, tokenize, join_from};
use crate::time::{duration_nanos_of, parse_duration_nanos};

verus! {

/// What `parse_command` returns on a line: the command, or the first
/// failure (`IsEmpty` for a blank line, `NotACommand` for an unknown verb,
/// `InvalidParameters` for a wrong arity or a bad duration).
pub open spec fn spec_parse_command(s: Seq<char>) -> Result<CommandView, ParseError> {
    let toks = spec_tokens(s);
    if toks.len() == 0 {
        Err(ParseError::IsEmpty)
    } else if toks[0] == "SET"@ {
        if toks.len() != 3 {
            Err(ParseError::InvalidParameters)
        } else {
            Ok(CommandView::Put(toks[1], toks[2]))
        }
    } else if toks[0] == "GET"@ {
        if toks.len() != 2 {
            Err(ParseError::InvalidParameters)
        } else {
            Ok(CommandView::Get(toks[1]))
        }
    } else if toks[0] == "DEL"@ {
        if toks.len() != 2 {
            Err(ParseError::InvalidParameters)
        } else {
            Ok(CommandView::Del(toks[1]))
        }
    } else if toks[0] == "EXISTS"@ {
        if toks.len() != 2 {
            Err(ParseError::InvalidParameters)
        } else {
            Ok(CommandView::Exists(toks[1]))
        }
    } else if toks[0] == "EXPIRE"@ {
        if toks.len() < 3 || toks.len() > 5 {
            Err(ParseError::InvalidParameters)
        } else {
            match duration_nanos_of(join_space(toks.skip(2))) {
                Some(d) => Ok(CommandView::Expire(toks[1], d)),
                None => Err(ParseError::InvalidParameters),
            }
        }
    } else if toks[0] == "INCR"@ {
        if toks.len() != 2 {
            Err(ParseError::InvalidParameters)
        } else {
            Ok(CommandView::Incr(toks[1]))
        }
    } else if toks[0] == "DECR"@ {
        if toks.len() != 2 {
            Err(ParseError::InvalidParameters)
        } else {
            Ok(CommandView::Decr(toks[1]))
        }
    } else if toks[0] == "CLEAR"@ {
        if toks.len() != 1 {
            Err(ParseError::InvalidParameters)
        } else {
            Ok(CommandView::Clear)
        }
    } else if toks[0] == "SAVE"@ {
        if toks.len() != 1 {
            Err(ParseError::InvalidParameters)
        } else {
            Ok(CommandView::Save)
        }
    } else if toks[0] == "LOAD"@ {
        if toks.len() != 1 {
            Err(ParseError::InvalidParameters)
        } else {
            Ok(CommandView::Load)
        }
    } else {
        Err(ParseError::NotACommand)
    }
}

/// The verbs of the command language, without their parameters.
enum CommandType {
    Put,
    Get,
    Del,
    Exists,
    Expire,
    Incr,
    Decr,
    Clear,
    Save,
    Load,
}

spec fn spec_word_type(w: Seq<char>) -> Result<CommandType, ParseError> {
    if w == "SET"@ {
        Ok(CommandType::Put)
    } else if w == "GET"@ {
        Ok(CommandType::Get)
    } else if w == "DEL"@ {
        Ok(CommandType::Del)
    } else if w == "EXISTS"@ {
        Ok(CommandType::Exists)
    } else if w == "EXPIRE"@ {
        Ok(CommandType::Expire)
    } else if w == "INCR"@ {
        Ok(CommandType::Incr)
    } else if w == "DECR"@ {
        Ok(CommandType::Decr)
    } else if w == "CLEAR"@ {
        Ok(CommandType::Clear)
    } else if w == "SAVE"@ {
        Ok(CommandType::Save)
    } else if w == "LOAD"@ {
        Ok(CommandType::Load)
    } else {
        Err(ParseError::NotACommand)
    }
}

/// Maps a verb token to its command type, or `NotACommand`.
fn word_to_command_type(word: &str) -> (r: Result<CommandType, ParseError>)
    ensures
        r == spec_word_type(word@),
{
    if str_eq(word, "SET") {
        Ok(CommandType::Put)
    } else if str_eq(word, "GET") {
        Ok(CommandType::Get)
    } else if str_eq(word, "DEL") {
        Ok(CommandType::Del)
    } else if str_eq(word, "EXISTS") {
        Ok(CommandType::Exists)
    } else if str_eq(word, "EXPIRE") {
        Ok(CommandType::Expire)
    } else if str_eq(word, "INCR") {
        Ok(CommandType::Incr)
    } else if str_eq(word, "DECR") {
        Ok(CommandType::Decr)
    } else if str_eq(word, "CLEAR") {
        Ok(CommandType::Clear)
    } else if str_eq(word, "SAVE") {
        Ok(CommandType::Save)
    } else if str_eq(word, "LOAD") {
        Ok(CommandType::Load)
    } else {
        Err(ParseError::NotACommand)
    }
}

/// Parses one line into a `Command`, or reports the first failure.
pub fn parse_command(s: &str) -> (r: Result<Command, ParseError>)
    ensures
        r matches Ok(c) ==> spec_parse_command(s@) == Ok::<CommandView, ParseError>(c@),
        r matches Err(e) ==> spec_parse_command(s@) == Err::<CommandView, ParseError>(e),
{
    let words = tokenize(s);
    let ghost toks = spec_tokens(s@);
    if words.len() == 0 {
        return Err(ParseError::IsEmpty);
    }
    proof {
        assert(toks[0] == words@[0]@);
    }
    let t = match word_to_command_type(words[0].as_str()) {
        Ok(t) => t,
        Err(e) => {
            return Err(e);
        },
    };
    match t {
        CommandType::Put => {
            if words.len() != 3 {
                Err(ParseError::InvalidParameters)
            } else {
                Ok(Command::Put(words[1].clone(), words[2].clone()))
            }
        },
        CommandType::Get => {
            if words.len() != 2 {
                Err(ParseError::InvalidParameters)
            } else {
                Ok(Command::Get(words[1].clone()))
            }
        },
        CommandType::Del => {
            if words.len() != 2 {
                Err(ParseError::InvalidParameters)
            } else {
                Ok(Command::Del(words[1].clone()))
            }
        },
        CommandType::Exists => {
            if words.len() != 2 {
                Err(ParseError::InvalidParameters)
            } else {
                Ok(Command::Exists(words[1].clone()))
            }
        },
        CommandType::Expire => {
            if words.len() < 3 || words.len() > 5 {
                Err(ParseError::InvalidParameters)
            } else {
                let joined = join_from(&words, 2);
                proof {
                    assert(words.deep_view().skip(2) =~= toks.skip(2));
                }
                match parse_duration_nanos(joined.as_str()) {
                    Some(d) => Ok(Command::Expire(words[1].clone(), d)),
                    None => Err(ParseError::InvalidParameters),
                }
            }
        },
        CommandType::Incr => {
            if words.len() != 2 {
                Err(ParseError::InvalidParameters)
            } else {
                Ok(Command::Incr(words[1].clone()))
            }
        },
        CommandType::Decr => {
            if words.len() != 2 {
                Err(ParseError::InvalidParameters)
            } else {
                Ok(Command::Decr(words[1].clone()))
            }
        },
        CommandType::Clear => {
            if words.len() != 1 {
                Err(ParseError::InvalidParameters)
            } else {
                Ok(Command::Clear)
            }
        },
        CommandType::Save => {
            if words.len() != 1 {
                Err(ParseError::InvalidParameters)
            } else {
                Ok(Command::Save)
            }
        },
        CommandType::Load => {
            if words.len() != 1 {
                Err(ParseError::InvalidParameters)
            } else {
                Ok(Command::Load)
            }
        },
    }
}

/// Checks that a line is a well-formed command, without building it.
pub fn parse_line_to_command(line: &str) -> (r: Result<(), ParseError>)
    ensures
        r is Ok ==> spec_parse_command(line@) is Ok,
        r matches Err(e) ==> spec_parse_command(line@) == Err::<CommandView, ParseError>(e),
{
    match parse_command(line) {
        Ok(_) => Ok(()),
        Err(e) => Err(e),
    }
}

impl core::str::FromStr for Command {
    type Err = ParseError;

    fn from_str(s: &str) -> Result<Command, ParseError> {
        parse_command(s)
    }
}

} // verus!
