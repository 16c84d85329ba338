//! The closed command and result vocabularies of the engine. Durations are
//! carried as nanoseconds; an `Expire` command therefore holds the parsed
//! duration as a plain 64-bit count of nanoseconds.

use vstd::prelude::*;

verus! {

#[derive(Debug, PartialEq, Eq)]
pub enum Command {
    /// The SET command: store a value under a key.
    Put(String, String),
    Get(String),
    Del(String),
    Exists(String),
    Expire(String, u64),
    Incr(String),
    Decr(String),
    Clear,
    Save,
    Load,
}

/// The mathematical shape of a `Command`: keys and values as `Seq<char>`.
pub enum CommandView {
    Put(Seq<char>, Seq<char>),
    Get(Seq<char>),
    Del(Seq<char>),
    Exists(Seq<char>),
    Expire(Seq<char>, u64),
    Incr(Seq<char>),
    Decr(Seq<char>),
    Clear,
    Save,
    Load,
}

impl View for Command {
    type V = CommandView;

    open spec fn view(&self) -> CommandView {
        match self {
            Command::Put(k, v) => CommandView::Put(k@, v@),
            Command::Get(k) => CommandView::Get(k@),
            Command::Del(k) => CommandView::Del(k@),
            Command::Exists(k) => CommandView::Exists(k@),
            Command::Expire(k, d) => CommandView::Expire(k@, *d),
            Command::Incr(k) => CommandView::Incr(k@),
            Command::Decr(k) => CommandView::Decr(k@),
            Command::Clear => CommandView::Clear,
            Command::Save => CommandView::Save,
            Command::Load => CommandView::Load,
        }
    }
}

#[derive(Debug, PartialEq, Eq)]
pub enum CommandResult {
    /// The void success of the SET command.
    Put,
    Get(String),
    Del,
    Exists(bool),
    Expire,
    Incr,
    Decr,
    Clear,
    Save,
    Load,
}

/// The mathematical shape of a `CommandResult`.
pub enum CommandResultView {
    Put,
    Get(Seq<char>),
    Del,
    Exists(bool),
    Expire,
    Incr,
    Decr,
    Clear,
    Save,
    Load,
}

impl View for CommandResult {
    type V = CommandResultView;

    open spec fn view(&self) -> CommandResultView {
        match self {
            CommandResult::Put => CommandResultView::Put,
            CommandResult::Get(v) => CommandResultView::Get(v@),
            CommandResult::Del => CommandResultView::Del,
            CommandResult::Exists(b) => CommandResultView::Exists(*b),
            CommandResult::Expire => CommandResultView::Expire,
            CommandResult::Incr => CommandResultView::Incr,
            CommandResult::Decr => CommandResultView::Decr,
            CommandResult::Clear => CommandResultView::Clear,
            CommandResult::Save => CommandResultView::Save,
            CommandResult::Load => CommandResultView::Load,
        }
    }
}

impl CommandResultView {
    /// The one response line for a successful command: the payload for
    /// `Get` and `Exists`, the empty string for the void results.
    pub open spec fn rendered(self) -> Seq<char> {
        match self {
            CommandResultView::Get(got) => got,
            CommandResultView::Exists(check) => if check {
                "true"@
            } else {
                "false"@
            },
            _ => Seq::empty(),
        }
    }
}

impl CommandResult {
    pub fn to_string(&self) -> (r: String)
        ensures
            r@ == self@.rendered(),
    {
        match self {
            CommandResult::Get(got) => got.clone(),
            CommandResult::Exists(check) => if *check {
                "true".to_owned()
            } else {
                "false".to_owned()
            },
            _ => String::new(),
        }
    }
}

} // verus!
