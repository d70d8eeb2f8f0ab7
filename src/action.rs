use vstd::prelude::*;
use crate::text::{parse_unsigned, parse_unsigned_spec, str_eq};

verus! {

/// A command sent by a client.
#[derive(Debug, PartialEq, Eq)]
pub enum UserAction {
    SetUsername(String),
    NewGame,
    JoinGame(u16),
    ReadyUp,
    Unready,
    StartGame,
    GetSuggestions(String),
    AddSong(String),
    RemoveSong(u32),
    StartGuessing,
    GuessSong(u8),
    LeaveGame,
    InvalidAction,
}

/// `s` read as a decimal number no greater than `max`, or 0 where it is not one.
pub open spec fn number_or_zero(s: Seq<char>, max: nat) -> nat {
    match parse_unsigned_spec(s, max) {
        Some(v) => v,
        None => 0,
    }
}

/// The command that the verb `verb` with payload `body` stands for.
pub open spec fn action_spec(verb: Seq<char>, body: Seq<char>, a: UserAction) -> bool {
    if verb == "set_username"@ {
        match a {
            UserAction::SetUsername(n) => n@ == body,
            _ => false,
        }
    } else if verb == "new"@ {
        a is NewGame
    } else if verb == "join"@ {
        match a {
            UserAction::JoinGame(id) => id as nat == number_or_zero(body, 0xffff),
            _ => false,
        }
    } else if verb == "ready_up"@ {
        a is ReadyUp
    } else if verb == "unready"@ {
        a is Unready
    } else if verb == "start"@ {
        a is StartGame
    } else if verb == "suggest"@ {
        match a {
            UserAction::GetSuggestions(q) => q@ == body,
            _ => false,
        }
    } else if verb == "add"@ {
        match a {
            UserAction::AddSong(id) => id@ == body,
            _ => false,
        }
    } else if verb == "remove"@ {
        match a {
            UserAction::RemoveSong(i) => i as nat == number_or_zero(body, 0xffff_ffff),
            _ => false,
        }
    } else if verb == "start_guessing"@ {
        a is StartGuessing
    } else if verb == "guess"@ {
        match a {
            UserAction::GuessSong(i) => i as nat == number_or_zero(body, 0xff),
            _ => false,
        }
    } else if verb == "leave"@ {
        a is LeaveGame
    } else {
        a is InvalidAction
    }
}

impl UserAction {
    /// Reads a command from its verb and its payload.
    pub fn from(value: (&str, &str)) -> (r: UserAction)
        ensures
            action_spec(value.0@, value.1@, r),
    {
        let (verb, body) = value;
        if str_eq(verb, "set_username") {
            UserAction::SetUsername(String::from_str(body))
        } else if str_eq(verb, "new") {
            UserAction::NewGame
        } else if str_eq(verb, "join") {
            let id = match parse_unsigned(body, 0xffff) {
                Some(v) => v as u16,
                None => 0,
            };
            UserAction::JoinGame(id)
        } else if str_eq(verb, "ready_up") {
            UserAction::ReadyUp
        } else if str_eq(verb, "unready") {
            UserAction::Unready
        } else if str_eq(verb, "start") {
            UserAction::StartGame
        } else if str_eq(verb, "suggest") {
            UserAction::GetSuggestions(String::from_str(body))
        } else if str_eq(verb, "add") {
            UserAction::AddSong(String::from_str(body))
        } else if str_eq(verb, "remove") {
            let idx = match parse_unsigned(body, 0xffff_ffff) {
                Some(v) => v as u32,
                None => 0,
            };
            UserAction::RemoveSong(idx)
        } else if str_eq(verb, "start_guessing") {
            UserAction::StartGuessing
        } else if str_eq(verb, "guess") {
            let idx = match parse_unsigned(body, 0xff) {
                Some(v) => v as u8,
                None => 0,
            };
            UserAction::GuessSong(idx)
        } else if str_eq(verb, "leave") {
            UserAction::LeaveGame
        } else {
            UserAction::InvalidAction
        }
    }
}

} // verus!
