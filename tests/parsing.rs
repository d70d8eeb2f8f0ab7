use guess_the_song::action::UserAction;
use guess_the_song::text::{parse_unsigned, str_eq, trim_quotes};

#[test]
fn verbs_map_to_actions() {
    assert_eq!(UserAction::from(("set_username", "\"Bob\"")), UserAction::SetUsername("\"Bob\"".to_string()));
    assert_eq!(UserAction::from(("new", "")), UserAction::NewGame);
    assert_eq!(UserAction::from(("join", "42")), UserAction::JoinGame(42));
    assert_eq!(UserAction::from(("join", "abc")), UserAction::JoinGame(0));
    assert_eq!(UserAction::from(("join", "70000")), UserAction::JoinGame(0));
    assert_eq!(UserAction::from(("ready_up", "")), UserAction::ReadyUp);
    assert_eq!(UserAction::from(("unready", "")), UserAction::Unready);
    assert_eq!(UserAction::from(("start", "")), UserAction::StartGame);
    assert_eq!(UserAction::from(("suggest", "abba")), UserAction::GetSuggestions("abba".to_string()));
    assert_eq!(UserAction::from(("add", "PL123")), UserAction::AddSong("PL123".to_string()));
    assert_eq!(UserAction::from(("remove", "3")), UserAction::RemoveSong(3));
    assert_eq!(UserAction::from(("start_guessing", "")), UserAction::StartGuessing);
    assert_eq!(UserAction::from(("guess", "2")), UserAction::GuessSong(2));
    assert_eq!(UserAction::from(("guess", "256")), UserAction::GuessSong(0));
    assert_eq!(UserAction::from(("leave", "")), UserAction::LeaveGame);
    assert_eq!(UserAction::from(("dance", "")), UserAction::InvalidAction);
}

#[test]
fn unsigned_parsing() {
    assert_eq!(parse_unsigned("0", 10), Some(0));
    assert_eq!(parse_unsigned("+7", 10), Some(7));
    assert_eq!(parse_unsigned("10", 10), Some(10));
    assert_eq!(parse_unsigned("11", 10), None);
    assert_eq!(parse_unsigned("", 10), None);
    assert_eq!(parse_unsigned("+", 10), None);
    assert_eq!(parse_unsigned("-1", 10), None);
    assert_eq!(parse_unsigned("1a", 10), None);
    assert_eq!(parse_unsigned("65535", 65535), Some(65535));
    assert_eq!(parse_unsigned("18446744073709551615", u64::MAX), Some(u64::MAX));
    assert_eq!(parse_unsigned("18446744073709551616", u64::MAX), None);
}

#[test]
fn quote_trimming() {
    assert_eq!(trim_quotes("\"Bob\""), "Bob");
    assert_eq!(trim_quotes("\"\"Bob\""), "Bob");
    assert_eq!(trim_quotes("Bo\"b"), "Bo\"b");
    assert_eq!(trim_quotes("\"\"\""), "");
    assert_eq!(trim_quotes(""), "");
    assert_eq!(trim_quotes("é\"ü"), "é\"ü");
}

#[test]
fn string_equality() {
    assert!(str_eq("join", "join"));
    assert!(!str_eq("join", "joi"));
    assert!(!str_eq("join", "joim"));
    assert!(str_eq("", ""));
}
