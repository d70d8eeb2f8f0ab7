use guess_the_song::action::UserAction;
use guess_the_song::game::{GameStatus, PlayPhase};
use guess_the_song::message::{Outgoing, ServerMessage};
use guess_the_song::round::RoundEngine;
use guess_the_song::dispatch::{Effect, Reply};
use guess_the_song::server::GameServer;
use guess_the_song::song::{OneOrMoreSongs, Song};

const A: u32 = 1;
const B: u32 = 2;

fn server_with(names: &[(u32, &str)]) -> GameServer {
    let mut s = GameServer::new(2000);
    for (id, name) in names {
        assert!(s.connect(*id, name.to_string()));
    }
    s
}

fn act(s: &mut GameServer, uid: u32, action: UserAction) -> Reply {
    s.handle_user_msg(action, uid, 1_000)
}

fn err(text: &str) -> ServerMessage {
    ServerMessage::Error(text.to_string())
}

fn to_one(uid: u32, msg: ServerMessage) -> Outgoing {
    Outgoing { to: vec![uid], msg }
}

fn song(id: &str, title: &str, artist: &str) -> Song {
    Song { id: id.to_string(), title: title.to_string(), artist: artist.to_string() }
}

fn room_of(s: &GameServer, uid: u32) -> Option<u16> {
    s.users.iter().find(|u| u.id == uid).and_then(|u| u.game_id)
}

fn two_in_room_42() -> GameServer {
    let mut s = server_with(&[(A, "A"), (B, "B")]);
    let out = s.new_game_with_id(A, 42);
    assert_eq!(out, vec![to_one(A, ServerMessage::GameCreated(42))]);
    let r = act(&mut s, B, UserAction::JoinGame(42));
    assert_eq!(
        r.out,
        vec![
            Outgoing { to: vec![A], msg: ServerMessage::UserJoin("B".to_string()) },
            to_one(B, ServerMessage::UserJoin("A".to_string())),
        ]
    );
    s
}

#[test]
fn scenario_two_players_join_and_ready() {
    let mut s = two_in_room_42();
    let r = act(&mut s, A, UserAction::ReadyUp);
    assert_eq!(
        r.out,
        vec![
            Outgoing { to: vec![A, B], msg: ServerMessage::UserReady("A".to_string()) },
            to_one(A, ServerMessage::ServerAck),
        ]
    );
    assert!(matches!(r.effect, Effect::Nothing));
    let r = act(&mut s, B, UserAction::ReadyUp);
    assert_eq!(
        r.out,
        vec![
            Outgoing { to: vec![A, B], msg: ServerMessage::UserReady("B".to_string()) },
            Outgoing { to: vec![A, B], msg: ServerMessage::GameStartAt(3_000) },
            to_one(B, ServerMessage::ServerAck),
        ]
    );
    assert!(matches!(r.effect, Effect::Countdown { game_id: 42, at_ms: 3_000 }));
    let out = s.start_if_all_ready(42);
    assert_eq!(out, vec![Outgoing { to: vec![A, B], msg: ServerMessage::GameStartSelect }]);
    assert!(matches!(s.games[0].state, GameStatus::Playing(PlayPhase::SelectingSongs(_))));
}

#[test]
fn countdown_is_void_after_unready() {
    let mut s = two_in_room_42();
    act(&mut s, A, UserAction::ReadyUp);
    act(&mut s, B, UserAction::ReadyUp);
    let r = act(&mut s, B, UserAction::Unready);
    assert_eq!(
        r.out,
        vec![
            Outgoing { to: vec![A, B], msg: ServerMessage::UserUnready("B".to_string()) },
            to_one(B, ServerMessage::ServerAck),
        ]
    );
    assert!(s.start_if_all_ready(42).is_empty());
    assert!(matches!(s.games[0].state, GameStatus::Lobby(1)));
}

fn selecting_room() -> GameServer {
    let mut s = two_in_room_42();
    act(&mut s, A, UserAction::ReadyUp);
    act(&mut s, B, UserAction::ReadyUp);
    s.start_if_all_ready(42);
    s
}

#[test]
fn scenario_add_song_then_start_guessing() {
    let mut s = selecting_room();
    let r = act(&mut s, A, UserAction::AddSong("dQw4w9WgXcQ".to_string()));
    assert_eq!(r.out, vec![to_one(A, ServerMessage::ServerAck)]);
    match r.effect {
        Effect::Download { game_id, source_id } => {
            assert_eq!(game_id, 42);
            assert_eq!(source_id, "dQw4w9WgXcQ");
        }
        other => panic!("unexpected effect {:?}", other),
    }
    let out = s.add_songs(A, 42, OneOrMoreSongs::One(song("dQw4w9WgXcQ", "Never", "Rick")));
    assert_eq!(out, vec![to_one(A, ServerMessage::AddedSong(song("dQw4w9WgXcQ", "Never", "Rick")))]);
    let r = act(&mut s, A, UserAction::StartGuessing);
    assert_eq!(r.out, vec![Outgoing { to: vec![A, B], msg: ServerMessage::GameStartGuessing }]);
    match r.effect {
        Effect::StartRounds(st) => {
            assert_eq!(st.game_id, 42);
            assert_eq!(st.players, vec![A, B]);
            assert_eq!(st.names, vec!["A".to_string(), "B".to_string()]);
            assert_eq!(st.songs.len(), 1);
            assert_eq!(st.songs[0].title, "Never");
        }
        other => panic!("unexpected effect {:?}", other),
    }
    let r = act(&mut s, B, UserAction::GuessSong(2));
    assert!(r.out.is_empty());
    assert!(matches!(r.effect, Effect::Guess { game_id: 42, index: 2 }));
    let out = s.end_game(42);
    assert_eq!(out, vec![Outgoing { to: vec![A, B], msg: ServerMessage::GameEnded }]);
    assert!(matches!(s.games[0].state, GameStatus::Lobby(0)));
}

#[test]
fn scenario_leave_and_rejoin_removed_room() {
    let mut s = two_in_room_42();
    let r = act(&mut s, B, UserAction::LeaveGame);
    assert_eq!(r.out, vec![Outgoing { to: vec![A, B], msg: ServerMessage::UserLeave("B".to_string()) }]);
    let r = act(&mut s, A, UserAction::LeaveGame);
    assert_eq!(r.out, vec![Outgoing { to: vec![A], msg: ServerMessage::UserLeave("A".to_string()) }]);
    assert!(s.games.is_empty());
    let r = act(&mut s, B, UserAction::JoinGame(42));
    assert_eq!(r.out, vec![to_one(B, ServerMessage::GameNotFound)]);
    assert_eq!(room_of(&s, B), None);
}

#[test]
fn scenario_non_host_cannot_start_guessing() {
    let mut s = selecting_room();
    let r = act(&mut s, B, UserAction::StartGuessing);
    assert_eq!(r.out, vec![to_one(B, err("cannot start guessing: you are not the leader"))]);
    assert!(matches!(s.games[0].state, GameStatus::Playing(PlayPhase::SelectingSongs(_))));
}

#[test]
fn scenario_disconnect_of_last_player_removes_room() {
    let mut s = selecting_room();
    act(&mut s, A, UserAction::StartGuessing);
    let out = s.disconnect(B);
    assert_eq!(out, vec![Outgoing { to: vec![A, B], msg: ServerMessage::UserLeave("B".to_string()) }]);
    let out = s.disconnect(A);
    assert_eq!(out, vec![Outgoing { to: vec![A], msg: ServerMessage::UserLeave("A".to_string()) }]);
    assert!(s.games.is_empty());
    assert!(s.end_game(42).is_empty());
}

#[test]
fn set_username_twice_is_no_op() {
    let mut s = server_with(&[(A, "A")]);
    let r = act(&mut s, A, UserAction::SetUsername("\"Zoe\"".to_string()));
    assert_eq!(r.out, vec![to_one(A, ServerMessage::ServerAck)]);
    assert_eq!(s.users[0].name, "Zoe");
    act(&mut s, A, UserAction::SetUsername("\"Zoe\"".to_string()));
    assert_eq!(s.users[0].name, "Zoe");
    assert_eq!(s.users.len(), 1);
}

#[test]
fn leave_outside_room_sends_nothing() {
    let mut s = server_with(&[(A, "A")]);
    let r = act(&mut s, A, UserAction::LeaveGame);
    assert!(r.out.is_empty());
    assert!(s.games.is_empty());
}

#[test]
fn join_while_in_room_leaves_old_room_first() {
    let mut s = server_with(&[(A, "A"), (B, "B")]);
    s.new_game_with_id(A, 7);
    s.new_game_with_id(B, 8);
    let r = act(&mut s, B, UserAction::JoinGame(7));
    assert_eq!(
        r.out,
        vec![
            Outgoing { to: vec![B], msg: ServerMessage::UserLeave("B".to_string()) },
            Outgoing { to: vec![A], msg: ServerMessage::UserJoin("B".to_string()) },
            to_one(B, ServerMessage::UserJoin("A".to_string())),
        ]
    );
    assert_eq!(s.games.len(), 1);
    assert_eq!(s.games[0].players, vec![A, B]);
    assert_eq!(room_of(&s, B), Some(7));
}

#[test]
fn join_unknown_room_is_not_found() {
    let mut s = server_with(&[(A, "A")]);
    let r = act(&mut s, A, UserAction::JoinGame(9));
    assert_eq!(r.out, vec![to_one(A, ServerMessage::GameNotFound)]);
}

#[test]
fn join_room_not_in_lobby_is_refused() {
    let mut s = selecting_room();
    assert!(s.connect(3, "C".to_string()));
    let r = act(&mut s, 3, UserAction::JoinGame(42));
    assert_eq!(r.out, vec![to_one(3, err("cannot join game: game is not in lobby state"))]);
    assert_eq!(room_of(&s, 3), None);
}

#[test]
fn ready_outside_room_is_an_error() {
    let mut s = server_with(&[(A, "A")]);
    let r = act(&mut s, A, UserAction::ReadyUp);
    assert_eq!(r.out, vec![to_one(A, err("cannot ready up: not in a game"))]);
    let r = act(&mut s, A, UserAction::Unready);
    assert_eq!(r.out, vec![to_one(A, err("cannot unready: not in a game"))]);
}

#[test]
fn ready_and_unready_state_errors() {
    let mut s = selecting_room();
    let r = act(&mut s, A, UserAction::ReadyUp);
    assert_eq!(r.out, vec![to_one(A, err("cannot ready up: game is not in lobby state"))]);
    let r = act(&mut s, A, UserAction::Unready);
    assert_eq!(r.out, vec![to_one(A, err("cannot unready: game is not in lobby state"))]);
    let mut t = two_in_room_42();
    let r = act(&mut t, A, UserAction::Unready);
    assert_eq!(r.out, vec![to_one(A, err("cannot unready: no one is ready"))]);
    act(&mut t, A, UserAction::ReadyUp);
    let r = act(&mut t, A, UserAction::ReadyUp);
    assert_eq!(r.out, vec![to_one(A, ServerMessage::ServerAck)]);
    assert!(matches!(t.games[0].state, GameStatus::Lobby(1)));
}

#[test]
fn unready_by_player_not_ready_still_lowers_count() {
    let mut t = two_in_room_42();
    act(&mut t, A, UserAction::ReadyUp);
    let r = act(&mut t, B, UserAction::Unready);
    assert_eq!(
        r.out,
        vec![
            Outgoing { to: vec![A, B], msg: ServerMessage::UserUnready("B".to_string()) },
            to_one(B, ServerMessage::ServerAck),
        ]
    );
    assert!(matches!(t.games[0].state, GameStatus::Lobby(0)));
    assert!(t.games[0].ready.is_empty());
}

#[test]
fn non_host_during_guessing_is_not_the_leader() {
    let mut s = selecting_room();
    act(&mut s, A, UserAction::StartGuessing);
    let r = act(&mut s, B, UserAction::StartGuessing);
    assert_eq!(r.out, vec![to_one(B, err("cannot start guessing: you are not the leader"))]);
    let r = act(&mut s, A, UserAction::StartGuessing);
    assert_eq!(r.out, vec![to_one(A, err("cannot start guessing: game is not in song selection state"))]);
}

#[test]
fn leaving_keeps_join_order() {
    let mut s = server_with(&[(A, "A"), (B, "B"), (3, "C")]);
    s.new_game_with_id(A, 42);
    act(&mut s, B, UserAction::JoinGame(42));
    act(&mut s, 3, UserAction::JoinGame(42));
    act(&mut s, B, UserAction::ReadyUp);
    act(&mut s, A, UserAction::LeaveGame);
    assert_eq!(s.games[0].players, vec![B, 3]);
    assert!(matches!(s.games[0].state, GameStatus::Lobby(1)));
}

#[test]
fn new_game_after_leaving_own_room() {
    let mut s = server_with(&[(A, "A")]);
    s.new_game_with_id(A, 9);
    let r = act(&mut s, A, UserAction::NewGame);
    assert_eq!(s.games.len(), 1);
    let id = s.games[0].id;
    assert_eq!(
        r.out,
        vec![
            Outgoing { to: vec![A], msg: ServerMessage::UserLeave("A".to_string()) },
            to_one(A, ServerMessage::GameCreated(id)),
        ]
    );
    assert!(matches!(s.games[0].state, GameStatus::Lobby(0)));
}

#[test]
fn leaving_ready_player_lowers_count() {
    let mut s = two_in_room_42();
    act(&mut s, B, UserAction::ReadyUp);
    act(&mut s, B, UserAction::LeaveGame);
    assert!(matches!(s.games[0].state, GameStatus::Lobby(0)));
    assert!(s.games[0].ready.is_empty());
}

#[test]
fn song_commands_outside_selection() {
    let mut s = two_in_room_42();
    let r = act(&mut s, A, UserAction::AddSong("x".to_string()));
    assert_eq!(r.out, vec![to_one(A, err("cannot add song: game is not in song selection state"))]);
    let r = act(&mut s, A, UserAction::RemoveSong(0));
    assert_eq!(r.out, vec![to_one(A, err("cannot remove song: game is not in song selection state"))]);
    let r = act(&mut s, A, UserAction::StartGuessing);
    assert_eq!(r.out, vec![to_one(A, err("cannot start guessing: game is not in song selection state"))]);
    let r = act(&mut s, A, UserAction::GuessSong(0));
    assert_eq!(r.out, vec![to_one(A, err("cannot guess song: game is not in guessing state"))]);
    let mut lone = server_with(&[(A, "A")]);
    let r = act(&mut lone, A, UserAction::AddSong("x".to_string()));
    assert_eq!(r.out, vec![to_one(A, err("cannot add song: not in a game"))]);
    let r = act(&mut lone, A, UserAction::RemoveSong(0));
    assert_eq!(r.out, vec![to_one(A, err("cannot remove song: not in a game"))]);
    let r = act(&mut lone, A, UserAction::StartGuessing);
    assert_eq!(r.out, vec![to_one(A, err("cannot start guessing: not in a game"))]);
    let r = act(&mut lone, A, UserAction::GuessSong(1));
    assert_eq!(r.out, vec![to_one(A, err("cannot guess song: not in a game"))]);
}

#[test]
fn remove_song_by_index() {
    let mut s = selecting_room();
    let many: Vec<Song> = (0..35).map(|i| song(&format!("id{}", i), &format!("t{}", i), "a")).collect();
    let out = s.add_songs(B, 42, OneOrMoreSongs::More(many));
    assert_eq!(out.len(), 35);
    let r = act(&mut s, B, UserAction::RemoveSong(35));
    assert_eq!(r.out, vec![to_one(B, err("cannot remove song: index out of bounds"))]);
    let r = act(&mut s, A, UserAction::RemoveSong(0));
    assert_eq!(r.out, vec![to_one(A, err("cannot remove song: index out of bounds"))]);
    let r = act(&mut s, B, UserAction::RemoveSong(3));
    assert_eq!(r.out, vec![to_one(B, ServerMessage::RemovedSong(3))]);
    match &s.games[0].state {
        GameStatus::Playing(PlayPhase::SelectingSongs(b)) => {
            assert_eq!(b.len(), 1);
            assert_eq!(b[0].owner, B);
            assert_eq!(b[0].songs.len(), 34);
            assert_eq!(b[0].songs[3].id, "id4");
        }
        _ => panic!("not selecting"),
    }
}

#[test]
fn late_download_is_dropped() {
    let mut s = two_in_room_42();
    let out = s.add_songs(A, 42, OneOrMoreSongs::One(song("v", "t", "a")));
    assert!(out.is_empty());
    assert!(matches!(s.games[0].state, GameStatus::Lobby(0)));
}

#[test]
fn invalid_and_reserved_verbs_are_errors() {
    let mut s = server_with(&[(A, "A")]);
    let r = act(&mut s, A, UserAction::InvalidAction);
    assert_eq!(r.out, vec![to_one(A, err("Invalid Action"))]);
    let r = act(&mut s, A, UserAction::StartGame);
    assert_eq!(r.out, vec![to_one(A, err("Invalid Action"))]);
    let r = act(&mut s, A, UserAction::GetSuggestions("abba".to_string()));
    assert!(r.out.is_empty());
    assert!(matches!(r.effect, Effect::Suggest(q) if q == "abba"));
}

#[test]
fn new_game_creates_room_with_host() {
    let mut s = server_with(&[(A, "A")]);
    let r = act(&mut s, A, UserAction::NewGame);
    assert_eq!(s.games.len(), 1);
    let id = s.games[0].id;
    assert_eq!(r.out, vec![to_one(A, ServerMessage::GameCreated(id))]);
    assert_eq!(s.games[0].players, vec![A]);
    assert_eq!(room_of(&s, A), Some(id));
}

#[test]
fn connect_refuses_taken_id() {
    let mut s = server_with(&[(A, "A")]);
    assert!(!s.connect(A, "other".to_string()));
    assert_eq!(s.users.len(), 1);
}

#[test]
fn start_delay_saturates() {
    let mut s = GameServer::new(5);
    s.connect(A, "A".to_string());
    s.new_game_with_id(A, 1);
    let r = s.handle_user_msg(UserAction::ReadyUp, A, u128::MAX - 1);
    assert!(matches!(r.effect, Effect::Countdown { game_id: 1, at_ms: u128::MAX }));
}

#[test]
fn scenario_one_song_round_scores_host() {
    let mut s = selecting_room();
    s.add_songs(A, 42, OneOrMoreSongs::One(song("vid", "Song", "Band")));
    let r = act(&mut s, A, UserAction::StartGuessing);
    let st = match r.effect {
        Effect::StartRounds(st) => st,
        other => panic!("unexpected effect {:?}", other),
    };
    let mut e = RoundEngine::new(st.game_id, st.players, st.names, st.songs);
    assert!(e.has_next_round());
    let msgs = e.begin_round();
    assert_eq!(msgs[0], ServerMessage::GamePlayAudio("vid".to_string()));
    assert_eq!(msgs[1], ServerMessage::GameGuessOptions(vec![("Song".to_string(), "Band".to_string())]));
    let r = act(&mut s, A, UserAction::GuessSong(e.correct_idx));
    assert!(matches!(r.effect, Effect::Guess { game_id: 42, .. }));
    assert!(e.take_guess(A, e.correct_idx, 0));
    let msgs = e.end_round();
    assert_eq!(msgs[0], ServerMessage::Correct(0));
    assert_eq!(msgs[1], ServerMessage::LeaderBoard(vec![("A".to_string(), 33)]));
    assert!(!e.has_next_round());
    let out = s.end_game(42);
    assert_eq!(out, vec![Outgoing { to: vec![A, B], msg: ServerMessage::GameEnded }]);
}

#[test]
fn join_full_room_is_refused() {
    let mut s = GameServer::new(2000);
    for id in 1..=256u32 {
        assert!(s.connect(id, format!("P{}", id)));
    }
    s.new_game_with_id(1, 5);
    for id in 2..=255u32 {
        act(&mut s, id, UserAction::JoinGame(5));
    }
    assert_eq!(s.games[0].players.len(), 255);
    let r = act(&mut s, 256, UserAction::JoinGame(5));
    assert_eq!(r.out, vec![to_one(256, err("cannot join game: game is full"))]);
    assert_eq!(room_of(&s, 256), None);
}
