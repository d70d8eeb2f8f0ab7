use vstd::prelude::*;
use crate::song::Song;

verus! {

/// One entry of a suggestion list.
#[derive(Clone, Debug, PartialEq, Eq)]
pub struct SearchResult {
    pub name: String,
    pub id: String,
    /// `video`, `channel` or `playlist`.
    pub kind: String,
}

/// What the server tells a client.
#[derive(Clone, Debug, PartialEq)]
pub enum ServerMessage {
    ServerAck,
    Error(String),
    GameCreated(u16),
    GameNotFound,
    UserJoin(String),
    UserLeave(String),
    UserReady(String),
    UserUnready(String),
    GameStartAt(u128),
    GameStartSelect,
    Suggestion(Vec<SearchResult>),
    AddedSong(Song),
    RemovedSong(u32),
    GameStartGuessing,
    GamePlayAudio(String),
    GameGuessOptions(Vec<(String, String)>),
    LeaderBoard(Vec<(String, usize)>),
    Correct(u8),
    GameEnded,
}

/// The contents of a `ServerMessage`, with text as character sequences.
pub enum MsgView {
    ServerAck,
    Error(Seq<char>),
    GameCreated(u16),
    GameNotFound,
    UserJoin(Seq<char>),
    UserLeave(Seq<char>),
    UserReady(Seq<char>),
    UserUnready(Seq<char>),
    GameStartAt(u128),
    GameStartSelect,
    Suggestion(Seq<(Seq<char>, Seq<char>, Seq<char>)>),
    AddedSong(Seq<char>, Seq<char>, Seq<char>),
    RemovedSong(u32),
    GameStartGuessing,
    GamePlayAudio(Seq<char>),
    GameGuessOptions(Seq<(Seq<char>, Seq<char>)>),
    LeaderBoard(Seq<(Seq<char>, usize)>),
    Correct(u8),
    GameEnded,
}

impl View for ServerMessage {
    type V = MsgView;

    open spec fn view(&self) -> MsgView {
        match self {
            ServerMessage::ServerAck => MsgView::ServerAck,
            ServerMessage::Error(s) => MsgView::Error(s@),
            ServerMessage::GameCreated(id) => MsgView::GameCreated(*id),
            ServerMessage::GameNotFound => MsgView::GameNotFound,
            ServerMessage::UserJoin(s) => MsgView::UserJoin(s@),
            ServerMessage::UserLeave(s) => MsgView::UserLeave(s@),
            ServerMessage::UserReady(s) => MsgView::UserReady(s@),
            ServerMessage::UserUnready(s) => MsgView::UserUnready(s@),
            ServerMessage::GameStartAt(t) => MsgView::GameStartAt(*t),
            ServerMessage::GameStartSelect => MsgView::GameStartSelect,
            ServerMessage::Suggestion(v) => MsgView::Suggestion(
                v@.map_values(|r: SearchResult| (r.name@, r.id@, r.kind@)),
            ),
            ServerMessage::AddedSong(s) => MsgView::AddedSong(s.id@, s.title@, s.artist@),
            ServerMessage::RemovedSong(i) => MsgView::RemovedSong(*i),
            ServerMessage::GameStartGuessing => MsgView::GameStartGuessing,
            ServerMessage::GamePlayAudio(s) => MsgView::GamePlayAudio(s@),
            ServerMessage::GameGuessOptions(v) => MsgView::GameGuessOptions(
                v@.map_values(|p: (String, String)| (p.0@, p.1@)),
            ),
            ServerMessage::LeaderBoard(v) => MsgView::LeaderBoard(
                v@.map_values(|p: (String, usize)| (p.0@, p.1)),
            ),
            ServerMessage::Correct(i) => MsgView::Correct(*i),
            ServerMessage::GameEnded => MsgView::GameEnded,
        }
    }
}

/// A message together with the users it goes to, in order.
#[derive(Debug, PartialEq)]
pub struct Outgoing {
    pub to: Vec<u32>,
    pub msg: ServerMessage,
}

/// The contents of an outbox: for each message, its recipients and contents.
pub open spec fn outbox_view(v: Seq<Outgoing>) -> Seq<(Seq<u32>, MsgView)> {
    v.map_values(|o: Outgoing| (o.to@, o.msg@))
}

/// An error message carrying `text`.
pub fn error_msg(text: &str) -> (r: ServerMessage)
    ensures
        r@ == MsgView::Error(text@),
{
    ServerMessage::Error(String::from_str(text))
}

} // verus!
