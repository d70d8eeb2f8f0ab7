use vstd::prelude::*;
use crate::action::UserAction;
use crate::message::{error_msg, outbox_view, MsgView, Outgoing};
use crate::lobby::{ready_post, unready_post};
use crate::selection::{add_check_post, guess_check_post, remove_post, start_guessing_post, RoundStart};
use crate::server::{create_post, join_post, leave_post, reply_only, GameServer};

verus! {

/// Work that a command leaves for outside the server.
#[derive(Debug)]
pub enum Effect {
    Nothing,
    /// At `at_ms`, `start_if_all_ready(game_id)` is to be called.
    Countdown { game_id: u16, at_ms: u128 },
    /// Suggestions for the query are to be fetched for the user.
    Suggest(String),
    /// The source id is to be resolved and its songs handed to
    /// `add_songs(user, game_id, ..)`.
    Download { game_id: u16, source_id: String },
    /// A round engine is to run the rounds.
    StartRounds(RoundStart),
    /// The guess is to be handed to the round engine of the room.
    Guess { game_id: u16, index: u8 },
}

/// What a command produces: messages now, and work for later.
#[derive(Debug)]
pub struct Reply {
    pub out: Vec<Outgoing>,
    pub effect: Effect,
}

/// The time that a countdown effect is due at.
pub open spec fn countdown_of(e: Effect) -> Option<u128> {
    match e {
        Effect::Countdown { at_ms, .. } => Some(at_ms),
        _ => None,
    }
}

/// The room that a download or a guess effect is for.
pub open spec fn room_of_effect(e: Effect) -> Option<u16> {
    match e {
        Effect::Countdown { game_id, .. } => Some(game_id),
        Effect::Download { game_id, .. } => Some(game_id),
        Effect::Guess { game_id, .. } => Some(game_id),
        _ => None,
    }
}

/// What a start-of-rounds effect hands the round engine.
pub open spec fn start_of(e: Effect) -> Option<RoundStart> {
    match e {
        Effect::StartRounds(st) => Some(st),
        _ => None,
    }
}

impl GameServer {
    /// Carries out `action` for user `uid` at time `now_ms`.
    pub fn handle_user_msg(&mut self, action: UserAction, uid: u32, now_ms: u128) -> (r: Reply)
        requires
            old(self).wf(),
            old(self).has_user(uid),
        ensures
            final(self).wf(),
            final(self).has_user(uid),
            final(self).start_delay_ms == old(self).start_delay_ms,
            match action {
                UserAction::SetUsername(name) => {
                    &&& final(self).renamed_from(*old(self), uid, name@)
                    &&& outbox_view(r.out@) == seq![(seq![uid], MsgView::ServerAck)]
                    &&& r.effect is Nothing
                },
                UserAction::NewGame => create_post(*old(self), *final(self), uid, r.out@)
                    && r.effect is Nothing,
                UserAction::JoinGame(gid) => join_post(*old(self), *final(self), uid, gid, r.out@)
                    && r.effect is Nothing,
                UserAction::ReadyUp => {
                    &&& ready_post(*old(self), *final(self), uid, now_ms, r.out@, countdown_of(r.effect))
                    &&& (r.effect is Nothing || (r.effect is Countdown && room_of_effect(r.effect)
                        == old(self).game_of(uid)))
                },
                UserAction::Unready => unready_post(*old(self), *final(self), uid, r.out@)
                    && r.effect is Nothing,
                UserAction::GetSuggestions(q) => *final(self) == *old(self) && r.out@.len() == 0
                    && (r.effect matches Effect::Suggest(e) && e@ == q@),
                UserAction::AddSong(source) => {
                    &&& *final(self) == *old(self)
                    &&& add_check_post(*old(self), uid, r.out@, room_of_effect(r.effect))
                    &&& (r.effect is Nothing || (r.effect matches Effect::Download { source_id, .. }
                        && source_id@ == source@))
                },
                UserAction::RemoveSong(idx) => remove_post(*old(self), *final(self), uid, idx, r.out@)
                    && r.effect is Nothing,
                UserAction::StartGuessing => {
                    &&& start_guessing_post(*old(self), *final(self), uid, r.out@, start_of(r.effect))
                    &&& (r.effect is Nothing || r.effect is StartRounds)
                },
                UserAction::GuessSong(i) => {
                    &&& *final(self) == *old(self)
                    &&& guess_check_post(*old(self), uid, r.out@, room_of_effect(r.effect))
                    &&& (r.effect is Nothing || (r.effect matches Effect::Guess { index, .. } && index == i))
                },
                UserAction::LeaveGame => leave_post(*old(self), *final(self), uid, r.out@)
                    && r.effect is Nothing,
                UserAction::StartGame | UserAction::InvalidAction => *final(self) == *old(self)
                    && outbox_view(r.out@) == seq![(seq![uid], MsgView::Error("Invalid Action"@))]
                    && r.effect is Nothing,
            },
    {
        match action {
            UserAction::SetUsername(name) => {
                let out = self.set_username(uid, name.as_str());
                Reply { out, effect: Effect::Nothing }
            },
            UserAction::NewGame => {
                let out = self.create_game(uid);
                Reply { out, effect: Effect::Nothing }
            },
            UserAction::JoinGame(gid) => {
                let out = self.join_game(uid, gid);
                Reply { out, effect: Effect::Nothing }
            },
            UserAction::ReadyUp => {
                let (out, countdown) = self.ready(uid, now_ms);
                let effect = match (countdown, self.locate(uid)) {
                    (Some(at_ms), Some(k)) => Effect::Countdown { game_id: self.games[k].id, at_ms },
                    _ => Effect::Nothing,
                };
                Reply { out, effect }
            },
            UserAction::Unready => {
                let out = self.unready(uid);
                Reply { out, effect: Effect::Nothing }
            },
            UserAction::GetSuggestions(query) => Reply { out: Vec::new(), effect: Effect::Suggest(query) },
            UserAction::AddSong(source_id) => {
                let (out, room) = self.check_add_song(uid);
                let effect = match room {
                    Some(game_id) => Effect::Download { game_id, source_id },
                    None => Effect::Nothing,
                };
                Reply { out, effect }
            },
            UserAction::RemoveSong(idx) => {
                let out = self.remove_song(uid, idx);
                Reply { out, effect: Effect::Nothing }
            },
            UserAction::StartGuessing => {
                let (out, start) = self.start_guessing(uid);
                let effect = match start {
                    Some(st) => Effect::StartRounds(st),
                    None => Effect::Nothing,
                };
                Reply { out, effect }
            },
            UserAction::GuessSong(index) => {
                let (out, room) = self.check_guess(uid);
                let effect = match room {
                    Some(game_id) => Effect::Guess { game_id, index },
                    None => Effect::Nothing,
                };
                Reply { out, effect }
            },
            UserAction::LeaveGame => {
                let out = self.leave_current(uid);
                Reply { out, effect: Effect::Nothing }
            },
            _ => Reply { out: reply_only(uid, error_msg("Invalid Action")), effect: Effect::Nothing },
        }
    }
}

} // verus!
