use vstd::prelude::*;
use crate::game::{all_in, buckets_of, contains_id, copy_ids, remove_id, GameStatus, PlayPhase};
use crate::message::{error_msg, outbox_view, MsgView, Outgoing, ServerMessage};
use crate::server::{reply, reply_only, GameServer};

verus! {

/// `a + b`, or the largest `u128` where that sum does not fit.
pub open spec fn saturating_sum(a: u128, b: u64) -> u128 {
    if a as int + b as int > u128::MAX as int {
        u128::MAX
    } else {
        (a + b) as u128
    }
}

impl GameServer {
    /// Marks user `uid` ready. When that makes every player of its room
    /// ready, the players are told when song selection starts, and that time
    /// is returned so that the start can be checked then.
    pub fn ready(&mut self, uid: u32, now_ms: u128) -> (r: (Vec<Outgoing>, Option<u128>))
        requires
            old(self).wf(),
        ensures
            ready_post(*old(self), *final(self), uid, now_ms, r.0@, r.1),
    {
        let k = match self.locate(uid) {
            None => return (reply_only(uid, error_msg("cannot ready up: not in a game")), None),
            Some(k) => k,
        };
        if let GameStatus::Playing(_) = self.games[k].state {
            return (
                reply_only(uid, error_msg("cannot ready up: game is not in lobby state")),
                None,
            );
        }
        if contains_id(&self.games[k].ready, uid) {
            return (reply_only(uid, ServerMessage::ServerAck), None);
        }
        let ghost old_self = *self;
        let ghost room = self.games@[k as int];
        let name = self.name_clone(uid);
        let mut out: Vec<Outgoing> = Vec::new();
        out.push(Outgoing { to: copy_ids(&self.games[k].players), msg: ServerMessage::UserReady(name) });
        let mut g = self.games.remove(k);
        g.ready.push(uid);
        proof {
            assert(all_in(g.ready@, g.players@)) by {
                assert forall|x: u32| g.ready@.contains(x) implies g.players@.contains(x) by {
                    if x != uid {
                        let q = choose|q: int| 0 <= q < g.ready@.len() && g.ready@[q] == x;
                        assert(room.ready@[q] == x);
                    }
                }
            }
            crate::game::lemma_len_all_in(g.ready@, g.players@);
        }
        g.state = GameStatus::Lobby(g.ready.len() as u8);
        let all = g.ready.len() == g.players.len();
        let to = copy_ids(&g.players);
        let ghost new_room = g;
        self.games.insert(k, g);
        proof {
            assert(self.games@ =~= old_self.games@.update(k as int, new_room));
            self.lemma_room_replaced(old_self, k as int, new_room);
        }
        let mut countdown: Option<u128> = None;
        if all {
            let at: u128 = if now_ms > u128::MAX - self.start_delay_ms as u128 {
                u128::MAX
            } else {
                now_ms + self.start_delay_ms as u128
            };
            out.push(Outgoing { to, msg: ServerMessage::GameStartAt(at) });
            countdown = Some(at);
        }
        out.push(reply(uid, ServerMessage::ServerAck));
        proof {
            let n = *self;
            assert(n.wf());
            assert(forall|x: u32| #[trigger] n.game_of(x) == old_self.game_of(x));
            assert(n.other_rooms_kept(old_self, room.id));
            assert(old_self.game_of(uid) == Some(room.id));
            assert(old_self.room(room.id) == room);
            assert(n.room(room.id).ready@ == room.ready@.push(uid));
            assert(n.room(room.id).players@ == room.players@);
            assert(n.room(room.id).state == GameStatus::Lobby((room.ready@.len() + 1) as u8));
            let all = room.ready@.len() + 1 == room.players@.len();
            let at = saturating_sum(now_ms, old_self.start_delay_ms);
            assert(countdown == if all { Some(at) } else { None });
            assert(outbox_view(out@) == seq![(room.players@, MsgView::UserReady(old_self.name_of(uid)))]
                + (if all { seq![(room.players@, MsgView::GameStartAt(at))] } else { seq![] })
                + seq![(seq![uid], MsgView::ServerAck)]);
        }
        (out, countdown)
    }
}

impl GameServer {
    /// Lowers the ready count of the room of user `uid` by one: the user's
    /// own ready mark is taken back, or, where the user is not ready, the
    /// mark given last.
    pub fn unready(&mut self, uid: u32) -> (out: Vec<Outgoing>)
        requires
            old(self).wf(),
        ensures
            unready_post(*old(self), *final(self), uid, out@),
    {
        let k = match self.locate(uid) {
            None => return reply_only(uid, error_msg("cannot unready: not in a game")),
            Some(k) => k,
        };
        if let GameStatus::Playing(_) = self.games[k].state {
            return reply_only(uid, error_msg("cannot unready: game is not in lobby state"));
        }
        if self.games[k].ready.len() == 0 {
            return reply_only(uid, error_msg("cannot unready: no one is ready"));
        }
        let ghost old_self = *self;
        let caller_ready = contains_id(&self.games[k].ready, uid);
        let name = self.name_clone(uid);
        let to = copy_ids(&self.games[k].players);
        let mut g = self.games.remove(k);
        if caller_ready {
            remove_id(&mut g.ready, uid);
        } else {
            let ghost before = g.ready@;
            let _ = g.ready.pop();
            proof {
                assert forall|x: u32| g.ready@.contains(x) implies before.contains(x) by {
                    let q = choose|q: int| 0 <= q < g.ready@.len() && g.ready@[q] == x;
                    assert(before[q] == x);
                }
            }
        }
        g.state = GameStatus::Lobby(g.ready.len() as u8);
        let ghost new_room = g;
        self.games.insert(k, g);
        proof {
            assert(self.games@ =~= old_self.games@.update(k as int, new_room));
            self.lemma_room_replaced(old_self, k as int, new_room);
        }
        let mut out: Vec<Outgoing> = Vec::new();
        out.push(Outgoing { to, msg: ServerMessage::UserUnready(name) });
        out.push(reply(uid, ServerMessage::ServerAck));
        proof {
            let n = *self;
            assert(n.wf());
            assert(forall|x: u32| #[trigger] n.game_of(x) == old_self.game_of(x));
            assert(n.other_rooms_kept(old_self, new_room.id));
            let room = old_self.games@[k as int];
            assert(old_self.game_of(uid) == Some(room.id));
            assert(old_self.room(room.id) == room);
            assert(n.room(room.id) == new_room);
            assert(outbox_view(out@) == seq![
                (room.players@, MsgView::UserUnready(old_self.name_of(uid))),
                (seq![uid], MsgView::ServerAck),
            ]);
        }
        out
    }

    /// The countdown of room `gid` has run out: song selection starts if the
    /// room still waits in its lobby with every player ready.
    pub fn start_if_all_ready(&mut self, gid: u16) -> (out: Vec<Outgoing>)
        requires
            old(self).wf(),
        ensures
            final(self).wf(),
            final(self).users == old(self).users,
            final(self).start_delay_ms == old(self).start_delay_ms,
            forall|x: u32| #[trigger] final(self).game_of(x) == old(self).game_of(x),
            if old(self).has_room(gid) && old(self).room(gid).in_lobby()
                && old(self).room(gid).ready@.len() == old(self).room(gid).players@.len() {
                &&& final(self).room(gid).players@ == old(self).room(gid).players@
                &&& final(self).room(gid).selecting()
                &&& buckets_of(final(self).room(gid)).len() == 0
                &&& final(self).other_rooms_kept(*old(self), gid)
                &&& outbox_view(out@) == seq![(old(self).room(gid).players@, MsgView::GameStartSelect)]
            } else {
                *final(self) == *old(self) && out@.len() == 0
            },
    {
        let k = match self.find_game(gid) {
            None => return Vec::new(),
            Some(k) => k,
        };
        if let GameStatus::Playing(_) = self.games[k].state {
            return Vec::new();
        }
        if self.games[k].ready.len() != self.games[k].players.len() {
            return Vec::new();
        }
        self.start_game(k)
    }

    /// Room `k` moves on to song selection, with no songs yet.
    fn start_game(&mut self, k: usize) -> (out: Vec<Outgoing>)
        requires
            old(self).wf(),
            k < old(self).games@.len(),
        ensures
            final(self).wf(),
            final(self).users == old(self).users,
            final(self).start_delay_ms == old(self).start_delay_ms,
            forall|x: u32| #[trigger] final(self).game_of(x) == old(self).game_of(x),
            final(self).room(old(self).games@[k as int].id).players@ == old(self).games@[k as int].players@,
            final(self).room(old(self).games@[k as int].id).selecting(),
            buckets_of(final(self).room(old(self).games@[k as int].id)).len() == 0,
            final(self).other_rooms_kept(*old(self), old(self).games@[k as int].id),
            outbox_view(out@) == seq![(old(self).games@[k as int].players@, MsgView::GameStartSelect)],
    {
        let ghost old_self = *self;
        let to = copy_ids(&self.games[k].players);
        let mut g = self.games.remove(k);
        g.ready = Vec::new();
        g.state = GameStatus::Playing(PlayPhase::SelectingSongs(Vec::new()));
        let ghost new_room = g;
        self.games.insert(k, g);
        proof {
            assert(self.games@ =~= old_self.games@.update(k as int, new_room));
            self.lemma_room_replaced(old_self, k as int, new_room);
        }
        let mut out: Vec<Outgoing> = Vec::new();
        out.push(Outgoing { to, msg: ServerMessage::GameStartSelect });
        out
    }

    /// The rounds of room `gid` are over: it goes back to its lobby, with
    /// nobody ready. A room that is gone or not guessing is left alone.
    pub fn end_game(&mut self, gid: u16) -> (out: Vec<Outgoing>)
        requires
            old(self).wf(),
        ensures
            final(self).wf(),
            final(self).users == old(self).users,
            final(self).start_delay_ms == old(self).start_delay_ms,
            forall|x: u32| #[trigger] final(self).game_of(x) == old(self).game_of(x),
            if old(self).has_room(gid) && old(self).room(gid).guessing() {
                &&& final(self).room(gid).players@ == old(self).room(gid).players@
                &&& final(self).room(gid).state == GameStatus::Lobby(0)
                &&& final(self).other_rooms_kept(*old(self), gid)
                &&& outbox_view(out@) == seq![(old(self).room(gid).players@, MsgView::GameEnded)]
            } else {
                *final(self) == *old(self) && out@.len() == 0
            },
    {
        let k = match self.find_game(gid) {
            None => return Vec::new(),
            Some(k) => k,
        };
        match self.games[k].state {
            GameStatus::Playing(PlayPhase::GuessingSongs) => {},
            _ => return Vec::new(),
        }
        let ghost old_self = *self;
        let to = copy_ids(&self.games[k].players);
        let mut g = self.games.remove(k);
        g.ready = Vec::new();
        g.state = GameStatus::Lobby(0);
        let ghost new_room = g;
        self.games.insert(k, g);
        proof {
            assert(self.games@ =~= old_self.games@.update(k as int, new_room));
            self.lemma_room_replaced(old_self, k as int, new_room);
        }
        let mut out: Vec<Outgoing> = Vec::new();
        out.push(Outgoing { to, msg: ServerMessage::GameEnded });
        out
    }
}

/// What user `uid` readying up at `now_ms` does; `countdown` is when song selection is due, if it now is.
pub open spec fn ready_post(old: GameServer, new: GameServer, uid: u32, now_ms: u128, out: Seq<Outgoing>, countdown: Option<u128>) -> bool {
    &&& new.wf()
    &&& new.users == old.users
    &&& new.start_delay_ms == old.start_delay_ms
    &&& forall|x: u32| #[trigger] new.game_of(x) == old.game_of(x)
    &&& (match old.game_of(uid) {
        None => new == old && countdown is None && outbox_view(out) == seq![
            (seq![uid], MsgView::Error("cannot ready up: not in a game"@)),
        ],
        Some(g) => {
            let room = old.room(g);
            if !room.in_lobby() {
                new == old && countdown is None && outbox_view(out) == seq![
                    (seq![uid], MsgView::Error("cannot ready up: game is not in lobby state"@)),
                ]
            } else if room.ready@.contains(uid) {
                new == old && countdown is None && outbox_view(out) == seq![
                    (seq![uid], MsgView::ServerAck),
                ]
            } else {
                let all = room.ready@.len() + 1 == room.players@.len();
                let at = saturating_sum(now_ms, old.start_delay_ms);
                &&& new.room(g).ready@ == room.ready@.push(uid)
                &&& new.room(g).players@ == room.players@
                &&& new.room(g).state == GameStatus::Lobby(
                    (room.ready@.len() + 1) as u8,
                )
                &&& new.other_rooms_kept(old, g)
                &&& countdown == if all {
                    Some(at)
                } else {
                    None
                }
                &&& outbox_view(out) == seq![(room.players@, MsgView::UserReady(old.name_of(uid)))]
                    + (if all {
                    seq![(room.players@, MsgView::GameStartAt(at))]
                } else {
                    seq![]
                }) + seq![(seq![uid], MsgView::ServerAck)]
            }
        },
    })
}

/// What user `uid` taking back its ready mark does.
pub open spec fn unready_post(old: GameServer, new: GameServer, uid: u32, out: Seq<Outgoing>) -> bool {
    &&& new.wf()
    &&& new.users == old.users
    &&& new.start_delay_ms == old.start_delay_ms
    &&& forall|x: u32| #[trigger] new.game_of(x) == old.game_of(x)
    &&& (match old.game_of(uid) {
        None => new == old && outbox_view(out) == seq![
            (seq![uid], MsgView::Error("cannot unready: not in a game"@)),
        ],
        Some(g) => {
            let room = old.room(g);
            if !room.in_lobby() {
                new == old && outbox_view(out) == seq![
                    (seq![uid], MsgView::Error("cannot unready: game is not in lobby state"@)),
                ]
            } else if room.ready@.len() == 0 {
                new == old && outbox_view(out) == seq![
                    (seq![uid], MsgView::Error("cannot unready: no one is ready"@)),
                ]
            } else {
                &&& new.room(g).players@ == room.players@
                &&& new.room(g).ready@ == if room.ready@.contains(uid) {
                    room.ready@.remove(room.ready@.index_of(uid))
                } else {
                    room.ready@.drop_last()
                }
                &&& new.room(g).state == GameStatus::Lobby((room.ready@.len() - 1) as u8)
                &&& new.other_rooms_kept(old, g)
                &&& outbox_view(out) == seq![
                    (room.players@, MsgView::UserUnready(old.name_of(uid))),
                    (seq![uid], MsgView::ServerAck),
                ]
            }
        },
    })
}

} // verus!
