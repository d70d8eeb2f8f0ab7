use vstd::prelude::*;
use crate::game::{all_in, copy_ids, remove_id, Game, GameStatus, MAX_PLAYERS};
use crate::message::{error_msg, outbox_view, MsgView, Outgoing, ServerMessage};
use crate::text::{trim_quotes, trim_quotes_spec};
use crate::user::User;

verus! {

/// Every room and every connected user, with the rooms' membership kept in
/// step with the users' `game_id`.
#[derive(Debug)]
pub struct GameServer {
    pub users: Vec<User>,
    pub games: Vec<Game>,
    /// Milliseconds between the last ready-up and the start of song selection.
    pub start_delay_ms: u64,
}

impl GameServer {
    /// No two users share an id.
    pub open spec fn user_ids_unique(self) -> bool {
        forall|i: int, j: int|
            0 <= i < self.users@.len() && 0 <= j < self.users@.len() && i != j
                ==> self.users@[i].id != self.users@[j].id
    }

    /// No two rooms share an id.
    pub open spec fn game_ids_unique(self) -> bool {
        forall|i: int, j: int|
            0 <= i < self.games@.len() && 0 <= j < self.games@.len() && i != j
                ==> self.games@[i].id != self.games@[j].id
    }

    /// Every room is well formed; in particular none is empty.
    pub open spec fn rooms_wf(self) -> bool {
        forall|k: int| 0 <= k < self.games@.len() ==> (#[trigger] self.games@[k]).wf()
    }

    /// A user names a room as its own exactly when that room lists the user.
    pub open spec fn membership(self) -> bool {
        forall|i: int, k: int|
            0 <= i < self.users@.len() && 0 <= k < self.games@.len() ==> (
            (#[trigger] self.users@[i]).game_id == Some((#[trigger] self.games@[k]).id)
                <==> self.games@[k].players@.contains(self.users@[i].id))
    }

    /// Every player of a room is a connected user.
    pub open spec fn players_known(self) -> bool {
        forall|k: int, x: u32|
            0 <= k < self.games@.len() && #[trigger] self.games@[k].players@.contains(x)
                ==> self.has_user(x)
    }

    /// The room that a user names exists.
    pub open spec fn rooms_known(self) -> bool {
        forall|i: int|
            0 <= i < self.users@.len() && (#[trigger] self.users@[i]).game_id is Some
                ==> self.has_room(self.users@[i].game_id->0)
    }

    pub open spec fn wf(self) -> bool {
        &&& self.user_ids_unique()
        &&& self.game_ids_unique()
        &&& self.rooms_wf()
        &&& self.membership()
        &&& self.players_known()
        &&& self.rooms_known()
    }

    /// Whether a user with id `uid` is connected.
    pub open spec fn has_user(self, uid: u32) -> bool {
        exists|i: int| 0 <= i < self.users@.len() && (#[trigger] self.users@[i]).id == uid
    }

    /// Whether a room with id `gid` exists.
    pub open spec fn has_room(self, gid: u16) -> bool {
        exists|k: int| 0 <= k < self.games@.len() && (#[trigger] self.games@[k]).id == gid
    }

    /// The position of user `uid`.
    pub open spec fn user_idx(self, uid: u32) -> int {
        choose|i: int| 0 <= i < self.users@.len() && (#[trigger] self.users@[i]).id == uid
    }

    /// The position of room `gid`.
    pub open spec fn room_idx(self, gid: u16) -> int {
        choose|k: int| 0 <= k < self.games@.len() && (#[trigger] self.games@[k]).id == gid
    }

    /// User `uid`.
    pub open spec fn user(self, uid: u32) -> User {
        self.users@[self.user_idx(uid)]
    }

    /// Room `gid`.
    pub open spec fn room(self, gid: u16) -> Game {
        self.games@[self.room_idx(gid)]
    }

    /// The room that user `uid` is in, if any.
    pub open spec fn game_of(self, uid: u32) -> Option<u16> {
        if self.has_user(uid) {
            self.user(uid).game_id
        } else {
            None
        }
    }

    /// The display name of user `uid`.
    pub open spec fn name_of(self, uid: u32) -> Seq<char> {
        self.user(uid).name@
    }

    /// The users as plain values: id, name and room.
    pub open spec fn users_view(self) -> Seq<(u32, Seq<char>, Option<u16>)> {
        self.users@.map_values(|u: User| (u.id, u.name@, u.game_id))
    }

    /// An empty server.
    pub fn new(start_delay_ms: u64) -> (r: GameServer)
        ensures
            r.wf(),
            r.users@.len() == 0,
            r.games@.len() == 0,
            r.start_delay_ms == start_delay_ms,
    {
        GameServer { users: Vec::new(), games: Vec::new(), start_delay_ms }
    }

    /// The position of user `uid`, if connected.
    pub fn find_user(&self, uid: u32) -> (r: Option<usize>)
        requires
            self.user_ids_unique(),
        ensures
            match r {
                Some(i) => i < self.users@.len() && self.users@[i as int].id == uid
                    && self.has_user(uid) && self.user_idx(uid) == i,
                None => !self.has_user(uid),
            },
    {
        let mut i: usize = 0;
        while i < self.users.len()
            invariant
                i <= self.users@.len(),
                self.user_ids_unique(),
                forall|j: int| 0 <= j < i ==> self.users@[j].id != uid,
            decreases self.users.len() - i,
        {
            if self.users[i].id == uid {
                assert(self.users@[i as int].id == uid);
                assert(self.has_user(uid));
                let ghost j = self.user_idx(uid);
                assert(self.users@[j].id == uid);
                return Some(i);
            }
            i = i + 1;
        }
        None
    }

    /// The position of room `gid`, if it exists.
    pub fn find_game(&self, gid: u16) -> (r: Option<usize>)
        requires
            self.game_ids_unique(),
        ensures
            match r {
                Some(k) => k < self.games@.len() && self.games@[k as int].id == gid
                    && self.has_room(gid) && self.room_idx(gid) == k,
                None => !self.has_room(gid),
            },
    {
        let mut k: usize = 0;
        while k < self.games.len()
            invariant
                k <= self.games@.len(),
                self.game_ids_unique(),
                forall|j: int| 0 <= j < k ==> self.games@[j].id != gid,
            decreases self.games.len() - k,
        {
            if self.games[k].id == gid {
                assert(self.games@[k as int].id == gid);
                assert(self.has_room(gid));
                let ghost j = self.room_idx(gid);
                assert(self.games@[j].id == gid);
                return Some(k);
            }
            k = k + 1;
        }
        None
    }

    /// Sets the room of the user at position `i`.
    fn set_user_game(&mut self, i: usize, g: Option<u16>)
        requires
            i < old(self).users@.len(),
        ensures
            final(self).games == old(self).games,
            final(self).start_delay_ms == old(self).start_delay_ms,
            final(self).users@ == old(self).users@.update(
                i as int,
                User { game_id: g, ..old(self).users@[i as int] },
            ),
    {
        let mut u = self.users.remove(i);
        u.game_id = g;
        self.users.insert(i, u);
    }
}

impl GameServer {
    /// Whether every room other than `gid` is as it was in `old`.
    pub open spec fn other_rooms_kept(self, old: GameServer, gid: u16) -> bool {
        forall|h: u16| h != gid ==> (self.has_room(h) == old.has_room(h)
            && (old.has_room(h) ==> self.room(h) == old.room(h)))
    }

    /// Takes user `uid` out of the room it is in, if any: the room's players
    /// are told first, and a room left empty is removed.
    pub fn leave_current(&mut self, uid: u32) -> (out: Vec<Outgoing>)
        requires
            old(self).wf(),
        ensures
            leave_post(*old(self), *final(self), uid, out@),
    {
        let i = match self.find_user(uid) {
            None => return Vec::new(),
            Some(i) => i,
        };
        let gid = match self.users[i].game_id {
            None => return Vec::new(),
            Some(g) => g,
        };
        assert(self.users@[i as int].game_id == Some(gid));
        let k = match self.find_game(gid) {
            None => return Vec::new(),
            Some(k) => k,
        };
        let ghost old_self = *self;
        let ghost old_room = self.games@[k as int];
        assert(old_room.players@.contains(uid));
        let to = copy_ids(&self.games[k].players);
        let name = self.users[i].name.clone();
        let mut g = self.games.remove(k);
        remove_id(&mut g.players, uid);
        remove_id(&mut g.ready, uid);
        if let GameStatus::Lobby(_) = g.state {
            proof {
                crate::game::lemma_len_all_in(g.ready@, g.players@);
            }
            g.state = GameStatus::Lobby(g.ready.len() as u8);
        }
        let emptied = g.players.len() == 0;
        let ghost new_room = g;
        proof {
            if !emptied {
                assert(new_room.wf());
            }
        }
        if !emptied {
            self.games.insert(k, g);
            assert(self.games@ =~= old_self.games@.update(k as int, new_room));
        }
        self.set_user_game(i, None);
        proof {
            self.lemma_leave_wf(old_self, i as int, k as int, uid, new_room, emptied);
            self.lemma_rooms_after_change(old_self, k as int, new_room, emptied);
            assert(self.users_view() =~= old_self.users_view().update(
                i as int,
                (uid, old_self.name_of(uid), None),
            ));
        }
        let mut out: Vec<Outgoing> = Vec::new();
        out.push(Outgoing { to, msg: ServerMessage::UserLeave(name) });
        proof {
            let n = *self;
            assert(n.wf());
            assert(n.start_delay_ms == old_self.start_delay_ms);
            assert(n.game_of(uid) is None);
            assert(forall|x: u32| #[trigger] n.has_user(x) == old_self.has_user(x));
            assert(old_self.game_of(uid) == Some(gid));
            assert(outbox_view(out@) == seq![(old_self.room(gid).players@, MsgView::UserLeave(old_self.name_of(uid)))]);
            assert(n.other_rooms_kept(old_self, gid));
            assert(old_self.room(gid) == old_room);
            if n.has_room(gid) {
                assert(n.room(gid) == new_room);
                assert(left_room(old_room, new_room, uid));
            }
        }
        out
    }
}

impl GameServer {
    proof fn lemma_leave_wf(
        self,
        old_self: GameServer,
        i: int,
        k: int,
        uid: u32,
        new_room: Game,
        emptied: bool,
    )
        requires
            old_self.wf(),
            0 <= i < old_self.users@.len(),
            0 <= k < old_self.games@.len(),
            old_self.users@[i].id == uid,
            old_self.users@[i].game_id == Some(old_self.games@[k].id),
            new_room.id == old_self.games@[k].id,
            emptied == (new_room.players@.len() == 0),
            !emptied ==> new_room.wf(),
            forall|y: u32|
                new_room.players@.contains(y) <==> (old_self.games@[k].players@.contains(y) && y
                    != uid),
            self.users@ == old_self.users@.update(
                i,
                User { game_id: None, ..old_self.users@[i] },
            ),
            emptied ==> self.games@ == old_self.games@.remove(k),
            !emptied ==> self.games@ == old_self.games@.update(k, new_room),
        ensures
            self.wf(),
            forall|x: u32| #[trigger] self.has_user(x) == old_self.has_user(x),
    {
        let gid = new_room.id;
        assert forall|a: int, b: int|
            0 <= a < self.users@.len() && 0 <= b < self.users@.len() && a != b implies self.users@[a].id
            != self.users@[b].id by {
            assert(old_self.users@[a].id != old_self.users@[b].id);
        }
        // positions of the rooms after, in terms of those before
        assert forall|a: int|
            0 <= a < self.games@.len() implies (#[trigger] self.games@[a]) == (if emptied && a
                >= k {
                old_self.games@[a + 1]
            } else if !emptied && a == k {
                new_room
            } else {
                old_self.games@[a]
            }) by {}
        assert forall|a: int, b: int|
            0 <= a < self.games@.len() && 0 <= b < self.games@.len() && a != b implies self.games@[a].id
            != self.games@[b].id by {
            let oa = if emptied && a >= k { a + 1 } else { a };
            let ob = if emptied && b >= k { b + 1 } else { b };
            assert(old_self.games@[oa].id != old_self.games@[ob].id);
        }
        assert forall|a: int| 0 <= a < self.games@.len() implies (#[trigger] self.games@[a]).wf() by {
            let oa = if emptied && a >= k { a + 1 } else { a };
            assert(old_self.games@[oa].wf());
        }
        assert forall|x: u32| #[trigger] self.has_user(x) == old_self.has_user(x) by {
            if old_self.has_user(x) {
                let a = choose|a: int| 0 <= a < old_self.users@.len() && (#[trigger] old_self.users@[a]).id == x;
                assert(self.users@[a].id == x);
            }
            if self.has_user(x) {
                let a = choose|a: int| 0 <= a < self.users@.len() && (#[trigger] self.users@[a]).id == x;
                assert(old_self.users@[a].id == x);
            }
        }
        assert forall|a: int, b: int|
            0 <= a < self.users@.len() && 0 <= b < self.games@.len() implies ((#[trigger] self.users@[a]).game_id == Some(
                (#[trigger] self.games@[b]).id,
            ) <==> self.games@[b].players@.contains(self.users@[a].id)) by {
            let ob = if emptied && b >= k { b + 1 } else { b };
            assert(old_self.users@[a].game_id == Some(old_self.games@[ob].id)
                <==> old_self.games@[ob].players@.contains(old_self.users@[a].id));
            if a != i {
                assert(old_self.users@[a].id != uid);
                if ob == k {
                    assert(old_self.games@[k].id == gid);
                }
            } else {
                if ob != k {
                    assert(old_self.games@[ob].id != old_self.games@[k].id);
                }
            }
        }
        assert forall|b: int, x: u32|
            0 <= b < self.games@.len() && #[trigger] self.games@[b].players@.contains(x) implies self.has_user(x) by {
            let ob = if emptied && b >= k { b + 1 } else { b };
            assert(old_self.games@[ob].players@.contains(x));
            assert(old_self.has_user(x));
        }
        assert forall|a: int|
            0 <= a < self.users@.len() && (#[trigger] self.users@[a]).game_id is Some implies self.has_room(
                self.users@[a].game_id->0,
            ) by {
            let h = self.users@[a].game_id->0;
            assert(a != i);
            assert(old_self.has_room(h));
            let ob = choose|ob: int| 0 <= ob < old_self.games@.len() && (#[trigger] old_self.games@[ob]).id == h;
            assert(old_self.games@[ob].players@.contains(old_self.users@[a].id));
            if ob == k {
                assert(old_self.users@[a].id != uid);
                assert(new_room.players@.contains(old_self.users@[a].id));
                assert(self.games@[k] == new_room);
            } else if emptied && ob > k {
                assert(self.games@[ob - 1].id == h);
            } else {
                assert(self.games@[ob].id == h);
            }
        }
    }
}

impl GameServer {
    /// After room `k` is replaced by `new_room` of the same id, or removed,
    /// every other room is found as before.
    proof fn lemma_rooms_after_change(self, old_self: GameServer, k: int, new_room: Game, emptied: bool)
        requires
            old_self.game_ids_unique(),
            self.game_ids_unique(),
            0 <= k < old_self.games@.len(),
            new_room.id == old_self.games@[k].id,
            emptied ==> self.games@ == old_self.games@.remove(k),
            !emptied ==> self.games@ == old_self.games@.update(k, new_room),
        ensures
            self.other_rooms_kept(old_self, new_room.id),
            emptied <==> !self.has_room(new_room.id),
            !emptied ==> self.room(new_room.id) == new_room,
            old_self.room(new_room.id) == old_self.games@[k],
            old_self.has_room(new_room.id),
    {
        let gid = new_room.id;
        assert(old_self.games@[k].id == gid);
        assert(old_self.has_room(gid));
        assert forall|h: u16| h != gid implies (self.has_room(h) == old_self.has_room(h) && (
        old_self.has_room(h) ==> self.room(h) == old_self.room(h))) by {
            if old_self.has_room(h) {
                let ob = old_self.room_idx(h);
                assert(ob != k);
                let nb = if emptied && ob > k { ob - 1 } else { ob };
                assert(self.games@[nb] == old_self.games@[ob]);
                assert(self.has_room(h));
                let c = self.room_idx(h);
                assert(self.games@[c].id == h);
            }
            if self.has_room(h) {
                let nb = self.room_idx(h);
                let ob = if emptied && nb >= k { nb + 1 } else { nb };
                assert(old_self.games@[ob] == self.games@[nb]);
            }
        }
        if emptied {
            if self.has_room(gid) {
                let nb = self.room_idx(gid);
                let ob = if nb >= k { nb + 1 } else { nb };
                assert(old_self.games@[ob].id == gid);
            }
        } else {
            assert(self.games@[k] == new_room);
            assert(self.has_room(gid));
            let c = self.room_idx(gid);
            assert(self.games@[c].id == gid);
        }
        let c = old_self.room_idx(gid);
        assert(old_self.games@[c].id == gid);
    }
}

/// What a user joining a room with `players` learns: one `UserJoin` per
/// player already there, in join order.
pub open spec fn roster_view(s: GameServer, players: Seq<u32>, uid: u32) -> Seq<(Seq<u32>, MsgView)> {
    players.map_values(|p: u32| (seq![uid], MsgView::UserJoin(s.name_of(p))))
}

/// A message for user `uid` alone.
pub fn reply(uid: u32, msg: ServerMessage) -> (r: Outgoing)
    ensures
        r.to@ == seq![uid],
        r.msg == msg,
{
    let mut to: Vec<u32> = Vec::new();
    to.push(uid);
    Outgoing { to, msg }
}

/// An outbox holding one message for user `uid` alone.
pub fn reply_only(uid: u32, msg: ServerMessage) -> (r: Vec<Outgoing>)
    ensures
        outbox_view(r@) == seq![(seq![uid], msg@)],
{
    let mut r: Vec<Outgoing> = Vec::new();
    r.push(reply(uid, msg));
    assert(outbox_view(r@) =~= seq![(seq![uid], msg@)]);
    r
}

impl GameServer {
    /// The name of user `uid`.
    pub fn name_clone(&self, uid: u32) -> (r: String)
        requires
            self.wf(),
            self.has_user(uid),
        ensures
            r@ == self.name_of(uid),
    {
        match self.find_user(uid) {
            Some(i) => self.users[i].name.clone(),
            None => String::new(),
        }
    }

    /// Puts user `uid`, who is in no room, into room `gid` if that room waits
    /// in its lobby and has space. Its players hear of the newcomer, and the
    /// newcomer hears of each of them.
    pub fn enter_game(&mut self, uid: u32, gid: u16) -> (out: Vec<Outgoing>)
        requires
            old(self).wf(),
            old(self).has_user(uid),
            old(self).game_of(uid) is None,
        ensures
            enter_post(*old(self), *final(self), uid, gid, out@),
    {
        let k = match self.find_game(gid) {
            None => return reply_only(uid, ServerMessage::GameNotFound),
            Some(k) => k,
        };
        if let GameStatus::Playing(_) = self.games[k].state {
            return reply_only(uid, error_msg("cannot join game: game is not in lobby state"));
        }
        if self.games[k].players.len() >= MAX_PLAYERS {
            return reply_only(uid, error_msg("cannot join game: game is full"));
        }
        let i = match self.find_user(uid) {
            Some(i) => i,
            None => return Vec::new(),
        };
        let ghost old_self = *self;
        let name = self.users[i].name.clone();
        let mut out: Vec<Outgoing> = Vec::new();
        out.push(Outgoing { to: copy_ids(&self.games[k].players), msg: ServerMessage::UserJoin(name) });
        let n = self.games[k].players.len();
        let mut j: usize = 0;
        while j < n
            invariant
                *self == old_self,
                old_self.wf(),
                k < old_self.games@.len(),
                n == old_self.games@[k as int].players@.len(),
                j <= n,
                outbox_view(out@) == seq![
                    (old_self.games@[k as int].players@, MsgView::UserJoin(old_self.name_of(uid))),
                ] + roster_view(old_self, old_self.games@[k as int].players@.subrange(0, j as int), uid),
            decreases n - j,
        {
            let p = self.games[k].players[j];
            assert(old_self.games@[k as int].players@.contains(p)) by {
                assert(old_self.games@[k as int].players@[j as int] == p);
            }
            let pname = self.name_clone(p);
            let ghost prev = out@;
            let o = reply(uid, ServerMessage::UserJoin(pname));
            out.push(o);
            assert(outbox_view(out@) =~= outbox_view(prev).push((seq![uid], MsgView::UserJoin(old_self.name_of(p)))));
            assert(old_self.games@[k as int].players@.subrange(0, j + 1) =~= old_self.games@[k as int].players@.subrange(0, j as int).push(p));
            assert(roster_view(old_self, old_self.games@[k as int].players@.subrange(0, j + 1), uid) =~= roster_view(old_self, old_self.games@[k as int].players@.subrange(0, j as int), uid).push((seq![uid], MsgView::UserJoin(old_self.name_of(p)))));
            assert(outbox_view(out@) =~= seq![
                (old_self.games@[k as int].players@, MsgView::UserJoin(old_self.name_of(uid))),
            ] + roster_view(old_self, old_self.games@[k as int].players@.subrange(0, j + 1), uid));
            j = j + 1;
        }
        assert(old_self.games@[k as int].players@.subrange(0, n as int) == old_self.games@[k as int].players@);
        let mut g = self.games.remove(k);
        g.players.push(uid);
        let ghost new_room = g;
        proof {
            assert(!old_self.games@[k as int].players@.contains(uid)) by {
                assert(old_self.users@[i as int].game_id is None);
            }
            assert(all_in(new_room.ready@, new_room.players@)) by {
                assert forall|x: u32| new_room.ready@.contains(x) implies new_room.players@.contains(x) by {
                    assert(old_self.games@[k as int].players@.contains(x));
                    let q = choose|q: int| 0 <= q < old_self.games@[k as int].players@.len() && old_self.games@[k as int].players@[q] == x;
                    assert(new_room.players@[q] == x);
                }
            }
            assert(new_room.wf());
        }
        self.games.insert(k, g);
        assert(self.games@ =~= old_self.games@.update(k as int, new_room));
        self.set_user_game(i, Some(gid));
        proof {
            self.lemma_join_wf(old_self, i as int, k as int, uid, new_room);
            self.lemma_rooms_after_change(old_self, k as int, new_room, false);
            assert(self.users_view() =~= old_self.users_view().update(
                i as int,
                (uid, old_self.name_of(uid), Some(gid)),
            ));
            assert(self.users@[i as int].id == uid);
            assert(self.has_user(uid));
        }
        out
    }

    proof fn lemma_join_wf(self, old_self: GameServer, i: int, k: int, uid: u32, new_room: Game)
        requires
            old_self.wf(),
            0 <= i < old_self.users@.len(),
            0 <= k < old_self.games@.len(),
            old_self.users@[i].id == uid,
            old_self.users@[i].game_id is None,
            new_room.id == old_self.games@[k].id,
            new_room.wf(),
            new_room.players@ == old_self.games@[k].players@.push(uid),
            self.users@ == old_self.users@.update(
                i,
                User { game_id: Some(new_room.id), ..old_self.users@[i] },
            ),
            self.games@ == old_self.games@.update(k, new_room),
        ensures
            self.wf(),
            forall|x: u32| #[trigger] self.has_user(x) == old_self.has_user(x),
    {
        let gid = new_room.id;
        assert forall|a: int, b: int|
            0 <= a < self.users@.len() && 0 <= b < self.users@.len() && a != b implies self.users@[a].id
            != self.users@[b].id by {
            assert(old_self.users@[a].id != old_self.users@[b].id);
        }
        assert forall|a: int, b: int|
            0 <= a < self.games@.len() && 0 <= b < self.games@.len() && a != b implies self.games@[a].id
            != self.games@[b].id by {
            assert(old_self.games@[a].id != old_self.games@[b].id);
        }
        assert forall|a: int| 0 <= a < self.games@.len() implies (#[trigger] self.games@[a]).wf() by {
            assert(old_self.games@[a].wf());
        }
        assert forall|x: u32| #[trigger] self.has_user(x) == old_self.has_user(x) by {
            if old_self.has_user(x) {
                let a = choose|a: int| 0 <= a < old_self.users@.len() && (#[trigger] old_self.users@[a]).id == x;
                assert(self.users@[a].id == x);
            }
            if self.has_user(x) {
                let a = choose|a: int| 0 <= a < self.users@.len() && (#[trigger] self.users@[a]).id == x;
                assert(old_self.users@[a].id == x);
            }
        }
        assert(self.has_user(uid)) by {
            assert(self.users@[i].id == uid);
        }
        assert forall|a: int, b: int|
            0 <= a < self.users@.len() && 0 <= b < self.games@.len() implies ((#[trigger] self.users@[a]).game_id == Some(
                (#[trigger] self.games@[b]).id,
            ) <==> self.games@[b].players@.contains(self.users@[a].id)) by {
            assert(old_self.users@[a].game_id == Some(old_self.games@[b].id)
                <==> old_self.games@[b].players@.contains(old_self.users@[a].id));
            if a != i {
                assert(old_self.users@[a].id != uid);
            } else if b != k {
                assert(old_self.games@[b].id != old_self.games@[k].id);
            }
            if b == k {
                assert(new_room.players@.contains(self.users@[a].id) <==> (old_self.games@[k].players@.contains(
                    self.users@[a].id,
                ) || self.users@[a].id == uid)) by {
                    let ps = old_self.games@[k].players@;
                    if new_room.players@.contains(self.users@[a].id) {
                        let q = choose|q: int| 0 <= q < new_room.players@.len() && new_room.players@[q] == self.users@[a].id;
                        if q < ps.len() {
                            assert(ps[q] == self.users@[a].id);
                        }
                    }
                    if ps.contains(self.users@[a].id) {
                        let q = choose|q: int| 0 <= q < ps.len() && ps[q] == self.users@[a].id;
                        assert(new_room.players@[q] == self.users@[a].id);
                    }
                    if self.users@[a].id == uid {
                        assert(new_room.players@[ps.len() as int] == uid);
                    }
                }
            }
        }
        assert forall|b: int, x: u32|
            0 <= b < self.games@.len() && #[trigger] self.games@[b].players@.contains(x) implies self.has_user(x) by {
            if b == k && x != uid {
                let ps = old_self.games@[k].players@;
                let q = choose|q: int| 0 <= q < new_room.players@.len() && new_room.players@[q] == x;
                if q < ps.len() {
                    assert(ps[q] == x);
                }
                assert(old_self.games@[k].players@.contains(x));
            }
            if b != k {
                assert(old_self.games@[b].players@.contains(x));
            }
        }
        assert forall|a: int|
            0 <= a < self.users@.len() && (#[trigger] self.users@[a]).game_id is Some implies self.has_room(
                self.users@[a].game_id->0,
            ) by {
            let h = self.users@[a].game_id->0;
            if a == i {
                assert(self.games@[k].id == gid);
            } else {
                assert(old_self.has_room(h));
                let ob = choose|ob: int| 0 <= ob < old_self.games@.len() && (#[trigger] old_self.games@[ob]).id == h;
                assert(self.games@[ob].id == h);
            }
        }
    }
}

/// How many random room ids are tried before creating a room is given up.
pub const ROOM_ID_ATTEMPTS: usize = 16;

impl GameServer {
    /// Opens room `gid`, which must be free, with user `uid`, who is in no
    /// room, as its only player and host.
    pub fn new_game_with_id(&mut self, uid: u32, gid: u16) -> (out: Vec<Outgoing>)
        requires
            old(self).wf(),
            old(self).has_user(uid),
            old(self).game_of(uid) is None,
            !old(self).has_room(gid),
        ensures
            final(self).wf(),
            final(self).start_delay_ms == old(self).start_delay_ms,
            forall|x: u32| #[trigger] final(self).has_user(x) == old(self).has_user(x),
            final(self).game_of(uid) == Some(gid),
            final(self).has_room(gid),
            final(self).room(gid).players@ == seq![uid],
            final(self).room(gid).state == GameStatus::Lobby(0),
            final(self).other_rooms_kept(*old(self), gid),
            final(self).users_view() == old(self).users_view().update(
                old(self).user_idx(uid),
                (uid, old(self).name_of(uid), Some(gid)),
            ),
            outbox_view(out@) == seq![(seq![uid], MsgView::GameCreated(gid))],
    {
        let i = match self.find_user(uid) {
            Some(i) => i,
            None => return Vec::new(),
        };
        let ghost old_self = *self;
        let mut players: Vec<u32> = Vec::new();
        players.push(uid);
        let g = Game { id: gid, players, ready: Vec::new(), state: GameStatus::Lobby(0) };
        let ghost new_room = g;
        assert(new_room.wf());
        self.games.push(g);
        self.set_user_game(i, Some(gid));
        proof {
            self.lemma_create_wf(old_self, i as int, uid, new_room);
            let k = old_self.games@.len() as int;
            assert(self.games@[k].id == gid);
            assert(self.has_room(gid));
            let c = self.room_idx(gid);
            assert(self.games@[c].id == gid);
            assert forall|h: u16| h != gid implies (self.has_room(h) == old_self.has_room(h) && (
            old_self.has_room(h) ==> self.room(h) == old_self.room(h))) by {
                if old_self.has_room(h) {
                    let ob = old_self.room_idx(h);
                    assert(self.games@[ob] == old_self.games@[ob]);
                    let nb = self.room_idx(h);
                    assert(self.games@[nb].id == h);
                }
                if self.has_room(h) {
                    let nb = self.room_idx(h);
                    assert(old_self.games@[nb] == self.games@[nb]);
                }
            }
            assert(self.users_view() =~= old_self.users_view().update(
                i as int,
                (uid, old_self.name_of(uid), Some(gid)),
            ));
            assert(self.users@[i as int].id == uid);
            assert(self.has_user(uid));
        }
        reply_only(uid, ServerMessage::GameCreated(gid))
    }

    proof fn lemma_create_wf(self, old_self: GameServer, i: int, uid: u32, new_room: Game)
        requires
            old_self.wf(),
            0 <= i < old_self.users@.len(),
            old_self.users@[i].id == uid,
            old_self.users@[i].game_id is None,
            !old_self.has_room(new_room.id),
            new_room.wf(),
            new_room.players@ == seq![uid],
            self.users@ == old_self.users@.update(
                i,
                User { game_id: Some(new_room.id), ..old_self.users@[i] },
            ),
            self.games@ == old_self.games@.push(new_room),
        ensures
            self.wf(),
            forall|x: u32| #[trigger] self.has_user(x) == old_self.has_user(x),
    {
        let gid = new_room.id;
        let k = old_self.games@.len() as int;
        assert forall|a: int, b: int|
            0 <= a < self.users@.len() && 0 <= b < self.users@.len() && a != b implies self.users@[a].id
            != self.users@[b].id by {
            assert(old_self.users@[a].id != old_self.users@[b].id);
        }
        assert forall|a: int, b: int|
            0 <= a < self.games@.len() && 0 <= b < self.games@.len() && a != b implies self.games@[a].id
            != self.games@[b].id by {
            if a < k && b < k {
                assert(old_self.games@[a].id != old_self.games@[b].id);
            } else if a < k {
                assert(old_self.games@[a].id != gid);
            } else {
                assert(old_self.games@[b].id != gid);
            }
        }
        assert forall|a: int| 0 <= a < self.games@.len() implies (#[trigger] self.games@[a]).wf() by {
            if a < k {
                assert(old_self.games@[a].wf());
            }
        }
        assert forall|x: u32| #[trigger] self.has_user(x) == old_self.has_user(x) by {
            if old_self.has_user(x) {
                let a = choose|a: int| 0 <= a < old_self.users@.len() && (#[trigger] old_self.users@[a]).id == x;
                assert(self.users@[a].id == x);
            }
            if self.has_user(x) {
                let a = choose|a: int| 0 <= a < self.users@.len() && (#[trigger] self.users@[a]).id == x;
                assert(old_self.users@[a].id == x);
            }
        }
        assert(self.has_user(uid)) by {
            assert(self.users@[i].id == uid);
        }
        assert forall|a: int, b: int|
            0 <= a < self.users@.len() && 0 <= b < self.games@.len() implies ((#[trigger] self.users@[a]).game_id == Some(
                (#[trigger] self.games@[b]).id,
            ) <==> self.games@[b].players@.contains(self.users@[a].id)) by {
            if b < k {
                assert(old_self.users@[a].game_id == Some(old_self.games@[b].id)
                    <==> old_self.games@[b].players@.contains(old_self.users@[a].id));
                assert(old_self.games@[b].id != gid);
                if a == i {
                    assert(!old_self.games@[b].players@.contains(uid));
                }
            } else {
                if a != i {
                    assert(old_self.users@[a].id != uid);
                    if old_self.users@[a].game_id == Some(gid) {
                        assert(old_self.has_room(gid));
                    }
                }
                assert(new_room.players@[0] == uid);
            }
        }
        assert forall|b: int, x: u32|
            0 <= b < self.games@.len() && #[trigger] self.games@[b].players@.contains(x) implies self.has_user(x) by {
            if b < k {
                assert(old_self.games@[b].players@.contains(x));
            } else {
                assert(x == uid);
            }
        }
        assert forall|a: int|
            0 <= a < self.users@.len() && (#[trigger] self.users@[a]).game_id is Some implies self.has_room(
                self.users@[a].game_id->0,
            ) by {
            let h = self.users@[a].game_id->0;
            if a == i {
                assert(self.games@[k].id == gid);
            } else {
                assert(old_self.has_room(h));
                let ob = choose|ob: int| 0 <= ob < old_self.games@.len() && (#[trigger] old_self.games@[ob]).id == h;
                assert(self.games@[ob].id == h);
            }
        }
    }

    /// Takes user `uid` out of its room, then opens a room with an id drawn
    /// at random that no room uses, with `uid` as its host. Where every draw
    /// hits a room in use, no room is opened.
    pub fn create_game(&mut self, uid: u32) -> (out: Vec<Outgoing>)
        requires
            old(self).wf(),
            old(self).has_user(uid),
        ensures
            create_post(*old(self), *final(self), uid, out@),
    {
        let ghost s0 = *self;
        let mut out = self.leave_current(uid);
        let ghost s1 = *self;
        let mut attempt: usize = 0;
        while attempt < ROOM_ID_ATTEMPTS
            invariant
                *self == s1,
                *old(self) == s0,
                forall|x: u32| #[trigger] s1.has_user(x) == s0.has_user(x),
                s1.start_delay_ms == s0.start_delay_ms,
                s1.wf(),
                s1.has_user(uid),
                s1.game_of(uid) is None,
                leave_post(s0, s1, uid, out@),
                s0.wf(),
                s0.has_user(uid),
                attempt > 0 ==> s1.games@.len() > 0,
            decreases ROOM_ID_ATTEMPTS - attempt,
        {
            let gid: u16 = rand::random::<u16>();
            if self.find_game(gid).is_none() {
                let created = self.new_game_with_id(uid, gid);
                let ghost prev = out@;
                let mut created = created;
                out.append(&mut created);
                assert(outbox_view(out@) =~= outbox_view(prev) + seq![(seq![uid], MsgView::GameCreated(gid))]);
                proof {
                    let s2 = *self;
                    assert(outbox_view(prev) =~= leave_msgs(s0, uid));
                    assert(s2.game_of(uid) == Some(gid));
                    assert(!s0.has_room(gid) || (s0.game_of(uid) == Some(gid) && s0.room(gid).players@.len() == 1)) by {
                        if s0.game_of(uid) is Some {
                            let g = s0.game_of(uid)->0;
                            if g != gid {
                                assert(s1.has_room(gid) == s0.has_room(gid));
                            }
                        }
                    }
                    assert forall|h: u16|
                        h != gid && Some(h) != s0.game_of(uid) implies (s2.has_room(h) == s0.has_room(h) && (
                        s0.has_room(h) ==> s2.room(h) == s0.room(h))) by {
                        assert(s2.has_room(h) == s1.has_room(h));
                        if s0.game_of(uid) is Some {
                            assert(s1.has_room(h) == s0.has_room(h));
                        }
                    }
                }
                return out;
            }
            proof {
                if s1.games@.len() == 0 {
                    assert(!s1.has_room(gid));
                }
            }
            attempt = attempt + 1;
        }
        proof {
            if only_own_room(s0, uid) {
                lemma_no_room_left(s0, s1, uid, out@);
            }
        }
        out
    }

    /// Takes user `uid` out of its room, then puts it into room `gid`.
    pub fn join_game(&mut self, uid: u32, gid: u16) -> (out: Vec<Outgoing>)
        requires
            old(self).wf(),
            old(self).has_user(uid),
        ensures
            join_post(*old(self), *final(self), uid, gid, out@),
    {
        let ghost s0 = *self;
        let mut out = self.leave_current(uid);
        proof {
            if s0.has_room(gid) && s0.game_of(uid) != Some(gid) {
                if s0.game_of(uid) is Some {
                    assert(self.has_room(gid));
                    assert(self.room(gid) == s0.room(gid));
                }
            }
        }
        let ghost s1 = *self;
        let mut joined = self.enter_game(uid, gid);
        let ghost prev = out@;
        let ghost added = joined@;
        out.append(&mut joined);
        assert(out@ == prev + added);
        assert(outbox_view(out@) =~= outbox_view(prev) + outbox_view(added));
        proof {
            assert(added.len() > 0);
            assert(outbox_view(out@).last() == outbox_view(added).last());
            if !s0.has_room(gid) {
                assert(!s1.has_room(gid)) by {
                    if s1.has_room(gid) {
                        if s0.game_of(uid) is Some {
                            let g = s0.game_of(uid)->0;
                            assert(g != gid);
                        }
                    }
                }
            }
            if s0.has_room(gid) && s0.game_of(uid) != Some(gid) {
                assert(s1.has_room(gid));
                assert(s1.room(gid) == s0.room(gid));
            }
            if s0.game_of(uid) == Some(gid) && !s0.room(gid).in_lobby() && s1.has_room(gid) {
                assert(left_room(s0.room(gid), s1.room(gid), uid));
                assert(!s1.room(gid).in_lobby());
            }
            assert(enter_post(s1, *self, uid, gid, added));
            assert(out@ == prev + added && leave_post(s0, s1, uid, prev));
        }
        out
    }
}

impl GameServer {
    /// The position of the room that user `uid` is in, if any.
    pub fn locate(&self, uid: u32) -> (r: Option<usize>)
        requires
            self.wf(),
        ensures
            match r {
                Some(k) => self.game_of(uid) is Some && k < self.games@.len()
                    && self.games@[k as int].id == self.game_of(uid)->0 && self.room_idx(
                    self.game_of(uid)->0,
                ) == k && self.has_room(self.game_of(uid)->0)
                    && self.games@[k as int].players@.contains(uid),
                None => self.game_of(uid) is None,
            },
    {
        let i = match self.find_user(uid) {
            Some(i) => i,
            None => return None,
        };
        match self.users[i].game_id {
            Some(g) => {
                let r = self.find_game(g);
                proof {
                    assert(self.users@[i as int].game_id is Some);
                }
                r
            },
            None => None,
        }
    }

    /// Room `k` replaced by `new_room`, of the same id and players, keeps the
    /// server well formed.
    pub(crate) proof fn lemma_room_replaced(self, old_self: GameServer, k: int, new_room: Game)
        requires
            old_self.wf(),
            0 <= k < old_self.games@.len(),
            new_room.wf(),
            new_room.id == old_self.games@[k].id,
            new_room.players@ == old_self.games@[k].players@,
            self.users == old_self.users,
            self.games@ == old_self.games@.update(k, new_room),
        ensures
            self.wf(),
            self.room(new_room.id) == new_room,
            self.other_rooms_kept(old_self, new_room.id),
            self.has_room(new_room.id),
            old_self.room(new_room.id) == old_self.games@[k],
            forall|x: u32| #[trigger] self.game_of(x) == old_self.game_of(x),
    {
        {
            assert forall|a: int, b: int|
                0 <= a < self.games@.len() && 0 <= b < self.games@.len() && a != b implies self.games@[a].id
                != self.games@[b].id by {
                assert(old_self.games@[a].id != old_self.games@[b].id);
            }
            assert forall|a: int| 0 <= a < self.games@.len() implies (#[trigger] self.games@[a]).wf() by {
                assert(old_self.games@[a].wf());
            }
            assert forall|a: int, b: int|
                0 <= a < self.users@.len() && 0 <= b < self.games@.len() implies ((#[trigger] self.users@[a]).game_id == Some(
                    (#[trigger] self.games@[b]).id,
                ) <==> self.games@[b].players@.contains(self.users@[a].id)) by {
                assert(old_self.users@[a].game_id == Some(old_self.games@[b].id)
                    <==> old_self.games@[b].players@.contains(old_self.users@[a].id));
            }
            assert forall|b: int, x: u32|
                0 <= b < self.games@.len() && #[trigger] self.games@[b].players@.contains(x) implies self.has_user(x) by {
                assert(old_self.games@[b].players@.contains(x));
            }
            assert forall|a: int|
                0 <= a < self.users@.len() && (#[trigger] self.users@[a]).game_id is Some implies self.has_room(
                    self.users@[a].game_id->0,
                ) by {
                let h = self.users@[a].game_id->0;
                assert(old_self.has_room(h));
                let ob = choose|ob: int| 0 <= ob < old_self.games@.len() && (#[trigger] old_self.games@[ob]).id == h;
                assert(self.games@[ob].id == h);
            }
            self.lemma_rooms_after_change(old_self, k, new_room, false);
            assert forall|x: u32| #[trigger] self.game_of(x) == old_self.game_of(x) by {
                assert(self.has_user(x) == old_self.has_user(x));
            }
        }
    }

}

impl GameServer {
    /// The users of `self` are those of `old_self`, each with the same id and
    /// room; only names may differ.
    proof fn lemma_users_renamed(self, old_self: GameServer)
        requires
            old_self.wf(),
            self.games == old_self.games,
            self.users@.len() == old_self.users@.len(),
            forall|a: int| 0 <= a < self.users@.len() ==> (#[trigger] self.users@[a]).id == old_self.users@[a].id
                && self.users@[a].game_id == old_self.users@[a].game_id,
        ensures
            self.wf(),
            forall|x: u32| #[trigger] self.has_user(x) == old_self.has_user(x),
            forall|x: u32| #[trigger] self.game_of(x) == old_self.game_of(x),
            forall|x: u32| old_self.has_user(x) ==> #[trigger] self.user_idx(x) == old_self.user_idx(x),
    {
        assert forall|x: u32| #[trigger] self.has_user(x) == old_self.has_user(x) by {
            if old_self.has_user(x) {
                let a = choose|a: int| 0 <= a < old_self.users@.len() && (#[trigger] old_self.users@[a]).id == x;
                assert(self.users@[a].id == x);
            }
            if self.has_user(x) {
                let a = choose|a: int| 0 <= a < self.users@.len() && (#[trigger] self.users@[a]).id == x;
                assert(old_self.users@[a].id == x);
            }
        }
        assert forall|a: int, b: int|
            0 <= a < self.users@.len() && 0 <= b < self.users@.len() && a != b implies self.users@[a].id
            != self.users@[b].id by {
            assert(old_self.users@[a].id != old_self.users@[b].id);
        }
        assert forall|a: int, b: int|
            0 <= a < self.users@.len() && 0 <= b < self.games@.len() implies ((#[trigger] self.users@[a]).game_id == Some(
                (#[trigger] self.games@[b]).id,
            ) <==> self.games@[b].players@.contains(self.users@[a].id)) by {
            assert(old_self.users@[a].game_id == Some(old_self.games@[b].id)
                <==> old_self.games@[b].players@.contains(old_self.users@[a].id));
        }
        assert forall|a: int|
            0 <= a < self.users@.len() && (#[trigger] self.users@[a]).game_id is Some implies self.has_room(
                self.users@[a].game_id->0,
            ) by {
            assert(old_self.users@[a].game_id is Some);
        }
        assert forall|x: u32| old_self.has_user(x) implies #[trigger] self.user_idx(x) == old_self.user_idx(x) by {
            let a = old_self.user_idx(x);
            assert(self.users@[a].id == x);
            let b = self.user_idx(x);
            assert(self.users@[b].id == x);
        }
        assert forall|x: u32| #[trigger] self.game_of(x) == old_self.game_of(x) by {
            if old_self.has_user(x) {
                assert(self.user_idx(x) == old_self.user_idx(x));
            }
        }
    }

    /// Renames user `uid` to `name` without its surrounding double quotes.
    pub fn set_username(&mut self, uid: u32, name: &str) -> (out: Vec<Outgoing>)
        requires
            old(self).wf(),
            old(self).has_user(uid),
        ensures
            final(self).wf(),
            forall|x: u32| #[trigger] final(self).has_user(x) == old(self).has_user(x),
            final(self).games == old(self).games,
            final(self).start_delay_ms == old(self).start_delay_ms,
            forall|x: u32| #[trigger] final(self).game_of(x) == old(self).game_of(x),
            final(self).renamed_from(*old(self), uid, name@),
            outbox_view(out@) == seq![(seq![uid], MsgView::ServerAck)],
    {
        let ghost old_self = *self;
        let i = match self.find_user(uid) {
            Some(i) => i,
            None => return Vec::new(),
        };
        let mut u = self.users.remove(i);
        u.name = trim_quotes(name);
        self.users.insert(i, u);
        proof {
            assert(self.users@ =~= old_self.users@.update(i as int, u));
            self.lemma_users_renamed(old_self);
            assert(self.users_view() =~= old_self.users_view().update(
                i as int,
                (uid, trim_quotes_spec(name@), old_self.game_of(uid)),
            ));
        }
        reply_only(uid, ServerMessage::ServerAck)
    }

    /// Registers a newly connected user named `name` under id `uid`, unless
    /// that id is taken.
    pub fn connect(&mut self, uid: u32, name: String) -> (r: bool)
        requires
            old(self).wf(),
        ensures
            final(self).wf(),
            r == !old(self).has_user(uid),
            r ==> final(self).users_view() == old(self).users_view().push((uid, name@, None))
                && final(self).games == old(self).games,
            !r ==> *final(self) == *old(self),
            final(self).has_user(uid),
            final(self).start_delay_ms == old(self).start_delay_ms,
    {
        if self.find_user(uid).is_some() {
            return false;
        }
        let ghost old_self = *self;
        self.users.push(User { id: uid, name, game_id: None });
        proof {
            let n = old_self.users@.len() as int;
            assert(self.users@[n].id == uid);
            assert forall|a: int, b: int|
                0 <= a < self.users@.len() && 0 <= b < self.users@.len() && a != b implies self.users@[a].id
                != self.users@[b].id by {
                if a < n && b < n {
                    assert(old_self.users@[a].id != old_self.users@[b].id);
                } else if a < n {
                    assert(old_self.users@[a].id != uid);
                } else {
                    assert(old_self.users@[b].id != uid);
                }
            }
            assert forall|a: int, b: int|
                0 <= a < self.users@.len() && 0 <= b < self.games@.len() implies ((#[trigger] self.users@[a]).game_id == Some(
                    (#[trigger] self.games@[b]).id,
                ) <==> self.games@[b].players@.contains(self.users@[a].id)) by {
                if a < n {
                    assert(old_self.users@[a].game_id == Some(old_self.games@[b].id)
                        <==> old_self.games@[b].players@.contains(old_self.users@[a].id));
                } else {
                    if self.games@[b].players@.contains(uid) {
                        assert(old_self.has_user(uid));
                    }
                }
            }
            assert forall|b: int, x: u32|
                0 <= b < self.games@.len() && #[trigger] self.games@[b].players@.contains(x) implies self.has_user(x) by {
                assert(old_self.has_user(x));
                let a = choose|a: int| 0 <= a < old_self.users@.len() && (#[trigger] old_self.users@[a]).id == x;
                assert(self.users@[a].id == x);
            }
            assert forall|a: int|
                0 <= a < self.users@.len() && (#[trigger] self.users@[a]).game_id is Some implies self.has_room(
                    self.users@[a].game_id->0,
                ) by {
                assert(a < n);
                assert(old_self.users@[a].game_id is Some);
            }
            assert(self.users_view() =~= old_self.users_view().push((uid, name@, None)));
        }
        true
    }

    /// Forgets user `uid`, who left: it first leaves its room.
    pub fn disconnect(&mut self, uid: u32) -> (out: Vec<Outgoing>)
        requires
            old(self).wf(),
        ensures
            final(self).wf(),
            !final(self).has_user(uid),
            final(self).start_delay_ms == old(self).start_delay_ms,
            old(self).game_of(uid) matches Some(g) ==> outbox_view(out@) == seq![
                (old(self).room(g).players@, MsgView::UserLeave(old(self).name_of(uid))),
            ],
            old(self).game_of(uid) is None ==> out@.len() == 0,
            exists|mid: GameServer| #[trigger] leave_post(*old(self), mid, uid, out@) && final(self).games == mid.games,
    {
        let out = self.leave_current(uid);
        let ghost mid = *self;
        assert(leave_post(*old(self), mid, uid, out@));
        let i = match self.find_user(uid) {
            Some(i) => i,
            None => return out,
        };
        let ghost old_self = *self;
        assert(self.users@[i as int].game_id is None);
        let _ = self.users.remove(i as usize);
        proof {
            assert forall|a: int, b: int|
                0 <= a < self.users@.len() && 0 <= b < self.users@.len() && a != b implies self.users@[a].id
                != self.users@[b].id by {
                let oa = if a < i { a } else { a + 1 };
                let ob = if b < i { b } else { b + 1 };
                assert(old_self.users@[oa].id != old_self.users@[ob].id);
            }
            assert forall|a: int, b: int|
                0 <= a < self.users@.len() && 0 <= b < self.games@.len() implies ((#[trigger] self.users@[a]).game_id == Some(
                    (#[trigger] self.games@[b]).id,
                ) <==> self.games@[b].players@.contains(self.users@[a].id)) by {
                let oa = if a < i { a } else { a + 1 };
                assert(old_self.users@[oa] == self.users@[a]);
                assert(old_self.users@[oa].game_id == Some(old_self.games@[b].id)
                    <==> old_self.games@[b].players@.contains(old_self.users@[oa].id));
            }
            assert forall|b: int, x: u32|
                0 <= b < self.games@.len() && #[trigger] self.games@[b].players@.contains(x) implies self.has_user(x) by {
                assert(old_self.has_user(x));
                let a = choose|a: int| 0 <= a < old_self.users@.len() && (#[trigger] old_self.users@[a]).id == x;
                assert(old_self.membership());
                assert(old_self.users@[a].game_id == Some(old_self.games@[b].id));
                assert(a != i);
                let na = if a < i { a } else { a - 1 };
                assert(self.users@[na].id == x);
            }
            assert forall|a: int|
                0 <= a < self.users@.len() && (#[trigger] self.users@[a]).game_id is Some implies self.has_room(
                    self.users@[a].game_id->0,
                ) by {
                let oa = if a < i { a } else { a + 1 };
                assert(old_self.users@[oa] == self.users@[a]);
            }
            if self.has_user(uid) {
                let a = choose|a: int| 0 <= a < self.users@.len() && (#[trigger] self.users@[a]).id == uid;
                let oa = if a < i { a } else { a + 1 };
                assert(old_self.users@[oa].id == uid);
            }
        }
        out
    }
}

impl GameServer {
    /// `self` is `old` with user `uid` renamed to `name` without its
    /// surrounding double quotes, and nothing else changed.
    pub open spec fn renamed_from(self, old: GameServer, uid: u32, name: Seq<char>) -> bool {
        &&& self.games == old.games
        &&& self.start_delay_ms == old.start_delay_ms
        &&& self.users_view() == old.users_view().update(
            old.user_idx(uid),
            (uid, trim_quotes_spec(name), old.game_of(uid)),
        )
    }
}

/// A user names a room as its own exactly when that room lists the user.
pub proof fn lemma_member_iff_listed(s: GameServer, uid: u32, gid: u16)
    requires
        s.wf(),
        s.has_user(uid),
        s.has_room(gid),
    ensures
        s.user(uid).game_id == Some(gid) <==> s.room(gid).players@.contains(uid),
{
    let i = s.user_idx(uid);
    let k = s.room_idx(gid);
    assert(s.users@[i].id == uid);
    assert(s.games@[k].id == gid);
}

/// No room in the registry is empty.
pub proof fn lemma_no_empty_room(s: GameServer, gid: u16)
    requires
        s.wf(),
        s.has_room(gid),
    ensures
        s.room(gid).players@.len() > 0,
{
    let k = s.room_idx(gid);
    assert(s.games@[k].wf());
}

/// In a room that waits in its lobby, the ready count is at most the
/// number of players.
pub proof fn lemma_lobby_ready_bounded(s: GameServer, gid: u16)
    requires
        s.wf(),
        s.has_room(gid),
    ensures
        s.room(gid).state matches GameStatus::Lobby(c) ==> c as nat <= s.room(gid).players@.len(),
{
    let k = s.room_idx(gid);
    assert(s.games@[k].wf());
    if s.room(gid).in_lobby() {
        crate::game::lemma_ready_count_bounded(s.room(gid));
    }
}

/// Renaming a user twice to the same name changes nothing the second time.
pub proof fn lemma_rename_idempotent(s0: GameServer, s1: GameServer, s2: GameServer, uid: u32, name: Seq<char>)
    requires
        s0.wf(),
        s1.wf(),
        s0.has_user(uid),
        s1.renamed_from(s0, uid, name),
        s2.renamed_from(s1, uid, name),
    ensures
        s2.users_view() == s1.users_view(),
        s2.games == s1.games,
{
    let i = s0.user_idx(uid);
    assert(s0.users@[i].id == uid);
    assert(s1.users_view().len() == s0.users_view().len());
    assert(s1.users@.len() == s1.users_view().len());
    assert(s1.users_view()[i].0 == uid);
    assert(s1.users@[i].id == uid);
    assert(s1.has_user(uid));
    let j = s1.user_idx(uid);
    assert(s1.users@[j].id == uid);
    assert(i == j);
    assert(s1.users_view()[i] == (s1.users@[i].id, s1.users@[i].name@, s1.users@[i].game_id));
    assert(s1.game_of(uid) == s0.game_of(uid));
    assert(s2.users_view() =~= s1.users_view());
}

/// What taking user `uid` out of its room does: `new` and the messages `out`, from `old`.
pub open spec fn leave_post(old: GameServer, new: GameServer, uid: u32, out: Seq<Outgoing>) -> bool {
    &&& new.wf()
    &&& new.start_delay_ms == old.start_delay_ms
    &&& new.game_of(uid) is None
    &&& forall|x: u32| #[trigger] new.has_user(x) == old.has_user(x)
    &&& old.game_of(uid) is None ==> new == old && out.len() == 0
    &&& (match old.game_of(uid) {
        None => true,
        Some(g) => {
            &&& outbox_view(out) == seq![
                (old.room(g).players@, MsgView::UserLeave(old.name_of(uid))),
            ]
            &&& new.users_view() == old.users_view().update(
                old.user_idx(uid),
                (uid, old.name_of(uid), None),
            )
            &&& new.other_rooms_kept(old, g)
            &&& (old.room(g).players@.len() == 1 <==> !new.has_room(g))
            &&& new.has_room(g) ==> left_room(old.room(g), new.room(g), uid)
        },
    })
}

/// `after` is room `room` once player `uid` has left it: the other players
/// keep their order, and a ready mark of the leaver is taken back, lowering
/// the ready count.
pub open spec fn left_room(room: Game, after: Game, uid: u32) -> bool {
    let ready = if room.ready@.contains(uid) {
        room.ready@.remove(room.ready@.index_of(uid))
    } else {
        room.ready@
    };
    &&& after.id == room.id
    &&& after.players@ == room.players@.remove(room.players@.index_of(uid))
    &&& after.ready@ == ready
    &&& after.state == if room.in_lobby() {
        GameStatus::Lobby(ready.len() as u8)
    } else {
        room.state
    }
}

/// What opening a room for user `uid` does.
pub open spec fn create_post(old: GameServer, new: GameServer, uid: u32, out: Seq<Outgoing>) -> bool {
    &&& new.wf()
    &&& forall|x: u32| #[trigger] new.has_user(x) == old.has_user(x)
    &&& new.start_delay_ms == old.start_delay_ms
    &&& only_own_room(old, uid) ==> new.game_of(uid) is Some
    &&& match new.game_of(uid) {
        Some(g) => {
            &&& !old.has_room(g) || (old.game_of(uid) == Some(g) && old.room(g).players@.len() == 1)
            &&& new.room(g).players@ == seq![uid]
            &&& new.room(g).state == GameStatus::Lobby(0)
            &&& forall|h: u16|
                h != g && Some(h) != old.game_of(uid) ==> (new.has_room(h) == old.has_room(h) && (
                old.has_room(h) ==> new.room(h) == old.room(h)))
            &&& outbox_view(out) == leave_msgs(old, uid) + seq![(seq![uid], MsgView::GameCreated(g))]
        },
        None => leave_post(old, new, uid, out),
    }
}

/// Whether every room is the room of user `uid`, with `uid` its only
/// player: once `uid` has left, no room remains, so any id is free.
pub open spec fn only_own_room(s: GameServer, uid: u32) -> bool {
    forall|k: int| 0 <= k < s.games@.len() ==> (#[trigger] s.games@[k]).players@ == seq![uid]
}

/// What the players of the room that user `uid` leaves are told.
pub open spec fn leave_msgs(s: GameServer, uid: u32) -> Seq<(Seq<u32>, MsgView)> {
    match s.game_of(uid) {
        Some(g) => seq![(s.room(g).players@, MsgView::UserLeave(s.name_of(uid)))],
        None => seq![],
    }
}

/// Once user `uid` has left its room, a room that only it was in is gone.
proof fn lemma_no_room_left(s0: GameServer, s1: GameServer, uid: u32, out: Seq<Outgoing>)
    requires
        s0.wf(),
        s0.has_user(uid),
        leave_post(s0, s1, uid, out),
        only_own_room(s0, uid),
    ensures
        s1.games@.len() == 0,
{
    if s1.games@.len() > 0 {
        let h = s1.games@[0].id;
        assert(s1.has_room(h));
        if s0.game_of(uid) == Some(h) {
            let k = s0.room_idx(h);
            assert(s0.games@[k].players@ == seq![uid]);
        } else {
            assert(s0.has_room(h));
            let k = s0.room_idx(h);
            assert(s0.games@[k].players@ == seq![uid]);
            assert(s0.room(h).players@.contains(uid)) by {
                assert(s0.room(h).players@[0] == uid);
            }
            lemma_member_iff_listed(s0, uid, h);
        }
    }
}

/// What user `uid`, in no room, entering room `gid` does.
pub open spec fn enter_post(old: GameServer, new: GameServer, uid: u32, gid: u16, out: Seq<Outgoing>) -> bool {
    &&& (new.wf())
    &&& (new.start_delay_ms == old.start_delay_ms)
    &&& (forall|x: u32| #[trigger] new.has_user(x) == old.has_user(x))
    &&& (!old.has_room(gid) ==> new == old && outbox_view(out) == seq![
        (seq![uid], MsgView::GameNotFound),
    ])
    &&& (old.has_room(gid) && !old.room(gid).in_lobby() ==> new == old && outbox_view(out) == seq![
        (seq![uid], MsgView::Error("cannot join game: game is not in lobby state"@)),
    ])
    &&& (old.has_room(gid) && old.room(gid).in_lobby()
        && old.room(gid).players@.len() >= MAX_PLAYERS ==> new == old && outbox_view(out) == seq![
        (seq![uid], MsgView::Error("cannot join game: game is full"@)),
    ])
    &&& (old.has_room(gid) && old.room(gid).in_lobby()
        && old.room(gid).players@.len() < MAX_PLAYERS ==> {
        &&& new.game_of(uid) == Some(gid)
        &&& new.room(gid).players@ == old.room(gid).players@.push(uid)
        &&& new.room(gid).ready@ == old.room(gid).ready@
        &&& new.room(gid).state == old.room(gid).state
        &&& new.other_rooms_kept(old, gid)
        &&& new.users_view() == old.users_view().update(
            old.user_idx(uid),
            (uid, old.name_of(uid), Some(gid)),
        )
        &&& outbox_view(out) == seq![
            (old.room(gid).players@, MsgView::UserJoin(old.name_of(uid))),
        ] + roster_view(old, old.room(gid).players@, uid)
    })
}

/// What user `uid` joining room `gid` does.
pub open spec fn join_post(old: GameServer, new: GameServer, uid: u32, gid: u16, out: Seq<Outgoing>) -> bool {
    &&& new.wf()
    &&& forall|x: u32| #[trigger] new.has_user(x) == old.has_user(x)
    &&& new.start_delay_ms == old.start_delay_ms
    &&& (old.game_of(uid) matches Some(g) ==> outbox_view(out)[0] == (
        old.room(g).players@,
        MsgView::UserLeave(old.name_of(uid)),
    ))
    &&& old.game_of(uid) is None ==> out.len() > 0
    &&& exists|mid: GameServer, a: Seq<Outgoing>, b: Seq<Outgoing>|
        out == a + b && #[trigger] leave_post(old, mid, uid, a) && #[trigger] enter_post(mid, new, uid, gid, b)
    &&& !old.has_room(gid) ==> !new.has_room(gid)
    &&& old.game_of(uid) == Some(gid) && !old.room(gid).in_lobby() ==> new.game_of(uid) is None
    &&& (!old.has_room(gid) ==> new.game_of(uid) is None && outbox_view(out).last() == (
        seq![uid],
        MsgView::GameNotFound,
    ))
    &&& (old.has_room(gid) && old.game_of(uid) != Some(gid) && !old.room(gid).in_lobby() ==> {
        &&& new.game_of(uid) is None
        &&& outbox_view(out).last() == (
            seq![uid],
            MsgView::Error("cannot join game: game is not in lobby state"@),
        )
    })
    &&& (old.has_room(gid) && old.game_of(uid) != Some(gid) && old.room(gid).in_lobby()
        && old.room(gid).players@.len() >= MAX_PLAYERS ==> {
        &&& new.game_of(uid) is None
        &&& outbox_view(out).last() == (seq![uid], MsgView::Error("cannot join game: game is full"@))
    })
    &&& (old.has_room(gid) && old.game_of(uid) != Some(gid) && old.room(gid).in_lobby()
        && old.room(gid).players@.len() < MAX_PLAYERS ==> {
        &&& new.game_of(uid) == Some(gid)
        &&& new.room(gid).players@ == old.room(gid).players@.push(uid)
    })
}

} // verus!
