use vstd::prelude::*;
use crate::game::{
    buckets_of, copy_ids, find_bucket, flatten_buckets, songs_of, Game, GameStatus, PlayPhase, SongBucket,
};
use crate::message::{error_msg, outbox_view, MsgView, Outgoing, ServerMessage};
use crate::server::{reply, reply_only, GameServer};
use crate::song::{OneOrMoreSongs, Song};

verus! {

/// What the contributor of `songs` is told: one `AddedSong` per song.
pub open spec fn added_view(uid: u32, songs: Seq<Song>) -> Seq<(Seq<u32>, MsgView)> {
    songs.map_values(|s: Song| (seq![uid], MsgView::AddedSong(s.id@, s.title@, s.artist@)))
}

impl GameServer {
    /// Checks that user `uid` may add a song now; if so, returns its room,
    /// for which the download is then made.
    pub fn check_add_song(&self, uid: u32) -> (r: (Vec<Outgoing>, Option<u16>))
        requires
            self.wf(),
        ensures
            add_check_post(*self, uid, r.0@, r.1),
    {
        let k = match self.locate(uid) {
            None => return (reply_only(uid, error_msg("cannot add song: not in a game")), None),
            Some(k) => k,
        };
        match self.games[k].state {
            GameStatus::Playing(PlayPhase::SelectingSongs(_)) => {
                (reply_only(uid, ServerMessage::ServerAck), Some(self.games[k].id))
            },
            _ => (
                reply_only(uid, error_msg("cannot add song: game is not in song selection state")),
                None,
            ),
        }
    }

    /// A download for user `uid` in room `gid` has finished with `songs`.
    /// They join the user's bucket if the user is still in that room and
    /// it still collects songs; otherwise they are dropped.
    pub fn add_songs(&mut self, uid: u32, gid: u16, songs: OneOrMoreSongs) -> (out: Vec<Outgoing>)
        requires
            old(self).wf(),
        ensures
            final(self).wf(),
            final(self).users == old(self).users,
            final(self).start_delay_ms == old(self).start_delay_ms,
            forall|x: u32| #[trigger] final(self).game_of(x) == old(self).game_of(x),
            if old(self).game_of(uid) == Some(gid) && old(self).room(gid).selecting() {
                &&& final(self).room(gid).players@ == old(self).room(gid).players@
                &&& final(self).room(gid).selecting()
                &&& (forall|o: u32| #[trigger] songs_of(buckets_of(final(self).room(gid)), o) == if o == uid {
                    songs_of(buckets_of(old(self).room(gid)), uid) + songs.songs()
                } else {
                    songs_of(buckets_of(old(self).room(gid)), o)
                })
                &&& final(self).other_rooms_kept(*old(self), gid)
                &&& outbox_view(out@) == added_view(uid, songs.songs())
            } else {
                *final(self) == *old(self) && out@.len() == 0
            },
    {
        let k = match self.locate(uid) {
            None => return Vec::new(),
            Some(k) => k,
        };
        if self.games[k].id != gid {
            return Vec::new();
        }
        match self.games[k].state {
            GameStatus::Playing(PlayPhase::SelectingSongs(_)) => {},
            _ => return Vec::new(),
        }
        let ghost old_self = *self;
        let ghost resolved = songs.songs();
        let mut list = songs.into_songs();
        let mut out: Vec<Outgoing> = Vec::new();
        let mut j: usize = 0;
        while j < list.len()
            invariant
                j <= list@.len(),
                list@ == resolved,
                outbox_view(out@) =~= added_view(uid, resolved.subrange(0, j as int)),
            decreases list.len() - j,
        {
            let ghost prev = out@;
            let copy = list[j].duplicate();
            out.push(reply(uid, ServerMessage::AddedSong(copy)));
            assert(resolved.subrange(0, j + 1) =~= resolved.subrange(0, j as int).push(resolved[j as int]));
            assert(outbox_view(out@) =~= outbox_view(prev).push((seq![uid], MsgView::AddedSong(resolved[j as int].id@, resolved[j as int].title@, resolved[j as int].artist@))));
            j = j + 1;
        }
        assert(resolved.subrange(0, list@.len() as int) == resolved);
        let g = self.games.remove(k);
        let Game { id, players, ready, state } = g;
        let mut buckets = match state {
            GameStatus::Playing(PlayPhase::SelectingSongs(b)) => b,
            other => {
                self.games.insert(k, Game { id, players, ready, state: other });
                proof {
                    assert(false);
                }
                return out;
            },
        };
        let ghost old_b = buckets@;
        match find_bucket(&buckets, uid) {
            Some(bi) => {
                let mut b = buckets.remove(bi);
                let ghost before = b.songs@;
                b.songs.append(&mut list);
                let ghost nb = b;
                buckets.insert(bi, b);
                proof {
                    assert(buckets@ =~= old_b.update(bi as int, nb));
                    crate::game::lemma_bucket_set(old_b, buckets@, uid, nb);
                }
            },
            None => {
                let b = SongBucket { owner: uid, songs: list };
                let ghost nb = b;
                buckets.push(b);
                proof {
                    assert(nb.songs@ =~= Seq::<Song>::empty() + resolved);
                    crate::game::lemma_bucket_set(old_b, buckets@, uid, nb);
                }
            },
        }
        let new_room = Game { id, players, ready, state: GameStatus::Playing(PlayPhase::SelectingSongs(buckets)) };
        let ghost nr = new_room;
        self.games.insert(k, new_room);
        proof {
            assert(self.games@ =~= old_self.games@.update(k as int, nr));
            self.lemma_room_replaced(old_self, k as int, nr);
        }
        out
    }

    /// Removes the song at `idx` from the bucket of user `uid`.
    pub fn remove_song(&mut self, uid: u32, idx: u32) -> (out: Vec<Outgoing>)
        requires
            old(self).wf(),
        ensures
            remove_post(*old(self), *final(self), uid, idx, out@),
    {
        let k = match self.locate(uid) {
            None => return reply_only(uid, error_msg("cannot remove song: not in a game")),
            Some(k) => k,
        };
        let bi = match &self.games[k].state {
            GameStatus::Playing(PlayPhase::SelectingSongs(b)) => {
                match find_bucket(b, uid) {
                    Some(bi) => {
                        if idx as usize >= b[bi].songs.len() {
                            return reply_only(uid, error_msg("cannot remove song: index out of bounds"));
                        }
                        bi
                    },
                    None => return reply_only(uid, error_msg("cannot remove song: index out of bounds")),
                }
            },
            _ => return reply_only(
                uid,
                error_msg("cannot remove song: game is not in song selection state"),
            ),
        };
        let ghost old_self = *self;
        let g = self.games.remove(k);
        let Game { id, players, ready, state } = g;
        let mut buckets = match state {
            GameStatus::Playing(PlayPhase::SelectingSongs(b)) => b,
            other => {
                self.games.insert(k, Game { id, players, ready, state: other });
                proof {
                    assert(false);
                }
                return Vec::new();
            },
        };
        let ghost old_b = buckets@;
        let mut b = buckets.remove(bi);
        let _ = b.songs.remove(idx as usize);
        let ghost nb = b;
        buckets.insert(bi, b);
        proof {
            assert(buckets@ =~= old_b.update(bi as int, nb));
            crate::game::lemma_bucket_set(old_b, buckets@, uid, nb);
        }
        let new_room = Game { id, players, ready, state: GameStatus::Playing(PlayPhase::SelectingSongs(buckets)) };
        let ghost nr = new_room;
        self.games.insert(k, new_room);
        proof {
            assert(self.games@ =~= old_self.games@.update(k as int, nr));
            self.lemma_room_replaced(old_self, k as int, nr);
        }
        reply_only(uid, ServerMessage::RemovedSong(idx))
    }
}

/// What the round engine is handed when the rounds start: the players, in
/// join order, and every contributed song.
#[derive(Debug)]
pub struct RoundStart {
    pub game_id: u16,
    pub players: Vec<u32>,
    /// The players' names, in the same order.
    pub names: Vec<String>,
    pub songs: Vec<Song>,
}

/// All songs of `buckets`, bucket after bucket, taken out of them.
pub fn flatten(buckets: Vec<SongBucket>) -> (r: Vec<Song>)
    ensures
        r@ == flatten_buckets(buckets@),
{
    let ghost all = buckets@;
    let mut rest = buckets;
    let mut bag: Vec<Song> = Vec::new();
    while rest.len() > 0
        invariant
            flatten_buckets(all) == bag@ + flatten_buckets(rest@),
        decreases rest@.len(),
    {
        let ghost before = rest@;
        let mut b = rest.remove(0);
        assert(rest@ == before.drop_first());
        let ghost prev = bag@;
        bag.append(&mut b.songs);
        assert(flatten_buckets(before) == before[0].songs@ + flatten_buckets(rest@));
        assert(prev + (before[0].songs@ + flatten_buckets(rest@)) =~= bag@ + flatten_buckets(rest@));
    }
    assert(bag@ + flatten_buckets(rest@) =~= bag@);
    bag
}

impl GameServer {
    /// The host of the room of user `uid` ends song selection: the rounds
    /// start with every contributed song.
    pub fn start_guessing(&mut self, uid: u32) -> (r: (Vec<Outgoing>, Option<RoundStart>))
        requires
            old(self).wf(),
        ensures
            start_guessing_post(*old(self), *final(self), uid, r.0@, r.1),
    {
        let k = match self.locate(uid) {
            None => return (reply_only(uid, error_msg("cannot start guessing: not in a game")), None),
            Some(k) => k,
        };
        if let GameStatus::Playing(_) = self.games[k].state {
            if self.games[k].players[0] != uid {
                return (reply_only(uid, error_msg("cannot start guessing: you are not the leader")), None);
            }
        }
        match self.games[k].state {
            GameStatus::Playing(PlayPhase::SelectingSongs(_)) => {},
            _ => return (
                reply_only(uid, error_msg("cannot start guessing: game is not in song selection state")),
                None,
            ),
        }
        let ghost old_self = *self;
        let names = self.names_of(k);
        let g = self.games.remove(k);
        let Game { id, players, ready, state } = g;
        let buckets = match state {
            GameStatus::Playing(PlayPhase::SelectingSongs(b)) => b,
            other => {
                self.games.insert(k, Game { id, players, ready, state: other });
                proof {
                    assert(false);
                }
                return (Vec::new(), None);
            },
        };
        let songs = flatten(buckets);
        let to = copy_ids(&players);
        let snapshot = copy_ids(&players);
        let new_room = Game { id, players, ready, state: GameStatus::Playing(PlayPhase::GuessingSongs) };
        let ghost nr = new_room;
        self.games.insert(k, new_room);
        proof {
            assert(self.games@ =~= old_self.games@.update(k as int, nr));
            self.lemma_room_replaced(old_self, k as int, nr);
        }
        let mut out: Vec<Outgoing> = Vec::new();
        out.push(Outgoing { to, msg: ServerMessage::GameStartGuessing });
        proof {
            let n = *self;
            assert(n.wf());
            assert(forall|x: u32| #[trigger] n.game_of(x) == old_self.game_of(x));
            assert(n.other_rooms_kept(old_self, id));
            let room = old_self.games@[k as int];
            assert(old_self.game_of(uid) == Some(room.id));
            assert(old_self.room(room.id) == room);
            assert(n.room(room.id).players@ == room.players@);
            assert(n.room(room.id).guessing());
            assert(songs@ == flatten_buckets(buckets_of(room)));
            assert(snapshot@ == room.players@);
            assert(names@.len() == room.players@.len());
            assert(outbox_view(out@) == seq![(room.players@, MsgView::GameStartGuessing)]);
        }
        (out, Some(RoundStart { game_id: id, players: snapshot, names, songs }))
    }

    /// The names of the players of room `k`, in join order.
    pub fn names_of(&self, k: usize) -> (r: Vec<String>)
        requires
            self.wf(),
            k < self.games@.len(),
        ensures
            r@.len() == self.games@[k as int].players@.len(),
            forall|i: int| 0 <= i < r@.len() ==> (#[trigger] r@[i])@ == self.name_of(self.games@[k as int].players@[i]),
    {
        let mut r: Vec<String> = Vec::new();
        let n = self.games[k].players.len();
        let mut j: usize = 0;
        while j < n
            invariant
                self.wf(),
                k < self.games@.len(),
                n == self.games@[k as int].players@.len(),
                j <= n,
                r@.len() == j,
                forall|i: int| 0 <= i < j ==> (#[trigger] r@[i])@ == self.name_of(self.games@[k as int].players@[i]),
            decreases n - j,
        {
            let p = self.games[k].players[j];
            assert(self.games@[k as int].players@.contains(p)) by {
                assert(self.games@[k as int].players@[j as int] == p);
            }
            r.push(self.name_clone(p));
            j = j + 1;
        }
        r
    }

    /// Checks that user `uid` may guess now; if so, returns the room whose
    /// round engine takes the guess.
    pub fn check_guess(&self, uid: u32) -> (r: (Vec<Outgoing>, Option<u16>))
        requires
            self.wf(),
        ensures
            guess_check_post(*self, uid, r.0@, r.1),
    {
        let k = match self.locate(uid) {
            None => return (reply_only(uid, error_msg("cannot guess song: not in a game")), None),
            Some(k) => k,
        };
        match self.games[k].state {
            GameStatus::Playing(PlayPhase::GuessingSongs) => (Vec::new(), Some(self.games[k].id)),
            _ => (
                reply_only(uid, error_msg("cannot guess song: game is not in guessing state")),
                None,
            ),
        }
    }
}

/// What checking that user `uid` may add a song answers; `room` is where the download goes.
pub open spec fn add_check_post(s: GameServer, uid: u32, out: Seq<Outgoing>, room: Option<u16>) -> bool {
    &&& (match s.game_of(uid) {
        None => room is None && outbox_view(out) == seq![
            (seq![uid], MsgView::Error("cannot add song: not in a game"@)),
        ],
        Some(g) => if s.room(g).selecting() {
            room == Some(g) && outbox_view(out) == seq![(seq![uid], MsgView::ServerAck)]
        } else {
            room is None && outbox_view(out) == seq![
                (seq![uid], MsgView::Error("cannot add song: game is not in song selection state"@)),
            ]
        },
    })
}

/// What user `uid` removing its song at `idx` does.
pub open spec fn remove_post(old: GameServer, new: GameServer, uid: u32, idx: u32, out: Seq<Outgoing>) -> bool {
    &&& new.wf()
    &&& new.users == old.users
    &&& new.start_delay_ms == old.start_delay_ms
    &&& forall|x: u32| #[trigger] new.game_of(x) == old.game_of(x)
    &&& (match old.game_of(uid) {
        None => new == old && outbox_view(out) == seq![
            (seq![uid], MsgView::Error("cannot remove song: not in a game"@)),
        ],
        Some(g) => {
            let mine = songs_of(buckets_of(old.room(g)), uid);
            if !old.room(g).selecting() {
                new == old && outbox_view(out) == seq![
                    (seq![uid], MsgView::Error("cannot remove song: game is not in song selection state"@)),
                ]
            } else if idx as int >= mine.len() {
                new == old && outbox_view(out) == seq![
                    (seq![uid], MsgView::Error("cannot remove song: index out of bounds"@)),
                ]
            } else {
                &&& new.room(g).players@ == old.room(g).players@
                &&& new.room(g).selecting()
                &&& (forall|o: u32| #[trigger] songs_of(buckets_of(new.room(g)), o) == if o == uid {
                    mine.remove(idx as int)
                } else {
                    songs_of(buckets_of(old.room(g)), o)
                })
                &&& new.other_rooms_kept(old, g)
                &&& outbox_view(out) == seq![(seq![uid], MsgView::RemovedSong(idx))]
            }
        },
    })
}

/// What user `uid` starting the rounds does; `start` is what the round engine is handed.
pub open spec fn start_guessing_post(old: GameServer, new: GameServer, uid: u32, out: Seq<Outgoing>, start: Option<RoundStart>) -> bool {
    &&& new.wf()
    &&& new.users == old.users
    &&& new.start_delay_ms == old.start_delay_ms
    &&& forall|x: u32| #[trigger] new.game_of(x) == old.game_of(x)
    &&& (match old.game_of(uid) {
        None => new == old && start is None && outbox_view(out) == seq![
            (seq![uid], MsgView::Error("cannot start guessing: not in a game"@)),
        ],
        Some(g) => {
            let room = old.room(g);
            if !room.in_lobby() && room.players@[0] != uid {
                new == old && start is None && outbox_view(out) == seq![
                    (seq![uid], MsgView::Error("cannot start guessing: you are not the leader"@)),
                ]
            } else if !room.selecting() {
                new == old && start is None && outbox_view(out) == seq![
                    (seq![uid], MsgView::Error("cannot start guessing: game is not in song selection state"@)),
                ]
            } else {
                &&& new.room(g).players@ == room.players@
                &&& new.room(g).guessing()
                &&& new.other_rooms_kept(old, g)
                &&& (start matches Some(st) && st.game_id == g && st.players@ == room.players@
                    && st.songs@ == flatten_buckets(buckets_of(room))
                    && st.names@.len() == room.players@.len()
                    && (forall|i: int| 0 <= i < room.players@.len() ==> (#[trigger] st.names@[i])@ == old.name_of(room.players@[i])))
                &&& outbox_view(out) == seq![(room.players@, MsgView::GameStartGuessing)]
            }
        },
    })
}

/// What checking that user `uid` may guess answers; `room` is whose engine takes the guess.
pub open spec fn guess_check_post(s: GameServer, uid: u32, out: Seq<Outgoing>, room: Option<u16>) -> bool {
    &&& (match s.game_of(uid) {
        None => room is None && outbox_view(out) == seq![
            (seq![uid], MsgView::Error("cannot guess song: not in a game"@)),
        ],
        Some(g) => if s.room(g).guessing() {
            room == Some(g) && out.len() == 0
        } else {
            room is None && outbox_view(out) == seq![
                (seq![uid], MsgView::Error("cannot guess song: game is not in guessing state"@)),
            ]
        },
    })
}

} // verus!
