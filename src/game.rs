use vstd::prelude::*;
use crate::song::Song;

verus! {

/// The most players a room holds, so that its ready count fits in a `u8`.
pub const MAX_PLAYERS: usize = 255;

/// The songs one player contributed while songs are being selected.
#[derive(Debug)]
pub struct SongBucket {
    pub owner: u32,
    pub songs: Vec<Song>,
}

/// The phase of a room whose game is running.
#[derive(Debug)]
pub enum PlayPhase {
    /// Players add songs, each to a bucket of their own.
    SelectingSongs(Vec<SongBucket>),
    /// The rounds run; guesses go to the round engine.
    GuessingSongs,
}

/// The state of a room.
#[derive(Debug)]
pub enum GameStatus {
    /// Waiting for players; holds how many of them are ready.
    Lobby(u8),
    Playing(PlayPhase),
}

/// A room: its id, its players in join order (the first is the host), the
/// players that are ready, and its state.
#[derive(Debug)]
pub struct Game {
    pub id: u16,
    pub players: Vec<u32>,
    pub ready: Vec<u32>,
    pub state: GameStatus,
}

/// No two buckets belong to the same player.
pub open spec fn owners_unique(b: Seq<SongBucket>) -> bool {
    forall|i: int, j: int| 0 <= i < b.len() && 0 <= j < b.len() && i != j ==> b[i].owner != b[j].owner
}

/// The songs that player `uid` contributed: its bucket's, or none.
pub open spec fn songs_of(b: Seq<SongBucket>, uid: u32) -> Seq<Song> {
    if exists|i: int| 0 <= i < b.len() && (#[trigger] b[i]).owner == uid {
        b[choose|i: int| 0 <= i < b.len() && (#[trigger] b[i]).owner == uid].songs@
    } else {
        seq![]
    }
}

/// All contributed songs, bucket after bucket.
pub open spec fn flatten_buckets(b: Seq<SongBucket>) -> Seq<Song>
    decreases b.len(),
{
    if b.len() == 0 {
        seq![]
    } else {
        b[0].songs@ + flatten_buckets(b.drop_first())
    }
}

/// The buckets of a room that collects songs.
pub open spec fn buckets_of(g: Game) -> Seq<SongBucket> {
    match g.state {
        GameStatus::Playing(PlayPhase::SelectingSongs(b)) => b@,
        _ => seq![],
    }
}

/// Whether every element of `a` occurs in `b`.
pub open spec fn all_in(a: Seq<u32>, b: Seq<u32>) -> bool {
    forall|x: u32| a.contains(x) ==> b.contains(x)
}

impl Game {
    /// A room has players, each once, holds no more than it can count, and
    /// counts exactly the ready players while in the lobby; outside the
    /// lobby nobody is marked ready.
    pub open spec fn wf(self) -> bool {
        &&& self.players@.len() > 0
        &&& self.players@.len() <= MAX_PLAYERS
        &&& self.players@.no_duplicates()
        &&& self.ready@.no_duplicates()
        &&& all_in(self.ready@, self.players@)
        &&& match self.state {
            GameStatus::Lobby(c) => c as nat == self.ready@.len(),
            GameStatus::Playing(_) => self.ready@.len() == 0,
        }
        &&& match self.state {
            GameStatus::Playing(PlayPhase::SelectingSongs(b)) => owners_unique(b@),
            _ => true,
        }
    }

    /// Whether the room waits in its lobby.
    pub open spec fn in_lobby(self) -> bool {
        self.state is Lobby
    }

    /// Whether the room collects songs.
    pub open spec fn selecting(self) -> bool {
        match self.state {
            GameStatus::Playing(PlayPhase::SelectingSongs(_)) => true,
            _ => false,
        }
    }

    /// Whether the room runs its rounds.
    pub open spec fn guessing(self) -> bool {
        match self.state {
            GameStatus::Playing(PlayPhase::GuessingSongs) => true,
            _ => false,
        }
    }
}

/// A list without repeats is no longer than a list that holds all of it.
pub proof fn lemma_len_all_in(a: Seq<u32>, b: Seq<u32>)
    requires
        a.no_duplicates(),
        all_in(a, b),
    ensures
        a.len() <= b.len(),
{
    a.unique_seq_to_set();
    b.lemma_cardinality_of_set();
    assert(a.to_set().subset_of(b.to_set()));
    vstd::set_lib::lemma_len_subset(a.to_set(), b.to_set());
}

/// While a room waits in its lobby, its ready count is at most its number of players.
pub proof fn lemma_ready_count_bounded(g: Game)
    requires
        g.wf(),
        g.in_lobby(),
    ensures
        match g.state {
            GameStatus::Lobby(c) => c as nat <= g.players@.len(),
            _ => true,
        },
{
    lemma_len_all_in(g.ready@, g.players@);
}

/// Whether `v` holds `x`.
pub fn contains_id(v: &Vec<u32>, x: u32) -> (r: bool)
    ensures
        r == v@.contains(x),
{
    let mut i: usize = 0;
    while i < v.len()
        invariant
            i <= v@.len(),
            forall|j: int| 0 <= j < i ==> v@[j] != x,
        decreases v.len() - i,
    {
        if v[i] == x {
            return true;
        }
        i = i + 1;
    }
    false
}

/// The position of `x` in `v`, if any.
pub fn index_of_id(v: &Vec<u32>, x: u32) -> (r: Option<usize>)
    ensures
        match r {
            Some(i) => i < v@.len() && v@[i as int] == x,
            None => !v@.contains(x),
        },
{
    let mut i: usize = 0;
    while i < v.len()
        invariant
            i <= v@.len(),
            forall|j: int| 0 <= j < i ==> v@[j] != x,
        decreases v.len() - i,
    {
        if v[i] == x {
            return Some(i);
        }
        i = i + 1;
    }
    None
}

/// Removes `x` from a list without repeats, keeping the order of the rest.
pub fn remove_id(v: &mut Vec<u32>, x: u32)
    requires
        old(v)@.no_duplicates(),
    ensures
        final(v)@.no_duplicates(),
        forall|y: u32| final(v)@.contains(y) <==> (old(v)@.contains(y) && y != x),
        final(v)@.len() == if old(v)@.contains(x) {
            old(v)@.len() - 1
        } else {
            old(v)@.len() as int
        },
        !old(v)@.contains(x) ==> final(v)@ == old(v)@,
        old(v)@.contains(x) ==> exists|j: int|
            0 <= j < old(v)@.len() && old(v)@[j] == x && final(v)@ == old(v)@.remove(j),
        old(v)@.contains(x) ==> final(v)@ == old(v)@.remove(old(v)@.index_of(x)),
{
    match index_of_id(v, x) {
        Some(j) => {
            let ghost before = v@;
            v.remove(j);
            assert(v@ == before.remove(j as int));
            proof {
                let c = before.index_of(x);
                assert(before[c] == x);
                assert(c == j);
            }
            assert forall|y: u32| v@.contains(y) <==> (before.contains(y) && y != x) by {
                if v@.contains(y) {
                    let k = choose|k: int| 0 <= k < v@.len() && v@[k] == y;
                    if k < j {
                        assert(before[k] == y);
                    } else {
                        assert(before[k + 1] == y);
                    }
                }
                if before.contains(y) && y != x {
                    let k = choose|k: int| 0 <= k < before.len() && before[k] == y;
                    if k < j {
                        assert(v@[k] == y);
                    } else {
                        assert(v@[k - 1] == y);
                    }
                }
            }
        },
        None => {},
    }
}

/// The position of the bucket of player `uid`, if it has one.
pub fn find_bucket(b: &Vec<SongBucket>, uid: u32) -> (r: Option<usize>)
    requires
        owners_unique(b@),
    ensures
        match r {
            Some(i) => i < b@.len() && b@[i as int].owner == uid && songs_of(b@, uid) == b@[i as int].songs@,
            None => songs_of(b@, uid) == Seq::<Song>::empty() && forall|i: int| 0 <= i < b@.len() ==> b@[i].owner != uid,
        },
{
    let mut i: usize = 0;
    while i < b.len()
        invariant
            i <= b@.len(),
            owners_unique(b@),
            forall|j: int| 0 <= j < i ==> b@[j].owner != uid,
        decreases b.len() - i,
    {
        if b[i].owner == uid {
            proof {
                assert(b@[i as int].owner == uid);
                let c = choose|c: int| 0 <= c < b@.len() && (#[trigger] b@[c]).owner == uid;
                assert(c == i);
            }
            return Some(i);
        }
        i = i + 1;
    }
    None
}

/// A copy of a list of ids.
pub fn copy_ids(v: &Vec<u32>) -> (r: Vec<u32>)
    ensures
        r@ == v@,
{
    let mut r: Vec<u32> = Vec::new();
    let mut i: usize = 0;
    while i < v.len()
        invariant
            i <= v@.len(),
            r@ == v@.subrange(0, i as int),
        decreases v.len() - i,
    {
        r.push(v[i]);
        assert(v@.subrange(0, i + 1) == v@.subrange(0, i as int).push(v@[i as int]));
        i = i + 1;
    }
    assert(v@.subrange(0, v@.len() as int) == v@);
    r
}


/// Replacing the bucket of `uid` at `bi`, or adding one where it had none,
/// changes the songs of `uid` alone.
pub proof fn lemma_bucket_set(old_b: Seq<SongBucket>, new_b: Seq<SongBucket>, uid: u32, nb: SongBucket)
    requires
        owners_unique(old_b),
        nb.owner == uid,
        (exists|bi: int| 0 <= bi < old_b.len() && old_b[bi].owner == uid && new_b == old_b.update(bi, nb))
            || ((forall|j: int| 0 <= j < old_b.len() ==> old_b[j].owner != uid) && new_b == old_b.push(nb)),
    ensures
        owners_unique(new_b),
        forall|o: u32| #[trigger] songs_of(new_b, o) == if o == uid {
            nb.songs@
        } else {
            songs_of(old_b, o)
        },
{
    let pushed = !(exists|bi: int| 0 <= bi < old_b.len() && old_b[bi].owner == uid && new_b == old_b.update(bi, nb));
    let bi = if pushed {
        old_b.len() as int
    } else {
        choose|bi: int| 0 <= bi < old_b.len() && old_b[bi].owner == uid && new_b == old_b.update(bi, nb)
    };
    assert(new_b.len() == if pushed { old_b.len() + 1 } else { old_b.len() + 0 });
    assert(new_b[bi] == nb);
    assert forall|j: int| 0 <= j < new_b.len() && j != bi implies new_b[j] == old_b[j] by {}
    assert forall|i: int, j: int| 0 <= i < new_b.len() && 0 <= j < new_b.len() && i != j implies new_b[i].owner != new_b[j].owner by {
        if i != bi && j != bi {
            assert(old_b[i].owner != old_b[j].owner);
        } else if i == bi {
            if !pushed {
                assert(old_b[j].owner != old_b[bi].owner);
            } else {
                assert(old_b[j].owner != uid);
            }
        } else {
            if !pushed {
                assert(old_b[i].owner != old_b[bi].owner);
            } else {
                assert(old_b[i].owner != uid);
            }
        }
    }
    assert forall|o: u32| #[trigger] songs_of(new_b, o) == if o == uid {
        nb.songs@
    } else {
        songs_of(old_b, o)
    } by {
        if o == uid {
            assert(new_b[bi].owner == uid);
            let c = choose|c: int| 0 <= c < new_b.len() && (#[trigger] new_b[c]).owner == uid;
            assert(c == bi);
        } else {
            if exists|i: int| 0 <= i < old_b.len() && (#[trigger] old_b[i]).owner == o {
                let c2 = choose|i: int| 0 <= i < old_b.len() && (#[trigger] old_b[i]).owner == o;
                assert(c2 != bi);
                assert(new_b[c2].owner == o);
                let c1 = choose|i: int| 0 <= i < new_b.len() && (#[trigger] new_b[i]).owner == o;
                assert(c1 == c2);
            } else {
                if exists|i: int| 0 <= i < new_b.len() && (#[trigger] new_b[i]).owner == o {
                    let c1 = choose|i: int| 0 <= i < new_b.len() && (#[trigger] new_b[i]).owner == o;
                    assert(old_b[c1].owner == o);
                }
            }
        }
    }
}

} // verus!
