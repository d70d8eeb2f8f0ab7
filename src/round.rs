use vstd::prelude::*;
use crate::message::{MsgView, ServerMessage};
use crate::random::{choose_multiple, random_index, shuffle};
use crate::song::{pair_of, pair_view, song_to_title_artist_tuple, Song};
use crate::game::{contains_id, index_of_id};

verus! {

/// How many options a round offers when the bag allows it.
pub const OPTION_COUNT: usize = 4;

/// How long a round waits for guesses, in seconds.
pub const GUESS_TIMEOUT_SECS: u64 = 180;

/// `floor(log10(n))` for `n >= 1`.
pub open spec fn log10_floor(n: nat) -> nat
    decreases n,
{
    if n < 10 {
        0
    } else {
        1 + log10_floor(n / 10)
    }
}

/// The points for a correct guess made `t` tenths of a second into a round,
/// in integer arithmetic throughout.
pub open spec fn score_delta_spec(t: nat) -> nat {
    33 + (1nat / (t + 33)) * 2500 * log10_floor(t + 100)
}

proof fn lemma_log10_floor_small(n: nat)
    ensures
        log10_floor(n) <= n,
    decreases n,
{
    if n >= 10 {
        lemma_log10_floor_small(n / 10);
    }
}

/// `floor(log10(n))`.
pub fn log10_floor_exec(n: u64) -> (r: u64)
    requires
        n >= 1,
    ensures
        r as nat == log10_floor(n as nat),
{
    let mut m: u64 = n;
    let mut r: u64 = 0;
    proof {
        lemma_log10_floor_small(n as nat);
    }
    while m >= 10
        invariant
            m >= 1,
            r + log10_floor(m as nat) == log10_floor(n as nat),
            log10_floor(n as nat) <= n,
        decreases m,
    {
        r = r + 1;
        m = m / 10;
    }
    r
}

/// The points for a correct guess made `t` tenths of a second into a round.
pub fn score_delta(t: u64) -> (r: u64)
    requires
        t <= u64::MAX - 100,
    ensures
        r as nat == score_delta_spec(t as nat),
        r == 33,
{
    proof {
        lemma_score_always_33(t as nat);
    }
    let q: u64 = 1 / (t + 33);
    let l = log10_floor_exec(t + 100);
    33 + q * 2500 * l
}

/// However late a correct guess comes, it is worth 33 points: the quotient
/// `1 / (t + 33)` is always 0.
pub proof fn lemma_score_always_33(t: nat)
    ensures
        1nat / (t + 33) == 0,
        score_delta_spec(t) == 33,
{
    let q = 1nat / (t + 33);
    assert(q == 0) by (nonlinear_arith)
        requires
            q == 1nat / (t + 33),
            t + 33 > 1,
    ;
    let l = log10_floor(t + 100);
    assert(q * 2500 * l == 0) by (nonlinear_arith)
        requires
            q == 0,
    ;
}

/// The option pairs of `songs`, in order.
pub open spec fn song_pairs(songs: Seq<Song>) -> Seq<(Seq<char>, Seq<char>)> {
    songs.map_values(|s: Song| pair_of(s))
}

/// Whether every option is the pair of a song of `songs`.
pub open spec fn drawn_from(opts: Seq<(String, String)>, songs: Seq<Song>) -> bool {
    forall|i: int| 0 <= i < opts.len() ==> song_pairs(songs).contains(#[trigger] pair_view(opts[i]))
}

proof fn lemma_sub_contains<T>(a: Seq<T>, b: Seq<T>)
    requires
        a.to_multiset().subset_of(b.to_multiset()),
    ensures
        forall|x: T| a.contains(x) ==> b.contains(x),
{
    broadcast use vstd::seq_lib::group_to_multiset_ensures;

    assert forall|x: T| a.contains(x) implies b.contains(x) by {
        assert(a.to_multiset().count(x) > 0);
    }
}

/// Whether `opts` holds a pair equal to `p`, and where.
fn find_pair(opts: &Vec<(String, String)>, p: &(String, String)) -> (r: Option<usize>)
    ensures
        match r {
            Some(i) => i < opts@.len() && pair_view(opts@[i as int]) == pair_view(*p),
            None => forall|i: int| 0 <= i < opts@.len() ==> pair_view(#[trigger] opts@[i]) != pair_view(*p),
        },
{
    let mut i: usize = 0;
    while i < opts.len()
        invariant
            i <= opts@.len(),
            forall|j: int| 0 <= j < i ==> pair_view(#[trigger] opts@[j]) != pair_view(*p),
        decreases opts.len() - i,
    {
        if opts[i].0 == p.0 && opts[i].1 == p.1 {
            return Some(i);
        }
        i = i + 1;
    }
    None
}

/// Whether a song is other than song `k` of `songs`, by id.
pub open spec fn not_current(songs: Seq<Song>, k: int) -> spec_fn(Song) -> bool {
    |s: Song| s.id@ != songs[k].id@
}

/// The songs played before round `k` that may fill up its options: those
/// whose id is not that of the current song.
pub open spec fn padding_pool(songs: Seq<Song>, k: int) -> Seq<Song> {
    songs.subrange(0, k).filter(not_current(songs, k))
}

/// The pairs that round `k` may offer: those of the songs not yet played,
/// the current one first, then those of the padding pool.
pub open spec fn round_pool(songs: Seq<Song>, k: int) -> Seq<(Seq<char>, Seq<char>)> {
    song_pairs(songs.subrange(k, songs.len() as int)) + song_pairs(padding_pool(songs, k))
}

/// No two songs share an id.
pub open spec fn ids_distinct(songs: Seq<Song>) -> bool {
    forall|i: int, j: int| 0 <= i < songs.len() && 0 <= j < songs.len() && i != j ==> songs[i].id@ != songs[j].id@
}

/// How many options round `k` offers: four, or as many as the pool holds.
pub open spec fn option_count(songs: Seq<Song>, k: int) -> int {
    let avail = (songs.len() - k) + padding_pool(songs, k).len();
    if avail < OPTION_COUNT { avail } else { OPTION_COUNT as int }
}

proof fn lemma_filter_within<A>(s: Seq<A>, p: spec_fn(A) -> bool)
    ensures
        forall|i: int| 0 <= i < s.filter(p).len() ==> s.contains(#[trigger] s.filter(p)[i]),
    decreases s.len(),
{
    reveal(Seq::filter);
    if s.len() > 0 {
        lemma_filter_within(s.drop_last(), p);
        let sub = s.drop_last().filter(p);
        assert forall|i: int| 0 <= i < s.filter(p).len() implies s.contains(#[trigger] s.filter(p)[i]) by {
            if i < sub.len() {
                assert(s.drop_last().contains(sub[i]));
                let j = choose|j: int| 0 <= j < s.drop_last().len() && s.drop_last()[j] == sub[i];
                assert(s[j] == sub[i]);
            } else {
                assert(s[s.len() - 1] == s.filter(p)[i]);
            }
        }
    }
}

proof fn lemma_pool_in_bag(songs: Seq<Song>, k: int, x: (Seq<char>, Seq<char>))
    requires
        0 <= k < songs.len(),
        round_pool(songs, k).contains(x),
    ensures
        song_pairs(songs).contains(x),
{
    let p = round_pool(songs, k);
    let q = choose|q: int| 0 <= q < p.len() && p[q] == x;
    let n = songs.len() - k;
    if q < n {
        assert(song_pairs(songs)[k + q] == x);
    } else {
        let pp = padding_pool(songs, k);
        lemma_filter_within(songs.subrange(0, k), not_current(songs, k));
        assert(songs.subrange(0, k).contains(pp[q - n]));
        let j = choose|j: int| 0 <= j < k && songs.subrange(0, k)[j] == pp[q - n];
        assert(song_pairs(songs)[j] == x);
    }
}

/// With distinct ids, every song played before round `k` may pad it.
proof fn lemma_padding_all_played(songs: Seq<Song>, k: int, m: int)
    requires
        0 <= m <= k < songs.len(),
        ids_distinct(songs),
    ensures
        songs.subrange(0, m).filter(not_current(songs, k)).len() == m,
    decreases m,
{
    reveal(Seq::filter);
    if m > 0 {
        lemma_padding_all_played(songs, k, m - 1);
        assert(songs.subrange(0, m).drop_last() == songs.subrange(0, m - 1));
        assert(songs[m - 1].id@ != songs[k].id@);
    }
}

/// Whether song `j` may be offered in round `k`: a song not yet played,
/// the current one included, or, only where fewer than four remain, a song
/// already played whose id is not the current song's.
pub open spec fn offerable(songs: Seq<Song>, k: int, j: int) -> bool {
    (k <= j < songs.len()) || (0 <= j < k && songs[j].id@ != songs[k].id@ && songs.len() - k
        < OPTION_COUNT)
}

/// Whether `ps` are distinct positions of songs that round `k` may offer.
pub open spec fn distinct_draws(songs: Seq<Song>, k: int, ps: Seq<usize>) -> bool {
    &&& ps.no_duplicates()
    &&& forall|i: int| 0 <= i < ps.len() ==> offerable(songs, k, #[trigger] ps[i] as int)
}

proof fn lemma_sub_no_dup<T>(a: Seq<T>, b: Seq<T>)
    requires
        a.to_multiset().subset_of(b.to_multiset()),
        b.no_duplicates(),
    ensures
        a.no_duplicates(),
{
    broadcast use vstd::seq_lib::group_to_multiset_ensures;

    b.lemma_multiset_has_no_duplicates();
    assert forall|x: T| a.to_multiset().contains(x) implies a.to_multiset().count(x) == 1 by {
        assert(b.to_multiset().count(x) >= a.to_multiset().count(x));
        assert(b.to_multiset().contains(x));
    }
    a.lemma_multiset_has_no_duplicates_conv();
}

/// Whether two songs are offered under the same pair.
fn same_pair(a: &Song, b: &Song) -> (r: bool)
    ensures
        r == (pair_of(*a) == pair_of(*b)),
{
    a.title == b.title && a.artist == b.artist
}

/// The options of round `k`, whose song is `songs[k]`, and the position of
/// that song's pair among them. Up to four distinct songs are drawn from
/// those not yet played, the current one included; the current song takes
/// the place of one drawn at random if none of them has its pair; where
/// fewer than four songs remain, songs already played, other than the
/// current one, fill up as far as they go. The options are then shuffled.
/// Only a bag with fewer than four songs of distinct ids gives fewer than
/// four options.
pub fn build_options(songs: &Vec<Song>, k: usize) -> (r: (Vec<(String, String)>, u8))
    requires
        k < songs@.len(),
    ensures
        1 <= r.0@.len() <= OPTION_COUNT,
        r.0@.len() == option_count(songs@, k as int),
        (r.1 as int) < r.0@.len(),
        pair_view(r.0@[r.1 as int]) == pair_of(songs@[k as int]),
        exists|ps: Seq<usize>|
            #[trigger] distinct_draws(songs@, k as int, ps) && ps.len() == r.0@.len() && forall|i: int|
                0 <= i < ps.len() ==> pair_view(r.0@[i]) == pair_of(songs@[ps[i] as int]),
        forall|i: int| 0 <= i < r.0@.len() ==> round_pool(songs@, k as int).contains(#[trigger] pair_view(r.0@[i])),
        drawn_from(r.0@, songs@),
        ids_distinct(songs@) && songs@.len() >= OPTION_COUNT ==> r.0@.len() == OPTION_COUNT,
{
    let n = songs.len();
    let ghost sq = songs@;
    let ghost pool = round_pool(sq, k as int);
    let ghost pad = padding_pool(sq, k as int);
    let mut rem_idx: Vec<usize> = Vec::new();
    let mut j: usize = k;
    while j < n
        invariant
            n == sq.len(),
            sq == songs@,
            k <= j <= n,
            rem_idx@.len() == j - k,
            forall|i: int| 0 <= i < rem_idx@.len() ==> #[trigger] rem_idx@[i] == k + i,
        decreases n - j,
    {
        rem_idx.push(j);
        j = j + 1;
    }
    let ghost ri = rem_idx@;
    assert(ri.no_duplicates());
    let mut ps = choose_multiple(rem_idx, OPTION_COUNT);
    proof {
        lemma_sub_no_dup(ps@, ri);
        lemma_sub_contains(ps@, ri);
        assert forall|i: int| 0 <= i < ps@.len() implies k <= #[trigger] ps@[i] < n by {
            assert(ri.contains(ps@[i]));
        }
    }
    let ghost mut w: int = 0;
    let mut found = false;
    let mut i: usize = 0;
    while i < ps.len()
        invariant
            n == sq.len(),
            sq == songs@,
            k < n,
            i <= ps@.len(),
            forall|q: int| 0 <= q < ps@.len() ==> k <= #[trigger] ps@[q] < n,
            found ==> 0 <= w < ps@.len() && pair_of(sq[ps@[w] as int]) == pair_of(sq[k as int]),
            !found ==> forall|q: int| 0 <= q < i ==> pair_of(sq[#[trigger] ps@[q] as int]) != pair_of(sq[k as int]),
        decreases ps.len() - i,
    {
        if !found && same_pair(&songs[ps[i]], &songs[k]) {
            found = true;
            proof {
                w = i as int;
            }
        }
        i = i + 1;
    }
    if !found {
        let ghost before = ps@;
        let c = random_index(ps.len());
        let _ = ps.remove(c);
        ps.insert(c, k);
        proof {
            assert(!before.contains(k)) by {
                if before.contains(k) {
                    let q = choose|q: int| 0 <= q < before.len() && before[q] == k;
                    assert(pair_of(sq[before[q] as int]) != pair_of(sq[k as int]));
                }
            }
            assert(ps@ == before.update(c as int, k));
            assert forall|a: int, b: int| 0 <= a < ps@.len() && 0 <= b < ps@.len() && a != b implies ps@[a] != ps@[b] by {
                if a != c && b != c {
                    assert(before[a] != before[b]);
                }
            }
            w = c as int;
        }
    }
    assert(forall|q: int| 0 <= q < ps@.len() ==> k <= #[trigger] ps@[q] < n);
    let ghost before_pad = ps@;
    assert(before_pad.len() == if n - k < OPTION_COUNT { n - k } else { OPTION_COUNT as int });
    assert(distinct_draws(sq, k as int, before_pad));
    if ps.len() < OPTION_COUNT {
        let mut pad_idx: Vec<usize> = Vec::new();
        let mut j: usize = 0;
        while j < k
            invariant
                k < n,
                n == sq.len(),
                sq == songs@,
            sq == songs@,
                j <= k,
                pad_idx@.len() == sq.subrange(0, j as int).filter(not_current(sq, k as int)).len(),
                pad_idx@.no_duplicates(),
                forall|q: int| 0 <= q < pad_idx@.len() ==> #[trigger] pad_idx@[q] < j && sq[pad_idx@[q] as int].id@ != sq[k as int].id@,
            decreases k - j,
        {
            let ghost sub = sq.subrange(0, j + 1);
            assert(sub.drop_last() == sq.subrange(0, j as int));
            assert(sub.last() == sq[j as int]);
            proof {
                reveal(Seq::filter);
            }
            if songs[j].id != songs[k].id {
                pad_idx.push(j);
            }
            j = j + 1;
        }
        let ghost pl = pad_idx@;
        assert(pl.len() == pad.len());
        let mut extra = choose_multiple(pad_idx, OPTION_COUNT - ps.len());
        proof {
            lemma_sub_contains(extra@, pl);
            lemma_sub_no_dup(extra@, pl);
        }
        let ghost ex = extra@;
        ps.append(&mut extra);
        proof {
            assert forall|q: int| 0 <= q < ps@.len() implies offerable(sq, k as int, #[trigger] ps@[q] as int) by {
                if q >= before_pad.len() {
                    assert(ps@[q] == ex[q - before_pad.len()]);
                    assert(pl.contains(ex[q - before_pad.len()]));
                } else {
                    assert(ps@[q] == before_pad[q]);
                }
            }
            assert forall|a: int, b: int| 0 <= a < ps@.len() && 0 <= b < ps@.len() && a != b implies ps@[a] != ps@[b] by {
                let m = before_pad.len() as int;
                if a < m && b < m {
                    assert(before_pad[a] != before_pad[b]);
                } else if a >= m && b >= m {
                    assert(ex[a - m] != ex[b - m]);
                } else if a < m {
                    assert(before_pad[a] >= k);
                    assert(pl.contains(ex[b - m]));
                } else {
                    assert(before_pad[b] >= k);
                    assert(pl.contains(ex[a - m]));
                }
            }
        }
    }
    let ghost unshuffled = ps@;
    assert(distinct_draws(sq, k as int, unshuffled));
    assert(unshuffled.len() == option_count(sq, k as int));
    assert(0 <= w < unshuffled.len() && pair_of(sq[unshuffled[w] as int]) == pair_of(sq[k as int]));
    shuffle(&mut ps);
    proof {
        broadcast use vstd::seq_lib::group_to_multiset_ensures;

        assert(ps@.len() == ps@.to_multiset().len());
        assert(unshuffled.len() == unshuffled.to_multiset().len());
        lemma_sub_contains(ps@, unshuffled);
        lemma_sub_contains(unshuffled, ps@);
        lemma_sub_no_dup(ps@, unshuffled);
        assert forall|q: int| 0 <= q < ps@.len() implies offerable(sq, k as int, #[trigger] ps@[q] as int) by {
            assert(unshuffled.contains(ps@[q]));
        }
        assert(unshuffled.contains(unshuffled[w]));
        assert(ps@.contains(unshuffled[w]));
    }
    let mut options: Vec<(String, String)> = Vec::new();
    let mut q: usize = 0;
    while q < ps.len()
        invariant
            n == sq.len(),
            sq == songs@,
            k < n,
            q <= ps@.len(),
            options@.len() == q,
            forall|a: int| 0 <= a < ps@.len() ==> offerable(sq, k as int, #[trigger] ps@[a] as int),
            forall|a: int| 0 <= a < q ==> #[trigger] pair_view(options@[a]) == pair_of(sq[ps@[a] as int]),
        decreases ps.len() - q,
    {
        assert(offerable(sq, k as int, ps@[q as int] as int));
        options.push(song_to_title_artist_tuple(&songs[ps[q]]));
        q = q + 1;
    }
    assert(distinct_draws(sq, k as int, ps@));
    assert(ps@.len() == options@.len());
    proof {
        broadcast use vstd::seq_lib::group_filter_ensures;

        assert forall|a: int| 0 <= a < options@.len() implies pool.contains(#[trigger] pair_view(options@[a])) by {
            let p = ps@[a] as int;
            assert(offerable(sq, k as int, p));
            if p >= k {
                assert(pool[p - k] == pair_of(sq[p]));
            } else {
                let sub = sq.subrange(0, k as int);
                assert(sub[p] == sq[p]);
                sub.lemma_filter_contains(not_current(sq, k as int), p);
                assert(pad.contains(sq[p]));
                let t = choose|t: int| 0 <= t < pad.len() && pad[t] == sq[p];
                assert(pool[(n - k) + t] == pair_of(sq[p]));
            }
        }
        assert forall|a: int| 0 <= a < options@.len() implies song_pairs(sq).contains(#[trigger] pair_view(options@[a])) by {
            lemma_pool_in_bag(sq, k as int, pair_view(options@[a]));
        }
        if ids_distinct(sq) {
            lemma_padding_all_played(sq, k as int, k as int);
        }
    }
    let cur = song_to_title_artist_tuple(&songs[k]);
    match find_pair(&options, &cur) {
        Some(c) => (options, c as u8),
        None => {
            proof {
                let t = choose|t: int| 0 <= t < ps@.len() && ps@[t] == unshuffled[w];
                assert(pair_view(options@[t]) == pair_of(sq[k as int]));
            }
            (options, 0)
        },
    }
}

/// `a + b`, or the largest `usize` where that sum does not fit.
pub open spec fn add_capped(a: usize, b: nat) -> usize {
    if a as nat + b > usize::MAX as nat {
        usize::MAX
    } else {
        (a as nat + b) as usize
    }
}

/// No player appears twice on a leaderboard.
pub open spec fn board_ids_unique(b: Seq<(u32, usize)>) -> bool {
    forall|i: int, j: int| 0 <= i < b.len() && 0 <= j < b.len() && i != j ==> b[i].0 != b[j].0
}

/// Whether player `uid` is on the leaderboard.
pub open spec fn board_has(b: Seq<(u32, usize)>, uid: u32) -> bool {
    exists|p: int| 0 <= p < b.len() && (#[trigger] b[p]).0 == uid
}

/// The position of player `uid` on the leaderboard.
pub open spec fn board_pos(b: Seq<(u32, usize)>, uid: u32) -> int {
    choose|p: int| 0 <= p < b.len() && (#[trigger] b[p]).0 == uid
}

/// The leaderboard with names: each scored player's name and score.
pub open spec fn board_view(players: Seq<u32>, names: Seq<String>, board: Seq<(u32, usize)>) -> Seq<(Seq<char>, usize)> {
    board.map_values(|e: (u32, usize)| (names[players.index_of(e.0)]@, e.1))
}

/// The kind of a message that the rounds emit.
pub enum Beat {
    PlayAudio,
    Options,
    Correct,
    LeaderBoard,
    Other,
}

/// The kind of message `m`.
pub open spec fn beat_of(m: MsgView) -> Beat {
    match m {
        MsgView::GamePlayAudio(_) => Beat::PlayAudio,
        MsgView::GameGuessOptions(_) => Beat::Options,
        MsgView::Correct(_) => Beat::Correct,
        MsgView::LeaderBoard(_) => Beat::LeaderBoard,
        _ => Beat::Other,
    }
}

/// What `n` complete rounds emit: per round, the audio, the options, the
/// correct option and the leaderboard.
pub open spec fn rounds_trace(n: nat) -> Seq<Beat>
    decreases n,
{
    if n == 0 {
        seq![]
    } else {
        rounds_trace((n - 1) as nat) + seq![Beat::PlayAudio, Beat::Options, Beat::Correct, Beat::LeaderBoard]
    }
}

/// The kinds of the messages `log`.
pub open spec fn beats(log: Seq<MsgView>) -> Seq<Beat> {
    log.map_values(|m: MsgView| beat_of(m))
}

/// The contents of a list of messages.
pub open spec fn msgs_view(v: Seq<ServerMessage>) -> Seq<MsgView> {
    v.map_values(|m: ServerMessage| m@)
}

/// Whether entry `a` of `board` is shown before entry `b`: a higher score
/// first, and of equal scores the one reached first.
pub open spec fn ranks_before(board: Seq<(u32, usize)>, a: int, b: int) -> bool {
    board[a].1 > board[b].1 || (board[a].1 == board[b].1 && a < b)
}

/// Whether `o` lists every position of `board` once, in the order in which
/// the leaderboard shows them. Only one such order exists.
pub open spec fn is_ranking(board: Seq<(u32, usize)>, o: Seq<usize>) -> bool {
    &&& o.len() == board.len()
    &&& o.no_duplicates()
    &&& forall|i: int| 0 <= i < o.len() ==> #[trigger] o[i] < board.len()
    &&& forall|x: usize| x < board.len() ==> o.contains(x)
    &&& forall|i: int, j: int| 0 <= i < j < o.len() ==> ranks_before(board, #[trigger] o[i] as int, #[trigger] o[j] as int)
}

/// The entries of `board` in the order `o`.
pub open spec fn board_in_order(board: Seq<(u32, usize)>, o: Seq<usize>) -> Seq<(u32, usize)> {
    o.map_values(|i: usize| board[i as int])
}

/// The order in which the leaderboard shows `board`: by score, highest
/// first; of equal scores, the one reached first comes first.
pub fn rank_board(board: &Vec<(u32, usize)>) -> (o: Vec<usize>)
    ensures
        is_ranking(board@, o@),
{
    let n = board.len();
    let mut o: Vec<usize> = Vec::new();
    let mut m: usize = 0;
    while m < n
        invariant
            n == board@.len(),
            m <= n,
            o@.len() == m,
            o@.no_duplicates(),
            forall|i: int| 0 <= i < o@.len() ==> #[trigger] o@[i] < m,
            forall|x: usize| x < m ==> o@.contains(x),
            forall|i: int, j: int| 0 <= i < j < o@.len() ==> ranks_before(board@, #[trigger] o@[i] as int, #[trigger] o@[j] as int),
        decreases n - m,
    {
        let s = board[m].1;
        let mut p: usize = 0;
        while p < o.len() && board[o[p]].1 >= s
            invariant
                n == board@.len(),
                m < n,
                p <= o@.len(),
                forall|i: int| 0 <= i < o@.len() ==> #[trigger] o@[i] < m,
                forall|q: int| 0 <= q < p ==> board@[#[trigger] o@[q] as int].1 >= s,
            decreases o@.len() - p,
        {
            p = p + 1;
        }
        let ghost before = o@;
        proof {
            assert forall|q: int| p <= q < before.len() implies board@[#[trigger] before[q] as int].1 < s by {
                if q > p {
                    assert(ranks_before(board@, before[p as int] as int, before[q] as int));
                }
            }
        }
        o.insert(p, m);
        proof {
            assert(o@ == before.insert(p as int, m));
            assert forall|i: int| 0 <= i < o@.len() implies #[trigger] o@[i] < m + 1 by {
                if i < p {
                    assert(o@[i] == before[i]);
                } else if i > p {
                    assert(o@[i] == before[i - 1]);
                }
            }
            assert forall|i: int, j: int| 0 <= i < o@.len() && 0 <= j < o@.len() && i != j implies o@[i] != o@[j] by {
                if i != p && j != p {
                    let bi = if i < p { i } else { i - 1 };
                    let bj = if j < p { j } else { j - 1 };
                    assert(before[bi] != before[bj]);
                } else if i == p {
                    let bj = if j < p { j } else { j - 1 };
                    assert(before[bj] < m);
                } else {
                    let bi = if i < p { i } else { i - 1 };
                    assert(before[bi] < m);
                }
            }
            assert forall|x: usize| x < m + 1 implies o@.contains(x) by {
                if x == m {
                    assert(o@[p as int] == m);
                } else {
                    assert(before.contains(x));
                    let q = choose|q: int| 0 <= q < before.len() && before[q] == x;
                    if q < p {
                        assert(o@[q] == x);
                    } else {
                        assert(o@[q + 1] == x);
                    }
                }
            }
            assert forall|i: int, j: int| 0 <= i < j < o@.len() implies ranks_before(board@, #[trigger] o@[i] as int, #[trigger] o@[j] as int) by {
                if i != p && j != p {
                    let bi = if i < p { i } else { i - 1 };
                    let bj = if j < p { j } else { j - 1 };
                    assert(ranks_before(board@, before[bi] as int, before[bj] as int));
                } else if i == p {
                    let bj = j - 1;
                    assert(board@[before[bj] as int].1 < s);
                } else {
                    let bi = i;
                    assert(board@[before[bi] as int].1 >= s);
                    assert(before[bi] < m);
                }
            }
        }
        m = m + 1;
    }
    o
}

/// The rounds of one game: the players as they were when the rounds
/// started, the songs in the order they are played, and the scores.
pub struct RoundEngine {
    pub game_id: u16,
    pub players: Vec<u32>,
    pub names: Vec<String>,
    pub songs: Vec<Song>,
    /// How many rounds have ended.
    pub round: usize,
    pub correct_idx: u8,
    /// The players who have guessed in the current round.
    pub guessed: Vec<u32>,
    /// Each scoring player with its score, in the order they first scored.
    pub leaderboard: Vec<(u32, usize)>,
    /// Whether a round has begun and not yet ended.
    pub in_round: bool,
    /// Every message emitted so far.
    pub emitted: Ghost<Seq<MsgView>>,
}

impl RoundEngine {
    pub open spec fn wf(self) -> bool {
        &&& self.names@.len() == self.players@.len()
        &&& self.players@.no_duplicates()
        &&& self.round <= self.songs@.len()
        &&& forall|i: int| 0 <= i < self.leaderboard@.len() ==> self.players@.contains(#[trigger] self.leaderboard@[i].0)
        &&& board_ids_unique(self.leaderboard@)
        &&& (self.in_round ==> self.round < self.songs@.len())
        &&& beats(self.emitted@) == rounds_trace(self.round as nat) + if self.in_round {
            seq![Beat::PlayAudio, Beat::Options]
        } else {
            seq![]
        }
    }

    /// Starts the rounds of room `game_id` for `players`, named `names`, over
    /// `songs`, which are played in an order drawn at random.
    pub fn new(game_id: u16, players: Vec<u32>, names: Vec<String>, songs: Vec<Song>) -> (r: RoundEngine)
        requires
            names@.len() == players@.len(),
            players@.len() > 0,
            players@.no_duplicates(),
        ensures
            r.wf(),
            r.game_id == game_id,
            r.players@ == players@,
            r.names@ == names@,
            r.songs@.to_multiset() == songs@.to_multiset(),
            r.round == 0,
            r.guessed@.len() == 0,
            r.leaderboard@.len() == 0,
            !r.in_round,
            r.emitted@.len() == 0,
    {
        let mut songs = songs;
        shuffle(&mut songs);
        let r = RoundEngine {
            game_id,
            players,
            names,
            songs,
            round: 0,
            correct_idx: 0,
            guessed: Vec::new(),
            leaderboard: Vec::new(),
            in_round: false,
            emitted: Ghost(Seq::empty()),
        };
        assert(beats(r.emitted@) =~= rounds_trace(0) + Seq::<Beat>::empty());
        r
    }

    /// Whether a round remains to be played.
    pub fn has_next_round(&self) -> (r: bool)
        ensures
            r == (self.round < self.songs@.len()),
    {
        self.round < self.songs.len()
    }

    /// Starts the next round: its song is played, and its options shown.
    pub fn begin_round(&mut self) -> (msgs: Vec<ServerMessage>)
        requires
            old(self).wf(),
            old(self).round < old(self).songs@.len(),
            !old(self).in_round,
        ensures
            final(self).wf(),
            final(self).in_round,
            final(self).emitted@ == old(self).emitted@ + msgs_view(msgs@),
            final(self).round == old(self).round,
            final(self).songs == old(self).songs,
            final(self).players == old(self).players,
            final(self).names == old(self).names,
            final(self).leaderboard == old(self).leaderboard,
            final(self).guessed@.len() == 0,
            msgs@.len() == 2,
            msgs@[0]@ == MsgView::GamePlayAudio(old(self).songs@[old(self).round as int].id@),
            match msgs@[1] {
                ServerMessage::GameGuessOptions(opts) => {
                    &&& 1 <= opts@.len() <= OPTION_COUNT
                    &&& (final(self).correct_idx as int) < opts@.len()
                    &&& pair_view(opts@[final(self).correct_idx as int]) == pair_of(
                        old(self).songs@[old(self).round as int],
                    )
                    &&& drawn_from(opts@, old(self).songs@)
                    &&& opts@.len() == option_count(old(self).songs@, old(self).round as int)
                    &&& exists|ps: Seq<usize>|
                        #[trigger] distinct_draws(old(self).songs@, old(self).round as int, ps) && ps.len()
                            == opts@.len() && forall|i: int|
                            0 <= i < ps.len() ==> pair_view(opts@[i]) == pair_of(old(self).songs@[ps[i] as int])
                    &&& forall|i: int| 0 <= i < opts@.len() ==> round_pool(old(self).songs@, old(self).round as int).contains(
                        #[trigger] pair_view(opts@[i]),
                    )
                    &&& ids_distinct(old(self).songs@) && old(self).songs@.len() >= OPTION_COUNT ==> opts@.len()
                        == OPTION_COUNT
                },
                _ => false,
            },
    {
        let (options, correct) = build_options(&self.songs, self.round);
        self.correct_idx = correct;
        self.guessed = Vec::new();
        let mut msgs: Vec<ServerMessage> = Vec::new();
        msgs.push(ServerMessage::GamePlayAudio(self.songs[self.round].id.clone()));
        msgs.push(ServerMessage::GameGuessOptions(options));
        let ghost added = msgs_view(msgs@);
        self.in_round = true;
        self.emitted = Ghost(self.emitted@ + added);
        proof {
            assert(beats(self.emitted@) =~= beats(old(self).emitted@) + seq![Beat::PlayAudio, Beat::Options]);
        }
        msgs
    }

    /// Whether the current round is over `elapsed_secs` seconds after it
    /// began: every player has guessed, or the time is up.
    pub fn round_over(&self, elapsed_secs: u64) -> (r: bool)
        ensures
            r == (self.guessed@.len() >= self.players@.len() || elapsed_secs >= GUESS_TIMEOUT_SECS),
    {
        self.guessed.len() >= self.players.len() || elapsed_secs >= GUESS_TIMEOUT_SECS
    }

    /// Takes the guess `idx` of user `uid`, made `elapsed_secs` seconds into
    /// the round. Only a player's first guess in a round counts; a correct
    /// one in time scores. Returns whether the guess counted.
    pub fn take_guess(&mut self, uid: u32, idx: u8, elapsed_secs: u64) -> (counted: bool)
        requires
            old(self).wf(),
        ensures
            final(self).wf(),
            final(self).round == old(self).round,
            final(self).songs == old(self).songs,
            final(self).players == old(self).players,
            final(self).names == old(self).names,
            final(self).correct_idx == old(self).correct_idx,
            final(self).in_round == old(self).in_round,
            final(self).emitted == old(self).emitted,
            counted == (old(self).players@.contains(uid) && !old(self).guessed@.contains(uid)),
            counted ==> final(self).guessed@ == old(self).guessed@.push(uid),
            !counted ==> final(self).guessed@ == old(self).guessed@,
            if counted && idx == old(self).correct_idx && elapsed_secs < GUESS_TIMEOUT_SECS {
                let d = score_delta_spec(elapsed_secs as nat * 10);
                let b = old(self).leaderboard@;
                if board_has(b, uid) {
                    final(self).leaderboard@ == b.update(
                        board_pos(b, uid),
                        (uid, add_capped(b[board_pos(b, uid)].1, d)),
                    )
                } else {
                    final(self).leaderboard@ == b.push((uid, add_capped(0, d)))
                }
            } else {
                final(self).leaderboard@ == old(self).leaderboard@
            },
    {
        if !contains_id(&self.players, uid) || contains_id(&self.guessed, uid) {
            return false;
        }
        self.guessed.push(uid);
        if idx != self.correct_idx || elapsed_secs >= GUESS_TIMEOUT_SECS {
            return true;
        }
        let d = score_delta(elapsed_secs * 10);
        let ghost old_board = self.leaderboard@;
        let mut p: usize = 0;
        while p < self.leaderboard.len() && self.leaderboard[p].0 != uid
            invariant
                self.leaderboard@ == old_board,
                p <= old_board.len(),
                forall|q: int| 0 <= q < p ==> old_board[q].0 != uid,
            decreases self.leaderboard.len() - p,
        {
            p = p + 1;
        }
        if p < self.leaderboard.len() {
            proof {
                assert(old_board[p as int].0 == uid);
                let c = board_pos(old_board, uid);
                assert(old_board[c].0 == uid);
            }
            let (who, score) = self.leaderboard.remove(p);
            let s: usize = if score > usize::MAX - d as usize { usize::MAX } else { score + d as usize };
            self.leaderboard.insert(p, (who, s));
            assert(self.leaderboard@ =~= old_board.update(p as int, (uid, add_capped(old_board[p as int].1, d as nat))));
        } else {
            let s: usize = if 0 > usize::MAX - d as usize { usize::MAX } else { d as usize };
            self.leaderboard.push((uid, s));
        }
        true
    }

    /// Ends the current round: the correct option is revealed, then the
    /// leaderboard shown, by score, highest first, equal scores in the order
    /// they were reached.
    pub fn end_round(&mut self) -> (msgs: Vec<ServerMessage>)
        requires
            old(self).wf(),
            old(self).in_round,
        ensures
            final(self).wf(),
            !final(self).in_round,
            final(self).emitted@ == old(self).emitted@ + msgs_view(msgs@),
            final(self).round == old(self).round + 1,
            final(self).songs == old(self).songs,
            final(self).players == old(self).players,
            final(self).names == old(self).names,
            final(self).leaderboard == old(self).leaderboard,
            msgs@.len() == 2,
            msgs@[0]@ == MsgView::Correct(old(self).correct_idx),
            exists|o: Seq<usize>|
                #[trigger] is_ranking(old(self).leaderboard@, o) && msgs@[1]@ == MsgView::LeaderBoard(
                    board_view(old(self).players@, old(self).names@, board_in_order(old(self).leaderboard@, o)),
                ),
    {
        let order = rank_board(&self.leaderboard);
        let ghost ranked = board_in_order(self.leaderboard@, order@);
        let mut board: Vec<(String, usize)> = Vec::new();
        let mut j: usize = 0;
        while j < order.len()
            invariant
                self.wf(),
                is_ranking(self.leaderboard@, order@),
                ranked == board_in_order(self.leaderboard@, order@),
                j <= order@.len(),
                board@.map_values(|p: (String, usize)| (p.0@, p.1)) =~= board_view(
                    self.players@,
                    self.names@,
                    ranked.subrange(0, j as int),
                ),
            decreases order.len() - j,
        {
            let e = order[j];
            let (uid, score) = self.leaderboard[e];
            assert(ranked[j as int] == self.leaderboard@[e as int]);
            assert(self.players@.contains(self.leaderboard@[e as int].0));
            let name = match index_of_id(&self.players, uid) {
                Some(pi) => {
                    proof {
                        let c = self.players@.index_of(uid);
                        assert(self.players@[c] == uid);
                        assert(c == pi);
                    }
                    self.names[pi].clone()
                },
                None => String::new(),
            };
            let ghost prev = board@;
            let ghost nm = name@;
            board.push((name, score));
            assert(ranked.subrange(0, j + 1) =~= ranked.subrange(0, j as int).push(ranked[j as int]));
            assert(nm == self.names@[self.players@.index_of(uid)]@);
            assert(board@.map_values(|p: (String, usize)| (p.0@, p.1)) =~= prev.map_values(|p: (String, usize)| (p.0@, p.1)).push((nm, score)));
            assert(board_view(self.players@, self.names@, ranked.subrange(0, j + 1)) =~= board_view(self.players@, self.names@, ranked.subrange(0, j as int)).push((nm, score)));
            j = j + 1;
        }
        assert(ranked.subrange(0, ranked.len() as int) == ranked);
        let mut msgs: Vec<ServerMessage> = Vec::new();
        msgs.push(ServerMessage::Correct(self.correct_idx));
        msgs.push(ServerMessage::LeaderBoard(board));
        let n = self.songs.len();
        let ghost added = msgs_view(msgs@);
        let ghost before = beats(self.emitted@);
        self.round = self.round + 1;
        self.in_round = false;
        self.emitted = Ghost(self.emitted@ + added);
        proof {
            assert(beats(self.emitted@) =~= before + seq![Beat::Correct, Beat::LeaderBoard]);
            assert(rounds_trace(self.round as nat) == rounds_trace((self.round - 1) as nat) + seq![Beat::PlayAudio, Beat::Options, Beat::Correct, Beat::LeaderBoard]);
            assert(beats(self.emitted@) =~= rounds_trace(self.round as nat));
        }
        msgs
    }
}


/// Options drawn from the engine's songs are drawn from the bag it was
/// given, whose songs it only reorders.
pub proof fn lemma_options_from_bag(opts: Seq<(String, String)>, songs: Seq<Song>, bag: Seq<Song>)
    requires
        drawn_from(opts, songs),
        songs.to_multiset() == bag.to_multiset(),
    ensures
        drawn_from(opts, bag),
{
    broadcast use vstd::seq_lib::group_to_multiset_ensures;

    assert forall|i: int| 0 <= i < opts.len() implies song_pairs(bag).contains(#[trigger] pair_view(opts[i])) by {
        assert(song_pairs(songs).contains(pair_view(opts[i])));
        let j = choose|j: int| 0 <= j < song_pairs(songs).len() && song_pairs(songs)[j] == pair_view(opts[i]);
        assert(songs.contains(songs[j]));
        assert(songs.to_multiset().count(songs[j]) > 0);
        assert(bag.contains(songs[j]));
        let q = choose|q: int| 0 <= q < bag.len() && bag[q] == songs[j];
        assert(song_pairs(bag)[q] == pair_view(opts[i]));
    }
}


/// Once every round has been played, the engine has emitted, per round and
/// in this order, the audio, the options, the correct option and the
/// leaderboard, and nothing else.
pub proof fn lemma_engine_emits_rounds(e: RoundEngine)
    requires
        e.wf(),
        e.round == e.songs@.len(),
    ensures
        beats(e.emitted@) == rounds_trace(e.songs@.len()),
{
}

/// `n` rounds emit `4 n` messages, of which message `4 k + j` is the `j`-th
/// of round `k`.
pub proof fn lemma_rounds_trace_shape(n: nat)
    ensures
        rounds_trace(n).len() == 4 * n,
        forall|k: int| 0 <= k < n ==> {
            &&& #[trigger] rounds_trace(n)[4 * k] == Beat::PlayAudio
            &&& rounds_trace(n)[4 * k + 1] == Beat::Options
            &&& rounds_trace(n)[4 * k + 2] == Beat::Correct
            &&& rounds_trace(n)[4 * k + 3] == Beat::LeaderBoard
        },
    decreases n,
{
    if n > 0 {
        lemma_rounds_trace_shape((n - 1) as nat);
        let prev = rounds_trace((n - 1) as nat);
        assert forall|k: int| 0 <= k < n implies {
            &&& #[trigger] rounds_trace(n)[4 * k] == Beat::PlayAudio
            &&& rounds_trace(n)[4 * k + 1] == Beat::Options
            &&& rounds_trace(n)[4 * k + 2] == Beat::Correct
            &&& rounds_trace(n)[4 * k + 3] == Beat::LeaderBoard
        } by {
            if k < n - 1 {
                assert(prev[4 * k] == Beat::PlayAudio);
            }
        }
    }
}

} // verus!
