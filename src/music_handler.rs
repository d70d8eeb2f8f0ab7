use vstd::prelude::*;
use crate::random::random_index;
use crate::song::{OneOrMoreSongs, Song};
use crate::text::{trim_quotes, trim_quotes_spec};

verus! {

/// How many upstream instances the pool keeps.
pub const INSTANCE_COUNT: usize = 3;

/// How many videos of a channel or playlist are considered.
pub const TOP_VIDEOS: usize = 30;

/// How many songs a channel or playlist contributes at most.
pub const SONGS_PER_LIST: usize = 5;

/// How many extra downloads are tried when some of the first ones failed.
pub const RETRY_ATTEMPTS: usize = 5;

/// A round-robin pool of equivalent upstream instances.
#[derive(Debug)]
pub struct InstanceFinder {
    pub instances: Vec<String>,
    pub rr_index: usize,
}

/// The hosts used when the list of healthy instances cannot be had.
pub open spec fn backup_hosts() -> Seq<Seq<char>> {
    seq!["yt.oelrichsgarcia.de"@, "invidious.einfachzocken.eu"@, "iv.nboeck.de"@]
}

/// The contents of a list of strings.
pub open spec fn strings_view(v: Seq<String>) -> Seq<Seq<char>> {
    v.map_values(|s: String| s@)
}

impl InstanceFinder {
    /// The next index to hand out lies in the pool, unless the pool is empty.
    pub open spec fn wf(self) -> bool {
        self.rr_index < self.instances@.len() || (self.instances@.len() == 0 && self.rr_index == 0)
    }

    /// A pool of `instances`, handed out from the first.
    pub fn new(instances: Vec<String>) -> (r: InstanceFinder)
        ensures
            r.wf(),
            r.instances@ == instances@,
            r.rr_index == 0,
    {
        InstanceFinder { instances, rr_index: 0 }
    }

    /// The next instance, in turn.
    pub fn get_instance(&mut self) -> (r: String)
        requires
            old(self).wf(),
            old(self).instances@.len() > 0,
        ensures
            final(self).wf(),
            final(self).instances == old(self).instances,
            r@ == old(self).instances@[old(self).rr_index as int]@,
            final(self).rr_index == (old(self).rr_index + 1) % (old(self).instances@.len() as int),
    {
        let i = self.rr_index;
        let n = self.instances.len();
        self.rr_index = (i + 1) % n;
        self.instances[i].clone()
    }

    /// The hosts used when no better ones are known.
    pub fn backup_instances() -> (r: Vec<String>)
        ensures
            strings_view(r@) == backup_hosts(),
    {
        let mut r: Vec<String> = Vec::new();
        r.push(String::from_str("yt.oelrichsgarcia.de"));
        r.push(String::from_str("invidious.einfachzocken.eu"));
        r.push(String::from_str("iv.nboeck.de"));
        assert(strings_view(r@) =~= backup_hosts());
        r
    }

    /// Replaces the pool with the first instances of `healthiest`, the list
    /// of instances by health, or with the backup hosts where that list
    /// could not be had or is empty.
    pub fn update_instances(&mut self, healthiest: Option<Vec<String>>)
        ensures
            final(self).wf(),
            final(self).instances@.len() > 0,
            match healthiest {
                Some(v) if v@.len() > 0 => final(self).instances@ == v@.subrange(
                    0,
                    if v@.len() < INSTANCE_COUNT { v@.len() as int } else { INSTANCE_COUNT as int },
                ),
                _ => strings_view(final(self).instances@) == backup_hosts(),
            },
            final(self).rr_index == if old(self).rr_index < final(self).instances@.len() {
                old(self).rr_index
            } else {
                0
            },
    {
        let chosen = match healthiest {
            Some(v) => {
                if v.len() > 0 {
                    let mut v = v;
                    if v.len() > INSTANCE_COUNT {
                        v.truncate(INSTANCE_COUNT);
                    }
                    v
                } else {
                    Self::backup_instances()
                }
            },
            None => Self::backup_instances(),
        };
        assert(chosen@.len() > 0) by {
            if strings_view(chosen@) == backup_hosts() {
                assert(strings_view(chosen@).len() == 3);
            }
        }
        self.instances = chosen;
        if self.rr_index >= self.instances.len() {
            self.rr_index = 0;
        }
    }
}

/// Whether another download is tried: fewer songs than wanted are had, and
/// not every retry has been spent.
pub fn keep_retrying(have: usize, wanted: usize, attempts: usize) -> (r: bool)
    ensures
        r == (have < wanted && attempts < RETRY_ATTEMPTS),
{
    have < wanted && attempts < RETRY_ATTEMPTS
}

/// How many suggestions a query returns at most.
pub const SUGGESTION_COUNT: usize = 6;

/// The first suggestions of `items`, as many as are returned.
pub fn take_suggestions<T>(items: Vec<T>) -> (r: Vec<T>)
    ensures
        r@ == items@.subrange(
            0,
            if items@.len() < SUGGESTION_COUNT { items@.len() as int } else { SUGGESTION_COUNT as int },
        ),
{
    let mut items = items;
    items.truncate(SUGGESTION_COUNT);
    proof {
        if items@.len() < SUGGESTION_COUNT {
            assert(items@ =~= items@.subrange(0, items@.len() as int));
        }
    }
    items
}

/// `s` with each space written as `+`.
pub open spec fn plus_for_spaces(s: Seq<char>) -> Seq<char> {
    s.map_values(|c: char| if c == ' ' { '+' } else { c })
}

/// The search parameter for the suggestion query `q`: `q=` and the query
/// without its surrounding double quotes, spaces written as `+`.
pub fn search_query(q: &str) -> (r: String)
    ensures
        r@ == "q="@ + plus_for_spaces(trim_quotes_spec(q@)),
{
    let t = trim_quotes(q);
    let ts = t.as_str();
    let n = ts.unicode_len();
    let mut r = String::from_str("q=");
    let mut i: usize = 0;
    proof {
        reveal_strlit("+");
    }
    while i < n
        invariant
            n == ts@.len(),
            i <= n,
            ts@ == trim_quotes_spec(q@),
            r@ == "q="@ + plus_for_spaces(ts@.subrange(0, i as int)),
            "+"@ == seq!['+'],
        decreases n - i,
    {
        let c = ts.get_char(i);
        let ghost before = r@;
        if c == ' ' {
            r.append("+");
        } else {
            r.append(ts.substring_char(i, i + 1));
            assert(ts@.subrange(i as int, i + 1) =~= seq![c]);
        }
        assert(plus_for_spaces(ts@.subrange(0, i + 1)) =~= plus_for_spaces(ts@.subrange(0, i as int)).push(
            if c == ' ' { '+' } else { c },
        ));
        assert(r@ =~= "q="@ + plus_for_spaces(ts@.subrange(0, i + 1)));
        i = i + 1;
    }
    assert(ts@.subrange(0, n as int) == ts@);
    r
}

/// What a source id names.
#[derive(Debug, PartialEq, Eq)]
pub enum SourceKind {
    Video,
    Channel,
    Playlist,
}

/// What the source id `id` names: a channel for ids starting with `UC`, a
/// playlist for ids starting with `PL`, a single video otherwise.
pub open spec fn source_kind_spec(id: Seq<char>) -> SourceKind {
    if id.len() >= 2 && id[0] == 'U' && id[1] == 'C' {
        SourceKind::Channel
    } else if id.len() >= 2 && id[0] == 'P' && id[1] == 'L' {
        SourceKind::Playlist
    } else {
        SourceKind::Video
    }
}

/// What the source id `id` names.
pub fn source_kind(id: &str) -> (r: SourceKind)
    ensures
        r == source_kind_spec(id@),
{
    let n = id.unicode_len();
    if n >= 2 {
        let a = id.get_char(0);
        let b = id.get_char(1);
        if a == 'U' && b == 'C' {
            return SourceKind::Channel;
        }
        if a == 'P' && b == 'L' {
            return SourceKind::Playlist;
        }
    }
    SourceKind::Video
}

/// Wraps the songs that resolving `id` gave: all of them for a channel or
/// a playlist; for a single video, its one song. `None` where a single
/// video did not give exactly one song.
pub fn get_one_or_more_songs_from_id(id: &str, songs: Vec<Song>) -> (r: Option<OneOrMoreSongs>)
    ensures
        source_kind_spec(id@) != SourceKind::Video ==> r == Some(OneOrMoreSongs::More(songs)),
        source_kind_spec(id@) == SourceKind::Video ==> if songs@.len() == 1 {
            r == Some(OneOrMoreSongs::One(songs@[0]))
        } else {
            r is None
        },
{
    match source_kind(id) {
        SourceKind::Video => {
            if songs.len() == 1 {
                let mut songs = songs;
                let s = songs.remove(0);
                Some(OneOrMoreSongs::One(s))
            } else {
                None
            }
        },
        _ => Some(OneOrMoreSongs::More(songs)),
    }
}

/// Picks the videos of a channel or playlist to download first: up to
/// five, at random, among its first thirty. Returns them and the rest of
/// those thirty, which later attempts draw from.
pub fn pick_initial_videos(ids: Vec<String>) -> (r: (Vec<String>, Vec<String>))
    ensures
        r.0@.len() == if ids@.len() < SONGS_PER_LIST { ids@.len() as int } else { SONGS_PER_LIST as int },
        r.0@.len() + r.1@.len() == if ids@.len() < TOP_VIDEOS { ids@.len() as int } else { TOP_VIDEOS as int },
        (r.0@ + r.1@).to_multiset() == ids@.subrange(
            0,
            if ids@.len() < TOP_VIDEOS { ids@.len() as int } else { TOP_VIDEOS as int },
        ).to_multiset(),
{
    let mut top = ids;
    if top.len() > TOP_VIDEOS {
        top.truncate(TOP_VIDEOS);
    }
    let ghost all = top@;
    let count: usize = if top.len() < SONGS_PER_LIST { top.len() } else { SONGS_PER_LIST };
    let mut picked: Vec<String> = Vec::new();
    let mut i: usize = 0;
    while i < count
        invariant
            count <= all.len(),
            i <= count,
            picked@.len() == i,
            picked@.len() + top@.len() == all.len(),
            (picked@ + top@).to_multiset() == all.to_multiset(),
        decreases count - i,
    {
        let j = random_index(top.len());
        let ghost before = top@;
        let ghost pb = picked@;
        let v = top.swap_remove(j);
        picked.push(v);
        proof {
            broadcast use vstd::seq_lib::group_to_multiset_ensures;

            lemma_swap_remove_multiset(before, j as int, top@, v);
            assert((picked@ + top@).to_multiset() =~= (pb + before).to_multiset()) by {
                lemma_concat_multiset(picked@, top@);
                lemma_concat_multiset(pb, before);
                assert(picked@ == pb.push(v));
                lemma_concat_multiset(pb, seq![v]);
                assert(pb.push(v) == pb + seq![v]);
            }
        }
        i = i + 1;
    }
    assert(all == ids@.subrange(
        0,
        if ids@.len() < TOP_VIDEOS { ids@.len() as int } else { TOP_VIDEOS as int },
    ));
    (picked, top)
}

/// A video to try again after some downloads failed: one drawn at random
/// from `rest`, unless it is one of the songs already had. `None` also
/// where `rest` is empty.
pub fn retry_candidate(have: &Vec<Song>, rest: &Vec<String>) -> (r: Option<usize>)
    ensures
        rest@.len() == 0 ==> r is None,
        r matches Some(i) ==> i < rest@.len() && forall|j: int| 0 <= j < have@.len() ==> (#[trigger] have@[j]).id@ != rest@[i as int]@,
        rest@.len() > 0 && (forall|i: int, j: int|
            0 <= i < rest@.len() && 0 <= j < have@.len() ==> #[trigger] have@[j].id@ != #[trigger] rest@[i]@)
            ==> r is Some,
{
    if rest.len() == 0 {
        return None;
    }
    let i = random_index(rest.len());
    let mut j: usize = 0;
    while j < have.len()
        invariant
            i < rest@.len(),
            j <= have@.len(),
            forall|q: int| 0 <= q < j ==> (#[trigger] have@[q]).id@ != rest@[i as int]@,
        decreases have.len() - j,
    {
        if have[j].id == rest[i] {
            return None;
        }
        j = j + 1;
    }
    Some(i)
}

proof fn lemma_concat_multiset<T>(a: Seq<T>, b: Seq<T>)
    ensures
        (a + b).to_multiset() == a.to_multiset().add(b.to_multiset()),
{
    vstd::seq_lib::lemma_multiset_commutative(a, b);
}

proof fn lemma_swap_remove_multiset<T>(before: Seq<T>, j: int, after: Seq<T>, v: T)
    requires
        0 <= j < before.len(),
        v == before[j],
        after == before.update(j, before.last()).drop_last(),
    ensures
        after.to_multiset().insert(v) == before.to_multiset(),
{
    broadcast use vstd::seq_lib::group_to_multiset_ensures, vstd::seq_lib::to_multiset_update,
        vstd::multiset::group_multiset_axioms;

    let last = before.last();
    let upd = before.update(j, last);
    assert(upd =~= after.push(last));
    assert(upd.to_multiset() == before.to_multiset().insert(last).remove(v));
    assert(upd.to_multiset() == after.to_multiset().insert(last));
    assert(before.contains(v));
    assert(before.to_multiset().count(v) > 0);
    let a = after.to_multiset();
    let b = before.to_multiset();
    assert forall|x: T| #[trigger] a.insert(v).count(x) == b.count(x) by {
        assert(a.insert(last).count(x) == b.insert(last).remove(v).count(x));
        if x == last {
            assert(a.insert(last).count(x) == a.count(x) + 1);
        } else {
            assert(a.insert(last).count(x) == a.count(x));
        }
        if x == v {
            assert(b.insert(last).count(x) > 0);
            assert(b.insert(last).remove(v).count(x) == b.insert(last).count(x) - 1);
            assert(a.insert(v).count(x) == a.count(x) + 1);
        } else {
            assert(b.insert(last).remove(v).count(x) == b.insert(last).count(x));
            assert(a.insert(v).count(x) == a.count(x));
        }
        if x == last {
            assert(b.insert(last).count(x) == b.count(x) + 1);
        } else {
            assert(b.insert(last).count(x) == b.count(x));
        }
    }
    assert(a.insert(v) =~= b);
}

} // verus!
