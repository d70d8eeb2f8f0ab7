use vstd::prelude::*;

verus! {

/// A playable song; `id` names the cached audio file.
#[derive(Debug)]
pub struct Song {
    pub id: String,
    pub title: String,
    pub artist: String,
}

/// The `(title, artist)` pair under which a song is offered as an option.
pub open spec fn pair_of(s: Song) -> (Seq<char>, Seq<char>) {
    (s.title@, s.artist@)
}

/// The contents of an option pair.
pub open spec fn pair_view(p: (String, String)) -> (Seq<char>, Seq<char>) {
    (p.0@, p.1@)
}

impl Song {
    /// Whether two songs hold the same text in every field.
    pub open spec fn same(self, o: Song) -> bool {
        self.id@ == o.id@ && self.title@ == o.title@ && self.artist@ == o.artist@
    }

    /// A copy of this song.
    pub fn duplicate(&self) -> (r: Song)
        ensures
            r.same(*self),
    {
        Song { id: self.id.clone(), title: self.title.clone(), artist: self.artist.clone() }
    }

}

/// The option pair of `song`, `(title, artist)`.
pub fn song_to_title_artist_tuple(song: &Song) -> (r: (String, String))
    ensures
        pair_view(r) == pair_of(*song),
{
    (song.title.clone(), song.artist.clone())
}

impl Clone for Song {
    fn clone(&self) -> (r: Song)
        ensures
            r.same(*self),
    {
        self.duplicate()
    }
}

/// Songs are equal when their ids are.
impl PartialEq for Song {
    fn eq(&self, other: &Song) -> (r: bool) {
        self.id == other.id
    }
}

impl vstd::std_specs::cmp::PartialEqSpecImpl for Song {
    open spec fn obeys_eq_spec() -> bool {
        true
    }

    open spec fn eq_spec(&self, other: &Song) -> bool {
        self.id@ == other.id@
    }
}

/// The result of resolving a source id: one song, or several for a
/// channel or a playlist.
#[derive(Debug)]
pub enum OneOrMoreSongs {
    One(Song),
    More(Vec<Song>),
}

impl OneOrMoreSongs {
    /// The songs resolved, in order.
    pub open spec fn songs(self) -> Seq<Song> {
        match self {
            OneOrMoreSongs::One(s) => seq![s],
            OneOrMoreSongs::More(v) => v@,
        }
    }

    /// The songs resolved, as a list.
    pub fn into_songs(self) -> (r: Vec<Song>)
        ensures
            r@ == self.songs(),
    {
        match self {
            OneOrMoreSongs::One(s) => {
                let mut v: Vec<Song> = Vec::new();
                v.push(s);
                assert(v@ =~= seq![s]);
                v
            },
            OneOrMoreSongs::More(v) => v,
        }
    }
}

} // verus!
