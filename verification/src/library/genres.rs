//! Genres: ids derived from a genre's normalization key, and the ordered
//! links between a track and its genres.

use vstd::prelude::*;

verus! {

/// The id of the genre whose normalization key is `key`: `genre-` + key.
pub open spec fn genre_id_of(key: Seq<char>) -> Seq<char> {
    "genre-"@ + key
}

/// The id of the genre whose normalization key is `key`.
pub fn genre_id(key: &str) -> (id: String)
    ensures
        id@ == genre_id_of(key@),
{
    let mut id = String::from_str("genre-");
    id.append(key);
    id
}

/// A genre with the number of tracks linked to it.
pub struct Genre {
    pub id: String,
    pub name: String,
    pub normalization_key: String,
    pub track_count: i64,
}

impl Genre {
    /// The genre record written when a track names `name`, whose
    /// normalization key is `key`; its track count is not yet known (0).
    pub fn named(name: &str, key: &str) -> (g: Genre)
        ensures
            g.id@ == genre_id_of(key@),
            g.name@ == name@,
            g.normalization_key@ == key@,
            g.track_count == 0,
    {
        Genre {
            id: genre_id(key),
            name: String::from_str(name),
            normalization_key: String::from_str(key),
            track_count: 0,
        }
    }
}

/// One row of `track_genres`.
pub struct TrackGenreLink {
    pub track_id: String,
    pub genre_id: String,
    /// The genre's place among the track's genres, from 0.
    pub position: i64,
}

/// The rows that link `track_id` to `genre_ids`, the i-th at position i.
pub fn track_genre_links(track_id: &str, genre_ids: &[String]) -> (links: Vec<TrackGenreLink>)
    requires
        genre_ids.len() <= i64::MAX,
    ensures
        links.len() == genre_ids.len(),
        forall|i: int|
            0 <= i < links.len() ==> {
                &&& (#[trigger] links[i]).track_id@ == track_id@
                &&& links[i].genre_id@ == genre_ids[i]@
                &&& links[i].position == i
            },
{
    let mut links: Vec<TrackGenreLink> = Vec::new();
    let mut i: usize = 0;
    while i < genre_ids.len()
        invariant
            i <= genre_ids.len() <= i64::MAX,
            links.len() == i,
            forall|j: int|
                0 <= j < i ==> {
                    &&& (#[trigger] links[j]).track_id@ == track_id@
                    &&& links[j].genre_id@ == genre_ids[j]@
                    &&& links[j].position == j
                },
        decreases genre_ids.len() - i,
    {
        let gid = genre_ids[i].clone();
        assert(gid@ == genre_ids[i as int]@);
        let link = TrackGenreLink {
            track_id: String::from_str(track_id),
            genre_id: gid,
            position: i as i64,
        };
        let ghost before = links@;
        links.push(link);
        assert(forall|j: int| 0 <= j < i ==> links[j] == before[j]);
        i = i + 1;
    }
    links
}

} // verus!
