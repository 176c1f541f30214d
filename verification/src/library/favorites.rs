//! Toggling a favorite: the favorites table holds at most one row per track
//! id; toggling removes the row when there is one and adds it otherwise.

use vstd::prelude::*;

verus! {

/// The change that a toggle makes to the favorites table.
#[derive(PartialEq, Eq, Structural)]
pub enum FavoriteChange {
    /// Delete the track's row: it was a favorite and no longer is.
    Remove,
    /// Insert a row for the track: it was not a favorite and now is.
    Add,
}

/// The change for a track that has `existing_rows` rows in the table.
pub open spec fn favorite_change_for(existing_rows: int) -> FavoriteChange {
    if existing_rows > 0 {
        FavoriteChange::Remove
    } else {
        FavoriteChange::Add
    }
}

/// The favorites after applying `change` to the track `id`.
pub open spec fn apply_favorite_change(
    favorites: Set<Seq<char>>,
    id: Seq<char>,
    change: FavoriteChange,
) -> Set<Seq<char>> {
    match change {
        FavoriteChange::Remove => favorites.remove(id),
        FavoriteChange::Add => favorites.insert(id),
    }
}

/// The number of rows that the favorites table holds for `id`.
pub open spec fn favorite_rows(favorites: Set<Seq<char>>, id: Seq<char>) -> int {
    if favorites.contains(id) {
        1
    } else {
        0
    }
}

/// The favorites after toggling `id`.
pub open spec fn toggled(favorites: Set<Seq<char>>, id: Seq<char>) -> Set<Seq<char>> {
    apply_favorite_change(favorites, id, favorite_change_for(favorite_rows(favorites, id)))
}

impl FavoriteChange {
    /// Decides the toggle from the count of the track's rows
    /// (`SELECT COUNT(*) FROM favorites WHERE track_id = ?`).
    pub fn for_existing_rows(existing_rows: i64) -> (c: FavoriteChange)
        ensures
            c == favorite_change_for(existing_rows as int),
    {
        if existing_rows > 0 {
            FavoriteChange::Remove
        } else {
            FavoriteChange::Add
        }
    }

    /// What the toggle reports: whether the track is a favorite afterwards.
    pub fn now_favorite(&self) -> (b: bool)
        ensures
            b == (*self == FavoriteChange::Add),
    {
        match self {
            FavoriteChange::Remove => false,
            FavoriteChange::Add => true,
        }
    }
}

/// A toggle reports whether the track is a favorite afterwards, flips that
/// track's membership and leaves every other track as it was.
pub proof fn lemma_toggle_flips_only_its_track(favorites: Set<Seq<char>>, id: Seq<char>)
    ensures
        toggled(favorites, id).contains(id) == !favorites.contains(id),
        toggled(favorites, id).contains(id) == (favorite_change_for(
            favorite_rows(favorites, id),
        ) == FavoriteChange::Add),
        forall|other: Seq<char>|
            other != id ==> (#[trigger] toggled(favorites, id).contains(other)
                == favorites.contains(other)),
{
}

/// Toggling the same track twice leaves the favorites as they were.
pub proof fn lemma_toggle_twice_restores(favorites: Set<Seq<char>>, id: Seq<char>)
    ensures
        toggled(toggled(favorites, id), id) == favorites,
{
    assert(toggled(toggled(favorites, id), id) =~= favorites);
}

} // verus!
