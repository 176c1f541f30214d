//! The music library: which tracks belong to a folder, how tracks and their
//! CUE children are deleted, favorites, genres, lyrics, scanning and
//! watching folders for changes.

pub mod deletion;
pub mod favorites;
pub mod folders;
pub mod genres;
pub mod lyrics;
pub mod scan;
pub mod watcher;
