//! Stored lyrics of a track: the text fetched from a provider and the text
//! read from the file's own tags, each with its source.

use vstd::prelude::*;

verus! {

/// A row of the lyrics table.
#[derive(Debug, Clone)]
pub struct LyricRow {
    pub track_id: String,
    pub content: String,
    pub source: String,
    pub meta_content: String,
    pub meta_source: String,
}

impl LyricRow {
    /// The row that a scan writes for lyrics found in the file's tags: the
    /// fetched text and its source stay empty.
    pub fn from_file_tags(track_id: &str, meta_content: &str, meta_source: &str) -> (r: LyricRow)
        ensures
            r.track_id@ == track_id@,
            r.content@.len() == 0,
            r.source@.len() == 0,
            r.meta_content@ == meta_content@,
            r.meta_source@ == meta_source@,
    {
        LyricRow {
            track_id: String::from_str(track_id),
            content: String::new(),
            source: String::new(),
            meta_content: String::from_str(meta_content),
            meta_source: String::from_str(meta_source),
        }
    }
}

} // verus!
