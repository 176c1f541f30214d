//! Loudness normalization: the normalization mode and the cache of
//! loudness measurements, keyed by a hash of the file's path components so
//! that a file is analysed once, however its path is spelled.

use std::collections::HashMap;
use std::hash::Hasher;
use std::collections::hash_map::DefaultHasher;
use vstd::prelude::*;
use vstd::std_specs::hash::DefaultHasherAdditionalSpecFns;
use crate::paths::{
    canonical_path, canonical_spelling, is_separator, lemma_spellings_of_one_path, separates,
    with_slashes,
};

verus! {

broadcast use vstd::std_specs::hash::group_hash_axioms;

/// How playback volume is normalized.
#[derive(Clone, Copy, Debug, PartialEq, Eq, Structural)]
pub enum NormalizationMode {
    /// Each track on its own, for an even volume from track to track.
    Track,
    /// By the album's loudness, keeping the album's own dynamics.
    Album,
    /// No normalization.
    Off,
}

impl Default for NormalizationMode {
    /// Tracks are normalized one by one unless chosen otherwise.
    fn default() -> (m: Self)
        ensures
            m == NormalizationMode::Track,
    {
        NormalizationMode::Track
    }
}

/// The key under which the measurement of the file at `path` is kept: the
/// `DefaultHasher` digest of the UTF-8 bytes of its canonical spelling,
/// where `\` separates components when `backslash` holds.
pub open spec fn path_key(path: Seq<char>, backslash: bool) -> u64 {
    DefaultHasher::spec_finish(seq![vstd::utf8::encode_utf8(canonical_path(path, backslash))])
}

/// Spellings of one path share a key: a repeated separator or a `.`
/// component after a separator, a trailing separator, and, where `\`
/// separates, `\` in place of `/` leave it unchanged.
pub proof fn lemma_path_spellings_share_key(a: Seq<char>, b: Seq<char>, c: char, backslash: bool)
    requires
        separates(c, backslash),
    ensures
        a.len() > 0 && separates(a.last(), backslash) ==> path_key(a.push(c) + b, backslash)
            == path_key(a + b, backslash),
        a.len() > 0 && separates(a.last(), backslash) ==> path_key(a + seq!['.', c] + b, backslash)
            == path_key(a + b, backslash),
        a.len() > 0 ==> path_key(a.push(c), backslash) == path_key(a, backslash),
        backslash ==> path_key(with_slashes(a), backslash) == path_key(a, backslash),
{
    lemma_spellings_of_one_path(a, b, c, backslash);
}

/// Hashes the canonical spelling of `path` into the cache key.
fn hash_path(path: &str, backslash: bool) -> (h: u64)
    ensures
        h == path_key(path@, backslash),
{
    let canonical = canonical_spelling(path, backslash);
    let mut hasher = DefaultHasher::new();
    hasher.write(canonical.as_str().as_bytes());
    let h = hasher.finish();
    assert(hasher@ =~= seq![vstd::utf8::encode_utf8(canonical_path(path@, backslash))]);
    h
}

/// The measurement that `measurements` holds for the file at `path`.
pub open spec fn cached<V>(measurements: Map<u64, V>, path: Seq<char>, backslash: bool) -> Option<V> {
    if measurements.contains_key(path_key(path, backslash)) {
        Some(measurements[path_key(path, backslash)])
    } else {
        None
    }
}

/// Loudness measurements already made, so that a file is not analysed twice.
/// `V` is the measurement.
#[derive(Debug, Clone)]
pub struct LufsCache<V> {
    measurements: HashMap<u64, V>,
    backslash: bool,
}

impl<V> View for LufsCache<V> {
    type V = Map<u64, V>;

    closed spec fn view(&self) -> Map<u64, V> {
        self.measurements@
    }
}

impl<V> LufsCache<V> {
    /// Whether `\` separates path components on the platform the cache was
    /// made on.
    pub closed spec fn backslash_separates(&self) -> bool {
        self.backslash
    }

    /// An empty cache.
    pub fn new() -> (c: LufsCache<V>)
        ensures
            c@ == Map::<u64, V>::empty(),
    {
        LufsCache { measurements: HashMap::new(), backslash: is_separator('\\') }
    }

    /// The measurement kept for the file at `file_path`, if any.
    pub fn get(&self, file_path: &str) -> (r: Option<&V>)
        ensures
            r == match cached(self@, file_path@, self.backslash_separates()) {
                Some(v) => Some(&v),
                None => None::<&V>,
            },
    {
        let h = hash_path(file_path, self.backslash);
        self.measurements.get(&h)
    }

    /// Keeps `result` as the measurement of the file at `file_path`,
    /// replacing the one kept under the same key.
    pub fn insert(&mut self, file_path: &str, result: V)
        ensures
            final(self)@ == old(self)@.insert(
                path_key(file_path@, old(self).backslash_separates()),
                result,
            ),
            final(self).backslash_separates() == old(self).backslash_separates(),
    {
        let h = hash_path(file_path, self.backslash);
        self.measurements.insert(h, result);
    }
}

impl<V> Default for LufsCache<V> {
    /// An empty cache.
    fn default() -> (c: Self)
        ensures
            c@ == Map::<u64, V>::empty(),
    {
        Self::new()
    }
}

/// A lookup after an insert for the same path gives the inserted
/// measurement; an insert for a path with another key leaves the lookups of
/// the other path as they were.
pub proof fn lemma_cache_read_after_write<V>(
    measurements: Map<u64, V>,
    written: Seq<char>,
    read: Seq<char>,
    result: V,
    backslash: bool,
)
    ensures
        cached(measurements.insert(path_key(written, backslash), result), written, backslash)
            == Some(result),
        path_key(read, backslash) != path_key(written, backslash) ==> cached(
            measurements.insert(path_key(written, backslash), result),
            read,
            backslash,
        ) == cached(measurements, read, backslash),
{
}

} // verus!
