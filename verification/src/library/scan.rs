//! Scanning a library folder: which files are audio, the ids of the virtual
//! tracks cut from a CUE sheet, which known tracks have disappeared, and
//! what a scan reports.

use vstd::prelude::*;
use crate::text::{decimal, lemma_decimal_injective, push_char, push_decimal};

verus! {

/// What `str::to_lowercase` gives for `s` (Unicode lower case mapping).
pub uninterp spec fn lowercase(s: Seq<char>) -> Seq<char>;

/// Whether every character of `s` is ASCII.
pub open spec fn is_ascii_text(s: Seq<char>) -> bool {
    forall|i: int| 0 <= i < s.len() ==> (#[trigger] s[i] as u32) < 128
}

/// `c` with the ASCII upper case letters taken to lower case.
pub open spec fn ascii_lower(c: char) -> char {
    if 'A' <= c <= 'Z' {
        ((c as u32) + 32) as char
    } else {
        c
    }
}

/// `s` with its ASCII upper case letters taken to lower case.
pub open spec fn ascii_lowercase(s: Seq<char>) -> Seq<char> {
    s.map_values(|c: char| ascii_lower(c))
}

/// `str::to_lowercase`, which maps every character of `s` to its Unicode
/// lower case. The contract names that result `lowercase(s@)`; of ASCII
/// text it states what Unicode gives, the letters `A`..`Z` taken to
/// `a`..`z` and every other character kept.
#[verifier::external_body]
fn to_lowercase(s: &str) -> (r: String)
    ensures
        r@ == lowercase(s@),
        is_ascii_text(s@) ==> r@ == ascii_lowercase(s@),
{
    s.to_lowercase()
}

/// The file extensions that a scan treats as audio, in lower case.
pub open spec fn audio_extensions() -> Seq<Seq<char>> {
    seq!["mp3"@, "flac"@, "wav"@, "ogg"@, "m4a"@, "aac"@, "wma"@, "opus"@]
}

/// Whether a file with extension `ext` is scanned as audio: its lower case
/// form is one of the audio extensions. An ASCII extension is compared
/// without regard to the case of its letters.
pub fn is_audio_extension(ext: &str) -> (b: bool)
    ensures
        b == audio_extensions().contains(lowercase(ext@)),
        is_ascii_text(ext@) ==> b == audio_extensions().contains(ascii_lowercase(ext@)),
{
    let lower = to_lowercase(ext);
    let mut known: Vec<String> = Vec::new();
    known.push(String::from_str("mp3"));
    known.push(String::from_str("flac"));
    known.push(String::from_str("wav"));
    known.push(String::from_str("ogg"));
    known.push(String::from_str("m4a"));
    known.push(String::from_str("aac"));
    known.push(String::from_str("wma"));
    known.push(String::from_str("opus"));
    assert(known.deep_view() =~= audio_extensions());
    let mut i: usize = 0;
    while i < known.len()
        invariant
            i <= known.len(),
            known.deep_view() == audio_extensions(),
            forall|j: int| 0 <= j < i ==> known.deep_view()[j] != lower@,
            lower@ == lowercase(ext@),
            is_ascii_text(ext@) ==> lower@ == ascii_lowercase(ext@),
        decreases known.len() - i,
    {
        assert(known.deep_view()[i as int] == known@[i as int]@);
        let same = known[i] == lower;
        if same {
            assert(audio_extensions()[i as int] == lower@);
            return true;
        }
        i = i + 1;
    }
    false
}

/// `n` written with at least two digits (`{:02}`).
pub open spec fn two_digits(n: nat) -> Seq<char> {
    if n < 10 {
        seq!['0'] + decimal(n)
    } else {
        decimal(n)
    }
}

/// The id of the `track_number`-th virtual track cut from the CUE sheet of
/// the track `parent_id`: `{parent}-cue-{number:02}`.
pub open spec fn cue_track_id_of(parent_id: Seq<char>, track_number: nat) -> Seq<char> {
    parent_id + "-cue-"@ + two_digits(track_number)
}

/// The virtual tracks of one CUE sheet get distinct ids: ids for distinct
/// track numbers differ.
pub proof fn lemma_cue_track_ids_distinct(parent_id: Seq<char>, a: nat, b: nat)
    ensures
        a != b ==> cue_track_id_of(parent_id, a) != cue_track_id_of(parent_id, b),
{
    if a != b && cue_track_id_of(parent_id, a) == cue_track_id_of(parent_id, b) {
        let p = parent_id + "-cue-"@;
        let x = two_digits(a);
        let y = two_digits(b);
        assert((p + x).subrange(p.len() as int, (p + x).len() as int) =~= x);
        assert((p + y).subrange(p.len() as int, (p + y).len() as int) =~= y);
        assert(x == y);
        lemma_decimal_injective(a, b);
        lemma_decimal_injective(b, a);
        if a < 10 && b < 10 {
            assert(decimal(a) =~= x.drop_first());
            assert(decimal(b) =~= y.drop_first());
        } else if a < 10 {
            assert(x[0] == '0');
            assert(y[0] != '0');
        } else if b < 10 {
            assert(y[0] == '0');
            assert(x[0] != '0');
        }
    }
}

/// Builds the id of a virtual track cut from a CUE sheet.
pub fn cue_track_id(parent_id: &str, track_number: u32) -> (id: String)
    ensures
        id@ == cue_track_id_of(parent_id@, track_number as nat),
{
    let mut id = String::from_str(parent_id);
    id.append("-cue-");
    let ghost mid = id@;
    if track_number < 10 {
        push_char(&mut id, '0');
    }
    push_decimal(&mut id, track_number as u64);
    assert(id@ =~= mid + two_digits(track_number as nat));
    id
}

/// A track that the database lists under the scanned folder, and whether its
/// file still exists.
pub struct KnownTrack {
    pub id: String,
    pub file_exists: bool,
}

/// The ids of the tracks among `known` whose file no longer exists, in order.
pub open spec fn missing_ids(known: Seq<KnownTrack>) -> Seq<Seq<char>>
    decreases known.len(),
{
    if known.len() == 0 {
        Seq::empty()
    } else {
        let rest = missing_ids(known.drop_last());
        if known.last().file_exists {
            rest
        } else {
            rest.push(known.last().id@)
        }
    }
}

/// What a scan reports missing is decided track by track: a single known
/// track is reported exactly when its file is gone, and the report for two
/// runs of known tracks is the report for the first followed by the report
/// for the second. So a track's id is reported exactly when that track's
/// file is gone, whatever the other tracks are, and in the order of the
/// tracks.
pub proof fn lemma_missing_track_by_track(k: KnownTrack, a: Seq<KnownTrack>, b: Seq<KnownTrack>)
    ensures
        missing_ids(seq![k]) == (if k.file_exists {
            Seq::<Seq<char>>::empty()
        } else {
            seq![k.id@]
        }),
        missing_ids(a + b) == missing_ids(a) + missing_ids(b),
    decreases b.len(),
{
    assert(seq![k].drop_last() =~= Seq::<KnownTrack>::empty());
    assert(missing_ids(Seq::<KnownTrack>::empty()) == Seq::<Seq<char>>::empty());
    if b.len() == 0 {
        assert(a + b =~= a);
        assert(missing_ids(a) + missing_ids(b) =~= missing_ids(a));
    } else {
        lemma_missing_track_by_track(k, a, b.drop_last());
        assert((a + b).drop_last() =~= a + b.drop_last());
        assert((a + b).last() == b.last());
        if b.last().file_exists {
            assert(missing_ids(a + b) == missing_ids(a + b.drop_last()));
        } else {
            assert(missing_ids(a) + missing_ids(b) =~= (missing_ids(a) + missing_ids(
                b.drop_last(),
            )).push(b.last().id@));
        }
    }
}

/// An id is reported missing exactly when some known track with that id
/// has lost its file.
pub proof fn lemma_missing_ids_members(known: Seq<KnownTrack>, x: Seq<char>)
    ensures
        missing_ids(known).contains(x) <==> exists|i: int|
            0 <= i < known.len() && !(#[trigger] known[i]).file_exists && known[i].id@ == x,
    decreases known.len(),
{
    if known.len() > 0 {
        let init = known.drop_last();
        lemma_missing_ids_members(init, x);
        if missing_ids(known).contains(x) {
            if !known.last().file_exists && x == known.last().id@ {
                assert(!known[known.len() - 1].file_exists && known[known.len() - 1].id@ == x);
            } else {
                let r = missing_ids(init);
                if !known.last().file_exists {
                    let j = choose|j: int| 0 <= j < r.push(known.last().id@).len() && r.push(
                        known.last().id@,
                    )[j] == x;
                    assert(j < r.len());
                    assert(r[j] == x);
                }
                assert(r.contains(x));
                let i = choose|i: int| 0 <= i < init.len() && !(#[trigger] init[i]).file_exists
                    && init[i].id@ == x;
                assert(known[i] == init[i]);
            }
        }
        if exists|i: int| 0 <= i < known.len() && !(#[trigger] known[i]).file_exists && known[i].id@ == x {
            let i = choose|i: int| 0 <= i < known.len() && !(#[trigger] known[i]).file_exists
                && known[i].id@ == x;
            if i == known.len() - 1 {
                assert(missing_ids(known) == missing_ids(init).push(x));
                assert(missing_ids(known)[missing_ids(init).len() as int] == x);
            } else {
                assert(init[i] == known[i]);
                assert(missing_ids(init).contains(x));
                let j = choose|j: int| 0 <= j < missing_ids(init).len() && missing_ids(init)[j] == x;
                if !known.last().file_exists {
                    assert(missing_ids(known)[j] == x);
                }
            }
        }
    }
}

/// The tracks a scan removes because their file is gone.
pub fn missing_track_ids(known: &[KnownTrack]) -> (ids: Vec<String>)
    ensures
        ids.deep_view() == missing_ids(known@),
{
    let mut ids: Vec<String> = Vec::new();
    let mut i: usize = 0;
    while i < known.len()
        invariant
            i <= known.len(),
            ids.deep_view() == missing_ids(known@.take(i as int)),
        decreases known.len() - i,
    {
        assert(known@.take(i + 1).drop_last() =~= known@.take(i as int));
        if !known[i].file_exists {
            let ghost before = ids.deep_view();
            let id = known[i].id.clone();
            ids.push(id);
            assert(ids.deep_view() =~= before.push(known@[i as int].id@));
        }
        i = i + 1;
    }
    assert(known@.take(i as int) =~= known@);
    ids
}

/// The counts a scan reports.
pub struct ScanResult {
    /// Tracks written: one per audio file read, plus its CUE tracks.
    pub added: usize,
    /// Always 0: a rewritten track is counted as added.
    pub updated: usize,
    /// Tracks removed because their file is gone, CUE children included.
    pub removed: usize,
}

/// The number of tracks written for files with `cue_counts[i]` CUE tracks.
pub open spec fn tracks_written(cue_counts: Seq<usize>) -> int
    decreases cue_counts.len(),
{
    if cue_counts.len() == 0 {
        0
    } else {
        tracks_written(cue_counts.drop_last()) + 1 + cue_counts.last()
    }
}

proof fn lemma_tracks_written_nonnegative(cue_counts: Seq<usize>)
    ensures
        tracks_written(cue_counts) >= 0,
    decreases cue_counts.len(),
{
    if cue_counts.len() > 0 {
        lemma_tracks_written_nonnegative(cue_counts.drop_last());
    }
}

proof fn lemma_tracks_written_monotone(cue_counts: Seq<usize>, i: int)
    requires
        0 <= i <= cue_counts.len(),
    ensures
        0 <= tracks_written(cue_counts.take(i)) <= tracks_written(cue_counts),
    decreases cue_counts.len() - i,
{
    lemma_tracks_written_nonnegative(cue_counts.take(i));
    if i < cue_counts.len() {
        lemma_tracks_written_monotone(cue_counts, i + 1);
        assert(cue_counts.take(i + 1).drop_last() =~= cue_counts.take(i));
    } else {
        assert(cue_counts.take(i) =~= cue_counts);
    }
}

/// The report of a scan that read files with `cue_counts[i]` CUE tracks
/// each and removed `removed` tracks.
pub fn scan_result(cue_counts: &[usize], removed: usize) -> (r: ScanResult)
    requires
        tracks_written(cue_counts@) <= usize::MAX,
    ensures
        r.added == tracks_written(cue_counts@),
        r.updated == 0,
        r.removed == removed,
{
    let mut added: usize = 0;
    let mut i: usize = 0;
    while i < cue_counts.len()
        invariant
            i <= cue_counts.len(),
            tracks_written(cue_counts@) <= usize::MAX,
            added == tracks_written(cue_counts@.take(i as int)),
        decreases cue_counts.len() - i,
    {
        proof {
            lemma_tracks_written_monotone(cue_counts@, i + 1);
            assert(cue_counts@.take(i + 1).drop_last() =~= cue_counts@.take(i as int));
        }
        added = added + 1 + cue_counts[i];
        i = i + 1;
    }
    assert(cue_counts@.take(i as int) =~= cue_counts@);
    ScanResult { added, updated: 0, removed }
}

} // verus!
