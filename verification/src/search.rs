//! Full-text search over the library: when a query runs, how exact title
//! matches and broader matches are combined, and how many broader matches
//! are asked for. The index itself lives on disk, with the caller.

use vstd::prelude::*;
use crate::text::chars_of;

verus! {

/// A track found by a search, with the score `S` that the index gave it.
#[derive(Debug, Clone)]
pub struct SearchResult<S> {
    pub track_id: String,
    pub score: S,
    pub title: String,
    pub artist: String,
    pub album: String,
}

/// Whether some hit of `hits` is for the track `id`.
pub open spec fn has_track<S>(hits: Seq<SearchResult<S>>, id: Seq<char>) -> bool {
    exists|i: int| 0 <= i < hits.len() && (#[trigger] hits[i]).track_id@ == id
}

/// `acc` followed by those of `candidates` whose track is not already
/// among the hits before them, in order.
pub open spec fn merge_new_hits<S>(acc: Seq<SearchResult<S>>, candidates: Seq<SearchResult<S>>) -> Seq<
    SearchResult<S>,
>
    decreases candidates.len(),
{
    if candidates.len() == 0 {
        acc
    } else if has_track(acc, candidates[0].track_id@) {
        merge_new_hits(acc, candidates.drop_first())
    } else {
        merge_new_hits(acc.push(candidates[0]), candidates.drop_first())
    }
}

/// Whether no two hits are for the same track.
pub open spec fn distinct_tracks<S>(hits: Seq<SearchResult<S>>) -> bool {
    forall|i: int, j: int|
        0 <= i < j < hits.len() ==> (#[trigger] hits[i]).track_id@ != (#[trigger] hits[j]).track_id@
}

/// Whether `c` has the Unicode property White_Space, which is what
/// trimming removes.
pub open spec fn is_white_space(c: char) -> bool {
    let u = c as u32;
    ||| 0x09 <= u <= 0x0D
    ||| u == 0x20
    ||| u == 0x85
    ||| u == 0xA0
    ||| u == 0x1680
    ||| 0x2000 <= u <= 0x200A
    ||| u == 0x2028
    ||| u == 0x2029
    ||| u == 0x202F
    ||| u == 0x205F
    ||| u == 0x3000
}

/// How many white space characters `s` begins with.
pub open spec fn leading_white(s: Seq<char>) -> nat
    decreases s.len(),
{
    if s.len() > 0 && is_white_space(s[0]) {
        1 + leading_white(s.drop_first())
    } else {
        0
    }
}

/// How many white space characters `s` ends with.
pub open spec fn trailing_white(s: Seq<char>) -> nat
    decreases s.len(),
{
    if s.len() > 0 && is_white_space(s.last()) {
        1 + trailing_white(s.drop_last())
    } else {
        0
    }
}

/// `s` without its leading and trailing white space.
pub open spec fn trim_white(s: Seq<char>) -> Seq<char> {
    let t = s.skip(leading_white(s) as int);
    t.take(t.len() - trailing_white(t))
}

proof fn lemma_leading_white(s: Seq<char>)
    ensures
        leading_white(s) <= s.len(),
        forall|j: int| 0 <= j < leading_white(s) ==> is_white_space(#[trigger] s[j]),
        leading_white(s) < s.len() ==> !is_white_space(s[leading_white(s) as int]),
    decreases s.len(),
{
    if s.len() > 0 && is_white_space(s[0]) {
        let t = s.drop_first();
        lemma_leading_white(t);
        assert forall|j: int| 0 <= j < leading_white(s) implies is_white_space(#[trigger] s[j]) by {
            if j > 0 {
                assert(s[j] == t[j - 1]);
            }
        }
        if leading_white(s) < s.len() {
            assert(s[leading_white(s) as int] == t[leading_white(t) as int]);
        }
    }
}

proof fn lemma_trailing_white(s: Seq<char>)
    ensures
        trailing_white(s) <= s.len(),
        forall|j: int| s.len() - trailing_white(s) <= j < s.len() ==> is_white_space(#[trigger] s[j]),
    decreases s.len(),
{
    if s.len() > 0 && is_white_space(s.last()) {
        let t = s.drop_last();
        lemma_trailing_white(t);
        assert forall|j: int| s.len() - trailing_white(s) <= j < s.len() implies is_white_space(
            #[trigger] s[j],
        ) by {
            if j < s.len() - 1 {
                assert(s[j] == t[j]);
            }
        }
    }
}

/// What is left of `s` after trimming is empty exactly when `s` is white
/// space alone.
pub proof fn lemma_trim_empty_iff_all_white(s: Seq<char>)
    ensures
        (trim_white(s).len() == 0) <==> (forall|i: int| 0 <= i < s.len() ==> is_white_space(#[trigger] s[i])),
{
    lemma_leading_white(s);
    let t = s.skip(leading_white(s) as int);
    lemma_trailing_white(t);
    if leading_white(s) < s.len() {
        assert(t[0] == s[leading_white(s) as int]);
        assert(!is_white_space(t[0]));
        assert(trailing_white(t) < t.len());
        assert(!(forall|i: int| 0 <= i < s.len() ==> is_white_space(#[trigger] s[i])));
    } else {
        assert(t.len() == 0);
    }
}

/// Whether `c` has the Unicode property White_Space.
fn white_space(c: char) -> (b: bool)
    ensures
        b == is_white_space(c),
{
    let u = c as u32;
    (0x09 <= u && u <= 0x0D) || u == 0x20 || u == 0x85 || u == 0xA0 || u == 0x1680 || (0x2000 <= u
        && u <= 0x200A) || u == 0x2028 || u == 0x2029 || u == 0x202F || u == 0x205F || u == 0x3000
}

/// Whether `query` is searched for at all: it is, exactly when it holds a
/// character other than white space, that is, when trimming it leaves
/// something.
pub fn query_is_searchable(query: &str) -> (b: bool)
    ensures
        b == (trim_white(query@).len() > 0),
        b == (exists|i: int| 0 <= i < query@.len() && !is_white_space(#[trigger] query@[i])),
{
    proof {
        lemma_trim_empty_iff_all_white(query@);
    }
    let cs = chars_of(query);
    let mut i: usize = 0;
    while i < cs.len()
        invariant
            i <= cs.len(),
            cs@ == query@,
            forall|j: int| 0 <= j < i ==> is_white_space(#[trigger] query@[j]),
        decreases cs.len() - i,
    {
        if !white_space(cs[i]) {
            assert(!is_white_space(query@[i as int]));
            proof {
                lemma_trim_empty_iff_all_white(query@);
            }
            return true;
        }
        i = i + 1;
    }
    false
}

/// How many broader matches to ask for after `found` exact ones, for at most
/// `limit` results: none when the exact ones already fill the limit.
pub fn broad_match_budget(found: usize, limit: usize) -> (budget: Option<usize>)
    requires
        found <= limit,
    ensures
        (found == 0 || found < limit) ==> budget == Some((limit - found) as usize),
        !(found == 0 || found < limit) ==> budget is None,
{
    if found == 0 || found < limit {
        Some(limit - found)
    } else {
        None
    }
}

fn has_track_exec<S>(hits: &Vec<SearchResult<S>>, id: &String) -> (b: bool)
    ensures
        b == has_track(hits@, id@),
{
    let mut i: usize = 0;
    while i < hits.len()
        invariant
            i <= hits.len(),
            forall|k: int| 0 <= k < i ==> (#[trigger] hits@[k]).track_id@ != id@,
        decreases hits.len() - i,
    {
        if hits[i].track_id == *id {
            assert(hits@[i as int].track_id@ == id@);
            return true;
        }
        i = i + 1;
    }
    false
}

/// Appends to `results` the hits of `candidates` for tracks not yet among
/// them, in order, as the search does with its broader matches.
pub fn append_new_hits<S>(results: &mut Vec<SearchResult<S>>, candidates: Vec<SearchResult<S>>)
    ensures
        final(results)@ == merge_new_hits(old(results)@, candidates@),
{
    let mut rest = candidates;
    while rest.len() > 0
        invariant
            merge_new_hits(results@, rest@) == merge_new_hits(old(results)@, candidates@),
        decreases rest.len(),
    {
        let ghost before = rest@;
        let hit = rest.remove(0);
        assert(rest@ =~= before.drop_first());
        if !has_track_exec(results, &hit.track_id) {
            results.push(hit);
        }
    }
}

/// Merging keeps the earlier hits first and adds only hits of `candidates`;
/// it adds a hit for every candidate track, and never a second hit for a
/// track.
pub proof fn lemma_merge_new_hits<S>(acc: Seq<SearchResult<S>>, candidates: Seq<SearchResult<S>>)
    ensures
        acc.len() <= merge_new_hits(acc, candidates).len() <= acc.len() + candidates.len(),
        merge_new_hits(acc, candidates).subrange(0, acc.len() as int) == acc,
        forall|i: int|
            acc.len() <= i < merge_new_hits(acc, candidates).len() ==> candidates.contains(
                #[trigger] merge_new_hits(acc, candidates)[i],
            ),
        forall|id: Seq<char>|
            (has_track(acc, id) || has_track(candidates, id)) ==> #[trigger] has_track(
                merge_new_hits(acc, candidates),
                id,
            ),
        distinct_tracks(acc) ==> distinct_tracks(merge_new_hits(acc, candidates)),
    decreases candidates.len(),
{
    let m = merge_new_hits(acc, candidates);
    if candidates.len() == 0 {
        assert(m.subrange(0, acc.len() as int) =~= acc);
    } else {
        let c = candidates[0];
        let rest = candidates.drop_first();
        let acc2 = if has_track(acc, c.track_id@) {
            acc
        } else {
            acc.push(c)
        };
        lemma_merge_new_hits(acc2, rest);
        assert(m == merge_new_hits(acc2, rest));
        assert(m.subrange(0, acc.len() as int) =~= acc) by {
            assert(m.subrange(0, acc2.len() as int) == acc2);
            assert forall|i: int| 0 <= i < acc.len() implies m[i] == acc[i] by {
                assert(m.subrange(0, acc2.len() as int)[i] == acc2[i]);
            }
        }
        assert forall|i: int| acc.len() <= i < m.len() implies candidates.contains(
            #[trigger] m[i],
        ) by {
            if i < acc2.len() {
                assert(m.subrange(0, acc2.len() as int)[i] == acc2[i]);
                assert(candidates[0] == m[i]);
            } else {
                assert(rest.contains(m[i]));
                let k = choose|k: int| 0 <= k < rest.len() && rest[k] == m[i];
                assert(candidates[k + 1] == m[i]);
            }
        }
        assert forall|id: Seq<char>|
            (has_track(acc, id) || has_track(candidates, id)) implies #[trigger] has_track(
            m,
            id,
        ) by {
            if has_track(acc, id) {
                let k = choose|k: int| 0 <= k < acc.len() && (#[trigger] acc[k]).track_id@ == id;
                assert(acc2[k] == acc[k]);
                assert(has_track(acc2, id));
            } else {
                let k = choose|k: int|
                    0 <= k < candidates.len() && (#[trigger] candidates[k]).track_id@ == id;
                if k == 0 {
                    if has_track(acc, c.track_id@) {
                        assert(has_track(acc2, id));
                    } else {
                        assert(acc2[acc.len() as int] == c);
                        assert(has_track(acc2, id));
                    }
                } else {
                    assert(rest[k - 1] == candidates[k]);
                    assert(has_track(rest, id));
                }
            }
        }
        if distinct_tracks(acc) && !has_track(acc, c.track_id@) {
            assert forall|i: int, j: int| 0 <= i < j < acc2.len() implies (
            #[trigger] acc2[i]).track_id@ != (#[trigger] acc2[j]).track_id@ by {
                if j == acc.len() {
                    assert(acc2[i] == acc[i]);
                    if acc[i].track_id@ == c.track_id@ {
                        assert(has_track(acc, c.track_id@));
                    }
                } else {
                    assert(acc2[i] == acc[i] && acc2[j] == acc[j]);
                }
            }
        }
    }
}

} // verus!
