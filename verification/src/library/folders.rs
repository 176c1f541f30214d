//! Which tracks belong to a library folder: the folder itself and the paths
//! that begin with the folder and a separator, compared character for
//! character. The database narrows the tracks down first with
//! `file_path = ? OR file_path LIKE ? ESCAPE '^'`; this module builds the two
//! values bound there, proves that the pattern keeps every track of the
//! folder, and picks the folder's tracks out of what the query returned
//! (LIKE also lets ASCII letters of another case through).

use vstd::prelude::*;
use crate::text::{chars_of, push_char};

verus! {

/// One element of a LIKE pattern as SQLite reads it with the escape `^`.
pub enum LikeToken {
    /// The character with this code point, matched as itself (ASCII letters
    /// without regard to case).
    Literal(u32),
    /// `%`: any run of characters, the empty one included.
    AnyRun,
    /// `_`: exactly one character.
    AnyOne,
}

/// The tokens of the pattern `p` read with the escape character `^`: `^`
/// makes the next character literal, `%` and `_` are wildcards.
pub open spec fn like_tokens(p: Seq<char>) -> Seq<LikeToken>
    decreases p.len(),
{
    if p.len() == 0 {
        Seq::empty()
    } else if p[0] == '^' && p.len() >= 2 {
        seq![LikeToken::Literal(p[1] as u32)] + like_tokens(p.subrange(2, p.len() as int))
    } else if p[0] == '%' {
        seq![LikeToken::AnyRun] + like_tokens(p.drop_first())
    } else if p[0] == '_' {
        seq![LikeToken::AnyOne] + like_tokens(p.drop_first())
    } else {
        seq![LikeToken::Literal(p[0] as u32)] + like_tokens(p.drop_first())
    }
}

/// The code point `c` with ASCII upper case letters taken to lower case, as
/// LIKE compares.
pub open spec fn fold_ascii(c: u32) -> u32 {
    if 65 <= c && c <= 90 {
        (c + 32) as u32
    } else {
        c
    }
}

/// Whether the tokens `t` match the whole of `s`.
pub open spec fn like_matches(t: Seq<LikeToken>, s: Seq<char>) -> bool
    decreases t.len(), s.len(),
{
    if t.len() == 0 {
        s.len() == 0
    } else {
        match t[0] {
            LikeToken::Literal(c) => s.len() > 0 && fold_ascii(s[0] as u32) == fold_ascii(c)
                && like_matches(t.drop_first(), s.drop_first()),
            LikeToken::AnyOne => s.len() > 0 && like_matches(t.drop_first(), s.drop_first()),
            LikeToken::AnyRun => like_matches(t.drop_first(), s) || (s.len() > 0 && like_matches(
                t,
                s.drop_first(),
            )),
        }
    }
}

/// Whether `s` begins with `prefix`, ASCII letters compared without regard
/// to case.
pub open spec fn starts_with_folded(s: Seq<char>, prefix: Seq<char>) -> bool {
    &&& prefix.len() <= s.len()
    &&& forall|i: int|
        0 <= i < prefix.len() ==> fold_ascii(#[trigger] s[i] as u32) == fold_ascii(prefix[i] as u32)
}

/// The literal tokens for the characters of `s`.
pub open spec fn literals(s: Seq<char>) -> Seq<LikeToken>
    decreases s.len(),
{
    if s.len() == 0 {
        Seq::empty()
    } else {
        seq![LikeToken::Literal(s[0] as u32)] + literals(s.drop_first())
    }
}

proof fn lemma_tokens_of_escaped(s: Seq<char>, rest: Seq<char>)
    ensures
        like_tokens(escaped_like(s) + rest) == literals(s) + like_tokens(rest),
    decreases s.len(),
{
    if s.len() == 0 {
        assert(escaped_like(s) + rest =~= rest);
        assert(literals(s) + like_tokens(rest) =~= like_tokens(rest));
    } else {
        let t = s.drop_first();
        lemma_tokens_of_escaped(t, rest);
        let p = escaped_like(s) + rest;
        if s[0] == '%' || s[0] == '_' || s[0] == '^' {
            assert(p =~= seq!['^', s[0]] + (escaped_like(t) + rest));
            assert(p.subrange(2, p.len() as int) =~= escaped_like(t) + rest);
        } else {
            assert(p =~= seq![s[0]] + (escaped_like(t) + rest));
            assert(p.drop_first() =~= escaped_like(t) + rest);
        }
        assert(like_tokens(p) =~= literals(s) + like_tokens(rest));
    }
}

proof fn lemma_any_run_matches_all(s: Seq<char>)
    ensures
        like_matches(seq![LikeToken::AnyRun], s),
    decreases s.len(),
{
    let t = seq![LikeToken::AnyRun];
    assert(t.drop_first() =~= Seq::<LikeToken>::empty());
    assert(t[0] == LikeToken::AnyRun);
    if s.len() > 0 {
        lemma_any_run_matches_all(s.drop_first());
        assert(like_matches(t, s.drop_first()));
    } else {
        assert(like_matches(Seq::<LikeToken>::empty(), s));
    }
}

proof fn lemma_prefix_then_any_run(prefix: Seq<char>, s: Seq<char>)
    ensures
        like_matches(literals(prefix) + seq![LikeToken::AnyRun], s) <==> starts_with_folded(
            s,
            prefix,
        ),
    decreases prefix.len(),
{
    let t = literals(prefix) + seq![LikeToken::AnyRun];
    if prefix.len() == 0 {
        assert(t =~= seq![LikeToken::AnyRun]);
        lemma_any_run_matches_all(s);
    } else {
        let p2 = prefix.drop_first();
        assert(t.drop_first() =~= literals(p2) + seq![LikeToken::AnyRun]);
        assert(t[0] == LikeToken::Literal(prefix[0] as u32));
        if s.len() > 0 {
            lemma_prefix_then_any_run(p2, s.drop_first());
            if starts_with_folded(s, prefix) {
                assert forall|i: int| 0 <= i < p2.len() implies fold_ascii(
                    #[trigger] s.drop_first()[i] as u32,
                ) == fold_ascii(p2[i] as u32) by {
                    assert(fold_ascii(s[i + 1] as u32) == fold_ascii(prefix[i + 1] as u32));
                }
            }
            if fold_ascii(s[0] as u32) == fold_ascii(prefix[0] as u32) && starts_with_folded(
                s.drop_first(),
                p2,
            ) {
                assert forall|i: int| 0 <= i < prefix.len() implies fold_ascii(
                    #[trigger] s[i] as u32,
                ) == fold_ascii(prefix[i] as u32) by {
                    if i > 0 {
                        assert(fold_ascii(s.drop_first()[i - 1] as u32) == fold_ascii(
                            p2[i - 1] as u32,
                        ));
                    }
                }
            }
        }
    }
}

/// A track path is matched by the LIKE pattern of `folder` exactly when it
/// begins with the folder and the separator, ASCII letters compared without
/// regard to case as SQLite's LIKE does; `%`, `_` and `^` in the folder
/// match only themselves.
pub proof fn lemma_folder_pattern_selects_folder_contents(
    folder: Seq<char>,
    sep: char,
    path: Seq<char>,
)
    ensures
        like_matches(like_tokens(folder_pattern(folder, sep)), path) <==> starts_with_folded(
            path,
            folder.push(sep),
        ),
{
    let f = folder.push(sep);
    assert(folder_pattern(folder, sep) =~= escaped_like(f) + seq!['%']);
    lemma_tokens_of_escaped(f, seq!['%']);
    let pct = seq!['%'];
    assert(pct.drop_first() =~= Seq::<char>::empty());
    assert(like_tokens(Seq::<char>::empty()) == Seq::<LikeToken>::empty());
    assert(like_tokens(pct) =~= seq![LikeToken::AnyRun]);
    lemma_prefix_then_any_run(f, path);
}

/// The query that removing a folder runs returns the tracks whose path is
/// the folder itself or begins with it and the separator, ASCII letters
/// compared without regard to case.
pub proof fn lemma_removal_selects_folder_tracks(path: Seq<char>, sep: char, track_path: Seq<char>)
    ensures
        (track_path == trim_trailing_separators(path) || like_matches(
            like_tokens(folder_pattern(trim_trailing_separators(path), sep)),
            track_path,
        )) <==> (track_path == trim_trailing_separators(path) || starts_with_folded(
            track_path,
            trim_trailing_separators(path).push(sep),
        )),
{
    lemma_folder_pattern_selects_folder_contents(trim_trailing_separators(path), sep, track_path);
}

/// A folder given with or without trailing separators is the same folder:
/// adding a separator at the end does not change what is removed.
pub proof fn lemma_trailing_separator_irrelevant(path: Seq<char>, c: char)
    requires
        is_path_separator(c),
    ensures
        trim_trailing_separators(path.push(c)) == trim_trailing_separators(path),
        trim_trailing_separators(trim_trailing_separators(path)) == trim_trailing_separators(path),
    decreases path.len(),
{
    assert(path.push(c).drop_last() =~= path);
    if path.len() > 0 && is_path_separator(path.last()) {
        lemma_trailing_separator_irrelevant(path.drop_last(), path.last());
        assert(path.drop_last().push(path.last()) =~= path);
    }
}

/// `/` and `\`, the characters trimmed from the end of a folder path.
pub open spec fn is_path_separator(c: char) -> bool {
    c == '/' || c == '\\'
}

/// `s` without its trailing `/` and `\` characters.
pub open spec fn trim_trailing_separators(s: Seq<char>) -> Seq<char>
    decreases s.len(),
{
    if s.len() > 0 && is_path_separator(s.last()) {
        trim_trailing_separators(s.drop_last())
    } else {
        s
    }
}

/// How one character is written in a LIKE pattern whose escape is `^`:
/// the wildcards `%` and `_` and the escape `^` itself are escaped,
/// everything else stands as is.
pub open spec fn escape_char(c: char) -> Seq<char> {
    if c == '%' || c == '_' || c == '^' {
        seq!['^', c]
    } else {
        seq![c]
    }
}

/// `s` with every `%`, `_` and `^` preceded by `^`.
pub open spec fn escaped_like(s: Seq<char>) -> Seq<char>
    decreases s.len(),
{
    if s.len() == 0 {
        Seq::empty()
    } else {
        escape_char(s[0]) + escaped_like(s.drop_first())
    }
}

/// The pattern that selects the files under `folder`: the escaped folder
/// followed by `sep`, then `%`.
pub open spec fn folder_pattern(folder: Seq<char>, sep: char) -> Seq<char> {
    escaped_like(folder.push(sep)).push('%')
}

pub proof fn lemma_escaped_like_append(a: Seq<char>, b: Seq<char>)
    ensures
        escaped_like(a + b) == escaped_like(a) + escaped_like(b),
    decreases a.len(),
{
    if a.len() == 0 {
        assert(a + b =~= b);
    } else {
        assert((a + b).drop_first() =~= a.drop_first() + b);
        lemma_escaped_like_append(a.drop_first(), b);
        assert(escaped_like(a + b) =~= escaped_like(a) + escaped_like(b));
    }
}

/// Removes the trailing `/` and `\` characters of a folder path, as
/// `str::trim_end_matches(&['/', '\\'])` does.
pub fn normalize_folder_path(path: &str) -> (r: String)
    ensures
        r@ == trim_trailing_separators(path@),
{
    let cs = chars_of(path);
    let mut k: usize = cs.len();
    assert(cs@.take(k as int) =~= cs@);
    while k > 0 && (cs[k - 1] == '/' || cs[k - 1] == '\\')
        invariant
            k <= cs.len(),
            cs@ == path@,
            trim_trailing_separators(cs@.take(k as int)) == trim_trailing_separators(path@),
        decreases k,
    {
        assert(cs@.take(k as int).drop_last() =~= cs@.take(k - 1));
        k = k - 1;
    }
    assert(trim_trailing_separators(cs@.take(k as int)) == cs@.take(k as int));
    let mut r = String::new();
    let mut i: usize = 0;
    while i < k
        invariant
            i <= k <= cs.len(),
            r@ == cs@.take(i as int),
        decreases k - i,
    {
        push_char(&mut r, cs[i]);
        assert(r@ =~= cs@.take(i + 1));
        i = i + 1;
    }
    assert(r@ == trim_trailing_separators(path@));
    r
}

/// Appends to `out` the characters `cs`, each `%`, `_` and `^` preceded by
/// `^`.
fn push_escaped(out: &mut String, cs: &Vec<char>)
    ensures
        final(out)@ == old(out)@ + escaped_like(cs@),
{
    let ghost start = out@;
    let mut i: usize = 0;
    while i < cs.len()
        invariant
            i <= cs.len(),
            out@ == start + escaped_like(cs@.take(i as int)),
        decreases cs.len() - i,
    {
        let c = cs[i];
        if c == '%' || c == '_' || c == '^' {
            push_char(out, '^');
        }
        push_char(out, c);
        proof {
            lemma_escaped_like_append(cs@.take(i as int), seq![c]);
            assert(cs@.take(i + 1) =~= cs@.take(i as int) + seq![c]);
            assert(escaped_like(seq![c]) =~= escape_char(c)) by {
                assert(seq![c].drop_first() =~= Seq::<char>::empty());
                assert(escaped_like(Seq::<char>::empty()) == Seq::<char>::empty());
                assert(escaped_like(seq![c]) == escape_char(seq![c][0]) + escaped_like(
                    seq![c].drop_first(),
                ));
            }
        }
        i = i + 1;
    }
    assert(cs@.take(i as int) =~= cs@);
}

/// Escapes `%`, `_` and `^` in `s` with `^`, as the LIKE clauses of the library
/// expect (`ESCAPE '^'`).
pub fn escape_like(s: &str) -> (r: String)
    ensures
        r@ == escaped_like(s@),
{
    let cs = chars_of(s);
    let mut r = String::new();
    push_escaped(&mut r, &cs);
    r
}

/// The LIKE pattern for the files under `folder`, whose path separator is
/// `sep`: `escape(folder + sep) + "%"`.
pub fn folder_like_pattern(folder: &str, sep: char) -> (r: String)
    ensures
        r@ == folder_pattern(folder@, sep),
{
    let mut cs = chars_of(folder);
    cs.push(sep);
    let mut r = String::new();
    push_escaped(&mut r, &cs);
    push_char(&mut r, '%');
    r
}

/// The two values bound to `file_path = ? OR file_path LIKE ? ESCAPE '^'`,
/// the query that narrows the tracks down to those of a folder.
pub struct FolderFilter {
    /// Compared with `=`: a track whose path is the folder itself; also the
    /// folder that `tracks_in_folder` selects for.
    pub exact: String,
    /// Compared with `LIKE`: tracks under the folder, and those whose path
    /// differs from such a path only in the case of ASCII letters.
    pub like_pattern: String,
}

/// The filter that removing the library folder `path` uses: the path
/// without trailing separators, and the pattern built from it.
pub fn removal_filter(path: &str, sep: char) -> (f: FolderFilter)
    ensures
        f.exact@ == trim_trailing_separators(path@),
        f.like_pattern@ == folder_pattern(trim_trailing_separators(path@), sep),
{
    let exact = normalize_folder_path(path);
    let like_pattern = folder_like_pattern(exact.as_str(), sep);
    FolderFilter { exact, like_pattern }
}

/// The filter that a scan of `folder` uses to find the tracks it knew
/// there: the folder as given, and the pattern built from it.
pub fn scan_filter(folder: &str, sep: char) -> (f: FolderFilter)
    ensures
        f.exact@ == folder@,
        f.like_pattern@ == folder_pattern(folder@, sep),
{
    let exact = String::from_str(folder);
    let like_pattern = folder_like_pattern(folder, sep);
    FolderFilter { exact, like_pattern }
}

/// Whether the track at `path` belongs to `folder`, whose separator is
/// `sep`: it is the folder itself, or it begins with the folder followed by
/// the separator, compared character for character.
pub open spec fn in_folder(path: Seq<char>, folder: Seq<char>, sep: char) -> bool {
    path == folder || folder.push(sep).is_prefix_of(path)
}

/// The folder's query loses none of its tracks: every track that belongs to
/// `folder` is equal to it or matched by its LIKE pattern.
pub proof fn lemma_folder_query_keeps_folder_tracks(folder: Seq<char>, sep: char, path: Seq<char>)
    requires
        in_folder(path, folder, sep),
    ensures
        path == folder || like_matches(like_tokens(folder_pattern(folder, sep)), path),
{
    lemma_folder_pattern_selects_folder_contents(folder, sep, path);
    let f = folder.push(sep);
    if path != folder {
        assert forall|i: int| 0 <= i < f.len() implies fold_ascii(#[trigger] path[i] as u32)
            == fold_ascii(f[i] as u32) by {
            assert(path.subrange(0, f.len() as int)[i] == path[i]);
        }
    }
}

/// Folder membership depends on the folder prefix alone: a path belongs to
/// `folder` exactly when it is the folder, or its first characters are the
/// folder's and the next one is the separator; whatever follows, of any
/// characters, belongs.
pub proof fn lemma_folder_membership(path: Seq<char>, folder: Seq<char>, sep: char, rest: Seq<char>)
    ensures
        in_folder(path, folder, sep) <==> (path == folder || (path.len() > folder.len() && (forall|
            i: int,
        |
            0 <= i < folder.len() ==> #[trigger] path[i] == folder[i]) && path[folder.len() as int]
            == sep)),
        in_folder(folder, folder, sep),
        in_folder(folder + seq![sep] + rest, folder, sep),
{
    let f = folder.push(sep);
    if path.len() > folder.len() && (forall|i: int| 0 <= i < folder.len() ==> #[trigger] path[i]
        == folder[i]) && path[folder.len() as int] == sep {
        assert(path.subrange(0, f.len() as int) =~= f);
    }
    if f.is_prefix_of(path) {
        assert forall|i: int| 0 <= i < folder.len() implies #[trigger] path[i] == folder[i] by {
            assert(path.subrange(0, f.len() as int)[i] == f[i]);
        }
        assert(path.subrange(0, f.len() as int)[folder.len() as int] == f[folder.len() as int]);
    }
    let q = folder + seq![sep] + rest;
    assert(q.subrange(0, f.len() as int) =~= f);
}

/// The folder's tracks are picked row by row: a single row is picked
/// exactly when its track belongs to the folder, and the ids picked from
/// two runs of rows are those of the first run followed by those of the
/// second.
pub proof fn lemma_folder_tracks_row_by_row(
    r: TrackPath,
    a: Seq<TrackPath>,
    b: Seq<TrackPath>,
    folder: Seq<char>,
    sep: char,
)
    ensures
        folder_track_ids(seq![r], folder, sep) == (if in_folder(r.file_path@, folder, sep) {
            seq![r.id@]
        } else {
            Seq::<Seq<char>>::empty()
        }),
        folder_track_ids(a + b, folder, sep) == folder_track_ids(a, folder, sep) + folder_track_ids(
            b,
            folder,
            sep,
        ),
    decreases b.len(),
{
    assert(seq![r].drop_last() =~= Seq::<TrackPath>::empty());
    assert(folder_track_ids(Seq::<TrackPath>::empty(), folder, sep) == Seq::<Seq<char>>::empty());
    if b.len() == 0 {
        assert(a + b =~= a);
        assert(folder_track_ids(a, folder, sep) + folder_track_ids(b, folder, sep) =~= folder_track_ids(
            a,
            folder,
            sep,
        ));
    } else {
        lemma_folder_tracks_row_by_row(r, a, b.drop_last(), folder, sep);
        assert((a + b).drop_last() =~= a + b.drop_last());
        assert((a + b).last() == b.last());
        if in_folder(b.last().file_path@, folder, sep) {
            assert(folder_track_ids(a, folder, sep) + folder_track_ids(b, folder, sep) =~= (
            folder_track_ids(a, folder, sep) + folder_track_ids(b.drop_last(), folder, sep)).push(
                b.last().id@,
            ));
        }
    }
}

/// Whether `p` begins with the first `n` characters of `f`.
fn agrees_up_to(p: &Vec<char>, f: &Vec<char>, n: usize) -> (b: bool)
    requires
        n <= p.len(),
        n <= f.len(),
    ensures
        b == (p@.take(n as int) == f@.take(n as int)),
{
    let mut i: usize = 0;
    while i < n
        invariant
            i <= n <= p.len(),
            n <= f.len(),
            p@.take(i as int) == f@.take(i as int),
        decreases n - i,
    {
        if p[i] != f[i] {
            assert(p@.take(n as int)[i as int] != f@.take(n as int)[i as int]);
            return false;
        }
        assert(p@.take(i + 1) =~= p@.take(i as int).push(p[i as int]));
        assert(f@.take(i + 1) =~= f@.take(i as int).push(f[i as int]));
        i = i + 1;
    }
    true
}

/// Whether the track at `path` belongs to `folder`, whose separator is
/// `sep`.
pub fn is_in_folder(path: &str, folder: &str, sep: char) -> (b: bool)
    ensures
        b == in_folder(path@, folder@, sep),
{
    let p = chars_of(path);
    let f = chars_of(folder);
    let n = f.len();
    if p.len() == n {
        let same = agrees_up_to(&p, &f, n);
        assert(p@.take(n as int) =~= p@);
        assert(f@.take(n as int) =~= f@);
        proof {
            if !same {
                assert(!folder@.push(sep).is_prefix_of(path@));
            }
        }
        same
    } else if p.len() > n {
        let ghost fs = folder@.push(sep);
        if p[n] != sep {
            assert(path@[n as int] != fs[n as int]);
            assert(path@ != folder@);
            assert(!fs.is_prefix_of(path@)) by {
                if fs.is_prefix_of(path@) {
                    assert(path@.subrange(0, fs.len() as int)[n as int] == path@[n as int]);
                }
            }
            return false;
        }
        let agrees = agrees_up_to(&p, &f, n);
        assert(f@.take(n as int) =~= f@);
        proof {
            if agrees {
                assert(path@.subrange(0, fs.len() as int) =~= fs);
            } else {
                if fs.is_prefix_of(path@) {
                    assert(path@.take(n as int) =~= fs.take(n as int));
                    assert(fs.take(n as int) =~= folder@);
                }
            }
        }
        agrees
    } else {
        assert(path@.len() != folder@.len());
        false
    }
}

/// A track the folder query returned: its id and its path.
pub struct TrackPath {
    pub id: String,
    pub file_path: String,
}

/// The ids, in order, of the tracks among `rows` that belong to `folder`.
pub open spec fn folder_track_ids(rows: Seq<TrackPath>, folder: Seq<char>, sep: char) -> Seq<
    Seq<char>,
>
    decreases rows.len(),
{
    if rows.len() == 0 {
        Seq::empty()
    } else {
        let before = folder_track_ids(rows.drop_last(), folder, sep);
        if in_folder(rows.last().file_path@, folder, sep) {
            before.push(rows.last().id@)
        } else {
            before
        }
    }
}

/// The ids of the tracks among `rows` that belong to `folder`, whose
/// separator is `sep`, in the order of `rows`.
pub fn tracks_in_folder(rows: &[TrackPath], folder: &str, sep: char) -> (ids: Vec<String>)
    ensures
        ids.deep_view() == folder_track_ids(rows@, folder@, sep),
{
    let mut ids: Vec<String> = Vec::new();
    let mut i: usize = 0;
    while i < rows.len()
        invariant
            i <= rows.len(),
            ids.deep_view() == folder_track_ids(rows@.take(i as int), folder@, sep),
        decreases rows.len() - i,
    {
        assert(rows@.take(i + 1).drop_last() =~= rows@.take(i as int));
        if is_in_folder(rows[i].file_path.as_str(), folder, sep) {
            let ghost before = ids.deep_view();
            let id = rows[i].id.clone();
            ids.push(id);
            assert(ids.deep_view() =~= before.push(rows@[i as int].id@));
        }
        i = i + 1;
    }
    assert(rows@.take(i as int) =~= rows@);
    ids
}

} // verus!
