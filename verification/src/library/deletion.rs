//! Deleting tracks: the set of ids to remove (the requested tracks and their
//! CUE children) and the parameterised SQL statements that remove them.

use vstd::prelude::*;
use crate::text::{decimal, push_char, push_decimal};

verus! {

/// The positional parameter `?i`.
pub open spec fn placeholder(i: nat) -> Seq<char> {
    seq!['?'] + decimal(i)
}

/// `?1,?2,…,?n` (empty for `n == 0`).
pub open spec fn placeholder_list(n: nat) -> Seq<char>
    decreases n,
{
    if n == 0 {
        Seq::empty()
    } else if n == 1 {
        placeholder(1)
    } else {
        placeholder_list((n - 1) as nat) + seq![','] + placeholder(n)
    }
}

/// Builds the parameter list `?1,?2,…,?n` of an `IN (…)` clause.
pub fn sql_placeholders(n: usize) -> (s: String)
    ensures
        s@ == placeholder_list(n as nat),
{
    let mut s = String::new();
    let mut i: usize = 0;
    while i < n
        invariant
            i <= n,
            s@ == placeholder_list(i as nat),
        decreases n - i,
    {
        let ghost before = s@;
        if i > 0 {
            push_char(&mut s, ',');
        }
        push_char(&mut s, '?');
        push_decimal(&mut s, (i + 1) as u64);
        proof {
            if i == 0 {
                assert(s@ =~= placeholder(1));
            } else {
                assert(s@ =~= before + seq![','] + placeholder((i + 1) as nat));
            }
        }
        i = i + 1;
    }
    s
}

/// `prefix` followed by `?1,…,?n` and a closing bracket.
pub open spec fn in_clause(prefix: Seq<char>, n: nat) -> Seq<char> {
    prefix + placeholder_list(n) + seq![')']
}

/// Builds `prefix?1,…,?n)`.
fn in_clause_statement(prefix: &str, n: usize) -> (s: String)
    ensures
        s@ == in_clause(prefix@, n as nat),
{
    let mut s = String::from_str(prefix);
    let params = sql_placeholders(n);
    s.append(params.as_str());
    push_char(&mut s, ')');
    s
}

/// The query that finds the CUE children of `n` parent tracks, whose ids are
/// bound to its parameters in order.
pub fn cue_children_query(n: usize) -> (q: String)
    ensures
        q@ == in_clause("SELECT id FROM tracks WHERE cue_parent_id IN ("@, n as nat),
{
    in_clause_statement("SELECT id FROM tracks WHERE cue_parent_id IN (", n)
}

/// The statements that delete `n` tracks, in the order they run: play
/// history, favorites, playlist entries, then the tracks themselves.
pub open spec fn deletion_statement_texts(n: nat) -> Seq<Seq<char>> {
    seq![
        in_clause("DELETE FROM play_history WHERE track_id IN ("@, n),
        in_clause("DELETE FROM favorites WHERE track_id IN ("@, n),
        in_clause("DELETE FROM playlist_tracks WHERE track_id IN ("@, n),
        in_clause("DELETE FROM tracks WHERE id IN ("@, n),
    ]
}

/// Builds the four deletion statements for `n` track ids.
pub fn deletion_statements(n: usize) -> (stmts: Vec<String>)
    ensures
        stmts.deep_view() == deletion_statement_texts(n as nat),
{
    let mut stmts: Vec<String> = Vec::new();
    stmts.push(in_clause_statement("DELETE FROM play_history WHERE track_id IN (", n));
    stmts.push(in_clause_statement("DELETE FROM favorites WHERE track_id IN (", n));
    stmts.push(in_clause_statement("DELETE FROM playlist_tracks WHERE track_id IN (", n));
    stmts.push(in_clause_statement("DELETE FROM tracks WHERE id IN (", n));
    assert(stmts.deep_view() =~= deletion_statement_texts(n as nat));
    stmts
}

/// `s` with every run of equal neighbours reduced to its first element
/// (what `Vec::dedup` leaves).
pub open spec fn dedup_adjacent<T>(s: Seq<T>) -> Seq<T>
    decreases s.len(),
{
    if s.len() <= 1 {
        s
    } else {
        let d = dedup_adjacent(s.drop_last());
        if s.last() == s[s.len() - 2] {
            d
        } else {
            d.push(s.last())
        }
    }
}

/// The ids that a deletion of `requested` removes, given the CUE children
/// that were found for them: the requested ids, then the children, with
/// adjacent repeats dropped.
pub open spec fn deletion_ids(requested: Seq<Seq<char>>, cue_children: Seq<Seq<char>>) -> Seq<
    Seq<char>,
> {
    dedup_adjacent(requested + cue_children)
}

/// Dropping adjacent repeats keeps exactly the elements of `s`, keeps its
/// last element last, and leaves no two equal neighbours.
pub proof fn lemma_dedup_adjacent<T>(s: Seq<T>)
    ensures
        forall|x: T| s.contains(x) <==> #[trigger] dedup_adjacent(s).contains(x),
        dedup_adjacent(s).len() <= s.len(),
        s.len() > 0 ==> dedup_adjacent(s).len() > 0 && dedup_adjacent(s).last() == s.last(),
        forall|i: int|
            0 <= i < dedup_adjacent(s).len() - 1 ==> #[trigger] dedup_adjacent(s)[i]
                != dedup_adjacent(s)[i + 1],
    decreases s.len(),
{
    if s.len() > 1 {
        let p = s.drop_last();
        lemma_dedup_adjacent(p);
        let d = dedup_adjacent(p);
        assert forall|x: T| s.contains(x) <==> #[trigger] dedup_adjacent(s).contains(x) by {
            if s.contains(x) {
                let k = choose|k: int| 0 <= k < s.len() && s[k] == x;
                if k < s.len() - 1 {
                    assert(p[k] == x);
                    assert(p.contains(x));
                    assert(d.contains(x));
                    let k2 = choose|k2: int| 0 <= k2 < d.len() && d[k2] == x;
                    assert(d.push(s.last())[k2] == x);
                } else if s.last() == s[s.len() - 2] {
                    assert(p[p.len() - 1] == x);
                    assert(p.contains(x));
                    assert(d.contains(x));
                } else {
                    assert(d.push(s.last())[d.len() as int] == x);
                }
            }
            if dedup_adjacent(s).contains(x) {
                if s.last() == s[s.len() - 2] {
                    assert(d.contains(x));
                    let k = choose|k: int| 0 <= k < p.len() && p[k] == x;
                    assert(s[k] == x);
                } else {
                    let k = choose|k: int|
                        0 <= k < d.push(s.last()).len() && d.push(s.last())[k] == x;
                    if k < d.len() {
                        assert(d.contains(x));
                        let k2 = choose|k2: int| 0 <= k2 < p.len() && p[k2] == x;
                        assert(s[k2] == x);
                    } else {
                        assert(s[s.len() - 1] == x);
                    }
                }
            }
        }
    }
}

/// A deletion removes every requested track and every CUE child found for
/// them, removes nothing else, and binds no id twice in a row.
pub proof fn lemma_deletion_covers_requested(
    requested: Seq<Seq<char>>,
    cue_children: Seq<Seq<char>>,
)
    ensures
        forall|id: Seq<char>|
            (requested.contains(id) || cue_children.contains(id)) <==> #[trigger] deletion_ids(
                requested,
                cue_children,
            ).contains(id),
        deletion_ids(requested, cue_children).len() <= requested.len() + cue_children.len(),
        forall|i: int|
            0 <= i < deletion_ids(requested, cue_children).len() - 1 ==> #[trigger] deletion_ids(
                requested,
                cue_children,
            )[i] != deletion_ids(requested, cue_children)[i + 1],
{
    let all = requested + cue_children;
    lemma_dedup_adjacent(all);
    assert forall|id: Seq<char>|
        (requested.contains(id) || cue_children.contains(id)) <==> all.contains(id) by {
        if requested.contains(id) {
            let k = choose|k: int| 0 <= k < requested.len() && requested[k] == id;
            assert(all[k] == id);
        }
        if cue_children.contains(id) {
            let k = choose|k: int| 0 <= k < cue_children.len() && cue_children[k] == id;
            assert(all[requested.len() + k] == id);
        }
        if all.contains(id) {
            let k = choose|k: int| 0 <= k < all.len() && all[k] == id;
            if k < requested.len() {
                assert(requested[k] == id);
            } else {
                assert(cue_children[k - requested.len()] == id);
            }
        }
    }
}

/// What a deletion removes and the statements that remove it.
pub struct TrackDeletion {
    /// The ids bound, in this order, to every statement.
    pub ids: Vec<String>,
    /// Statements for play history, favorites, playlist entries and tracks.
    pub statements: Vec<String>,
}

/// `a` followed by `b`.
fn concat_strings(a: &[String], b: &[String]) -> (all: Vec<String>)
    ensures
        all.deep_view() == a.deep_view() + b.deep_view(),
{
    let mut all: Vec<String> = Vec::new();
    let mut i: usize = 0;
    while i < a.len()
        invariant
            i <= a.len(),
            all.deep_view() == a.deep_view().take(i as int),
        decreases a.len() - i,
    {
        let ghost before = all.deep_view();
        let item = a[i].clone();
        assert(item@ == a.deep_view()[i as int]);
        all.push(item);
        assert(all.deep_view() =~= before.push(item@));
        assert(all.deep_view() =~= a.deep_view().take(i + 1));
        i = i + 1;
    }
    let mut j: usize = 0;
    while j < b.len()
        invariant
            j <= b.len(),
            a.len() == i,
            all.deep_view() == a.deep_view() + b.deep_view().take(j as int),
        decreases b.len() - j,
    {
        let ghost before = all.deep_view();
        let item = b[j].clone();
        assert(item@ == b.deep_view()[j as int]);
        all.push(item);
        assert(all.deep_view() =~= before.push(item@));
        assert(all.deep_view() =~= a.deep_view() + b.deep_view().take(j + 1));
        j = j + 1;
    }
    assert(a.deep_view().take(i as int) =~= a.deep_view());
    assert(b.deep_view().take(j as int) =~= b.deep_view());
    all
}

/// Plans the deletion of the tracks `requested` together with
/// `cue_children`, the ids of the CUE tracks whose parent is among them.
pub fn plan_track_deletion(requested: &[String], cue_children: &[String]) -> (plan: TrackDeletion)
    ensures
        plan.ids.deep_view() == deletion_ids(requested.deep_view(), cue_children.deep_view()),
        plan.statements.deep_view() == deletion_statement_texts(plan.ids.len() as nat),
{
    let all = concat_strings(requested, cue_children);
    let ids = dedup_strings(&all);
    let statements = deletion_statements(ids.len());
    TrackDeletion { ids, statements }
}

/// Plans the removal, during a scan, of the tracks `missing` whose file is
/// gone, together with the CUE children found for them. The ids are kept
/// as found, repeats included: the scan reports their number as removed.
pub fn plan_orphan_removal(missing: &[String], cue_children: &[String]) -> (plan: TrackDeletion)
    ensures
        plan.ids.deep_view() == missing.deep_view() + cue_children.deep_view(),
        plan.statements.deep_view() == deletion_statement_texts(plan.ids.len() as nat),
{
    let ids = concat_strings(missing, cue_children);
    let statements = deletion_statements(ids.len());
    TrackDeletion { ids, statements }
}

/// `v` with adjacent equal strings reduced to one.
pub fn dedup_strings(v: &Vec<String>) -> (out: Vec<String>)
    ensures
        out.deep_view() == dedup_adjacent(v.deep_view()),
{
    let mut out: Vec<String> = Vec::new();
    let mut i: usize = 0;
    while i < v.len()
        invariant
            i <= v.len(),
            out.deep_view() == dedup_adjacent(v.deep_view().take(i as int)),
        decreases v.len() - i,
    {
        let ghost pre = v.deep_view().take((i + 1) as int);
        assert(pre.drop_last() =~= v.deep_view().take(i as int));
        if i == 0 || v[i] != v[i - 1] {
            out.push(v[i].clone());
        }
        proof {
            if i > 0 {
                assert(pre[pre.len() - 2] == v.deep_view()[i - 1]);
            }
        }
        assert(out.deep_view() =~= dedup_adjacent(pre));
        i = i + 1;
    }
    assert(v.deep_view().take(i as int) =~= v.deep_view());
    out
}

} // verus!
