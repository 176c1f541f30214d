//! File paths compared as the platform's `Path` compares them: by their
//! components. A path is brought to a canonical spelling in which repeated
//! separators, `.` components and a trailing separator are gone and every
//! separator is `/`; spellings of one path share it.

use vstd::prelude::*;
use crate::text::{chars_of, push_char};

verus! {

/// Whether `c` separates path components: `/` always, and `\` where the
/// platform counts it as a separator (`backslash`).
pub open spec fn separates(c: char, backslash: bool) -> bool {
    c == '/' || (backslash && c == '\\')
}

/// Whether the path component `component` is kept in the canonical
/// spelling: empty components (from repeated separators) are dropped, and
/// so is `.` unless it is the first component of a relative path.
pub open spec fn keeps_component(component: Seq<char>, first: bool) -> bool {
    component.len() > 0 && (component != seq!['.'] || first)
}

/// Reading a path from the left: the canonical spelling of the components
/// read so far, the component being read, and whether it is the first.
pub open spec fn read_char(state: (Seq<char>, Seq<char>, bool), c: char, backslash: bool) -> (
    Seq<char>,
    Seq<char>,
    bool,
) {
    let (spelled, current, first) = state;
    if separates(c, backslash) {
        let spelled = if first && current.len() == 0 {
            seq!['/']
        } else if keeps_component(current, first) {
            spelled + current + seq!['/']
        } else {
            spelled
        };
        (spelled, Seq::empty(), false)
    } else {
        (spelled, current.push(c), first)
    }
}

/// The reading state after the characters `s`, starting from `state`.
pub open spec fn read_path(state: (Seq<char>, Seq<char>, bool), s: Seq<char>, backslash: bool) -> (
    Seq<char>,
    Seq<char>,
    bool,
)
    decreases s.len(),
{
    if s.len() == 0 {
        state
    } else {
        read_char(read_path(state, s.drop_last(), backslash), s.last(), backslash)
    }
}

/// The state before any character is read.
pub open spec fn start_reading() -> (Seq<char>, Seq<char>, bool) {
    (Seq::empty(), Seq::empty(), true)
}

/// The canonical spelling of `path`: `/` for the root, then each kept
/// component followed by `/`.
pub open spec fn canonical_path(path: Seq<char>, backslash: bool) -> Seq<char> {
    let (spelled, current, first) = read_path(start_reading(), path, backslash);
    if keeps_component(current, first) {
        spelled + current + seq!['/']
    } else {
        spelled
    }
}

/// `s` with every `\` written as `/`.
pub open spec fn with_slashes(s: Seq<char>) -> Seq<char> {
    s.map_values(|c: char| if c == '\\' { '/' } else { c })
}

proof fn lemma_read_path_append(
    state: (Seq<char>, Seq<char>, bool),
    a: Seq<char>,
    b: Seq<char>,
    backslash: bool,
)
    ensures
        read_path(state, a + b, backslash) == read_path(read_path(state, a, backslash), b, backslash),
    decreases b.len(),
{
    if b.len() == 0 {
        assert(a + b =~= a);
    } else {
        assert((a + b).drop_last() =~= a + b.drop_last());
        assert((a + b).last() == b.last());
        lemma_read_path_append(state, a, b.drop_last(), backslash);
    }
}

/// Reading a separator, or `.` and a separator, right after a separator
/// changes nothing.
proof fn lemma_after_separator(a: Seq<char>, c: char, backslash: bool)
    requires
        a.len() > 0,
        separates(a.last(), backslash),
        separates(c, backslash),
    ensures
        read_path(start_reading(), a.push(c), backslash) == read_path(start_reading(), a, backslash),
        read_path(start_reading(), a + seq!['.', c], backslash) == read_path(
            start_reading(),
            a,
            backslash,
        ),
{
    let st = read_path(start_reading(), a, backslash);
    assert(st.1 == Seq::<char>::empty() && !st.2);
    assert(a.push(c).drop_last() =~= a);
    assert(read_char(st, c, backslash) =~= st);
    lemma_read_path_append(start_reading(), a, seq!['.', c], backslash);
    let dot = seq!['.', c];
    assert(dot.drop_last() =~= seq!['.']);
    assert(seq!['.'].drop_last() =~= Seq::<char>::empty());
    assert(read_path(st, Seq::<char>::empty(), backslash) == st);
    assert(seq!['.'].last() == '.');
    assert(read_path(st, seq!['.'], backslash) == read_char(st, '.', backslash));
    assert(read_path(st, dot, backslash) == read_char(read_char(st, '.', backslash), c, backslash));
    assert(read_char(read_char(st, '.', backslash), c, backslash) =~= st);
}

/// Once a character is read, the state is never the start of a path.
proof fn lemma_read_something(s: Seq<char>, backslash: bool)
    requires
        s.len() > 0,
    ensures
        !(read_path(start_reading(), s, backslash).2 && read_path(
            start_reading(),
            s,
            backslash,
        ).1.len() == 0),
{
}

proof fn lemma_read_with_slashes(s: Seq<char>)
    ensures
        read_path(start_reading(), with_slashes(s), true) == read_path(start_reading(), s, true),
    decreases s.len(),
{
    if s.len() > 0 {
        lemma_read_with_slashes(s.drop_last());
        assert(with_slashes(s).drop_last() =~= with_slashes(s.drop_last()));
        let st = read_path(start_reading(), s.drop_last(), true);
        assert(read_char(st, with_slashes(s).last(), true) == read_char(st, s.last(), true));
    }
}

/// Spellings of one path have the same canonical spelling: a repeated
/// separator or a `.` component after a separator, a trailing separator,
/// and, where `\` separates, `\` in place of `/` change nothing.
pub proof fn lemma_spellings_of_one_path(a: Seq<char>, b: Seq<char>, c: char, backslash: bool)
    requires
        separates(c, backslash),
    ensures
        a.len() > 0 && separates(a.last(), backslash) ==> canonical_path(a.push(c) + b, backslash)
            == canonical_path(a + b, backslash),
        a.len() > 0 && separates(a.last(), backslash) ==> canonical_path(
            a + seq!['.', c] + b,
            backslash,
        ) == canonical_path(a + b, backslash),
        a.len() > 0 ==> canonical_path(a.push(c), backslash) == canonical_path(a, backslash),
        backslash ==> canonical_path(with_slashes(a), backslash) == canonical_path(a, backslash),
{
    if a.len() > 0 {
        if separates(a.last(), backslash) {
            lemma_after_separator(a, c, backslash);
            lemma_read_path_append(start_reading(), a.push(c), b, backslash);
            lemma_read_path_append(start_reading(), a + seq!['.', c], b, backslash);
            lemma_read_path_append(start_reading(), a, b, backslash);
        }
        lemma_read_something(a, backslash);
        let st = read_path(start_reading(), a, backslash);
        assert(a.push(c).drop_last() =~= a);
        assert(read_path(start_reading(), a.push(c), backslash) == read_char(st, c, backslash));
        if !keeps_component(st.1, st.2) {
            assert(st.1 == Seq::<char>::empty() || st.1 =~= seq!['.']);
        }
        assert(canonical_path(a.push(c), backslash) =~= canonical_path(a, backslash));
    }
    if backslash {
        lemma_read_with_slashes(a);
    }
}

/// The spelling of the components `comps`, each followed by `/`.
pub open spec fn spelled_components(comps: Seq<Seq<char>>) -> Seq<char>
    decreases comps.len(),
{
    if comps.len() == 0 {
        Seq::empty()
    } else {
        spelled_components(comps.drop_last()) + comps.last() + seq!['/']
    }
}

/// Whether `c` is a component that a path keeps as it is: not empty, not
/// `.`, and free of separators.
pub open spec fn plain_component(c: Seq<char>, backslash: bool) -> bool {
    &&& c.len() > 0
    &&& c != seq!['.']
    &&& forall|j: int| 0 <= j < c.len() ==> !separates(#[trigger] c[j], backslash)
}

proof fn lemma_read_plain(state: (Seq<char>, Seq<char>, bool), x: Seq<char>, backslash: bool)
    requires
        forall|j: int| 0 <= j < x.len() ==> !separates(#[trigger] x[j], backslash),
    ensures
        read_path(state, x, backslash) == (state.0, state.1 + x, state.2),
    decreases x.len(),
{
    if x.len() == 0 {
        assert(state.1 + x =~= state.1);
    } else {
        let init = x.drop_last();
        assert forall|j: int| 0 <= j < init.len() implies !separates(#[trigger] init[j], backslash) by {
            assert(init[j] == x[j]);
        }
        lemma_read_plain(state, init, backslash);
        assert(!separates(x[x.len() - 1], backslash));
        assert((state.1 + init).push(x.last()) =~= state.1 + x);
    }
}

proof fn lemma_read_spelled(comps: Seq<Seq<char>>, prefix: Seq<char>, backslash: bool)
    requires
        forall|i: int| 0 <= i < comps.len() ==> plain_component(#[trigger] comps[i], backslash),
        prefix == seq!['/'] || (prefix.len() == 0 && comps.len() > 0),
    ensures
        read_path(start_reading(), prefix + spelled_components(comps), backslash) == (
            prefix + spelled_components(comps),
            Seq::<char>::empty(),
            false,
        ),
    decreases comps.len(),
{
    let full = prefix + spelled_components(comps);
    if comps.len() == 0 {
        assert(full =~= seq!['/']);
        assert(full.drop_last() =~= Seq::<char>::empty());
        assert(read_path(start_reading(), Seq::<char>::empty(), backslash) == start_reading());
        assert(full.last() == '/');
        assert(read_char(start_reading(), '/', backslash) == (
            seq!['/'],
            Seq::<char>::empty(),
            false,
        ));
    } else {
        let init = comps.drop_last();
        let last = comps.last();
        assert(plain_component(comps[comps.len() - 1], backslash));
        let p = prefix + spelled_components(init);
        assert(full =~= p + (last + seq!['/']));
        lemma_read_path_append(start_reading(), p, last + seq!['/'], backslash);
        let st = read_path(start_reading(), p, backslash);
        if init.len() > 0 || prefix.len() > 0 {
            assert forall|i: int| 0 <= i < init.len() implies plain_component(
                #[trigger] init[i],
                backslash,
            ) by {
                assert(init[i] == comps[i]);
            }
            lemma_read_spelled(init, prefix, backslash);
            assert(st == (p, Seq::<char>::empty(), false));
        } else {
            assert(p =~= Seq::<char>::empty());
            assert(st == start_reading());
        }
        assert((last + seq!['/']).drop_last() =~= last);
        lemma_read_plain(st, last, backslash);
        assert(st.1 + last =~= last);
        let st2 = read_path(st, last, backslash);
        assert(read_path(st, last + seq!['/'], backslash) == read_char(st2, '/', backslash));
        assert(keeps_component(last, st.2));
        assert(read_char(st2, '/', backslash) =~= (p + last + seq!['/'], Seq::<char>::empty(), false));
        assert(p + last + seq!['/'] =~= full);
    }
}

/// The canonical spelling keeps every component in full: a path written as
/// the root followed by plain components, each ended by `/`, is its own
/// canonical spelling, and so is it without its last `/`; the same holds
/// for a relative path of at least one component.
pub proof fn lemma_canonical_keeps_components(comps: Seq<Seq<char>>, backslash: bool)
    requires
        forall|i: int| 0 <= i < comps.len() ==> plain_component(#[trigger] comps[i], backslash),
    ensures
        canonical_path(seq!['/'] + spelled_components(comps), backslash) == seq!['/']
            + spelled_components(comps),
        comps.len() > 0 ==> canonical_path(
            seq!['/'] + spelled_components(comps).drop_last(),
            backslash,
        ) == seq!['/'] + spelled_components(comps),
        comps.len() > 0 ==> canonical_path(spelled_components(comps), backslash)
            == spelled_components(comps),
{
    lemma_read_spelled(comps, seq!['/'], backslash);
    if comps.len() > 0 {
        assert(Seq::<char>::empty() + spelled_components(comps) =~= spelled_components(comps));
        lemma_read_spelled(comps, Seq::<char>::empty(), backslash);
        let init = comps.drop_last();
        let last = comps.last();
        assert(plain_component(comps[comps.len() - 1], backslash));
        let p = seq!['/'] + spelled_components(init);
        assert(seq!['/'] + spelled_components(comps).drop_last() =~= p + last);
        assert forall|i: int| 0 <= i < init.len() implies plain_component(
            #[trigger] init[i],
            backslash,
        ) by {
            assert(init[i] == comps[i]);
        }
        lemma_read_spelled(init, seq!['/'], backslash);
        lemma_read_path_append(start_reading(), p, last, backslash);
        lemma_read_plain((p, Seq::<char>::empty(), false), last, backslash);
        assert(Seq::<char>::empty() + last =~= last);
        assert(p + last + seq!['/'] =~= seq!['/'] + spelled_components(comps));
    }
}

proof fn lemma_spelled_shape(comps: Seq<Seq<char>>, backslash: bool)
    requires
        forall|i: int| 0 <= i < comps.len() ==> plain_component(#[trigger] comps[i], backslash),
    ensures
        comps.len() > 0 ==> spelled_components(comps).len() >= 2 && spelled_components(comps).last()
            == '/',
        comps.len() == 0 ==> spelled_components(comps).len() == 0,
{
    if comps.len() > 0 {
        assert(plain_component(comps[comps.len() - 1], backslash));
    }
}

/// Different components give different spellings: the canonical spellings
/// of two rooted paths of plain components are equal only when their
/// components are.
pub proof fn lemma_distinct_components_distinct_spellings(
    c1: Seq<Seq<char>>,
    c2: Seq<Seq<char>>,
    backslash: bool,
)
    requires
        forall|i: int| 0 <= i < c1.len() ==> plain_component(#[trigger] c1[i], backslash),
        forall|i: int| 0 <= i < c2.len() ==> plain_component(#[trigger] c2[i], backslash),
    ensures
        canonical_path(seq!['/'] + spelled_components(c1), backslash) == canonical_path(
            seq!['/'] + spelled_components(c2),
            backslash,
        ) ==> c1 == c2,
{
    lemma_canonical_keeps_components(c1, backslash);
    lemma_canonical_keeps_components(c2, backslash);
    if seq!['/'] + spelled_components(c1) == seq!['/'] + spelled_components(c2) {
        assert(spelled_components(c1) =~= (seq!['/'] + spelled_components(c1)).drop_first());
        assert(spelled_components(c2) =~= (seq!['/'] + spelled_components(c2)).drop_first());
        lemma_spelled_injective(c1, c2, backslash);
    }
}

proof fn lemma_spelled_injective(c1: Seq<Seq<char>>, c2: Seq<Seq<char>>, backslash: bool)
    requires
        forall|i: int| 0 <= i < c1.len() ==> plain_component(#[trigger] c1[i], backslash),
        forall|i: int| 0 <= i < c2.len() ==> plain_component(#[trigger] c2[i], backslash),
        spelled_components(c1) == spelled_components(c2),
    ensures
        c1 == c2,
    decreases c1.len() + c2.len(),
{
    lemma_spelled_shape(c1, backslash);
    lemma_spelled_shape(c2, backslash);
    if c1.len() == 0 || c2.len() == 0 {
        assert(c1.len() == 0 && c2.len() == 0);
        assert(c1 =~= c2);
    } else {
        let i1 = c1.drop_last();
        let i2 = c2.drop_last();
        let l1 = c1.last();
        let l2 = c2.last();
        assert(plain_component(c1[c1.len() - 1], backslash));
        assert(plain_component(c2[c2.len() - 1], backslash));
        assert forall|i: int| 0 <= i < i1.len() implies plain_component(#[trigger] i1[i], backslash) by {
            assert(i1[i] == c1[i]);
        }
        assert forall|i: int| 0 <= i < i2.len() implies plain_component(#[trigger] i2[i], backslash) by {
            assert(i2[i] == c2[i]);
        }
        lemma_spelled_shape(i1, backslash);
        lemma_spelled_shape(i2, backslash);
        let a1 = spelled_components(i1);
        let a2 = spelled_components(i2);
        let x = a1 + l1;
        assert(x =~= spelled_components(c1).drop_last());
        assert(a2 + l2 =~= spelled_components(c2).drop_last());
        assert(x == a2 + l2);
        if l1.len() < l2.len() {
            if a1.len() > 0 {
                let k = a1.len() - 1;
                assert(x[k] == '/');
                assert(k >= a2.len());
                assert(x[k] == l2[k - a2.len()]);
                assert(!separates(l2[k - a2.len()], backslash));
            } else {
                assert(x.len() == l1.len());
            }
        } else if l2.len() < l1.len() {
            if a2.len() > 0 {
                let k = a2.len() - 1;
                assert((a2 + l2)[k] == '/');
                assert(k >= a1.len());
                assert(x[k] == l1[k - a1.len()]);
                assert(!separates(l1[k - a1.len()], backslash));
            } else {
                assert((a2 + l2).len() == l2.len());
            }
        }
        assert(l1.len() == l2.len());
        assert(a1 =~= x.subrange(0, a1.len() as int));
        assert(a2 =~= (a2 + l2).subrange(0, a2.len() as int));
        assert(a1 == a2);
        assert(l1 =~= x.subrange(a1.len() as int, x.len() as int));
        assert(l2 =~= (a2 + l2).subrange(a2.len() as int, x.len() as int));
        lemma_spelled_injective(i1, i2, backslash);
        assert(c1 =~= i1.push(l1));
        assert(c2 =~= i2.push(l2));
    }
}

/// `std::path::is_separator`: whether `c` separates path components on
/// this platform. Its documentation promises that `/` does; of other
/// characters the result depends on the platform and is not stated.
#[verifier::external_body]
pub(crate) fn is_separator(c: char) -> (b: bool)
    ensures
        c == '/' ==> b,
{
    std::path::is_separator(c)
}

/// Appends the characters `cs` to `out`.
fn push_all(out: &mut String, cs: &Vec<char>)
    ensures
        final(out)@ == old(out)@ + cs@,
{
    let ghost start = out@;
    let mut i: usize = 0;
    while i < cs.len()
        invariant
            i <= cs.len(),
            out@ == start + cs@.take(i as int),
        decreases cs.len() - i,
    {
        push_char(out, cs[i]);
        assert(cs@.take(i + 1) =~= cs@.take(i as int).push(cs@[i as int]));
        i = i + 1;
    }
    assert(cs@.take(i as int) =~= cs@);
}

/// Whether the component `current` is kept in the canonical spelling.
fn keeps(current: &Vec<char>, first: bool) -> (b: bool)
    ensures
        b == keeps_component(current@, first),
{
    let is_dot = current.len() == 1 && current[0] == '.';
    assert(is_dot == (current@ =~= seq!['.']));
    current.len() > 0 && (!is_dot || first)
}

/// The canonical spelling of `path`, where `\` separates components when
/// `backslash` holds.
pub fn canonical_spelling(path: &str, backslash: bool) -> (r: String)
    ensures
        r@ == canonical_path(path@, backslash),
{
    let cs = chars_of(path);
    let mut spelled = String::new();
    let mut current: Vec<char> = Vec::new();
    let mut first = true;
    let mut i: usize = 0;
    while i < cs.len()
        invariant
            i <= cs.len(),
            cs@ == path@,
            (spelled@, current@, first) == read_path(
                start_reading(),
                cs@.take(i as int),
                backslash,
            ),
        decreases cs.len() - i,
    {
        let ghost before = (spelled@, current@, first);
        let c = cs[i];
        if c == '/' || (backslash && c == '\\') {
            if first && current.len() == 0 {
                spelled = String::new();
                push_char(&mut spelled, '/');
                assert(spelled@ =~= seq!['/']);
            } else if keeps(&current, first) {
                push_all(&mut spelled, &current);
                push_char(&mut spelled, '/');
            }
            current = Vec::new();
            first = false;
        } else {
            current.push(c);
        }
        assert(cs@.take(i + 1).drop_last() =~= cs@.take(i as int));
        assert((spelled@, current@, first) =~= read_char(before, c, backslash));
        i = i + 1;
    }
    assert(cs@.take(i as int) =~= path@);
    if keeps(&current, first) {
        push_all(&mut spelled, &current);
        push_char(&mut spelled, '/');
    }
    spelled
}

} // verus!
