//! Decimal rendering of numbers and a few string builders shared by the
//! library's modules.

use vstd::prelude::*;

verus! {

/// The ASCII digit for `d`, where `d` is below ten.
pub open spec fn digit_char(d: nat) -> char {
    ((d + 48) as u8) as char
}

/// The decimal digits of `n`, most significant first, without leading zeros
/// (so `0` is written as a single `'0'`).
pub open spec fn decimal(n: nat) -> Seq<char>
    decreases n,
{
    if n < 10 {
        seq![digit_char(n)]
    } else {
        decimal(n / 10).push(digit_char(n % 10))
    }
}

/// Decimal rendering loses nothing: distinct numbers are written
/// differently, and every rendering is a non-empty run of digits.
pub proof fn lemma_decimal_injective(a: nat, b: nat)
    ensures
        decimal(a).len() >= 1,
        decimal(a) == decimal(b) ==> a == b,
        forall|i: int| 0 <= i < decimal(a).len() ==> '0' <= #[trigger] decimal(a)[i] <= '9',
        a >= 1 ==> decimal(a)[0] != '0',
    decreases a + b,
{
    if a >= 10 {
        assert(decimal(a) == decimal(a / 10).push(digit_char(a % 10)));
        assert(digit_char(a % 10) as u32 == a % 10 + 48);
    } else {
        assert(digit_char(a) as u32 == a + 48);
    }
    if a >= 10 {
        lemma_decimal_injective(a / 10, b);
    }
    if a >= 10 && b >= 10 {
        lemma_decimal_injective(a / 10, b / 10);
        if decimal(a) == decimal(b) {
            assert(decimal(a / 10) =~= decimal(a).drop_last());
            assert(decimal(b / 10) =~= decimal(b).drop_last());
            assert(decimal(a) == decimal(a / 10).push(digit_char(a % 10)));
            assert(decimal(b) == decimal(b / 10).push(digit_char(b % 10)));
            assert(decimal(a).last() == digit_char(a % 10));
            assert(decimal(b).last() == digit_char(b % 10));
            assert(digit_char(a % 10) as u32 == a % 10 + 48);
            assert(digit_char(b % 10) as u32 == b % 10 + 48);
            assert(a % 10 == b % 10);
        }
    } else if a >= 10 && b < 10 {
        if decimal(a) == decimal(b) {
            assert(decimal(a).len() >= 2);
        }
    } else if a < 10 && b >= 10 {
        lemma_decimal_injective(b / 10, a);
        if decimal(a) == decimal(b) {
            assert(decimal(b).len() >= 2);
        }
    } else {
        if decimal(a) == decimal(b) {
            assert(decimal(a)[0] == decimal(b)[0]);
        }
    }
}

/// Appends `c` to `s` (std's `String::push`).
#[verifier::external_body]
pub(crate) fn push_char(s: &mut String, c: char)
    ensures
        final(s)@ == old(s)@.push(c),
{
    s.push(c);
}

/// Appends the decimal digits of `n` to `s`.
pub fn push_decimal(s: &mut String, n: u64)
    ensures
        final(s)@ == old(s)@ + decimal(n as nat),
    decreases n,
{
    let ghost before = s@;
    if n >= 10 {
        push_decimal(s, n / 10);
    }
    let d: u8 = (n % 10) as u8;
    push_char(s, (d + 48) as char);
    proof {
        if n >= 10 {
            assert(before + decimal(n as nat) =~= before + decimal((n / 10) as nat) + seq![
                digit_char((n % 10) as nat),
            ]);
        } else {
            assert(before + decimal(n as nat) =~= before.push(digit_char(n as nat)));
        }
    }
}

/// The characters of `s`, in order.
pub fn chars_of(s: &str) -> (v: Vec<char>)
    ensures
        v@ == s@,
{
    let n = s.unicode_len();
    let mut v: Vec<char> = Vec::new();
    let mut i: usize = 0;
    while i < n
        invariant
            n == s@.len(),
            i <= n,
            v@ == s@.take(i as int),
        decreases n - i,
    {
        v.push(s.get_char(i));
        assert(v@ =~= s@.take(i + 1));
        i = i + 1;
    }
    assert(s@.take(n as int) =~= s@);
    v
}

} // verus!
