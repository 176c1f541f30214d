//! Interleaved stereo PCM (left, right, left, right, …): splitting it into
//! its two channels and writing processed channels back, as the equalizer
//! does around its filters. A last sample without a partner is left alone.

use vstd::prelude::*;

verus! {

/// The left channel of the interleaved samples `s`: every even sample of a
/// complete frame.
pub open spec fn left_channel<T>(s: Seq<T>) -> Seq<T> {
    Seq::new(s.len() / 2, |i: int| s[2 * i])
}

/// The right channel of the interleaved samples `s`.
pub open spec fn right_channel<T>(s: Seq<T>) -> Seq<T> {
    Seq::new(s.len() / 2, |i: int| s[2 * i + 1])
}

/// `s` with the frames overwritten from `left` and `right` as far as they
/// reach; the rest of `s`, and an unpaired last sample, stay as they were.
pub open spec fn interleaved<T>(s: Seq<T>, left: Seq<T>, right: Seq<T>) -> Seq<T> {
    Seq::new(
        s.len(),
        |k: int|
            if k < 2 * (s.len() / 2) {
                if k % 2 == 0 {
                    if k / 2 < left.len() {
                        left[k / 2]
                    } else {
                        s[k]
                    }
                } else {
                    if k / 2 < right.len() {
                        right[k / 2]
                    } else {
                        s[k]
                    }
                }
            } else {
                s[k]
            },
    )
}

/// Splits interleaved stereo samples into their left and right channels.
pub fn deinterleave_stereo<T: Copy>(samples: &[T]) -> (channels: (Vec<T>, Vec<T>))
    ensures
        channels.0@ == left_channel(samples@),
        channels.1@ == right_channel(samples@),
{
    let frames = samples.len() / 2;
    let mut left: Vec<T> = Vec::new();
    let mut right: Vec<T> = Vec::new();
    let mut i: usize = 0;
    while i < frames
        invariant
            frames == samples.len() / 2,
            i <= frames,
            left.len() == i,
            right.len() == i,
            forall|k: int| 0 <= k < i ==> left[k] == samples@[2 * k],
            forall|k: int| 0 <= k < i ==> right[k] == samples@[2 * k + 1],
        decreases frames - i,
    {
        left.push(samples[2 * i]);
        right.push(samples[2 * i + 1]);
        i = i + 1;
    }
    assert(left@ =~= left_channel(samples@));
    assert(right@ =~= right_channel(samples@));
    (left, right)
}

/// Writes the channels `left` and `right` back into the interleaved
/// `samples`, frame by frame, as far as each channel reaches.
pub fn interleave_stereo<T: Copy>(samples: &mut [T], left: &[T], right: &[T])
    ensures
        final(samples)@ == interleaved(old(samples)@, left@, right@),
{
    let frames = samples.len() / 2;
    let mut i: usize = 0;
    while i < frames
        invariant
            frames == samples.len() / 2,
            samples@.len() == old(samples)@.len(),
            i <= frames,
            forall|k: int|
                0 <= k < samples@.len() ==> #[trigger] samples@[k] == if k < 2 * i {
                    interleaved(old(samples)@, left@, right@)[k]
                } else {
                    old(samples)@[k]
                },
        decreases frames - i,
    {
        if i < left.len() {
            samples[2 * i] = left[i];
        }
        if i < right.len() {
            samples[2 * i + 1] = right[i];
        }
        assert((2 * i) as int / 2 == i && (2 * i) as int % 2 == 0);
        assert((2 * i + 1) as int / 2 == i && (2 * i + 1) as int % 2 == 1);
        i = i + 1;
    }
    assert(samples@ =~= interleaved(old(samples)@, left@, right@));
}

/// Writing back the channels taken from `s` gives `s` again.
pub proof fn lemma_interleave_roundtrip<T>(s: Seq<T>)
    ensures
        interleaved(s, left_channel(s), right_channel(s)) == s,
{
    let r = interleaved(s, left_channel(s), right_channel(s));
    assert forall|k: int| 0 <= k < s.len() implies r[k] == s[k] by {
        if k < 2 * (s.len() / 2) {
            if k % 2 == 0 {
                assert(2 * (k / 2) == k);
            } else {
                assert(2 * (k / 2) + 1 == k);
            }
        }
    }
    assert(r =~= s);
}

} // verus!
