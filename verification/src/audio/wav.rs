//! The WAV container for stereo 32-bit float PCM. Samples are given as the
//! bit patterns of their `f32` values (`f32::to_bits`), which the container
//! stores little-endian.

use vstd::prelude::*;

verus! {

/// `x` as two little-endian bytes.
pub open spec fn le16(x: nat) -> Seq<u8> {
    seq![(x % 256) as u8, ((x / 256) % 256) as u8]
}

/// `x` as four little-endian bytes.
pub open spec fn le32(x: nat) -> Seq<u8> {
    seq![
        (x % 256) as u8,
        ((x / 256) % 256) as u8,
        ((x / 65536) % 256) as u8,
        ((x / 16777216) % 256) as u8,
    ]
}

/// The 44-byte header of a stereo 32-bit IEEE-float WAV holding `n` samples
/// at `rate` frames per second.
pub open spec fn wav_header(n: nat, rate: nat) -> Seq<u8> {
    seq![82u8, 73, 70, 70] + le32(36 + 4 * n) + seq![87u8, 65, 86, 69] + seq![102u8, 109, 116, 32]
        + le32(16) + le16(3) + le16(2) + le32(rate) + le32(rate * 8) + le16(8) + le16(32) + seq![
        100u8,
        97,
        116,
        97,
    ] + le32(4 * n)
}

/// The samples `bits`, each as four little-endian bytes.
pub open spec fn sample_bytes(bits: Seq<u32>) -> Seq<u8>
    decreases bits.len(),
{
    if bits.len() == 0 {
        Seq::empty()
    } else {
        sample_bytes(bits.drop_last()) + le32(bits.last() as nat)
    }
}

fn push_le16(v: &mut Vec<u8>, x: u16)
    ensures
        final(v)@ == old(v)@ + le16(x as nat),
{
    v.push((x % 256) as u8);
    v.push(((x / 256) % 256) as u8);
    assert(final(v)@ =~= old(v)@ + le16(x as nat));
}

fn push_le32(v: &mut Vec<u8>, x: u32)
    ensures
        final(v)@ == old(v)@ + le32(x as nat),
{
    v.push((x % 256) as u8);
    v.push(((x / 256) % 256) as u8);
    v.push(((x / 65536) % 256) as u8);
    v.push(((x / 16777216) % 256) as u8);
    assert(final(v)@ =~= old(v)@ + le32(x as nat));
}

fn push_tag(v: &mut Vec<u8>, a: u8, b: u8, c: u8, d: u8)
    ensures
        final(v)@ == old(v)@ + seq![a, b, c, d],
{
    v.push(a);
    v.push(b);
    v.push(c);
    v.push(d);
    assert(final(v)@ =~= old(v)@ + seq![a, b, c, d]);
}

/// Writes a stereo 32-bit float WAV of the samples whose bit patterns are
/// `sample_bits`, at `sample_rate` frames per second: the 44-byte header,
/// then each sample little-endian.
pub fn write_wav_f32(sample_bits: &[u32], sample_rate: u32) -> (wav: Vec<u8>)
    requires
        36 + 4 * sample_bits.len() <= u32::MAX,
        8 * sample_rate <= u32::MAX,
    ensures
        wav@ == wav_header(sample_bits.len() as nat, sample_rate as nat) + sample_bytes(
            sample_bits@,
        ),
        decoded_samples(wav@) == sample_bits@,
        read_le32(wav@, 24) == sample_rate,
        read_le32(wav@, 28) == 8 * sample_rate,
        read_le32(wav@, 40) == 4 * sample_bits.len(),
{
    let channels: u16 = 2;
    let bits_per_sample: u16 = 32;
    // Two channels of four bytes per frame.
    let byte_rate: u32 = sample_rate * 8;
    let block_align: u16 = 8;
    let data_len: u32 = sample_bits.len() as u32 * 4;
    let file_len: u32 = 36 + data_len;

    let mut wav: Vec<u8> = Vec::new();
    push_tag(&mut wav, 82, 73, 70, 70);
    push_le32(&mut wav, file_len);
    push_tag(&mut wav, 87, 65, 86, 69);
    push_tag(&mut wav, 102, 109, 116, 32);
    push_le32(&mut wav, 16);
    push_le16(&mut wav, 3);
    push_le16(&mut wav, channels);
    push_le32(&mut wav, sample_rate);
    push_le32(&mut wav, byte_rate);
    push_le16(&mut wav, block_align);
    push_le16(&mut wav, bits_per_sample);
    push_tag(&mut wav, 100, 97, 116, 97);
    push_le32(&mut wav, data_len);
    let ghost header = wav@;
    assert(header =~= wav_header(sample_bits.len() as nat, sample_rate as nat));

    let mut i: usize = 0;
    while i < sample_bits.len()
        invariant
            i <= sample_bits.len(),
            wav@ == header + sample_bytes(sample_bits@.take(i as int)),
        decreases sample_bits.len() - i,
    {
        push_le32(&mut wav, sample_bits[i]);
        assert(sample_bits@.take(i + 1).drop_last() =~= sample_bits@.take(i as int));
        assert(wav@ =~= header + sample_bytes(sample_bits@.take(i + 1)));
        i = i + 1;
    }
    assert(sample_bits@.take(i as int) =~= sample_bits@);
    proof {
        lemma_wav_round_trip(sample_bits@, sample_rate as nat);
        lemma_wav_header_fields(sample_bits@, sample_rate as nat);
    }
    wav
}

/// Sample `i` of the file is stored little-endian at byte `44 + 4 * i`.
pub proof fn lemma_sample_position(bits: Seq<u32>, i: int)
    requires
        0 <= i < bits.len(),
    ensures
        sample_bytes(bits).len() == 4 * bits.len(),
        sample_bytes(bits).subrange(4 * i, 4 * i + 4) == le32(bits[i] as nat),
    decreases bits.len(),
{
    let p = bits.drop_last();
    if i < bits.len() - 1 {
        lemma_sample_position(p, i);
        assert(sample_bytes(bits).subrange(4 * i, 4 * i + 4) =~= sample_bytes(p).subrange(
            4 * i,
            4 * i + 4,
        ));
    } else {
        if p.len() > 0 {
            lemma_sample_position(p, 0);
        } else {
            assert(sample_bytes(p) == Seq::<u8>::empty());
        }
        assert(sample_bytes(p).len() == 4 * p.len());
        assert(sample_bytes(bits) == sample_bytes(p) + le32(bits.last() as nat));
        assert(bits.last() == bits[i]);
        assert(sample_bytes(bits).subrange(4 * i, 4 * i + 4) =~= le32(bits[i] as nat));
    }
}

/// The little-endian number in the four bytes of `b` from `o` on.
pub open spec fn read_le32(b: Seq<u8>, o: int) -> nat {
    (b[o] + 256 * b[o + 1] + 65536 * b[o + 2] + 16777216 * b[o + 3]) as nat
}

/// The little-endian number in the two bytes of `b` from `o` on.
pub open spec fn read_le16(b: Seq<u8>, o: int) -> nat {
    (b[o] + 256 * b[o + 1]) as nat
}

proof fn lemma_le16_reads_back(x: nat)
    requires
        x < 0x1_0000,
    ensures
        read_le16(le16(x), 0) == x,
{
    assert((x % 256) + 256 * ((x / 256) % 256) == x) by (nonlinear_arith)
        requires
            x < 0x1_0000,
    {
        assert(x == 256 * (x / 256) + x % 256);
        assert(x / 256 < 256);
    }
}

/// The sample bit patterns that a reader takes from the WAV bytes `wav`:
/// the little-endian four-byte numbers after the 44-byte header.
pub open spec fn decoded_samples(wav: Seq<u8>) -> Seq<u32> {
    Seq::new(((wav.len() - 44) / 4) as nat, |i: int| read_le32(wav, 44 + 4 * i) as u32)
}

/// Four little-endian bytes read back give the number they were made from.
pub proof fn lemma_le32_reads_back(x: nat)
    requires
        x < 0x1_0000_0000,
    ensures
        read_le32(le32(x), 0) == x,
{
    let b0 = x % 256;
    let q1 = x / 256;
    let b1 = q1 % 256;
    let q2 = q1 / 256;
    let b2 = q2 % 256;
    let q3 = q2 / 256;
    let b3 = q3 % 256;
    assert(x / 65536 == q2) by {
        vstd::arithmetic::div_mod::lemma_div_denominator(x as int, 256, 256);
    }
    assert(x / 16777216 == q3) by {
        vstd::arithmetic::div_mod::lemma_div_denominator(x as int, 65536, 256);
    }
    assert(q3 < 256);
    assert(b3 == q3);
    assert(b0 + 256 * b1 + 65536 * b2 + 16777216 * b3 == x) by (nonlinear_arith)
        requires
            b0 == x % 256,
            q1 == x / 256,
            b1 == q1 % 256,
            q2 == q1 / 256,
            b2 == q2 % 256,
            q3 == q2 / 256,
            b3 == q3,
    {
        assert(x == 256 * q1 + b0);
        assert(q1 == 256 * q2 + b1);
        assert(q2 == 256 * q3 + b2);
    }
}

/// Reading a written WAV gives back what was written: the sample bit
/// patterns, each bit kept, the sample rate, and the sizes in the header.
pub proof fn lemma_wav_round_trip(bits: Seq<u32>, rate: nat)
    requires
        36 + 4 * bits.len() <= u32::MAX,
        8 * rate <= u32::MAX,
    ensures
        decoded_samples(wav_header(bits.len(), rate) + sample_bytes(bits)) == bits,
        read_le32(wav_header(bits.len(), rate) + sample_bytes(bits), 4) == 36 + 4 * bits.len(),
        read_le32(wav_header(bits.len(), rate) + sample_bytes(bits), 24) == rate,
        read_le32(wav_header(bits.len(), rate) + sample_bytes(bits), 40) == 4 * bits.len(),
{
    let n = bits.len();
    let h = wav_header(n, rate);
    let w = h + sample_bytes(bits);
    assert(h.len() == 44);
    if n > 0 {
        lemma_sample_position(bits, 0);
    }
    assert(sample_bytes(bits).len() == 4 * n) by {
        if n == 0 {
            assert(sample_bytes(bits).len() == 0);
        }
    }
    assert forall|i: int| 0 <= i < n implies #[trigger] decoded_samples(w)[i] == bits[i] by {
        lemma_sample_position(bits, i);
        let b = le32(bits[i] as nat);
        assert(sample_bytes(bits).subrange(4 * i, 4 * i + 4) == b);
        assert(w[44 + 4 * i] == b[0]);
        assert(w[44 + 4 * i + 1] == b[1]);
        assert(w[44 + 4 * i + 2] == b[2]);
        assert(w[44 + 4 * i + 3] == b[3]);
        lemma_le32_reads_back(bits[i] as nat);
    }
    assert(decoded_samples(w) =~= bits);
    lemma_le32_reads_back(36 + 4 * n);
    lemma_le32_reads_back(rate);
    lemma_le32_reads_back(4 * n);
    assert(w.subrange(4, 8) =~= le32((36 + 4 * n) as nat));
    assert(w.subrange(24, 28) =~= le32(rate));
    assert(w.subrange(40, 44) =~= le32(4 * n));
}

/// The header a reader finds in a written WAV: 16 bytes of format, float
/// samples (format 3), two channels, eight bytes per frame, 32 bits per
/// sample, and a byte rate of the sample rate times the frame size.
pub proof fn lemma_wav_header_fields(bits: Seq<u32>, rate: nat)
    requires
        36 + 4 * bits.len() <= u32::MAX,
        8 * rate <= u32::MAX,
    ensures
        read_le32(wav_header(bits.len(), rate) + sample_bytes(bits), 16) == 16,
        read_le16(wav_header(bits.len(), rate) + sample_bytes(bits), 20) == 3,
        read_le16(wav_header(bits.len(), rate) + sample_bytes(bits), 22) == 2,
        read_le16(wav_header(bits.len(), rate) + sample_bytes(bits), 32) == 8,
        read_le16(wav_header(bits.len(), rate) + sample_bytes(bits), 34) == 32,
        read_le32(wav_header(bits.len(), rate) + sample_bytes(bits), 28) == 8 * rate,
        read_le32(wav_header(bits.len(), rate) + sample_bytes(bits), 28) == rate * read_le16(
            wav_header(bits.len(), rate) + sample_bytes(bits),
            22,
        ) * (read_le16(wav_header(bits.len(), rate) + sample_bytes(bits), 34) / 8),
{
    let h = wav_header(bits.len(), rate);
    let w = h + sample_bytes(bits);
    assert(h.len() == 44);
    lemma_le32_reads_back(16);
    lemma_le32_reads_back(8 * rate);
    lemma_le16_reads_back(3);
    lemma_le16_reads_back(2);
    lemma_le16_reads_back(8);
    lemma_le16_reads_back(32);
    assert(h.subrange(16, 20) =~= le32(16));
    assert(h.subrange(28, 32) =~= le32(rate * 8));
    assert(h.subrange(20, 22) =~= le16(3));
    assert(h.subrange(22, 24) =~= le16(2));
    assert(h.subrange(32, 34) =~= le16(8));
    assert(h.subrange(34, 36) =~= le16(32));
    assert forall|k: int| 0 <= k < 44 implies #[trigger] w[k] == h[k] by {}
    assert(read_le16(w, 22) == 2);
    assert(read_le16(w, 34) == 32);
    assert(read_le32(w, 28) == rate * 8);
}

} // verus!
