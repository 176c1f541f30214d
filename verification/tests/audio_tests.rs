use resona::audio::lufs::{LufsCache, NormalizationMode};
use resona::audio::stereo::{deinterleave_stereo, interleave_stereo};
use resona::audio::wav::write_wav_f32;

#[test]
fn normalization_defaults_to_track() {
    assert_eq!(NormalizationMode::default(), NormalizationMode::Track);
}

#[test]
fn cache_gives_back_what_was_stored() {
    let mut cache: LufsCache<i32> = LufsCache::new();
    assert_eq!(cache.get("/music/a.flac"), None);
    cache.insert("/music/a.flac", -14);
    cache.insert("/music/b.flac", -9);
    assert_eq!(cache.get("/music/a.flac"), Some(&-14));
    assert_eq!(cache.get("/music/b.flac"), Some(&-9));
    cache.insert("/music/a.flac", -20);
    assert_eq!(cache.get("/music/a.flac"), Some(&-20));
    assert_eq!(cache.get("/music/c.flac"), None);
}

#[test]
fn spellings_of_one_path_share_a_measurement() {
    let mut cache: LufsCache<i32> = LufsCache::new();
    cache.insert("/m/a.flac", -14);
    assert_eq!(cache.get("/m//a.flac"), Some(&-14));
    assert_eq!(cache.get("/m/./a.flac"), Some(&-14));
    assert_eq!(cache.get("/m/a.flac/"), Some(&-14));
    assert_eq!(cache.get("m/a.flac"), None);
    assert_eq!(cache.get("/m/b.flac"), None);
    cache.insert("//m/a.flac", -20);
    assert_eq!(cache.get("/m/a.flac"), Some(&-20));
    cache.insert("./x.flac", 1);
    assert_eq!(cache.get("x.flac"), None);
    assert_eq!(cache.get("./x.flac/"), Some(&1));
    let backslash_found = cache.get("C:\\m\\a.flac").is_some();
    cache.insert("C:/m/a.flac", 5);
    assert!(!backslash_found);
    assert_eq!(cache.get("C:\\m\\a.flac").is_some(), std::path::is_separator('\\'));
}

#[test]
fn wav_header_and_samples() {
    let samples = [1.0f32, -0.5];
    let bits: Vec<u32> = samples.iter().map(|s| s.to_bits()).collect();
    let wav = write_wav_f32(&bits, 44100);
    assert_eq!(wav.len(), 44 + 8);
    assert_eq!(&wav[0..4], b"RIFF");
    assert_eq!(&wav[4..8], &(36u32 + 8).to_le_bytes());
    assert_eq!(&wav[8..16], b"WAVEfmt ");
    assert_eq!(&wav[16..20], &16u32.to_le_bytes());
    assert_eq!(&wav[20..22], &3u16.to_le_bytes());
    assert_eq!(&wav[22..24], &2u16.to_le_bytes());
    assert_eq!(&wav[24..28], &44100u32.to_le_bytes());
    assert_eq!(&wav[28..32], &(44100u32 * 8).to_le_bytes());
    assert_eq!(&wav[32..34], &8u16.to_le_bytes());
    assert_eq!(&wav[34..36], &32u16.to_le_bytes());
    assert_eq!(&wav[36..40], b"data");
    assert_eq!(&wav[40..44], &8u32.to_le_bytes());
    assert_eq!(&wav[44..48], &1.0f32.to_le_bytes());
    assert_eq!(&wav[48..52], &(-0.5f32).to_le_bytes());
}

#[test]
fn empty_wav_is_header_only() {
    let wav = write_wav_f32(&[], 48000);
    assert_eq!(wav.len(), 44);
    assert_eq!(&wav[4..8], &36u32.to_le_bytes());
}

#[test]
fn channels_split_and_rejoin() {
    let mut samples = [1.0f32, 2.0, 3.0, 4.0, 5.0];
    let (mut left, right) = deinterleave_stereo(&samples);
    assert_eq!(left, vec![1.0, 3.0]);
    assert_eq!(right, vec![2.0, 4.0]);
    for s in left.iter_mut() {
        *s *= 10.0;
    }
    interleave_stereo(&mut samples, &left, &right);
    assert_eq!(samples, [10.0, 2.0, 30.0, 4.0, 5.0]);
}

#[test]
fn short_channels_leave_later_frames() {
    let mut samples = [1, 2, 3, 4];
    interleave_stereo(&mut samples, &[7], &[]);
    assert_eq!(samples, [7, 2, 3, 4]);
}

#[test]
fn wav_samples_read_back_bit_for_bit() {
    let samples = [0.25f32, -0.0, f32::from_bits(0x7fc0_1234), 1.5e-40];
    let bits: Vec<u32> = samples.iter().map(|s| s.to_bits()).collect();
    let wav = write_wav_f32(&bits, 48000);
    let back: Vec<u32> = wav[44..]
        .chunks(4)
        .map(|c| f32::from_le_bytes([c[0], c[1], c[2], c[3]]).to_bits())
        .collect();
    assert_eq!(back, bits);
    assert_eq!(u32::from_le_bytes([wav[24], wav[25], wav[26], wav[27]]), 48000);
    assert_eq!(u32::from_le_bytes([wav[40], wav[41], wav[42], wav[43]]), 16);
}
