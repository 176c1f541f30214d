//! Audio: the loudness-normalization mode and measurement cache, the stereo
//! channel split that the equalizer works on, and the WAV container.

pub mod lufs;
pub mod wav;
pub mod stereo;
