//! Artwork from the bytes of files: the square PNG thumbnail made from an
//! image file, and whether an audio file carries an embedded picture.

use vstd::prelude::*;
use lofty::file::TaggedFileExt;

verus! {

/// What the `image` crate makes of the image file `image` scaled to
/// `size` × `size`: `load_from_memory` decodes it, `resize_exact` with the
/// Lanczos3 filter scales it, and `write_to` encodes the result as PNG;
/// `None` when decoding or encoding fails.
pub uninterp spec fn square_png(image: Seq<u8>, size: u32) -> Option<Seq<u8>>;

/// The `image` crate's decoding (`load_from_memory`), Lanczos3 scaling
/// (`DynamicImage::resize_exact`) and PNG encoding (`DynamicImage::write_to`)
/// of `image`. The contract names the result `square_png(image@, size)` and
/// says no more of it.
#[verifier::external_body]
fn encode_square_png(image: &[u8], size: u32) -> (r: Option<Vec<u8>>)
    ensures
        match r {
            Some(v) => square_png(image@, size) == Some(v@),
            None => square_png(image@, size) is None,
        },
{
    let decoded = image::load_from_memory(image).ok()?;
    let resized = decoded.resize_exact(size, size, image::imageops::FilterType::Lanczos3);
    let mut png: Vec<u8> = Vec::new();
    resized.write_to(&mut std::io::Cursor::new(&mut png), image::ImageFormat::Png).ok()?;
    Some(png)
}

/// Why artwork could not be made.
#[derive(Clone, Copy, Debug, PartialEq, Eq, Structural)]
pub enum ArtworkError {
    /// The image could not be decoded, or the thumbnail not encoded.
    Unreadable,
}

/// The artwork thumbnail of the image file `image`: the image scaled to
/// `target_size` × `target_size` and encoded as PNG.
pub fn process_artwork_bytes(image: &[u8], target_size: u32) -> (r: Result<Vec<u8>, ArtworkError>)
    ensures
        match square_png(image@, target_size) {
            Some(png) => r is Ok && r->Ok_0@ == png,
            None => r == Err::<Vec<u8>, ArtworkError>(ArtworkError::Unreadable),
        },
{
    match encode_square_png(image, target_size) {
        Some(png) => Ok(png),
        None => Err(ArtworkError::Unreadable),
    }
}

/// What `lofty` reads from the audio file `file`: the number of pictures
/// in each of its tags, in the order of the tags (`Probe::guess_file_type`,
/// `Probe::read`, `TaggedFileExt::tags`, `Tag::pictures`); `None` when the
/// file's type is not recognised or the file cannot be read.
pub uninterp spec fn tag_picture_counts(file: Seq<u8>) -> Option<Seq<usize>>;

/// `lofty`'s reading of the tags of `file`, each tag taken to the number of
/// its pictures. The contract names the result `tag_picture_counts(file@)`
/// and says no more of it.
#[verifier::external_body]
fn read_tag_picture_counts(file: &[u8]) -> (r: Option<Vec<usize>>)
    ensures
        match r {
            Some(v) => tag_picture_counts(file@) == Some(v@),
            None => tag_picture_counts(file@) is None,
        },
{
    let probe = lofty::probe::Probe::new(std::io::Cursor::new(file)).guess_file_type().ok()?;
    let tagged = probe.read().ok()?;
    Some(tagged.tags().iter().map(|tag| tag.pictures().len()).collect())
}

/// Whether some tag of a file whose tags hold `counts` pictures has one.
pub open spec fn some_tag_has_picture(counts: Option<Seq<usize>>) -> bool {
    match counts {
        Some(c) => exists|i: int| 0 <= i < c.len() && #[trigger] c[i] > 0,
        None => false,
    }
}

/// Whether the audio file `file` carries an embedded picture: it can be
/// read and one of its tags holds a picture.
pub fn has_embedded_picture(file: &[u8]) -> (b: bool)
    ensures
        b == some_tag_has_picture(tag_picture_counts(file@)),
{
    match read_tag_picture_counts(file) {
        Some(counts) => {
            let mut i: usize = 0;
            while i < counts.len()
                invariant
                    i <= counts.len(),
                    tag_picture_counts(file@) == Some(counts@),
                    forall|j: int| 0 <= j < i ==> counts@[j] == 0,
                decreases counts.len() - i,
            {
                if counts[i] > 0 {
                    let ghost c = counts@;
                    assert(c[i as int] > 0);
                    assert(some_tag_has_picture(Some(c)));
                    return true;
                }
                i = i + 1;
            }
            false
        },
        None => false,
    }
}

} // verus!
