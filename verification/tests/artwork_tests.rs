use resona::artwork::{has_embedded_picture, process_artwork_bytes, ArtworkError};

fn png_of(width: u32, height: u32) -> Vec<u8> {
    let img = image::RgbaImage::from_pixel(width, height, image::Rgba([200, 100, 50, 255]));
    let mut out = Vec::new();
    image::DynamicImage::ImageRgba8(img)
        .write_to(&mut std::io::Cursor::new(&mut out), image::ImageFormat::Png)
        .unwrap();
    out
}

#[test]
fn thumbnail_is_a_square_png_of_the_target_size() {
    let source = png_of(3, 2);
    let thumb = process_artwork_bytes(&source, 8).unwrap();
    assert_ne!(thumb, source);
    let decoded = image::load_from_memory(&thumb).unwrap();
    assert_eq!((decoded.width(), decoded.height()), (8, 8));
    assert_eq!(image::guess_format(&thumb).unwrap(), image::ImageFormat::Png);
}

#[test]
fn unreadable_image_is_refused() {
    assert_eq!(process_artwork_bytes(b"not an image", 8), Err(ArtworkError::Unreadable));
    assert_eq!(process_artwork_bytes(&[], 8), Err(ArtworkError::Unreadable));
}

#[test]
fn unreadable_audio_has_no_picture() {
    assert!(!has_embedded_picture(b"not audio at all"));
    assert!(!has_embedded_picture(&[]));
}

/// An MP3 file: an ID3v2.3 tag with one attached picture, then one MPEG
/// audio frame.
fn mp3_with_picture() -> Vec<u8> {
    let picture = png_of(1, 1);
    let mut frame_body = vec![0u8];
    frame_body.extend_from_slice(b"image/png\0");
    frame_body.push(3);
    frame_body.push(0);
    frame_body.extend_from_slice(&picture);
    let mut frame = b"APIC".to_vec();
    frame.extend_from_slice(&(frame_body.len() as u32).to_be_bytes());
    frame.extend_from_slice(&[0, 0]);
    frame.extend_from_slice(&frame_body);
    let size = frame.len() as u32;
    let syncsafe = [
        ((size >> 21) & 0x7f) as u8,
        ((size >> 14) & 0x7f) as u8,
        ((size >> 7) & 0x7f) as u8,
        (size & 0x7f) as u8,
    ];
    let mut file = b"ID3".to_vec();
    file.extend_from_slice(&[3, 0, 0]);
    file.extend_from_slice(&syncsafe);
    file.extend_from_slice(&frame);
    for _ in 0..3 {
        file.extend_from_slice(&[0xFF, 0xFB, 0x90, 0x64]);
        file.extend_from_slice(&[0u8; 413]);
    }
    file
}

#[test]
fn tagged_picture_is_found() {
    assert!(has_embedded_picture(&mp3_with_picture()));
}
