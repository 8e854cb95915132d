use spg::error::CommandError;
use spg::gallery::render;
use spg::orientation::image_orientation;
use spg::orientation::open_with_exif_rotation;
use spg::orientation::orientation_from;
use spg::orientation::oriented;
use spg::orientation::read_metadata;
use spg::orientation::rotation_for;
use spg::orientation::Metadata;
use spg::orientation::Rotation;
use spg::picture::Picture;
use spg::thumbnail::crop_to_four_by_three;
use spg::thumbnail::generate_thumbnail;
use spg::thumbnail::generate_webview;

/// A picture whose pixel number `n`, counted row by row, is `(n, n + 100, n + 200)`.
fn numbered(width: u32, height: u32) -> Picture {
    let mut pixels = Vec::new();
    for n in 0..(width * height) {
        pixels.push(n as u8);
        pixels.push((n + 100) as u8);
        pixels.push((n + 200) as u8);
    }
    Picture { width, height, pixels }
}

/// The numbers of the pixels of a picture made by `numbered`, row by row.
fn numbers(picture: &Picture) -> Vec<u8> {
    assert_eq!(picture.pixels.len(), 3 * (picture.width * picture.height) as usize);
    let mut found = Vec::new();
    for pixel in picture.pixels.chunks(3) {
        assert_eq!(pixel[1], pixel[0].wrapping_add(100));
        assert_eq!(pixel[2], pixel[0].wrapping_add(200));
        found.push(pixel[0]);
    }
    found
}

/// A picture of one colour.
fn plain(width: u32, height: u32, colour: [u8; 3]) -> Picture {
    let mut pixels = Vec::new();
    for _ in 0..(width * height) {
        pixels.extend_from_slice(&colour);
    }
    Picture { width, height, pixels }
}

/// An image file of the given format whose pixel in column `x` of row `y` is
/// `(x, y, 7)`.
fn encoded(width: u32, height: u32, format: image::ImageFormat) -> Vec<u8> {
    let buffer = image::RgbImage::from_fn(width, height, |x, y| image::Rgb([x as u8, y as u8, 7]));
    let mut out = std::io::Cursor::new(Vec::new());
    image::DynamicImage::ImageRgb8(buffer).write_to(&mut out, format).unwrap();
    out.into_inner()
}

/// The Exif segment of a JPEG file with one attribute of the given type that
/// holds one value, little endian.
fn exif_segment(tag: u16, kind: u16, value: u16) -> Vec<u8> {
    let mut segment = vec![0xff, 0xe1, 0x00, 0x22];
    segment.extend_from_slice(b"Exif\0\0");
    segment.extend_from_slice(b"II\x2a\x00");
    segment.extend_from_slice(&8u32.to_le_bytes());
    segment.extend_from_slice(&1u16.to_le_bytes());
    segment.extend_from_slice(&tag.to_le_bytes());
    segment.extend_from_slice(&kind.to_le_bytes());
    segment.extend_from_slice(&1u32.to_le_bytes());
    segment.extend_from_slice(&value.to_le_bytes());
    segment.extend_from_slice(&0u16.to_le_bytes());
    segment.extend_from_slice(&0u32.to_le_bytes());
    assert_eq!(segment.len(), 2 + 0x22);
    segment
}

/// A JPEG file with the given Exif attribute, of the given type.
fn jpeg_with_attribute(width: u32, height: u32, tag: u16, kind: u16, value: u16) -> Vec<u8> {
    let plain = encoded(width, height, image::ImageFormat::Jpeg);
    assert_eq!(&plain[..2], &[0xff, 0xd8]);
    let mut file = plain[..2].to_vec();
    file.extend_from_slice(&exif_segment(tag, kind, value));
    file.extend_from_slice(&plain[2..]);
    file
}

/// A JPEG file with the given Exif attribute, a short number.
fn jpeg_with_exif(width: u32, height: u32, tag: u16, value: u16) -> Vec<u8> {
    jpeg_with_attribute(width, height, tag, SHORT, value)
}

const SHORT: u16 = 3;
const ASCII: u16 = 2;

const ORIENTATION: u16 = 0x0112;
const IMAGE_WIDTH: u16 = 0x0100;

#[test]
fn orientation_codes_map_to_turns() {
    assert_eq!(rotation_for(1), Rotation::Upright);
    assert_eq!(rotation_for(3), Rotation::Half);
    assert_eq!(rotation_for(6), Rotation::Quarter);
    assert_eq!(rotation_for(8), Rotation::ThreeQuarters);
}

#[test]
fn unknown_orientation_codes_ask_for_no_turn() {
    for code in [0u32, 2, 4, 5, 7, 9, 100, u32::MAX] {
        assert_eq!(rotation_for(code), Rotation::Upright, "{}", code);
    }
}

#[test]
fn orientation_defaults() {
    assert_eq!(orientation_from(Metadata::Unreadable), 1);
    assert_eq!(orientation_from(Metadata::Silent), 1);
    assert_eq!(orientation_from(Metadata::Oriented(6)), 6);
    assert_eq!(orientation_from(Metadata::Oriented(77)), 77);
}

#[test]
fn orientation_is_read_from_exif() {
    for code in [1u16, 3, 6, 8, 5] {
        let file = jpeg_with_exif(16, 8, ORIENTATION, code);
        assert_eq!(read_metadata(&file), Metadata::Oriented(u32::from(code)));
        assert_eq!(image_orientation(&file), u32::from(code));
    }
}

#[test]
fn exif_without_orientation_is_silent() {
    let file = jpeg_with_exif(16, 8, IMAGE_WIDTH, 16);
    assert_eq!(read_metadata(&file), Metadata::Silent);
    assert_eq!(image_orientation(&file), 1);
}

#[test]
fn orientation_that_is_no_number_is_silent() {
    let file = jpeg_with_attribute(16, 8, ORIENTATION, ASCII, 0x36);
    assert_eq!(read_metadata(&file), Metadata::Silent);
    assert_eq!(image_orientation(&file), 1);
    let lying = open_with_exif_rotation(&file).unwrap();
    assert_eq!((lying.width, lying.height), (16, 8));
}

#[test]
fn another_attribute_is_not_taken_for_the_orientation() {
    let file = jpeg_with_exif(16, 8, IMAGE_WIDTH, 6);
    assert_eq!(image_orientation(&file), 1);
    let upright = open_with_exif_rotation(&file).unwrap();
    assert_eq!((upright.width, upright.height), (16, 8));
}

#[test]
fn missing_or_broken_metadata_is_absorbed() {
    let no_exif = encoded(16, 8, image::ImageFormat::Jpeg);
    assert_eq!(read_metadata(&no_exif), Metadata::Unreadable);
    assert_eq!(image_orientation(&no_exif), 1);
    assert_eq!(image_orientation(&encoded(16, 8, image::ImageFormat::Png)), 1);
    assert_eq!(image_orientation(b"not an image at all"), 1);
    assert_eq!(image_orientation(b""), 1);
    let mut truncated = jpeg_with_exif(16, 8, ORIENTATION, 6);
    truncated.truncate(20);
    assert_eq!(image_orientation(&truncated), 1);
}

#[test]
fn upright_picture_is_left_alone() {
    let turned = oriented(numbered(3, 2), 1);
    assert_eq!((turned.width, turned.height), (3, 2));
    assert_eq!(numbers(&turned), vec![0, 1, 2, 3, 4, 5]);
    let unknown = oriented(numbered(3, 2), 4);
    assert_eq!((unknown.width, unknown.height), (3, 2));
    assert_eq!(numbers(&unknown), vec![0, 1, 2, 3, 4, 5]);
}

#[test]
fn quarter_turn_moves_the_left_column_to_the_top() {
    let turned = oriented(numbered(3, 2), 6);
    assert_eq!((turned.width, turned.height), (2, 3));
    assert_eq!(numbers(&turned), vec![3, 0, 4, 1, 5, 2]);
}

#[test]
fn half_turn_reverses_the_pixels() {
    let turned = oriented(numbered(3, 2), 3);
    assert_eq!((turned.width, turned.height), (3, 2));
    assert_eq!(numbers(&turned), vec![5, 4, 3, 2, 1, 0]);
}

#[test]
fn three_quarter_turn_moves_the_right_column_to_the_top() {
    let turned = oriented(numbered(3, 2), 8);
    assert_eq!((turned.width, turned.height), (2, 3));
    assert_eq!(numbers(&turned), vec![2, 5, 1, 4, 0, 3]);
}

#[test]
fn four_quarter_turns_give_the_picture_back() {
    let mut picture = numbered(5, 3);
    for _ in 0..4 {
        picture = oriented(picture, 6);
    }
    assert_eq!((picture.width, picture.height), (5, 3));
    assert_eq!(numbers(&picture), numbers(&numbered(5, 3)));
}

#[test]
fn decoding_gives_the_pixels_of_the_file() {
    let picture = open_with_exif_rotation(&encoded(5, 4, image::ImageFormat::Png)).unwrap();
    assert_eq!((picture.width, picture.height), (5, 4));
    assert_eq!(picture.pixels.len(), 60);
    for y in 0..4usize {
        for x in 0..5usize {
            let at = 3 * (y * 5 + x);
            assert_eq!(&picture.pixels[at..at + 3], &[x as u8, y as u8, 7]);
        }
    }
}

#[test]
fn decoding_turns_the_picture_as_exif_asks() {
    let lying = open_with_exif_rotation(&jpeg_with_exif(16, 8, ORIENTATION, 6)).unwrap();
    assert_eq!((lying.width, lying.height), (8, 16));
    let upside_down = open_with_exif_rotation(&jpeg_with_exif(16, 8, ORIENTATION, 3)).unwrap();
    assert_eq!((upside_down.width, upside_down.height), (16, 8));
    let standing = open_with_exif_rotation(&jpeg_with_exif(16, 8, ORIENTATION, 8)).unwrap();
    assert_eq!((standing.width, standing.height), (8, 16));
    let as_stored = open_with_exif_rotation(&jpeg_with_exif(16, 8, ORIENTATION, 1)).unwrap();
    assert_eq!((as_stored.width, as_stored.height), (16, 8));
    let unknown = open_with_exif_rotation(&jpeg_with_exif(16, 8, ORIENTATION, 9)).unwrap();
    assert_eq!((unknown.width, unknown.height), (16, 8));
}

#[test]
fn undecodable_bytes_are_an_image_error() {
    for bytes in [&b"not an image at all"[..], &b""[..], &[0xff, 0xd8, 0xff][..]] {
        match open_with_exif_rotation(bytes) {
            Err(CommandError::ImageError(words)) => assert!(!words.is_empty()),
            other => panic!("expected an image error, got {:?}", other),
        }
    }
}

#[test]
fn wide_picture_keeps_its_left_columns() {
    let part = crop_to_four_by_three(&numbered(8, 3));
    assert_eq!((part.width, part.height), (4, 3));
    assert_eq!(numbers(&part), vec![0, 1, 2, 3, 8, 9, 10, 11, 16, 17, 18, 19]);
}

#[test]
fn tall_picture_keeps_its_top_rows() {
    let part = crop_to_four_by_three(&numbered(4, 6));
    assert_eq!((part.width, part.height), (4, 3));
    assert_eq!(numbers(&part), vec![0, 1, 2, 3, 4, 5, 6, 7, 8, 9, 10, 11]);
}

#[test]
fn four_by_three_picture_is_kept_whole() {
    let part = crop_to_four_by_three(&numbered(8, 6));
    assert_eq!((part.width, part.height), (8, 6));
    assert_eq!(numbers(&part), numbers(&numbered(8, 6)));
}

#[test]
fn thumbnail_is_200_by_150() {
    for (w, h) in [(400u32, 300u32), (400, 200), (300, 400), (2000, 1000), (20, 10), (1, 1)] {
        let small = generate_thumbnail(&plain(w, h, [10, 20, 30])).unwrap();
        assert_eq!((small.width, small.height), (200, 150), "{}x{}", w, h);
        assert_eq!(small.pixels.len(), 3 * 200 * 150);
    }
}

#[test]
fn thumbnail_of_one_colour_has_that_colour() {
    let small = generate_thumbnail(&plain(400, 200, [200, 100, 50])).unwrap();
    for pixel in small.pixels.chunks(3) {
        assert_eq!(pixel, &[200, 100, 50]);
    }
}

#[test]
fn thumbnail_shows_the_left_of_a_wide_picture() {
    // Left half red, right half blue: cut to four by three, 800 by 300 keeps
    // its left 400 columns, which are all red.
    let mut pixels = Vec::new();
    for _ in 0..300 {
        for x in 0..800 {
            pixels.extend_from_slice(if x < 400 { &[255, 0, 0] } else { &[0, 0, 255] });
        }
    }
    let small = generate_thumbnail(&Picture { width: 800, height: 300, pixels }).unwrap();
    for pixel in small.pixels.chunks(3) {
        assert_eq!(pixel, &[255, 0, 0]);
    }
}

#[test]
fn thumbnail_is_the_same_each_time() {
    let picture = numbered(64, 40);
    let one = generate_thumbnail(&picture).unwrap();
    let other = generate_thumbnail(&picture).unwrap();
    assert_eq!(one.pixels, other.pixels);
}

#[test]
fn webview_keeps_the_shape_within_1024() {
    let view = generate_webview(&plain(2048, 1024, [1, 2, 3])).unwrap();
    assert_eq!((view.width, view.height), (1024, 512));
    assert_eq!(view.pixels.len(), 3 * 1024 * 512);
    let tall = generate_webview(&plain(100, 200, [1, 2, 3])).unwrap();
    assert_eq!((tall.width, tall.height), (512, 1024));
    let square = generate_webview(&plain(1024, 1024, [1, 2, 3])).unwrap();
    assert_eq!((square.width, square.height), (1024, 1024));
}

#[test]
fn webview_has_the_shape_of_the_whole_picture() {
    // The longer side becomes 1024, the other is scaled alike and rounded.
    for (w, h, vw, vh) in [
        (2000u32, 1000u32, 1024u32, 512u32),
        (1000, 333, 1024, 341),
        (333, 1000, 341, 1024),
        (400, 300, 1024, 768),
        (3, 1000, 3, 1024),
        (1024, 683, 1024, 683),
        (4000, 3, 1024, 1),
        (3, 4000, 1, 1024),
        (2048, 3, 1024, 2),
        (5000, 5, 1024, 1),
        (7, 7, 1024, 1024),
    ] {
        let view = generate_webview(&plain(w, h, [9, 9, 9])).unwrap();
        assert_eq!((view.width, view.height), (vw, vh), "{}x{}", w, h);
    }
}

#[test]
fn webview_is_made_of_the_whole_picture_not_of_the_thumbnail() {
    // 2000 by 1000 is cut to 1333 by 1000 for the thumbnail; the web view
    // keeps the shape of two by one.
    let (_, webview) = render(&plain(2000, 1000, [10, 200, 30])).unwrap();
    let view = image::load_from_memory(&webview).unwrap();
    assert_eq!((view.width(), view.height()), (1024, 512));
}

#[test]
fn thumbnail_of_a_very_long_picture() {
    let small = generate_thumbnail(&plain(65535, 64, [7, 8, 9])).unwrap();
    assert_eq!((small.width, small.height), (200, 150));
    assert_eq!(small.pixels.len(), 3 * 200 * 150);
}

#[test]
fn webview_of_one_colour_has_that_colour() {
    let view = generate_webview(&plain(64, 48, [200, 100, 50])).unwrap();
    assert_eq!((view.width, view.height), (1024, 768));
    for pixel in view.pixels.chunks(3) {
        assert_eq!(pixel, &[200, 100, 50]);
    }
}

#[test]
fn picture_with_a_side_over_65535_gets_both_derivatives() {
    for (w, h, vw, vh) in [
        (65536u32, 1u32, 1024u32, 1u32),
        (70000, 10, 1024, 1),
        (10, 70000, 1, 1024),
        (131071, 3, 1024, 1),
    ] {
        let picture = plain(w, h, [9, 9, 9]);
        let small = generate_thumbnail(&picture).unwrap();
        assert_eq!((small.width, small.height), (200, 150), "{}x{}", w, h);
        let view = generate_webview(&picture).unwrap();
        assert_eq!((view.width, view.height), (vw, vh), "{}x{}", w, h);
        let (thumbnail, webview) = render(&picture).unwrap();
        let decoded = image::load_from_memory(&thumbnail).unwrap();
        assert_eq!((decoded.width(), decoded.height()), (200, 150));
        let decoded = image::load_from_memory(&webview).unwrap();
        assert_eq!((decoded.width(), decoded.height()), (vw, vh));
    }
}

#[test]
fn thumbnail_of_a_wide_picture_with_a_side_over_65535() {
    // 70000 by 300 is cut to 400 by 300, all of which is red.
    let mut pixels = Vec::new();
    for _ in 0..300 {
        for x in 0..70000 {
            pixels.extend_from_slice(if x < 400 { &[255, 0, 0] } else { &[0, 0, 255] });
        }
    }
    let small = generate_thumbnail(&Picture { width: 70000, height: 300, pixels }).unwrap();
    assert_eq!((small.width, small.height), (200, 150));
    for pixel in small.pixels.chunks(3) {
        assert_eq!(pixel, &[255, 0, 0]);
    }
}

#[test]
fn derivatives_are_jpeg_files_of_the_right_size() {
    let (thumbnail, webview) = render(&plain(400, 200, [10, 200, 30])).unwrap();
    assert_eq!(&thumbnail[..2], &[0xff, 0xd8]);
    assert_eq!(&webview[..2], &[0xff, 0xd8]);
    let small = image::load_from_memory(&thumbnail).unwrap();
    assert_eq!((small.width(), small.height()), (200, 150));
    let view = image::load_from_memory(&webview).unwrap();
    assert_eq!((view.width(), view.height()), (1024, 512));
    assert_eq!(image::guess_format(&thumbnail).unwrap(), image::ImageFormat::Jpeg);
    assert_eq!(image::guess_format(&webview).unwrap(), image::ImageFormat::Jpeg);
}

#[test]
fn derivatives_are_the_same_each_time() {
    let picture = numbered(40, 30);
    let (one, _) = render(&picture).unwrap();
    let (other, _) = render(&picture).unwrap();
    assert_eq!(one, other);
}

#[test]
fn picture_needs_three_bytes_for_each_pixel() {
    let picture = Picture::new(2, 3, vec![0; 18]).unwrap();
    assert_eq!((picture.width, picture.height), (2, 3));
    assert_eq!(picture.pixels, vec![0; 18]);
    assert!(Picture::new(2, 3, vec![0; 17]).is_none());
    assert!(Picture::new(2, 3, vec![0; 19]).is_none());
    assert!(Picture::new(2, 3, Vec::new()).is_none());
    assert!(Picture::new(0, 3, Vec::new()).is_some());
    assert!(Picture::new(u32::MAX, u32::MAX, Vec::new()).is_none());
}
