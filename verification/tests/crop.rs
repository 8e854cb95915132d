use spg::thumbnail::thumbnail_crop;

#[test]
fn four_by_three_is_not_cropped() {
    assert_eq!(thumbnail_crop(2000, 1500), (2000, 1500));
    assert_eq!(thumbnail_crop(4, 3), (4, 3));
    assert_eq!(thumbnail_crop(200, 150), (200, 150));
    assert_eq!(thumbnail_crop(0, 0), (0, 0));
}

#[test]
fn wide_image_loses_columns() {
    // delta_w = 2000 - 1333 = 667, delta_h is clamped to 0.
    assert_eq!(thumbnail_crop(2000, 1000), (1333, 1000));
    assert_eq!(thumbnail_crop(1920, 1080), (1440, 1080));
    assert_eq!(thumbnail_crop(3, 2), (2, 2));
}

#[test]
fn tall_image_loses_rows() {
    assert_eq!(thumbnail_crop(1000, 2000), (1000, 750));
    assert_eq!(thumbnail_crop(3024, 4032), (3024, 2268));
    assert_eq!(thumbnail_crop(5, 4), (5, 3));
}

#[test]
fn crop_is_exact_where_the_kept_side_divides() {
    for (w, h) in [(1920u32, 1080u32), (3000, 1500), (1200, 1600), (4000, 6000)] {
        let (cw, ch) = thumbnail_crop(w, h);
        assert_eq!(3 * u64::from(cw), 4 * u64::from(ch), "{}x{}", w, h);
        assert!(cw == w || ch == h);
    }
}

#[test]
fn crop_is_the_largest_part_within_four_by_three() {
    for w in 0u32..60 {
        for h in 0u32..60 {
            let (cw, ch) = thumbnail_crop(w, h);
            assert!(cw <= w && ch <= h);
            assert!(cw == w || ch == h);
            if 3 * w > 4 * h {
                assert_eq!(ch, h);
                assert_eq!(cw, 4 * h / 3);
            } else if 3 * w < 4 * h {
                assert_eq!(cw, w);
                assert_eq!(ch, 3 * w / 4);
            } else {
                assert_eq!((cw, ch), (w, h));
            }
        }
    }
}

#[test]
fn degenerate_images_crop_to_nothing() {
    assert_eq!(thumbnail_crop(1, 1), (1, 0));
    assert_eq!(thumbnail_crop(1, 5), (1, 0));
    assert_eq!(thumbnail_crop(5, 0), (0, 0));
    assert_eq!(thumbnail_crop(0, 5), (0, 0));
}

#[test]
fn crop_of_the_largest_sides_does_not_overflow() {
    assert_eq!(thumbnail_crop(u32::MAX, u32::MAX), (u32::MAX, 3221225471));
    assert_eq!(thumbnail_crop(u32::MAX, 1), (1, 1));
    assert_eq!(thumbnail_crop(1, u32::MAX), (1, 0));
}
