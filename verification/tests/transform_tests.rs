use gd_icon_renderer::raster::Raster;
use gd_icon_renderer::transform::is_black;
use gd_icon_renderer::transform::quarter_turns_of;
use gd_icon_renderer::transform::scale_image;
use gd_icon_renderer::transform::scale_length;
use gd_icon_renderer::transform::tint;
use gd_icon_renderer::transform::transform;
use gd_icon_renderer::transform::turn;
use gd_icon_renderer::transform::Color;
use gd_icon_renderer::transform::RenderError;

fn sample() -> Raster {
    // 3 wide, 2 high
    let mut data = Vec::new();
    for i in 0..6u8 {
        data.extend_from_slice(&[10 * i + 5, 200, 100 + i, 40 * i + 7]);
    }
    Raster::from_raw(3, 2, data).unwrap()
}

const WHITE: Color = Color { r: 255, g: 255, b: 255 };
const BLACK: Color = Color { r: 0, g: 0, b: 0 };

#[test]
fn transform_without_anything_is_identity() {
    let img = sample();
    let out = transform(&img, None, None, None).unwrap();
    assert_eq!((out.width, out.height), (3, 2));
    assert_eq!(out.data, img.data);
}

#[test]
fn white_tint_changes_nothing() {
    let img = sample();
    assert_eq!(tint(&img, WHITE).data, img.data);
    assert_eq!(transform(&img, Some(WHITE), None, None).unwrap().data, img.data);
}

#[test]
fn black_tint_zeroes_colour_and_keeps_alpha() {
    let img = sample();
    let out = tint(&img, BLACK);
    for y in 0..2 {
        for x in 0..3 {
            let before = img.get_pixel(x, y);
            assert_eq!(out.get_pixel(x, y), (0, 0, 0, before.3));
        }
    }
}

#[test]
fn tint_multiplies_and_cuts() {
    let img = Raster::from_raw(1, 1, vec![200, 100, 255, 9]).unwrap();
    let out = tint(&img, Color { r: 125, g: 255, b: 0 });
    // 200 * 125 / 255 = 98.03..
    assert_eq!(out.get_pixel(0, 0), (98, 100, 0, 9));
    let half = tint(&img, Color { r: 127, g: 128, b: 1 });
    // 200*127/255 = 99.6, 100*128/255 = 50.19, 255*1/255 = 1
    assert_eq!(half.get_pixel(0, 0), (99, 50, 1, 9));
}

#[test]
fn tint_above_full_intensity_stops_at_the_channel_range() {
    let img = Raster::from_raw(1, 1, vec![200, 100, 1, 77]).unwrap();
    let out = tint(&img, Color { r: 510, g: 510, b: u32::MAX });
    assert_eq!(out.get_pixel(0, 0), (255, 200, 255, 77));
}

#[test]
fn is_black_wants_all_channels_zero() {
    assert!(is_black(BLACK));
    assert!(!is_black(Color { r: 0, g: 0, b: 1 }));
    assert!(!is_black(Color { r: 255, g: 0, b: 0 }));
    assert!(!is_black(WHITE));
}

#[test]
fn zero_rotation_keeps_the_size() {
    let img = sample();
    let out = transform(&img, None, None, Some(0)).unwrap();
    assert_eq!((out.width, out.height), (3, 2));
    assert_eq!(out.data, img.data);
    let scaled = transform(&img, None, Some((2000, 3000)), Some(0)).unwrap();
    assert_eq!((scaled.width, scaled.height), (6, 6));
}

#[test]
fn quarter_turns_are_exact() {
    let img = sample();
    let quarter = transform(&img, None, None, Some(90_000)).unwrap();
    assert_eq!((quarter.width, quarter.height), (2, 3));
    assert_eq!(quarter.data, img.rotate90().data);
    let half = transform(&img, None, None, Some(180_000)).unwrap();
    assert_eq!(half.data, img.rotate180().data);
    let three = transform(&img, None, None, Some(270_000)).unwrap();
    assert_eq!(three.data, img.rotate270().data);
    let full = transform(&img, None, None, Some(360_000)).unwrap();
    assert_eq!(full.data, img.data);
}

#[test]
fn half_turn_twice_is_identity() {
    let img = sample();
    let once = transform(&img, None, None, Some(180_000)).unwrap();
    let twice = transform(&once, None, None, Some(180_000)).unwrap();
    assert_eq!(twice.data, img.data);
    assert_eq!((twice.width, twice.height), (3, 2));
}

#[test]
fn four_quarter_turns_are_identity() {
    let mut img = sample();
    for _ in 0..4 {
        img = transform(&img, None, None, Some(90_000)).unwrap();
    }
    assert_eq!(img.data, sample().data);
}

#[test]
fn negative_angles_turn_the_other_way() {
    let img = sample();
    let back = transform(&img, None, None, Some(-90_000)).unwrap();
    assert_eq!(back.data, img.rotate270().data);
    let far = transform(&img, None, None, Some(-450_000)).unwrap();
    assert_eq!(far.data, img.rotate270().data);
}

#[test]
fn other_angles_are_refused() {
    let img = sample();
    assert_eq!(transform(&img, None, None, Some(45_000)).err(), Some(RenderError::UnsupportedRotation));
    assert_eq!(transform(&img, None, None, Some(1)).err(), Some(RenderError::UnsupportedRotation));
    assert_eq!(
        transform(&img, None, None, Some(-32_500)).err(),
        Some(RenderError::UnsupportedRotation)
    );
    assert_eq!(transform(&img, None, None, Some(i64::MIN)).err(), Some(RenderError::UnsupportedRotation));
}

#[test]
fn quarter_turns_of_counts_clockwise() {
    assert_eq!(quarter_turns_of(0), Some(0));
    assert_eq!(quarter_turns_of(90_000), Some(1));
    assert_eq!(quarter_turns_of(180_000), Some(2));
    assert_eq!(quarter_turns_of(270_000), Some(3));
    assert_eq!(quarter_turns_of(360_000), Some(0));
    assert_eq!(quarter_turns_of(-90_000), Some(3));
    assert_eq!(quarter_turns_of(-180_000), Some(2));
    assert_eq!(quarter_turns_of(89_999), None);
    assert_eq!(quarter_turns_of(i64::MAX), None);
}

#[test]
fn turn_by_count() {
    let img = sample();
    assert_eq!(turn(sample(), 0).data, img.data);
    assert_eq!(turn(sample(), 1).data, img.rotate90().data);
    assert_eq!(turn(sample(), 2).data, img.rotate180().data);
    assert_eq!(turn(sample(), 3).data, img.rotate270().data);
}

#[test]
fn scale_length_rounds_to_the_nearest_pixel() {
    assert_eq!(scale_length(3, 1500), Some(5)); // 4.5 rounds up
    assert_eq!(scale_length(3, 1499), Some(4)); // 4.497
    assert_eq!(scale_length(10, 1000), Some(10));
    assert_eq!(scale_length(10, -500), Some(5));
    assert_eq!(scale_length(1, 499), Some(0));
    assert_eq!(scale_length(1, 500), Some(1));
    assert_eq!(scale_length(0, 123_456), Some(0));
    assert_eq!(scale_length(u32::MAX, 1000), Some(u32::MAX));
    assert_eq!(scale_length(u32::MAX, 1001), None);
    assert_eq!(scale_length(7, i64::MIN), None);
}

#[test]
fn scale_resamples_to_the_rounded_size() {
    let img = sample();
    let out = transform(&img, None, Some((1500, 2000)), None).unwrap();
    assert_eq!((out.width, out.height), (5, 4));
    assert_eq!(out.data.len(), 5 * 4 * 4);
    let smaller = scale_image(&img, (500, 500)).unwrap();
    assert_eq!((smaller.width, smaller.height), (2, 1));
}

#[test]
fn scale_of_a_flat_colour_keeps_the_colour() {
    let img = Raster::from_raw(2, 2, [9u8, 80, 160, 255].repeat(4)).unwrap();
    let out = scale_image(&img, (3000, 2000)).unwrap();
    assert_eq!((out.width, out.height), (6, 4));
    for y in 0..4 {
        for x in 0..6 {
            assert_eq!(out.get_pixel(x, y), (9, 80, 160, 255));
        }
    }
}

#[test]
fn scale_of_one_is_skipped() {
    let img = sample();
    assert_eq!(transform(&img, None, Some((1000, 1000)), None).unwrap().data, img.data);
}

#[test]
fn negative_scale_mirrors() {
    let img = sample();
    let h = transform(&img, None, Some((-1000, 1000)), None).unwrap();
    assert_eq!(h.data, img.fliph().data);
    let v = transform(&img, None, Some((1000, -1000)), None).unwrap();
    assert_eq!(v.data, img.flipv().data);
    let both = transform(&img, None, Some((-1000, -1000)), None).unwrap();
    assert_eq!(both.data, img.rotate180().data);
}

#[test]
fn transform_applies_tint_then_mirror_then_turn() {
    let img = sample();
    let out = transform(&img, Some(BLACK), Some((-1000, 1000)), Some(90_000)).unwrap();
    let expected = tint(&img, BLACK).fliph().rotate90();
    assert_eq!(out.data, expected.data);
    assert_eq!((out.width, out.height), (2, 3));
}

#[test]
fn scale_that_cannot_be_held_is_too_large() {
    let img = sample();
    assert_eq!(
        transform(&img, None, Some((i64::MAX, 1000)), None).err(),
        Some(RenderError::TooLarge)
    );
    assert_eq!(scale_image(&img, (1000, i64::MIN)).err(), Some(RenderError::TooLarge));
}

#[test]
fn rotation_error_comes_before_size_error() {
    let img = sample();
    assert_eq!(
        transform(&img, None, Some((i64::MAX, 1000)), Some(5)).err(),
        Some(RenderError::UnsupportedRotation)
    );
}

#[test]
fn scale_of_an_image_without_pixels() {
    let img = Raster::from_raw(0, 4, vec![]).unwrap();
    let out = scale_image(&img, (2000, 1500)).unwrap();
    assert_eq!((out.width, out.height), (0, 6));
    assert!(out.data.is_empty());
}
