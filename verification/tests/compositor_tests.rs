use gd_icon_renderer::compositor::compose;
use gd_icon_renderer::compositor::overlay;
use gd_icon_renderer::compositor::render_layered;
use gd_icon_renderer::compositor::Layer;
use gd_icon_renderer::compositor::Placed;
use gd_icon_renderer::raster::Raster;
use gd_icon_renderer::transform::Color;
use gd_icon_renderer::transform::RenderError;
use image::Pixel;

fn solid(width: u32, height: u32, pixel: [u8; 4]) -> Raster {
    Raster::from_raw(width, height, pixel.repeat((width * height) as usize)).unwrap()
}

fn layer(image: Raster, position: (i64, i64)) -> Layer {
    Layer { image, position, color: None, scale: None, rotation: None, force_front: false }
}

#[test]
fn no_layers_is_an_error() {
    assert_eq!(render_layered(&Vec::new()).err(), Some(RenderError::NoLayers));
    assert_eq!(compose(&Vec::new()).err(), Some(RenderError::NoLayers));
}

#[test]
fn single_layer_at_the_centre_is_returned_as_it_is() {
    let mut data = Vec::new();
    for i in 0..12u8 {
        data.extend_from_slice(&[i, 2 * i, 3 * i, 100 + i]);
    }
    let img = Raster::from_raw(4, 3, data.clone()).unwrap();
    let out = render_layered(&vec![layer(img, (0, 0))]).unwrap();
    assert_eq!((out.width, out.height), (4, 3));
    assert_eq!(out.data, data);
}

#[test]
fn canvas_makes_room_for_twice_the_distance() {
    let img = solid(2, 2, [1, 2, 3, 255]);
    let out = render_layered(&vec![layer(img, (1500, -2500))]).unwrap();
    // 2 + 2 * 1.5 = 5 across, 2 + 2 * 2.5 = 7 down
    assert_eq!((out.width, out.height), (5, 7));
    // x: 2.5 + 1.5 - 1 = 3; y: 3.5 - 2.5 - 1 = 0
    for y in 0..7 {
        for x in 0..5 {
            let inside = x >= 3 && y <= 1;
            let expected = if inside { (1, 2, 3, 255) } else { (0, 0, 0, 0) };
            assert_eq!(out.get_pixel(x, y), expected, "at {} {}", x, y);
        }
    }
}

#[test]
fn canvas_room_is_cut_to_whole_pixels() {
    let img = solid(3, 3, [9, 9, 9, 255]);
    let out = render_layered(&vec![layer(img, (999, 499))]).unwrap();
    // 3 + 1.998 -> 4 across, 3 + 0.998 -> 3 down
    assert_eq!((out.width, out.height), (4, 3));
    // x: 2 + 0.999 - 1.5 = 1.499 -> 1; y: 1.5 + 0.499 - 1.5 -> 0
    assert_eq!(out.get_pixel(0, 0), (0, 0, 0, 0));
    assert_eq!(out.get_pixel(1, 0), (9, 9, 9, 255));
    assert_eq!(out.get_pixel(3, 2), (9, 9, 9, 255));
}

#[test]
fn width_and_height_are_maximised_apart() {
    let wide = layer(solid(6, 1, [1, 1, 1, 255]), (0, 0));
    let high = layer(solid(1, 4, [2, 2, 2, 255]), (0, 0));
    let out = render_layered(&vec![wide, high]).unwrap();
    assert_eq!((out.width, out.height), (6, 4));
    // base at y = 2 - 0.5 -> 1; the second layer at x = 3 - 0.5 -> 2
    assert_eq!(out.get_pixel(0, 1), (1, 1, 1, 255));
    assert_eq!(out.get_pixel(0, 0), (0, 0, 0, 0));
    assert_eq!(out.get_pixel(2, 0), (2, 2, 2, 255));
    assert_eq!(out.get_pixel(2, 1), (2, 2, 2, 255));
    assert_eq!(out.get_pixel(2, 3), (2, 2, 2, 255));
    assert_eq!(out.get_pixel(3, 1), (1, 1, 1, 255));
}

#[test]
fn base_layer_is_copied_not_blended() {
    let base = layer(solid(2, 2, [10, 20, 30, 100]), (0, 0));
    let out = render_layered(&vec![base]).unwrap();
    assert_eq!(out.get_pixel(0, 0), (10, 20, 30, 100));
}

#[test]
fn later_layers_cover_earlier_ones() {
    let red = solid(2, 2, [255, 0, 0, 255]);
    let blue = solid(2, 2, [0, 0, 255, 255]);
    let out = render_layered(&vec![layer(red, (0, 0)), layer(blue, (0, 0))]).unwrap();
    assert_eq!(out.get_pixel(1, 1), (0, 0, 255, 255));
    let red = solid(2, 2, [255, 0, 0, 255]);
    let blue = solid(2, 2, [0, 0, 255, 255]);
    let out = render_layered(&vec![layer(blue, (0, 0)), layer(red, (0, 0))]).unwrap();
    assert_eq!(out.get_pixel(1, 1), (255, 0, 0, 255));
}

#[test]
fn overlay_keeps_what_is_under_a_transparent_pixel() {
    let bottom = solid(2, 1, [5, 6, 7, 200]);
    let top = solid(2, 1, [255, 255, 255, 0]);
    let out = overlay(bottom, &top, 0, 0);
    assert_eq!(out.get_pixel(0, 0), (5, 6, 7, 200));
}

#[test]
fn overlay_blends_partial_alpha_as_the_image_crate_does() {
    let bottom = solid(3, 1, [0, 0, 255, 255]);
    let top = solid(1, 1, [255, 0, 0, 128]);
    let out = overlay(bottom, &top, 1, 0);
    let mut expected = image::Rgba([0u8, 0, 255, 255]);
    expected.blend(&image::Rgba([255u8, 0, 0, 128]));
    assert_eq!(out.get_pixel(0, 0), (0, 0, 255, 255));
    assert_eq!(out.get_pixel(1, 0), (expected.0[0], expected.0[1], expected.0[2], expected.0[3]));
    assert_eq!(out.get_pixel(2, 0), (0, 0, 255, 255));
    // the blend is neither of the two pixels
    assert!(expected.0[0] > 100 && expected.0[0] < 155);
    assert!(expected.0[2] > 100 && expected.0[2] < 155);
    assert!(expected.0[3] >= 254);
}

#[test]
fn overlay_clips_what_falls_outside() {
    let bottom = solid(3, 3, [0, 0, 0, 255]);
    let top = solid(2, 2, [9, 9, 9, 255]);
    let out = overlay(bottom, &top, -1, 2);
    assert_eq!(out.get_pixel(0, 2), (9, 9, 9, 255));
    assert_eq!(out.get_pixel(1, 2), (0, 0, 0, 255));
    assert_eq!(out.get_pixel(0, 1), (0, 0, 0, 255));
    let bottom = solid(3, 3, [0, 0, 0, 255]);
    let far = overlay(bottom, &top, 3, 0);
    assert_eq!(far.data, solid(3, 3, [0, 0, 0, 255]).data);
    let bottom = solid(3, 3, [0, 0, 0, 255]);
    let away = overlay(bottom, &top, i64::MIN, i64::MAX);
    assert_eq!(away.data, solid(3, 3, [0, 0, 0, 255]).data);
}

#[test]
fn compose_places_each_layer_by_its_own_size() {
    let base = Placed { image: solid(4, 4, [1, 1, 1, 255]), position: (0, 0) };
    let dot = Placed { image: solid(2, 2, [7, 7, 7, 255]), position: (1000, 1000) };
    let out = compose(&vec![base, dot]).unwrap();
    // canvas 4 x 4; the dot at 2 + 1 - 1 = 2
    assert_eq!((out.width, out.height), (4, 4));
    assert_eq!(out.get_pixel(1, 1), (1, 1, 1, 255));
    assert_eq!(out.get_pixel(2, 2), (7, 7, 7, 255));
    assert_eq!(out.get_pixel(3, 3), (7, 7, 7, 255));
    assert_eq!(out.get_pixel(2, 1), (1, 1, 1, 255));
}

#[test]
fn later_layer_may_start_left_of_the_canvas() {
    let base = Placed { image: solid(2, 2, [1, 1, 1, 255]), position: (0, 0) };
    // a wide layer that is moved: canvas 6 + 2 = 8 wide
    let wide = Placed { image: solid(6, 2, [3, 3, 3, 255]), position: (-1000, 0) };
    let out = compose(&vec![base, wide]).unwrap();
    assert_eq!((out.width, out.height), (8, 2));
    // base at 4 - 1 = 3; wide at 4 - 1 - 3 = 0
    assert_eq!(out.get_pixel(0, 0), (3, 3, 3, 255));
    assert_eq!(out.get_pixel(5, 0), (3, 3, 3, 255));
    assert_eq!(out.get_pixel(6, 0), (0, 0, 0, 0));
}

#[test]
fn layers_are_transformed_before_they_are_placed() {
    let mut turned = layer(solid(4, 2, [1, 2, 3, 255]), (0, 0));
    turned.rotation = Some(90_000);
    turned.color = Some(Color { r: 0, g: 255, b: 255 });
    let out = render_layered(&vec![turned]).unwrap();
    assert_eq!((out.width, out.height), (2, 4));
    assert_eq!(out.get_pixel(1, 3), (0, 2, 3, 255));
}

#[test]
fn first_failing_layer_gives_the_error() {
    let mut odd = layer(solid(1, 1, [0, 0, 0, 255]), (0, 0));
    odd.rotation = Some(10_000);
    let mut huge = layer(solid(1, 1, [0, 0, 0, 255]), (0, 0));
    huge.scale = Some((i64::MAX, i64::MAX));
    assert_eq!(
        render_layered(&vec![layer(solid(1, 1, [0, 0, 0, 255]), (0, 0)), huge, odd]).err(),
        Some(RenderError::TooLarge)
    );
}

#[test]
fn canvas_that_cannot_be_held_is_too_large() {
    let far = layer(solid(1, 1, [0, 0, 0, 255]), (i64::MAX, 0));
    assert_eq!(render_layered(&vec![far]).err(), Some(RenderError::TooLarge));
    let low = layer(solid(1, 1, [0, 0, 0, 255]), (0, i64::MIN));
    assert_eq!(render_layered(&vec![low]).err(), Some(RenderError::TooLarge));
}

#[test]
fn dropped_layers_do_not_shift_the_others() {
    // five slots, of which glow and outline are missing: what is left keeps its own tint
    let slots: Vec<Option<(Raster, Option<Color>, (i64, i64))>> = vec![
        None,
        Some((solid(2, 2, [255, 255, 255, 255]), Some(Color { r: 255, g: 0, b: 0 }), (-1000, 0))),
        None,
        Some((solid(2, 2, [255, 255, 255, 255]), Some(Color { r: 0, g: 0, b: 255 }), (1000, 0))),
        None,
    ];
    let layers: Vec<Layer> = slots
        .into_iter()
        .flatten()
        .map(|(image, color, position)| Layer {
            image,
            position,
            color,
            scale: None,
            rotation: None,
            force_front: false,
        })
        .collect();
    assert_eq!(layers.len(), 2);
    let out = render_layered(&layers).unwrap();
    assert_eq!((out.width, out.height), (4, 2));
    assert_eq!(out.get_pixel(0, 0), (255, 0, 0, 255));
    assert_eq!(out.get_pixel(1, 1), (255, 0, 0, 255));
    assert_eq!(out.get_pixel(2, 0), (0, 0, 255, 255));
    assert_eq!(out.get_pixel(3, 1), (0, 0, 255, 255));
}

#[test]
fn layer_scaled_to_nothing_is_drawn_as_nothing() {
    let mut gone = layer(solid(1, 1, [9, 9, 9, 255]), (0, 0));
    gone.scale = Some((100, 100));
    let seen = layer(solid(2, 2, [1, 2, 3, 255]), (0, 0));
    let out = render_layered(&vec![gone, seen]).unwrap();
    assert_eq!((out.width, out.height), (2, 2));
    assert_eq!(out.get_pixel(0, 0), (1, 2, 3, 255));
    let mut alone = layer(solid(1, 1, [9, 9, 9, 255]), (0, 0));
    alone.scale = Some((100, 100));
    let out = render_layered(&vec![alone]).unwrap();
    assert_eq!((out.width, out.height), (0, 0));
}

#[test]
fn layer_without_pixels_still_takes_its_room() {
    let empty = Placed { image: Raster::from_raw(0, 0, vec![]).unwrap(), position: (2000, -1000) };
    let out = compose(&vec![empty]).unwrap();
    assert_eq!((out.width, out.height), (4, 2));
    assert_eq!(out.data, vec![0u8; 32]);
}
