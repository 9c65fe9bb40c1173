use gd_icon_renderer::raster::Raster;

fn sample() -> Raster {
    // 2 wide, 3 high; the red channel numbers the pixels
    let mut data = Vec::new();
    for i in 0..6u8 {
        data.extend_from_slice(&[i, 10 + i, 20 + i, 255]);
    }
    Raster::from_raw(2, 3, data).unwrap()
}

#[test]
fn from_raw_checks_the_length() {
    assert!(Raster::from_raw(2, 2, vec![0; 16]).is_some());
    assert!(Raster::from_raw(2, 2, vec![0; 15]).is_none());
    assert!(Raster::from_raw(0, 7, vec![]).is_some());
}

#[test]
fn new_is_transparent() {
    let img = Raster::new(3, 2).unwrap();
    assert_eq!(img.data, vec![0u8; 24]);
}

#[test]
fn get_pixel_reads_rows_from_the_top() {
    let img = sample();
    assert_eq!(img.get_pixel(0, 0), (0, 10, 20, 255));
    assert_eq!(img.get_pixel(1, 0), (1, 11, 21, 255));
    assert_eq!(img.get_pixel(0, 1), (2, 12, 22, 255));
    assert_eq!(img.get_pixel(1, 2), (5, 15, 25, 255));
}

#[test]
fn fliph_mirrors_columns() {
    let img = sample().fliph();
    assert_eq!((img.width, img.height), (2, 3));
    assert_eq!(img.get_pixel(0, 0).0, 1);
    assert_eq!(img.get_pixel(1, 0).0, 0);
    assert_eq!(img.get_pixel(0, 2).0, 5);
}

#[test]
fn flipv_mirrors_rows() {
    let img = sample().flipv();
    assert_eq!(img.get_pixel(0, 0).0, 4);
    assert_eq!(img.get_pixel(1, 0).0, 5);
    assert_eq!(img.get_pixel(0, 2).0, 0);
}

#[test]
fn rotate90_turns_clockwise() {
    let img = sample().rotate90();
    assert_eq!((img.width, img.height), (3, 2));
    // the left column, bottom first, becomes the top row
    assert_eq!(img.get_pixel(0, 0).0, 4);
    assert_eq!(img.get_pixel(1, 0).0, 2);
    assert_eq!(img.get_pixel(2, 0).0, 0);
    assert_eq!(img.get_pixel(0, 1).0, 5);
}

#[test]
fn rotate270_turns_counter_clockwise() {
    let img = sample().rotate270();
    assert_eq!((img.width, img.height), (3, 2));
    assert_eq!(img.get_pixel(0, 0).0, 1);
    assert_eq!(img.get_pixel(1, 0).0, 3);
    assert_eq!(img.get_pixel(2, 0).0, 5);
    assert_eq!(img.get_pixel(0, 1).0, 0);
}

#[test]
fn rotate180_twice_is_identity() {
    let img = sample();
    assert_eq!(img.rotate180().rotate180().data, img.data);
    assert_eq!(img.rotate180().get_pixel(0, 0).0, 5);
}

#[test]
fn crop_clips_to_the_raster() {
    let img = sample();
    let cut = img.crop(1, 1, 5, 5);
    assert_eq!((cut.width, cut.height), (1, 2));
    assert_eq!(cut.get_pixel(0, 0).0, 3);
    assert_eq!(cut.get_pixel(0, 1).0, 5);
    let none = img.crop(9, 9, 1, 1);
    assert_eq!((none.width, none.height), (0, 0));
}

#[test]
fn paste_copies_inside_the_canvas() {
    let canvas = Raster::new(4, 4).unwrap();
    let out = canvas.paste(&sample(), 3, 2);
    assert_eq!(out.get_pixel(3, 2), (0, 10, 20, 255));
    assert_eq!(out.get_pixel(3, 3), (2, 12, 22, 255));
    assert_eq!(out.get_pixel(2, 2), (0, 0, 0, 0));
    assert_eq!(out.get_pixel(0, 0), (0, 0, 0, 0));
}
