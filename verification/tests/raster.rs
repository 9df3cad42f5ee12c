use image::GenericImageView;
use raytracer::raster::{render, ImageInfo, Rgb};

fn info(width: u32, height: u32) -> ImageInfo {
    ImageInfo { width, height, samples_per_pixel: 1, max_depth: 50 }
}

fn ramp(count: usize) -> Vec<Rgb> {
    let mut colors = Vec::new();
    for i in 0..count {
        let base = (3 * i) as u8;
        colors.push(Rgb { r: base, g: base + 1, b: base + 2 });
    }
    colors
}

#[test]
fn sink_row_counts_from_the_top() {
    let info = info(4, 3);
    assert_eq!(info.sink_row(0), 2);
    assert_eq!(info.sink_row(1), 1);
    assert_eq!(info.sink_row(2), 0);
}

#[test]
fn sink_row_is_its_own_inverse() {
    let info = info(7, 800);
    for y in 0..800 {
        assert_eq!(info.sink_row(info.sink_row(y)), y);
    }
}

#[test]
fn render_has_the_size_asked_for() {
    let img = render(&info(3, 2), &ramp(6)).unwrap();
    assert_eq!(img.dimensions(), (3, 2));
    assert!(img.as_rgb8().is_some());
}

#[test]
fn render_puts_the_bottom_row_last() {
    let colors = ramp(6);
    let img = render(&info(3, 2), &colors).unwrap();
    // Row 0 of the plane is the bottom: image row 1.
    assert_eq!(img.get_pixel(0, 1).0, [0, 1, 2, 255]);
    assert_eq!(img.get_pixel(1, 1).0, [3, 4, 5, 255]);
    assert_eq!(img.get_pixel(2, 1).0, [6, 7, 8, 255]);
    // Row 1 of the plane is the top: image row 0.
    assert_eq!(img.get_pixel(0, 0).0, [9, 10, 11, 255]);
    assert_eq!(img.get_pixel(1, 0).0, [12, 13, 14, 255]);
    assert_eq!(img.get_pixel(2, 0).0, [15, 16, 17, 255]);
}

#[test]
fn render_places_every_pixel() {
    let info = info(5, 7);
    let colors = ramp(35);
    let img = render(&info, &colors).unwrap();
    for y in 0..7u32 {
        for x in 0..5u32 {
            let c = colors[(y * 5 + x) as usize];
            assert_eq!(img.get_pixel(x, info.sink_row(y)).0, [c.r, c.g, c.b, 255]);
        }
    }
}

#[test]
fn render_keeps_white_and_black() {
    let colors = vec![Rgb { r: 255, g: 255, b: 255 }, Rgb { r: 0, g: 0, b: 0 }];
    let img = render(&info(1, 2), &colors).unwrap();
    assert_eq!(img.get_pixel(0, 1).0, [255, 255, 255, 255]);
    assert_eq!(img.get_pixel(0, 0).0, [0, 0, 0, 255]);
}

#[test]
fn render_of_a_single_pixel() {
    let img = render(&info(1, 1), &vec![Rgb { r: 9, g: 8, b: 7 }]).unwrap();
    assert_eq!(img.dimensions(), (1, 1));
    assert_eq!(img.get_pixel(0, 0).0, [9, 8, 7, 255]);
}

#[test]
fn render_wants_one_colour_per_pixel() {
    assert!(render(&info(3, 2), &ramp(5)).is_none());
    assert!(render(&info(3, 2), &ramp(7)).is_none());
    assert!(render(&info(3, 2), &Vec::new()).is_none());
}

#[test]
fn render_of_an_empty_image() {
    let img = render(&info(0, 4), &Vec::new()).unwrap();
    assert_eq!(img.dimensions(), (0, 4));
    let img = render(&info(4, 0), &Vec::new()).unwrap();
    assert_eq!(img.dimensions(), (4, 0));
    assert!(render(&info(0, 4), &ramp(1)).is_none());
}

#[test]
fn render_refuses_an_image_beyond_memory() {
    assert!(render(&info(u32::MAX, u32::MAX), &Vec::new()).is_none());
}

#[test]
fn rgb_compares_by_channel() {
    assert_eq!(Rgb { r: 1, g: 2, b: 3 }, Rgb { r: 1, g: 2, b: 3 });
    assert_ne!(Rgb { r: 1, g: 2, b: 3 }, Rgb { r: 1, g: 2, b: 4 });
}
