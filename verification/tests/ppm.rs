use ppm_raster::ppm::render_raster;
use ppm_raster::ppm::PPMColor;
use ppm_raster::ppm::PPMImage;

#[test]
fn new_image_has_configured_dimensions() {
    let img = PPMImage::new(4, 3);
    assert_eq!(img.width(), 4);
    assert_eq!(img.height(), 3);
}

#[test]
fn new_image_is_black() {
    let img = PPMImage::new(3, 2);
    for y in 0..2 {
        for x in 0..3 {
            assert_eq!(img.pixel(x, y), PPMColor::new(0, 0, 0));
        }
    }
}

#[test]
fn default_color_is_black() {
    assert_eq!(PPMColor::default(), PPMColor::new(0, 0, 0));
}

#[test]
fn set_then_get_round_trip() {
    let mut img = PPMImage::new(4, 3);
    img.set_pixel(2, 1, PPMColor::new(10, 20, 30));
    assert_eq!(img.pixel(2, 1), PPMColor::new(10, 20, 30));
}

#[test]
fn set_pixel_leaves_others_untouched() {
    let mut img = PPMImage::new(3, 3);
    img.set_pixel(1, 1, PPMColor::new(200, 100, 50));
    for y in 0..3 {
        for x in 0..3 {
            if (x, y) != (1, 1) {
                assert_eq!(img.pixel(x, y), PPMColor::new(0, 0, 0));
            }
        }
    }
}

#[test]
fn header_holds_the_dimensions() {
    let img = PPMImage::new(4, 3);
    assert!(img.to_ppm_string().starts_with("P3\n4 3\n255\n"));
}

#[test]
fn header_with_multi_digit_dimensions() {
    let img = PPMImage::new(400, 225);
    assert!(img.to_ppm_string().starts_with("P3\n400 225\n255\n"));
}

#[test]
fn one_line_per_pixel() {
    let img = PPMImage::new(5, 7);
    let text = img.to_ppm_string();
    assert_eq!(text.lines().count(), 3 + 5 * 7);
}

#[test]
fn black_pixel_serializes_to_zeros() {
    let img = PPMImage::new(1, 1);
    assert_eq!(img.to_ppm_string(), "P3\n1 1\n255\n0 0 0\n");
}

#[test]
fn white_pixel_serializes_to_255s() {
    let mut img = PPMImage::new(1, 1);
    img.set_pixel(0, 0, PPMColor::new(255, 255, 255));
    assert_eq!(img.to_ppm_string(), "P3\n1 1\n255\n255 255 255\n");
}

#[test]
fn pixels_serialize_in_row_major_order() {
    let mut img = PPMImage::new(2, 2);
    img.set_pixel(0, 0, PPMColor::new(1, 1, 1));
    img.set_pixel(1, 0, PPMColor::new(2, 2, 2));
    img.set_pixel(0, 1, PPMColor::new(3, 3, 3));
    img.set_pixel(1, 1, PPMColor::new(4, 4, 4));
    assert_eq!(
        img.to_ppm_string(),
        "P3\n2 2\n255\n1 1 1\n2 2 2\n3 3 3\n4 4 4\n"
    );
}

#[test]
fn new_with_keeps_the_given_pixels() {
    let pixels = vec![
        PPMColor::new(9, 8, 7),
        PPMColor::new(6, 5, 4),
        PPMColor::new(3, 2, 1),
        PPMColor::new(0, 0, 0),
        PPMColor::new(255, 0, 255),
        PPMColor::new(0, 255, 0),
    ];
    let img = PPMImage::new_with(3, 2, pixels);
    assert_eq!(img.pixel(0, 0), PPMColor::new(9, 8, 7));
    assert_eq!(img.pixel(2, 0), PPMColor::new(3, 2, 1));
    assert_eq!(img.pixel(0, 1), PPMColor::new(0, 0, 0));
    assert_eq!(img.pixel(2, 1), PPMColor::new(0, 255, 0));
}

#[test]
fn render_raster_places_each_sample_at_its_coordinates() {
    let img = render_raster(3, 2, |x, y| PPMColor::new(x as u8, y as u8, 9));
    assert_eq!(img.width(), 3);
    assert_eq!(img.height(), 2);
    for y in 0..2 {
        for x in 0..3 {
            assert_eq!(img.pixel(x, y), PPMColor::new(x as u8, y as u8, 9));
        }
    }
}

#[test]
fn identical_draw_sequences_give_identical_rasters() {
    let draws = [37u8, 101, 4, 255, 0, 18];
    let render = || {
        render_raster(3, 2, |x, y| {
            let v = draws[x + y * 3];
            PPMColor::new(v, v.wrapping_add(1), v.wrapping_add(2))
        })
    };
    assert_eq!(render().to_ppm_string(), render().to_ppm_string());
}

#[test]
fn placement_order_does_not_matter() {
    let mut first = PPMImage::new(2, 2);
    first.set_pixel(0, 0, PPMColor::new(11, 22, 33));
    first.set_pixel(1, 1, PPMColor::new(44, 55, 66));

    let mut second = PPMImage::new(2, 2);
    second.set_pixel(1, 1, PPMColor::new(44, 55, 66));
    second.set_pixel(0, 0, PPMColor::new(11, 22, 33));

    assert_eq!(first.to_ppm_string(), second.to_ppm_string());
}

#[test]
fn hex_code_of_black() {
    assert_eq!(PPMColor::new(0, 0, 0).to_hex_string(), "#000000");
}

#[test]
fn hex_code_of_white() {
    assert_eq!(PPMColor::new(255, 255, 255).to_hex_string(), "#ffffff");
}

#[test]
fn hex_code_uses_two_digits_per_channel() {
    assert_eq!(PPMColor::new(255, 16, 10).to_hex_string(), "#ff100a");
    assert_eq!(PPMColor::new(1, 171, 205).to_hex_string(), "#01abcd");
}
