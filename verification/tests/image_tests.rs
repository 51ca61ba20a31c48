use soft2d::{ivec2, Color, Config, Image, Surface};

#[test]
fn new_fills_with_color() {
    let img = Image::new(3, 2, Color::green());
    assert_eq!(img.size(), ivec2(3, 2));
    for y in 0..2 {
        for x in 0..3 {
            assert_eq!(img.get_pixel(ivec2(x, y)), Color::green());
        }
    }
}

#[test]
fn set_then_get_pixel() {
    let mut img = Image::new(4, 4, Color::black());
    img.set_pixel(ivec2(2, 3), Color::red());
    assert_eq!(img.get_pixel(ivec2(2, 3)), Color::red());
    assert_eq!(img.get_pixel(ivec2(3, 2)), Color::black());
    assert_eq!(img.get_pixel(ivec2(0, 0)), Color::black());
}

#[test]
fn clear_overwrites_everything() {
    let mut img = Image::new(3, 3, Color::black());
    img.set_pixel(ivec2(1, 1), Color::red());
    img.clear(Color::cyan());
    for y in 0..3 {
        for x in 0..3 {
            assert_eq!(img.get_pixel(ivec2(x, y)), Color::cyan());
        }
    }
}

#[test]
fn zero_sized_images() {
    let img = Image::new(0, 5, Color::red());
    assert_eq!(img.size(), ivec2(0, 5));
    let img = Image::new(5, 0, Color::red());
    assert_eq!(img.size(), ivec2(5, 0));
}

#[test]
fn from_rgba_bytes_lays_out_row_major() {
    let bytes: Vec<u8> = vec![
        10, 20, 30, 255,
        11, 21, 31, 128,
        12, 22, 32, 0,
        13, 23, 33, 1,
    ];
    let img = Image::from_rgba_bytes(2, 2, &bytes);
    assert_eq!(img.size(), ivec2(2, 2));
    assert_eq!(img.get_pixel(ivec2(0, 0)), Color::from_rgba(10, 20, 30, 255));
    assert_eq!(img.get_pixel(ivec2(1, 0)), Color::from_rgba(11, 21, 31, 128));
    assert_eq!(img.get_pixel(ivec2(0, 1)), Color::from_rgba(12, 22, 32, 0));
    assert_eq!(img.get_pixel(ivec2(1, 1)), Color::from_rgba(13, 23, 33, 1));
}

#[test]
fn index_is_row_major() {
    assert_eq!(<Image as Surface>::index(ivec2(2, 3), 10), 32);
    assert_eq!(<Image as Surface>::index(ivec2(0, 0), 7), 0);
}

#[test]
fn config_default_values() {
    let config = Config::default();
    assert_eq!(config.title, "Soft2D Window");
    assert_eq!(config.width, 640);
    assert_eq!(config.height, 480);
    assert_eq!(config.target_fps, Some(60));
}

#[test]
fn ivec2_equality() {
    assert_eq!(ivec2(3, -4), ivec2(3, -4));
    assert_ne!(ivec2(3, -4), ivec2(-4, 3));
    let v = ivec2(7, 9);
    assert_eq!(v.x, 7);
    assert_eq!(v.y, 9);
}
