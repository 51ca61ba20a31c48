use soft2d::{blit, blit_same_size, blit_scale, ivec2, Color, Image, Surface};

fn image_from_rows(width: u32, height: u32, pixels: &[Color]) -> Image {
    let mut img = Image::new(width, height, Color::black());
    let mut i = 0;
    for y in 0..height as i32 {
        for x in 0..width as i32 {
            img.set_pixel(ivec2(x, y), pixels[i]);
            i += 1;
        }
    }
    img
}

#[test]
fn alpha_key_skip() {
    let transparent = Color::from_rgba(1, 2, 3, 0);
    let src = image_from_rows(2, 1, &[transparent, Color::red()]);
    let mut dst = Image::new(2, 1, Color::magenta());
    blit_same_size(&mut dst, &src, ivec2(0, 0), ivec2(0, 0), ivec2(2, 1));
    assert_eq!(dst.get_pixel(ivec2(0, 0)), Color::magenta());
    assert_eq!(dst.get_pixel(ivec2(1, 0)), Color::red());
}

#[test]
fn partial_alpha_is_copied() {
    let faint = Color::from_rgba(5, 6, 7, 1);
    let src = image_from_rows(1, 1, &[faint]);
    let mut dst = Image::new(1, 1, Color::magenta());
    blit_same_size(&mut dst, &src, ivec2(0, 0), ivec2(0, 0), ivec2(1, 1));
    assert_eq!(dst.get_pixel(ivec2(0, 0)), faint);
}

#[test]
fn identity_copy() {
    let colors = [
        Color::red(),
        Color::green(),
        Color::blue(),
        Color::yellow(),
        Color::cyan(),
        Color::magenta(),
    ];
    let src = image_from_rows(3, 2, &colors);
    let mut dst = Image::new(3, 2, Color::black());
    blit_same_size(&mut dst, &src, ivec2(0, 0), ivec2(0, 0), ivec2(3, 2));
    for y in 0..2 {
        for x in 0..3 {
            assert_eq!(dst.get_pixel(ivec2(x, y)), src.get_pixel(ivec2(x, y)));
        }
    }
}

#[test]
fn clipping_negative_dst_pos() {
    let src = Image::new(10, 10, Color::red());
    let mut dst = Image::new(10, 10, Color::blue());
    blit_same_size(&mut dst, &src, ivec2(0, 0), ivec2(-5, -5), ivec2(10, 10));
    for y in 0..10 {
        for x in 0..10 {
            let expected = if x < 5 && y < 5 { Color::red() } else { Color::blue() };
            assert_eq!(dst.get_pixel(ivec2(x, y)), expected);
        }
    }
}

#[test]
fn clipping_source_side() {
    let src = image_from_rows(2, 1, &[Color::red(), Color::green()]);
    let mut dst = Image::new(4, 1, Color::blue());
    blit_same_size(&mut dst, &src, ivec2(-1, 0), ivec2(0, 0), ivec2(4, 1));
    assert_eq!(dst.get_pixel(ivec2(0, 0)), Color::blue());
    assert_eq!(dst.get_pixel(ivec2(1, 0)), Color::red());
    assert_eq!(dst.get_pixel(ivec2(2, 0)), Color::green());
    assert_eq!(dst.get_pixel(ivec2(3, 0)), Color::blue());
}

#[test]
fn scale_up_sampling() {
    let src = image_from_rows(2, 1, &[Color::red(), Color::blue()]);
    let mut dst = Image::new(4, 1, Color::black());
    blit_scale(&mut dst, &src, ivec2(0, 0), ivec2(2, 1), ivec2(0, 0), ivec2(4, 1));
    assert_eq!(dst.get_pixel(ivec2(0, 0)), Color::red());
    assert_eq!(dst.get_pixel(ivec2(1, 0)), Color::red());
    assert_eq!(dst.get_pixel(ivec2(2, 0)), Color::blue());
    assert_eq!(dst.get_pixel(ivec2(3, 0)), Color::blue());
}

#[test]
fn scale_down_sampling() {
    let a = Color::from_rgb(1, 0, 0);
    let b = Color::from_rgb(2, 0, 0);
    let c = Color::from_rgb(3, 0, 0);
    let d = Color::from_rgb(4, 0, 0);
    let src = image_from_rows(4, 1, &[a, b, c, d]);
    let mut dst = Image::new(2, 1, Color::black());
    blit_scale(&mut dst, &src, ivec2(0, 0), ivec2(4, 1), ivec2(0, 0), ivec2(2, 1));
    assert_eq!(dst.get_pixel(ivec2(0, 0)), a);
    assert_eq!(dst.get_pixel(ivec2(1, 0)), c);
}

#[test]
fn scale_two_dimensional() {
    let src = image_from_rows(2, 2, &[Color::red(), Color::green(), Color::blue(), Color::white()]);
    let mut dst = Image::new(4, 4, Color::black());
    blit_scale(&mut dst, &src, ivec2(0, 0), ivec2(2, 2), ivec2(0, 0), ivec2(4, 4));
    for y in 0..4 {
        for x in 0..4 {
            let expected = src.get_pixel(ivec2(x / 2, y / 2));
            assert_eq!(dst.get_pixel(ivec2(x, y)), expected);
        }
    }
}

#[test]
fn scale_respects_alpha_key() {
    let transparent = Color::from_rgba(9, 9, 9, 0);
    let src = image_from_rows(2, 1, &[transparent, Color::red()]);
    let mut dst = Image::new(4, 1, Color::magenta());
    blit_scale(&mut dst, &src, ivec2(0, 0), ivec2(2, 1), ivec2(0, 0), ivec2(4, 1));
    assert_eq!(dst.get_pixel(ivec2(0, 0)), Color::magenta());
    assert_eq!(dst.get_pixel(ivec2(1, 0)), Color::magenta());
    assert_eq!(dst.get_pixel(ivec2(2, 0)), Color::red());
    assert_eq!(dst.get_pixel(ivec2(3, 0)), Color::red());
}

#[test]
fn scale_clips_destination() {
    let src = Image::new(2, 1, Color::red());
    let mut dst = Image::new(3, 1, Color::blue());
    blit_scale(&mut dst, &src, ivec2(0, 0), ivec2(2, 1), ivec2(2, 0), ivec2(4, 1));
    assert_eq!(dst.get_pixel(ivec2(0, 0)), Color::blue());
    assert_eq!(dst.get_pixel(ivec2(1, 0)), Color::blue());
    assert_eq!(dst.get_pixel(ivec2(2, 0)), Color::red());
}

#[test]
fn zero_size_no_op() {
    let src = Image::new(5, 5, Color::red());
    let mut dst = Image::new(5, 5, Color::blue());
    blit_same_size(&mut dst, &src, ivec2(0, 0), ivec2(0, 0), ivec2(0, 5));
    blit_same_size(&mut dst, &src, ivec2(0, 0), ivec2(0, 0), ivec2(5, 0));
    blit_same_size(&mut dst, &src, ivec2(0, 0), ivec2(0, 0), ivec2(0, 0));
    blit_scale(&mut dst, &src, ivec2(0, 0), ivec2(5, 5), ivec2(0, 0), ivec2(0, 0));
    for y in 0..5 {
        for x in 0..5 {
            assert_eq!(dst.get_pixel(ivec2(x, y)), Color::blue());
        }
    }
}

#[test]
fn blit_defaults_copy_whole_source() {
    let src = image_from_rows(2, 2, &[Color::red(), Color::green(), Color::blue(), Color::white()]);
    let mut dst = Image::new(2, 2, Color::black());
    blit(&mut dst, &src, None, None, None, None);
    for y in 0..2 {
        for x in 0..2 {
            assert_eq!(dst.get_pixel(ivec2(x, y)), src.get_pixel(ivec2(x, y)));
        }
    }
}

#[test]
fn blit_translates_with_dst_pos() {
    let src = Image::new(1, 1, Color::red());
    let mut dst = Image::new(3, 1, Color::blue());
    blit(&mut dst, &src, None, None, Some(ivec2(2, 0)), None);
    assert_eq!(dst.get_pixel(ivec2(0, 0)), Color::blue());
    assert_eq!(dst.get_pixel(ivec2(1, 0)), Color::blue());
    assert_eq!(dst.get_pixel(ivec2(2, 0)), Color::red());
}

#[test]
fn blit_equal_sizes_dispatches_plain_copy() {
    let src = image_from_rows(2, 1, &[Color::red(), Color::green()]);
    let mut dst = Image::new(2, 1, Color::blue());
    blit(&mut dst, &src, None, Some(ivec2(2, 1)), None, Some(ivec2(2, 1)));
    assert_eq!(dst.get_pixel(ivec2(0, 0)), Color::red());
    assert_eq!(dst.get_pixel(ivec2(1, 0)), Color::green());
}

#[test]
fn blit_differing_sizes_dispatches_scale() {
    let src = image_from_rows(2, 1, &[Color::red(), Color::blue()]);
    let mut dst = Image::new(4, 1, Color::black());
    blit(&mut dst, &src, None, None, None, Some(ivec2(4, 1)));
    assert_eq!(dst.get_pixel(ivec2(0, 0)), Color::red());
    assert_eq!(dst.get_pixel(ivec2(1, 0)), Color::red());
    assert_eq!(dst.get_pixel(ivec2(2, 0)), Color::blue());
    assert_eq!(dst.get_pixel(ivec2(3, 0)), Color::blue());
}

#[test]
fn blit_sub_rectangle() {
    let src = image_from_rows(2, 2, &[Color::red(), Color::green(), Color::blue(), Color::white()]);
    let mut dst = Image::new(1, 1, Color::black());
    blit(&mut dst, &src, Some(ivec2(1, 1)), Some(ivec2(1, 1)), None, None);
    assert_eq!(dst.get_pixel(ivec2(0, 0)), Color::white());
}
