use std::io::Cursor;

use captcha::{Canvas, CaptchaError, Color};

// Encodes the canvas as PNG, as the saving step of these scenarios would.
fn encode_png(c: &Canvas) -> Vec<u8> {
    let img = image::RgbaImage::from_raw(c.width, c.height, c.to_rgba_bytes()).unwrap();
    let mut buf: Vec<u8> = vec![];
    img.write_to(&mut Cursor::new(&mut buf), image::ImageFormat::Png)
        .unwrap();
    buf
}

#[test]
fn solid_color_bg() {
    // red, fully opaque
    let pixel = Color { r: 255, g: 0, b: 0, a: 255 };
    // a canvas filled with that color
    let img = Canvas::filled(100, 100, pixel);
    for y in 0..100u32 {
        for x in 0..100u32 {
            assert_eq!(img.pixel_at(x, y), pixel);
        }
    }
    assert!(!encode_png(&img).is_empty());
}

#[test]
fn gradient_bg() {
    let mut img = Canvas::new(100, 100);
    // #22d3ee - cyan-400
    let start = Color { r: 0x22, g: 0xd3, b: 0xee, a: 0xff };
    // #164e63 - cyan-900
    let end = Color { r: 0x16, g: 0x4e, b: 0x63, a: 0xff };
    img.fill_vertical_gradient(start, end);
    assert!(!encode_png(&img).is_empty());
}

#[test]
fn draw_pixel() {
    let mut img = Canvas::new(100, 100);
    let start = Color { r: 0x22, g: 0xd3, b: 0xee, a: 0xff };
    let end = Color { r: 0x16, g: 0x4e, b: 0x63, a: 0xff };
    img.fill_vertical_gradient(start, end);

    // yellow, fully opaque
    let pixel = Color { r: 0xff, g: 0xff, b: 0x0, a: 0xff };
    img.put_pixel(12, 34, pixel);
    assert_eq!(img.pixel_at(12, 34), pixel);

    assert!(!encode_png(&img).is_empty());
}

#[test]
fn draw_line() {
    let mut img = Canvas::new(100, 100);
    let start = Color { r: 0x22, g: 0xd3, b: 0xee, a: 0xff };
    let end = Color { r: 0x16, g: 0x4e, b: 0x63, a: 0xff };
    img.fill_vertical_gradient(start, end);

    img.draw_line(12, 34, 56, 78, Color { r: 255, g: 0, b: 0, a: 255 });
    assert_eq!(img.pixel_at(12, 34), Color { r: 255, g: 0, b: 0, a: 255 });
    assert_eq!(img.pixel_at(56, 78), Color { r: 255, g: 0, b: 0, a: 255 });

    assert!(!encode_png(&img).is_empty());
}

#[test]
fn draw_curve() {
    let mut img = Canvas::new(100, 100);
    let start = Color { r: 0x22, g: 0xd3, b: 0xee, a: 0xff };
    let end = Color { r: 0x16, g: 0x4e, b: 0x63, a: 0xff };
    img.fill_vertical_gradient(start, end);

    let mut reference = Canvas::new(100, 100);
    reference.fill_vertical_gradient(start, end);

    let red = Color { r: 255, g: 0, b: 0, a: 255 };
    img.draw_cubic_bezier(78, 90, 89, 99, 78, 90, 81, 7, red);

    // whatever the curve touched, it painted in the given color
    let mut touched = 0u32;
    for y in 0..100u32 {
        for x in 0..100u32 {
            let p = img.pixel_at(x, y);
            if p != reference.pixel_at(x, y) {
                assert_eq!(p, red);
                touched += 1;
            }
        }
    }
    assert!(touched > 0);

    assert!(!encode_png(&img).is_empty());
}

#[test]
fn load_font() {
    // no parseable TrueType font can come from these bytes
    let mut img = Canvas::new(100, 100);
    let white = Color { r: 255, g: 255, b: 255, a: 255 };
    assert!(!img.draw_text(white, 0, 0, 32, &[], "A"));
    assert!(!img.draw_text(white, 0, 0, 32, &[0u8, 1, 2, 3], "A"));
}

#[test]
fn draw_text() {
    let mut img = Canvas::new(100, 100);
    let start = Color { r: 0x22, g: 0xd3, b: 0xee, a: 0xff };
    let end = Color { r: 0x16, g: 0x4e, b: 0x63, a: 0xff };
    img.fill_vertical_gradient(start, end);

    // with no parseable font the canvas must stay untouched
    let ok = img.draw_text(
        Color { r: 255, g: 255, b: 255, a: 255 },
        10,
        35,
        20,
        &[],
        "AXUM中文网",
    );
    assert!(!ok);
    let mut reference = Canvas::new(100, 100);
    reference.fill_vertical_gradient(start, end);
    for y in 0..100u32 {
        for x in 0..100u32 {
            assert_eq!(img.pixel_at(x, y), reference.pixel_at(x, y));
        }
    }

    assert!(!encode_png(&img).is_empty());
}

#[test]
fn generator() {
    // without a parseable font the generator reports exactly the font error
    let r = captcha::generator(&[]);
    assert!(matches!(r, Err(CaptchaError::InvalidFont)));
}

#[test]
fn code() {
    for _ in 0..10 {
        println!("{}", captcha::code());
    }
}
