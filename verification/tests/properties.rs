use std::io::Cursor;

use captcha::generate::{apply_noise, code_with};
use captcha::rng::SeededRandom;
use captcha::{Canvas, Color};

fn is_alphanumeric_ascii(c: char) -> bool {
    ('A'..='Z').contains(&c) || ('a'..='z').contains(&c) || ('0'..='9').contains(&c)
}

fn alphabet_index(c: char) -> usize {
    if ('A'..='Z').contains(&c) {
        (c as u8 - b'A') as usize
    } else if ('a'..='z').contains(&c) {
        26 + (c as u8 - b'a') as usize
    } else {
        52 + (c as u8 - b'0') as usize
    }
}

fn noisy_canvas(seed: u64) -> Canvas {
    let mut img = Canvas::new(100, 50);
    img.fill_vertical_gradient(
        Color { r: 0x22, g: 0xd3, b: 0xee, a: 0xff },
        Color { r: 0x16, g: 0x4e, b: 0x63, a: 0xff },
    );
    let mut rng = SeededRandom::from_seed(seed);
    apply_noise(&mut img, &mut rng);
    img
}

#[test]
fn code_shape_held_over_many_draws() {
    // every code is five characters from A-Z, a-z, 0-9
    for _ in 0..10_000 {
        let code = captcha::code();
        assert_eq!(code.chars().count(), 5);
        assert!(code.chars().all(is_alphanumeric_ascii));
    }
}

#[test]
fn code_positions_cover_alphabet_uniformly() {
    // over many seeded draws every character shows up in every position with
    // a frequency close to samples / 62
    const SAMPLES: usize = 12_400;
    let mut counts = [[0u32; 62]; 5];
    let mut rng = SeededRandom::from_seed(7);
    for _ in 0..SAMPLES {
        let code = code_with(&mut rng);
        for (pos, c) in code.chars().enumerate() {
            counts[pos][alphabet_index(c)] += 1;
        }
    }
    // expected 200 per cell; a generous confidence band around it
    for pos in 0..5 {
        for k in 0..62 {
            let n = counts[pos][k];
            assert!(
                (100..=320).contains(&n),
                "position {pos}, alphabet entry {k}: {n} draws"
            );
        }
    }
}

#[test]
fn canvas_dimensions_and_opacity() {
    // the generated raster is exactly 100 x 50 and fully opaque everywhere
    let img = noisy_canvas(3);
    assert_eq!(img.width, 100);
    assert_eq!(img.height, 50);
    let bytes = img.to_rgba_bytes();
    assert_eq!(bytes.len(), 100 * 50 * 4);
    for i in 0..(100 * 50) {
        assert_eq!(bytes[4 * i + 3], 255);
    }
}

#[test]
fn png_round_trip_keeps_dimensions_and_channels() {
    // encoding the canvas as PNG and decoding it gives the same 8-bit RGBA
    // raster back
    let img = noisy_canvas(11);
    let encoded = image::RgbaImage::from_raw(img.width, img.height, img.to_rgba_bytes()).unwrap();
    let mut buf: Vec<u8> = vec![];
    encoded
        .write_to(&mut Cursor::new(&mut buf), image::ImageFormat::Png)
        .unwrap();
    let decoded = image::load_from_memory(&buf).unwrap();
    assert_eq!(decoded.width(), 100);
    assert_eq!(decoded.height(), 50);
    let rgba = decoded.to_rgba8();
    assert_eq!(rgba.as_raw().as_slice(), img.to_rgba_bytes().as_slice());
}

#[test]
fn gradient_boundary_rows_are_exact() {
    let mut img = Canvas::new(100, 50);
    img.fill_vertical_gradient(
        Color { r: 0x22, g: 0xd3, b: 0xee, a: 0xff },
        Color { r: 0x16, g: 0x4e, b: 0x63, a: 0xff },
    );
    assert_eq!(img.pixel_at(0, 0), Color { r: 0x22, g: 0xd3, b: 0xee, a: 0xff });
    assert_eq!(img.pixel_at(0, 49), Color { r: 0x16, g: 0x4e, b: 0x63, a: 0xff });
    for x in 0..100u32 {
        assert_eq!(img.pixel_at(x, 0), Color { r: 0x22, g: 0xd3, b: 0xee, a: 0xff });
        assert_eq!(img.pixel_at(x, 49), Color { r: 0x16, g: 0x4e, b: 0x63, a: 0xff });
    }
}

#[test]
fn line_trace_is_painted_whole() {
    // an independent Bresenham walk of (0,0)-(99,49): every visited pixel of
    // the drawn line is red, and nothing else was painted
    let black = Color { r: 0, g: 0, b: 0, a: 255 };
    let red = Color { r: 255, g: 0, b: 0, a: 255 };
    let mut img = Canvas::filled(100, 50, black);
    img.draw_line(0, 0, 99, 49, red);

    let mut visited: Vec<(i64, i64)> = vec![];
    let (mut x, mut y): (i64, i64) = (0, 0);
    let (x1, y1): (i64, i64) = (99, 49);
    let dx: i64 = 99;
    let dy: i64 = -49;
    let (sx, sy): (i64, i64) = (1, 1);
    let mut err = dx + dy;
    loop {
        visited.push((x, y));
        if x == x1 && y == y1 {
            break;
        }
        let e2 = 2 * err;
        if e2 >= dy {
            err += dy;
            x += sx;
        }
        if e2 <= dx {
            err += dx;
            y += sy;
        }
    }
    for &(px, py) in &visited {
        assert_eq!(img.pixel_at(px as u32, py as u32), red);
    }
    let mut red_count = 0usize;
    for yy in 0..50u32 {
        for xx in 0..100u32 {
            if img.pixel_at(xx, yy) == red {
                red_count += 1;
            }
        }
    }
    assert_eq!(red_count, visited.len());
    assert_eq!(visited.len(), 100);
}

#[test]
fn seeded_generation_is_reproducible() {
    // the same seed gives the same code and the same canvas; a fixed seed
    // gives a known code
    let mut rng = SeededRandom::from_seed(1);
    assert_eq!(code_with(&mut rng), "z8Zkh");
    let mut rng = SeededRandom::from_seed(12345);
    assert_eq!(code_with(&mut rng), "MZNi3");

    let a = noisy_canvas(99);
    let b = noisy_canvas(99);
    assert_eq!(a.to_rgba_bytes(), b.to_rgba_bytes());
    let c = noisy_canvas(100);
    assert!(c.to_rgba_bytes() != a.to_rgba_bytes());
}

#[test]
fn degenerate_curve_control_points_are_clamped() {
    // a seeded run that drives the curve control sampling through its
    // degenerate ranges still terminates and keeps the canvas opaque
    for seed in 0..50u64 {
        let img = noisy_canvas(seed);
        let bytes = img.to_rgba_bytes();
        for i in 0..(100 * 50) {
            assert_eq!(bytes[4 * i + 3], 255);
        }
    }
}
