use dither::buffer::{below_index, below_left_index, below_right_index, right_index, PixelBuffer};
use dither::color::Color;
use dither::dither::dither_image_fs;
use dither::metric::find_nearest_color;
use dither::palette::{setup_palette, Palette};

fn gray(v: u8) -> Color {
    Color { r: v, g: v, b: v }
}

#[test]
fn nearest_returns_member_of_palette_exactly() {
    let palette = vec![
        Color { r: 10, g: 20, b: 30 },
        Color { r: 200, g: 100, b: 50 },
        Color { r: 0, g: 255, b: 255 },
    ];
    let c = Color { r: 200, g: 100, b: 50 };
    assert_eq!(find_nearest_color(c, &palette), c);
}

#[test]
fn nearest_ties_break_to_first_entry() {
    let palette = vec![gray(10), gray(30)];
    // 20 is equidistant from both entries; the first must win.
    assert_eq!(find_nearest_color(gray(20), &palette), gray(10));
}

#[test]
fn nearest_single_entry_palette_always_wins() {
    let e = Color { r: 77, g: 1, b: 200 };
    let palette = vec![e];
    assert_eq!(find_nearest_color(Color { r: 0, g: 0, b: 0 }, &palette), e);
    assert_eq!(find_nearest_color(Color { r: 255, g: 255, b: 255 }, &palette), e);
    assert_eq!(find_nearest_color(e, &palette), e);
}

#[test]
fn saturating_add_clamps_at_255() {
    let a = Color { r: 250, g: 1, b: 100 };
    let b = Color { r: 10, g: 2, b: 155 };
    assert_eq!(a.saturating_add(b), Color { r: 255, g: 3, b: 255 });
}

#[test]
fn saturating_sub_clamps_at_0() {
    let a = Color { r: 5, g: 100, b: 0 };
    let b = Color { r: 10, g: 40, b: 1 };
    assert_eq!(a.saturating_sub(b), Color { r: 0, g: 60, b: 0 });
}

#[test]
fn dither_single_pixel_is_nearest_replacement() {
    let raw: Vec<u8> = vec![100, 150, 200];
    let mut buf = PixelBuffer::from_raw(&raw, 1, 1).unwrap();
    let pal = Palette { colors: vec![gray(0), gray(255), Color { r: 90, g: 160, b: 210 }] };
    dither_image_fs(&mut buf, &pal);
    assert_eq!(buf.pixels, vec![Color { r: 90, g: 160, b: 210 }]);
}

#[test]
fn dither_is_identity_when_palette_holds_all_image_colors() {
    let raw: Vec<u8> = vec![
        1, 2, 3, 200, 100, 50, 200, 100, 50, 9, 9, 9, 1, 2, 3, 255, 0, 255,
    ];
    let mut buf = PixelBuffer::from_raw(&raw, 3, 2).unwrap();
    let pal = Palette {
        colors: vec![
            Color { r: 1, g: 2, b: 3 },
            Color { r: 200, g: 100, b: 50 },
            Color { r: 9, g: 9, b: 9 },
            Color { r: 255, g: 0, b: 255 },
        ],
    };
    dither_image_fs(&mut buf, &pal);
    assert_eq!(buf.to_raw_from_rgb(), raw);
}

#[test]
fn diffusion_to_right_neighbor_flips_its_quantization() {
    // Pixel 0 sits just past the midpoint, so it rounds up to white and
    // carries error -127 per channel; 7/16 of that is -56, pulling the
    // neighbor from 140 (which alone would go white) down to 84, which
    // quantizes black.
    let raw: Vec<u8> = vec![128, 128, 128, 140, 140, 140];
    let mut buf = PixelBuffer::from_raw(&raw, 2, 1).unwrap();
    let pal = Palette { colors: vec![gray(0), gray(255)] };
    dither_image_fs(&mut buf, &pal);
    assert_eq!(buf.to_raw_from_rgb(), vec![255, 255, 255, 0, 0, 0]);
}

#[test]
fn diffusion_below_rounds_half_away_from_zero() {
    // One column: only the 5/16 share goes below. Error -127 scales to
    // -39.6875, which must round to -40; 167 - 40 = 127 quantizes black,
    // while a truncated -39 would leave 128, which quantizes white.
    let raw: Vec<u8> = vec![128, 128, 128, 167, 167, 167];
    let mut buf = PixelBuffer::from_raw(&raw, 1, 2).unwrap();
    let pal = Palette { colors: vec![gray(0), gray(255)] };
    dither_image_fs(&mut buf, &pal);
    assert_eq!(buf.to_raw_from_rgb(), vec![255, 255, 255, 0, 0, 0]);
}

#[test]
fn palette_parses_valid_lines_and_skips_bad_ones() {
    let text = b"00FFFF\nFFFFFF\nZZZZZZ\nFF00FF\n".to_vec();
    let (pal, used_default) = setup_palette(&text);
    assert!(!used_default);
    assert_eq!(
        pal.colors,
        vec![
            Color { r: 0, g: 255, b: 255 },
            Color { r: 255, g: 255, b: 255 },
            Color { r: 255, g: 0, b: 255 },
        ]
    );
}

#[test]
fn palette_checks_every_character_of_a_line() {
    // Six characters with some hex digits among them are still invalid.
    let text = b"GG00FF\n0x1122\nAB CDE\n123456\n".to_vec();
    let (pal, used_default) = setup_palette(&text);
    assert!(!used_default);
    assert_eq!(pal.colors, vec![Color { r: 0x12, g: 0x34, b: 0x56 }]);
}

#[test]
fn palette_accepts_lowercase_and_crlf_lines() {
    let text = b"a0b1c2\r\n0AfF00\r\n".to_vec();
    let (pal, used_default) = setup_palette(&text);
    assert!(!used_default);
    assert_eq!(
        pal.colors,
        vec![Color { r: 0xA0, g: 0xB1, b: 0xC2 }, Color { r: 0x0A, g: 0xFF, b: 0x00 }]
    );
}

#[test]
fn palette_with_no_valid_line_falls_back_to_default() {
    let text = b"nonsense\n#\n12345\n1234567\n\n".to_vec();
    let (pal, used_default) = setup_palette(&text);
    assert!(used_default);
    assert_eq!(pal.colors, vec![Color { r: 3, g: 3, b: 3 }, gray(255)]);
}

#[test]
fn empty_palette_source_falls_back_to_default() {
    let text: Vec<u8> = Vec::new();
    let (pal, used_default) = setup_palette(&text);
    assert!(used_default);
    assert_eq!(pal.colors.len(), 2);
}

#[test]
fn from_raw_rejects_wrong_byte_count() {
    let raw: Vec<u8> = vec![1, 2, 3, 4];
    assert!(PixelBuffer::from_raw(&raw, 1, 1).is_none());
    assert!(PixelBuffer::from_raw(&raw, 2, 2).is_none());
    let raw3: Vec<u8> = vec![1, 2, 3];
    assert!(PixelBuffer::from_raw(&raw3, 1, 1).is_some());
}

#[test]
fn raw_round_trip_preserves_bytes() {
    let raw: Vec<u8> = vec![0, 1, 2, 3, 4, 5, 250, 251, 252, 253, 254, 255];
    let buf = PixelBuffer::from_raw(&raw, 4, 1).unwrap();
    assert_eq!(buf.to_raw_from_rgb(), raw);
}

fn check_neighbor_targets_in_range(w: usize, h: usize) {
    for i in 0..w * h {
        if let Some(j) = below_index(i, w, h) {
            assert!(j < w * h);
            assert_eq!(j, i + w);
            assert!(i < w * (h - 1));
        } else {
            assert!(i >= w * (h - 1));
        }
        if let Some(j) = right_index(i, w, h) {
            assert!(j < w * h);
            assert_eq!(j, i + 1);
            assert!((i + 1) % w != 0);
        } else {
            assert!((i + 1) % w == 0);
        }
        if let Some(j) = below_right_index(i, w, h) {
            assert!(j < w * h);
            assert_eq!(j, i + w + 1);
            assert!((i + 1) % w != 0 && i < w * (h - 1));
        } else {
            assert!((i + 1) % w == 0 || i >= w * (h - 1));
        }
        if let Some(j) = below_left_index(i, w, h) {
            assert!(j < w * h);
            assert_eq!(j, i + w - 1);
            assert!(i % w != 0 && i < w * (h - 1));
        } else {
            assert!(i % w == 0 || i >= w * (h - 1));
        }
    }
}

#[test]
fn boundary_policy_never_targets_outside_the_buffer() {
    check_neighbor_targets_in_range(1, 1);
    check_neighbor_targets_in_range(1, 5);
    check_neighbor_targets_in_range(5, 1);
    check_neighbor_targets_in_range(4, 3);
    check_neighbor_targets_in_range(2, 2);
}

#[test]
fn dither_one_row_never_writes_below() {
    // A 1-row image has no next row; only rightward diffusion may happen,
    // and the last pixel diffuses nowhere.
    let raw: Vec<u8> = vec![128, 128, 128, 128, 128, 128, 128, 128, 128];
    let mut buf = PixelBuffer::from_raw(&raw, 3, 1).unwrap();
    let pal = Palette { colors: vec![gray(0), gray(255)] };
    dither_image_fs(&mut buf, &pal);
    // 128 -> white (err -127); neighbor 128-56=72 -> black (err 72);
    // neighbor 128+32=160 -> white.
    assert_eq!(buf.to_raw_from_rgb(), vec![255, 255, 255, 0, 0, 0, 255, 255, 255]);
}

#[test]
fn dither_two_by_two_uniform_gray_checkerboards() {
    // All four kernel paths fire once. Pixel 0 goes white (error -127),
    // sending -56 right (128 -> 72), -40 below (128 -> 88) and -8
    // below-right (128 -> 120). Pixel 1 goes black (error 72), sending 23
    // below (120 -> 143) and 14 below-left (88 -> 102). Pixel 2 goes black
    // (error 102), sending 45 right (143 -> 188). Pixel 3 goes white.
    let raw: Vec<u8> = vec![128; 12];
    let mut buf = PixelBuffer::from_raw(&raw, 2, 2).unwrap();
    let pal = Palette { colors: vec![gray(0), gray(255)] };
    dither_image_fs(&mut buf, &pal);
    assert_eq!(
        buf.to_raw_from_rgb(),
        vec![255, 255, 255, 0, 0, 0, 0, 0, 0, 255, 255, 255]
    );
}

#[test]
fn end_to_end_two_by_two_collapses_to_single_color() {
    // Four distinct colors, and a palette holding exactly one of them:
    // every pixel must map to that one entry.
    let raw: Vec<u8> = vec![10, 20, 30, 200, 10, 10, 0, 255, 0, 5, 5, 250];
    let mut buf = PixelBuffer::from_raw(&raw, 2, 2).unwrap();
    let pal = Palette { colors: vec![Color { r: 200, g: 10, b: 10 }] };
    dither_image_fs(&mut buf, &pal);
    let out = buf.to_raw_from_rgb();
    assert_eq!(out, vec![200, 10, 10, 200, 10, 10, 200, 10, 10, 200, 10, 10]);

    // Byte-for-byte across the codec boundary: encode the result to PNG in
    // memory, decode it back, and compare the raw bytes.
    let img: image::ImageBuffer<image::Rgb<u8>, Vec<u8>> =
        image::ImageBuffer::from_raw(2, 2, out.clone()).unwrap();
    let mut png: Vec<u8> = Vec::new();
    img.write_to(&mut std::io::Cursor::new(&mut png), image::ImageFormat::Png).unwrap();
    let decoded = image::load_from_memory(&png).unwrap().to_rgb8();
    assert_eq!(decoded.width(), 2);
    assert_eq!(decoded.height(), 2);
    assert_eq!(decoded.into_raw(), out);
}
