use stained_steel::canvas::Canvas;
use stained_steel::canvas::tiny_glyph;

/// Decodes pixel `(x, y)` of a `w`-wide canvas from its packed bytes,
/// MSB-first, row-major.
fn packed_bit(packed: &[u8], w: usize, x: usize, y: usize) -> bool {
    let k = y * w + x;
    (packed[k / 8] >> (7 - (k % 8))) & 1 == 1
}

#[test]
fn packed_length_matches_ceil() {
    let c = Canvas::new(10, 3);
    assert_eq!(c.to_packed_bytes().len(), 4); // ceil(30 / 8)
    let c2 = Canvas::new(128, 40);
    assert_eq!(c2.to_packed_bytes().len(), 640);
    let c3 = Canvas::new(8, 1);
    assert_eq!(c3.to_packed_bytes().len(), 1);
}

#[test]
fn pack_round_trip_decodes_every_pixel() {
    let mut c = Canvas::new(10, 3);
    c.set(0, 0, true);
    c.set(9, 0, true);
    c.set(3, 1, true);
    c.set(9, 2, true);
    let packed = c.to_packed_bytes();
    for y in 0..3 {
        for x in 0..10 {
            let expected = (x == 0 && y == 0) || (x == 9 && y == 0) || (x == 3 && y == 1) || (x
                == 9 && y == 2);
            assert_eq!(packed_bit(&packed, 10, x, y), expected, "pixel ({x},{y})");
        }
    }
    // The final partial byte is zero-padded.
    assert_eq!(packed[3] & 0b00000011, 0);
}

#[test]
fn out_of_bounds_set_and_invert_change_nothing() {
    let mut c = Canvas::new(6, 4);
    c.set(2, 2, true);
    let before = c.to_packed_bytes();
    c.set(-1, 0, true);
    c.set(0, -1, true);
    c.set(6, 0, true);
    c.set(0, 4, true);
    c.set(i32::MIN, i32::MAX, true);
    c.invert(-1, 0);
    c.invert(0, -1);
    c.invert(6, 3);
    c.invert(5, 4);
    assert_eq!(c.to_packed_bytes(), before);
}

#[test]
fn invert_twice_restores_pixel() {
    let mut c = Canvas::new(6, 4);
    c.set(1, 1, true);
    c.set(4, 2, true);
    let before = c.to_packed_bytes();
    for (x, y) in [(0, 0), (1, 1), (4, 2), (5, 3)] {
        c.invert(x, y);
        c.invert(x, y);
    }
    assert_eq!(c.to_packed_bytes(), before);
}

#[test]
fn clear_fills_with_background() {
    let mut c = Canvas::new(9, 2);
    c.clear(true);
    let packed = c.to_packed_bytes();
    for y in 0..2 {
        for x in 0..9 {
            assert!(packed_bit(&packed, 9, x, y));
        }
    }
    c.clear(false);
    let packed = c.to_packed_bytes();
    for y in 0..2 {
        for x in 0..9 {
            assert!(!packed_bit(&packed, 9, x, y));
        }
    }
}

#[test]
fn rect_fill_covers_exact_rectangle() {
    let mut c = Canvas::new(8, 8);
    c.rect_fill(2, 1, 3, 4, true);
    let p = c.to_packed_bytes();
    for y in 0..8 {
        for x in 0..8 {
            let inside = (2..5).contains(&x) && (1..5).contains(&y);
            assert_eq!(packed_bit(&p, 8, x, y), inside, "pixel ({x},{y})");
        }
    }
}

#[test]
fn rect_border_draws_only_edges() {
    let mut c = Canvas::new(8, 8);
    c.rect_border(1, 1, 5, 4, true);
    let p = c.to_packed_bytes();
    for y in 0..8 {
        for x in 0..8 {
            let on_border = ((1..6).contains(&x) && (y == 1 || y == 4)) || ((1..5).contains(&y)
                && (x == 1 || x == 5));
            assert_eq!(packed_bit(&p, 8, x, y), on_border, "pixel ({x},{y})");
        }
    }
}

#[test]
fn line_draws_diagonal_with_both_endpoints() {
    let mut c = Canvas::new(5, 5);
    c.line(0, 0, 4, 4, true);
    let p = c.to_packed_bytes();
    for y in 0..5 {
        for x in 0..5 {
            assert_eq!(packed_bit(&p, 5, x, y), x == y, "pixel ({x},{y})");
        }
    }
}

#[test]
fn line_horizontal_and_vertical() {
    let mut c = Canvas::new(6, 6);
    c.line(1, 2, 4, 2, true);
    c.line(5, 0, 5, 3, true);
    let p = c.to_packed_bytes();
    for y in 0..6 {
        for x in 0..6 {
            let expected = (y == 2 && (1..=4).contains(&x)) || (x == 5 && (0..=3).contains(&y));
            assert_eq!(packed_bit(&p, 6, x, y), expected, "pixel ({x},{y})");
        }
    }
}

#[test]
fn line_invert_twice_restores() {
    let mut c = Canvas::new(8, 8);
    c.rect_fill(0, 0, 8, 4, true);
    let before = c.to_packed_bytes();
    c.line_invert(0, 0, 7, 7);
    let mid = c.to_packed_bytes();
    assert_ne!(mid, before);
    c.line_invert(0, 0, 7, 7);
    assert_eq!(c.to_packed_bytes(), before);
}

#[test]
fn glyph_lookup_is_case_folded_and_partial() {
    assert_eq!(tiny_glyph('A'), Some(0x99f96));
    assert_eq!(tiny_glyph('a'), Some(0x99f96));
    assert_eq!(tiny_glyph('0'), Some(0x69996));
    assert_eq!(tiny_glyph('%'), Some(0x92649));
    assert_eq!(tiny_glyph(' '), Some(0x00000));
    assert_eq!(tiny_glyph('!'), None);
    assert_eq!(tiny_glyph('@'), None);
}

#[test]
fn draw_text_tiny_renders_glyph_rows() {
    let mut c = Canvas::new(12, 6);
    c.draw_text_tiny(0, 0, "1");
    let p = c.to_packed_bytes();
    // '1' rows, bit 0 = leftmost column: 0010, 0011, 0010, 0010, 0111.
    let rows = [0b0010u32, 0b0011, 0b0010, 0b0010, 0b0111];
    for (row, bits) in rows.iter().enumerate() {
        for col in 0..4 {
            let expected = (bits >> col) & 1 == 1;
            assert_eq!(packed_bit(&p, 12, col, row), expected, "glyph pixel ({col},{row})");
        }
    }
}

#[test]
fn draw_text_advances_five_columns_per_character() {
    let mut c = Canvas::new(16, 6);
    c.draw_text_tiny(0, 0, "--");
    let p = c.to_packed_bytes();
    // '-' is a single row at y=2 spanning columns 0..4 of the glyph cell.
    for x in 0..16 {
        let expected = x < 4 || (5..9).contains(&x);
        assert_eq!(packed_bit(&p, 16, x, 2), expected, "column {x}");
    }
}

#[test]
fn draw_text_scaled_doubles_blocks() {
    let mut c = Canvas::new(10, 12);
    c.draw_text_scaled(0, 0, "-", 2);
    let p = c.to_packed_bytes();
    // At scale 2 the '-' row expands to rows 4..6 and columns 0..8.
    for y in 0..12 {
        for x in 0..10 {
            let expected = (4..6).contains(&y) && x < 8;
            assert_eq!(packed_bit(&p, 10, x, y), expected, "pixel ({x},{y})");
        }
    }
}

#[test]
fn draw_text_invert_flips_covered_pixels() {
    let mut c = Canvas::new(8, 6);
    c.clear(true);
    c.draw_text_scaled_invert(0, 0, "-", 1);
    let p = c.to_packed_bytes();
    for x in 0..8 {
        assert_eq!(packed_bit(&p, 8, x, 2), x >= 4, "column {x}");
    }
}

#[test]
fn unmapped_characters_skip_but_advance() {
    let mut a = Canvas::new(16, 6);
    a.draw_text_tiny(0, 0, "!-");
    let mut b = Canvas::new(16, 6);
    b.draw_text_tiny(5, 0, "-");
    assert_eq!(a.to_packed_bytes(), b.to_packed_bytes());
}
