use lolwut::Canvas;

#[test]
fn blank_canvas_renders_blank_patterns() {
    let canvas = Canvas::create(8, 8).unwrap();
    let text = canvas.render();
    assert_eq!(text, "\u{2800}\u{2800}\u{2800}\u{2800}\n\u{2800}\u{2800}\u{2800}\u{2800}\n");
    for c in text.chars() {
        assert!(c == '\u{2800}' || c == '\n');
    }
}

#[test]
fn blank_canvas_of_any_size_renders_blank_patterns() {
    for (w, h) in [(1u32, 1u32), (2, 4), (3, 5), (7, 9), (132, 196)] {
        let canvas = Canvas::create(w, h).unwrap();
        let cols = (w as usize + 1) / 2;
        let rows = (h as usize + 3) / 4;
        let mut expected = String::new();
        for _ in 0..rows {
            for _ in 0..cols {
                expected.push('\u{2800}');
            }
            expected.push('\n');
        }
        assert_eq!(canvas.render(), expected);
    }
}

#[test]
fn each_pixel_of_a_tile_has_its_bit() {
    let places = [(0, 0), (0, 1), (0, 2), (1, 0), (1, 1), (1, 2), (0, 3), (1, 3)];
    for (bit, (x, y)) in places.into_iter().enumerate() {
        let mut canvas = Canvas::create(2, 4).unwrap();
        canvas.draw_pixel(x, y, 1);
        let glyph = char::from_u32(0x2800 + (1u32 << bit)).unwrap();
        let mut expected = String::new();
        expected.push(glyph);
        expected.push('\n');
        assert_eq!(canvas.render(), expected);
    }
}

#[test]
fn full_tile_is_the_last_pattern() {
    let mut canvas = Canvas::create(2, 4).unwrap();
    canvas.fill();
    assert_eq!(canvas.render(), "\u{28ff}\n");
}

#[test]
fn any_byte_but_zero_counts_as_on() {
    let mut canvas = Canvas::create(2, 4).unwrap();
    canvas.draw_pixel(0, 0, 200);
    canvas.draw_pixel(1, 3, 2);
    assert_eq!(canvas.render(), "\u{2881}\n");
}

#[test]
fn tiles_beyond_the_edge_count_the_missing_pixels_as_off() {
    let mut canvas = Canvas::create(3, 5).unwrap();
    assert_eq!(canvas.render(), "\u{2800}\u{2800}\n\u{2800}\u{2800}\n");
    canvas.draw_pixel(2, 4, 1);
    assert_eq!(canvas.render(), "\u{2800}\u{2800}\n\u{2800}\u{2801}\n");
    canvas.fill();
    // left tiles are whole above and one row below; right tiles hold one column
    assert_eq!(canvas.render(), "\u{28ff}\u{2847}\n\u{2809}\u{2801}\n");
}

#[test]
fn tiles_come_row_after_row_from_the_left() {
    let mut canvas = Canvas::create(4, 8).unwrap();
    canvas.draw_pixel(0, 0, 1);
    canvas.draw_pixel(3, 0, 1);
    canvas.draw_pixel(0, 7, 1);
    canvas.draw_pixel(3, 7, 1);
    assert_eq!(canvas.render(), "\u{2801}\u{2808}\n\u{2840}\u{2880}\n");
}

#[test]
fn line_across_a_canvas_in_text() {
    let mut canvas = Canvas::create(4, 4).unwrap();
    canvas.draw_line(0, 0, 3, 0, 1);
    assert_eq!(canvas.render(), "\u{2809}\u{2809}\n");
    canvas.draw_line(0, 0, 3, 3, 1);
    // left tile: (0,0) (1,0) (1,1); right tile: (2,0) (3,0) (2,2) (3,3)
    assert_eq!(canvas.render(), "\u{2819}\u{288d}\n");
}

#[test]
fn each_glyph_takes_three_bytes() {
    let canvas = Canvas::create(6, 4).unwrap();
    assert_eq!(canvas.render().len(), 3 * 3 + 1);
}

#[test]
fn plain_text_has_a_character_for_each_pixel() {
    let mut canvas = Canvas::create(3, 2).unwrap();
    assert_eq!(canvas.render_ascii(), "...\n...\n");
    canvas.draw_pixel(1, 0, 1);
    canvas.draw_pixel(2, 1, 7);
    assert_eq!(canvas.render_ascii(), ".@.\n..?\n");
    canvas.fill();
    assert_eq!(canvas.render_ascii(), "@@@\n@@@\n");
}

#[test]
fn plain_text_of_an_empty_canvas() {
    assert_eq!(Canvas::create(0, 0).unwrap().render_ascii(), "");
    assert_eq!(Canvas::create(0, 2).unwrap().render_ascii(), "\n\n");
    assert_eq!(Canvas::create(2, 0).unwrap().render_ascii(), "");
    assert_eq!(Canvas::create(0, 0).unwrap().render(), "");
    assert_eq!(Canvas::create(2, 0).unwrap().render(), "");
}
