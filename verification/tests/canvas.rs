use lolwut::{Canvas, CanvasError};

#[test]
fn create_gives_a_blank_canvas() {
    let canvas = Canvas::create(5, 3).unwrap();
    assert_eq!(canvas.width(), 5);
    assert_eq!(canvas.height(), 3);
    for y in 0..3 {
        for x in 0..5 {
            assert_eq!(canvas.get_pixel(x, y), 0);
        }
    }
}

#[test]
fn create_of_no_pixels() {
    let canvas = Canvas::create(0, 7).unwrap();
    assert_eq!(canvas.width(), 0);
    assert_eq!(canvas.height(), 7);
    assert_eq!(canvas.get_pixel(0, 0), 0);
    assert_eq!(canvas.render(), "\n\n");
}

#[test]
fn create_refuses_what_no_buffer_can_hold() {
    let r = Canvas::create(u32::MAX, u32::MAX);
    let width = u32::MAX as u128;
    let needed = width * width;
    let expected = if needed <= usize::MAX as u128 { needed as usize } else { usize::MAX };
    match r {
        Err(e) => assert_eq!(
            e,
            CanvasError::PixelBufferTooSmall { needed: expected, actual: isize::MAX as usize }
        ),
        Ok(_) => panic!("a canvas of this size cannot exist"),
    }
}

#[test]
fn write_then_read_gives_the_byte_written() {
    let mut canvas = Canvas::create(4, 3).unwrap();
    for y in 0..3 {
        for x in 0..4 {
            let v = (y * 4 + x + 1) as u8;
            canvas.draw_pixel(x, y, v);
            assert_eq!(canvas.get_pixel(x, y), v);
        }
    }
    for y in 0..3 {
        for x in 0..4 {
            assert_eq!(canvas.get_pixel(x, y), (y * 4 + x + 1) as u8);
        }
    }
    canvas.draw_pixel(2, 1, 255);
    assert_eq!(canvas.get_pixel(2, 1), 255);
    canvas.draw_pixel(2, 1, 0);
    assert_eq!(canvas.get_pixel(2, 1), 0);
}

#[test]
fn rows_are_as_far_apart_as_the_canvas_is_wide() {
    // 2 wide and 5 tall: (1, 3) is the 8th byte, and (3, 1) does not exist.
    let mut pixels = vec![0u8; 10];
    pixels[3 * 2 + 1] = 9;
    let canvas = Canvas::create_with_pixels(2, 5, pixels).unwrap();
    assert_eq!(canvas.get_pixel(1, 3), 9);
    assert_eq!(canvas.get_pixel(3, 1), 0);
    assert_eq!(canvas.get_pixel(1, 4), 0);
}

#[test]
fn outside_the_canvas_writes_do_nothing_and_reads_are_off() {
    let mut canvas = Canvas::create(4, 3).unwrap();
    canvas.fill();
    let outside = [
        (-1, 0),
        (0, -1),
        (4, 0),
        (0, 3),
        (4, 3),
        (-1, -1),
        (i32::MAX, 0),
        (0, i32::MAX),
        (i32::MIN, i32::MIN),
        (i32::MAX, i32::MAX),
    ];
    for (x, y) in outside {
        assert_eq!(canvas.get_pixel(x, y), 0);
        canvas.draw_pixel(x, y, 7);
        assert_eq!(canvas.get_pixel(x, y), 0);
    }
    for y in 0..3 {
        for x in 0..4 {
            assert_eq!(canvas.get_pixel(x, y), 1);
        }
    }
}

#[test]
fn clear_and_fill_set_every_pixel() {
    let mut canvas = Canvas::create(3, 2).unwrap();
    canvas.fill();
    for y in 0..2 {
        for x in 0..3 {
            assert_eq!(canvas.get_pixel(x, y), 1);
        }
    }
    canvas.draw_pixel(1, 1, 9);
    canvas.clear();
    for y in 0..2 {
        for x in 0..3 {
            assert_eq!(canvas.get_pixel(x, y), 0);
        }
    }
}

#[test]
fn clear_of_an_empty_canvas() {
    let mut canvas = Canvas::create(0, 0).unwrap();
    canvas.clear();
    canvas.fill();
    assert_eq!(canvas.get_pixel(0, 0), 0);
}

#[test]
fn buffer_too_small_carries_both_counts() {
    let r = Canvas::create_with_pixels(4, 3, vec![0u8; 11]);
    match r {
        Err(e) => assert_eq!(e, CanvasError::PixelBufferTooSmall { needed: 12, actual: 11 }),
        Ok(_) => panic!("11 bytes cannot back 12 pixels"),
    }
    let r = Canvas::create_with_pixels(1000, 1000, Vec::new());
    match r {
        Err(e) => assert_eq!(e, CanvasError::PixelBufferTooSmall { needed: 1_000_000, actual: 0 }),
        Ok(_) => panic!("no bytes cannot back a million pixels"),
    }
}

#[test]
fn buffer_of_the_exact_size_or_more_is_taken() {
    let canvas = Canvas::create_with_pixels(4, 3, vec![1u8; 12]).unwrap();
    assert_eq!(canvas.get_pixel(3, 2), 1);
    let mut canvas = Canvas::create_with_pixels(2, 2, vec![5u8; 9]).unwrap();
    assert_eq!(canvas.width(), 2);
    assert_eq!(canvas.height(), 2);
    assert_eq!(canvas.get_pixel(1, 1), 5);
    assert_eq!(canvas.get_pixel(0, 2), 0);
    canvas.clear();
    assert_eq!(canvas.get_pixel(1, 1), 0);
}

#[test]
fn strict_read_names_the_coordinate_and_the_canvas() {
    let mut canvas = Canvas::create(4, 3).unwrap();
    canvas.draw_pixel(3, 2, 1);
    assert_eq!(canvas.try_get_pixel(3, 2), Ok(1));
    assert_eq!(canvas.try_get_pixel(0, 0), Ok(0));
    assert_eq!(
        canvas.try_get_pixel(4, 2),
        Err(CanvasError::OutOfBounds { x: 4, y: 2, width: 4, height: 3 })
    );
    assert_eq!(
        canvas.try_get_pixel(0, -1),
        Err(CanvasError::OutOfBounds { x: 0, y: -1, width: 4, height: 3 })
    );
}

#[test]
fn strict_write_fails_outside_and_changes_nothing() {
    let mut canvas = Canvas::create(2, 2).unwrap();
    assert_eq!(canvas.try_draw_pixel(1, 1, 1), Ok(()));
    assert_eq!(canvas.get_pixel(1, 1), 1);
    assert_eq!(
        canvas.try_draw_pixel(2, 1, 1),
        Err(CanvasError::OutOfBounds { x: 2, y: 1, width: 2, height: 2 })
    );
    assert_eq!(
        canvas.try_draw_pixel(-3, 1, 1),
        Err(CanvasError::OutOfBounds { x: -3, y: 1, width: 2, height: 2 })
    );
    assert_eq!(canvas.render_ascii(), "..\n.@\n");
}
