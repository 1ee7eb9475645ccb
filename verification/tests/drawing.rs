use epd_core::frame::GrayFrame;
use epd_core::font::glyph;
use epd_core::line::line_points;

const W: usize = 128;
const H: usize = 296;
const BPR: usize = 16;

#[test]
fn fresh_buffer_is_blank() {
    let fb = GrayFrame::new(W, H);
    assert_eq!(fb.high_buffer().len(), BPR * H);
    assert_eq!(fb.low_buffer().len(), BPR * H);
    assert!(fb.high_buffer().iter().all(|&b| b == 0xFF));
    assert!(fb.low_buffer().iter().all(|&b| b == 0xFF));
    assert_eq!(fb.get_pixel(0, 0), 3);
    assert_eq!(fb.get_pixel(W - 1, H - 1), 3);
}

#[test]
fn pixel_round_trip_all_levels() {
    let mut fb = GrayFrame::new(W, H);
    for g in 0u8..4 {
        for &(x, y) in &[(0usize, 0usize), (W - 1, 0), (0, H - 1), (W - 1, H - 1), (37, 153)] {
            fb.set_pixel(x, y, g);
            assert_eq!(fb.get_pixel(x, y), g);
        }
    }
}

#[test]
fn set_pixel_leaves_neighbours_alone() {
    let mut fb = GrayFrame::new(W, H);
    fb.set_pixel(10, 10, 0);
    assert_eq!(fb.get_pixel(10, 10), 0);
    assert_eq!(fb.get_pixel(9, 10), 3);
    assert_eq!(fb.get_pixel(11, 10), 3);
    assert_eq!(fb.get_pixel(10, 9), 3);
    assert_eq!(fb.get_pixel(10, 11), 3);
}

#[test]
fn primitives_fully_outside_change_nothing() {
    let mut fb = GrayFrame::new(W, H);
    let high_before = fb.high_buffer().clone();
    let low_before = fb.low_buffer().clone();

    fb.fill_rectangle(-100, -100, 20, 20, 0);
    fb.fill_rectangle(W as i32, 5, 10, 10, 0);
    fb.fill_rectangle(5, H as i32, 10, 10, 1);
    fb.fill_rectangle(5, 5, 0, 10, 0);
    fb.draw_line(-50, -50, -10, -30, 0, 2);
    fb.draw_line(W as i32 + 5, 0, W as i32 + 40, H as i32, 0, 1);
    fb.draw_glyph_run(b"Hello", -1000, 5, 0);
    fb.draw_glyph_run(b"Hello", 5, H as i32, 0);
    fb.blit_bitmap(&[0xFF, 0xFF], 8, -20, -20);
    fb.blit_bitmap(&[0xFF, 0xFF], 8, W as i32, 0);

    assert_eq!(fb.high_buffer(), &high_before);
    assert_eq!(fb.low_buffer(), &low_before);
}

#[test]
fn refill_only_final_level_observable() {
    let mut twice = GrayFrame::new(W, H);
    twice.fill_rectangle(30, 40, 12, 9, 2);
    twice.fill_rectangle(30, 40, 12, 9, 1);

    let mut once = GrayFrame::new(W, H);
    once.fill_rectangle(30, 40, 12, 9, 1);

    assert_eq!(twice.high_buffer(), once.high_buffer());
    assert_eq!(twice.low_buffer(), once.low_buffer());
    assert_eq!(twice.get_pixel(35, 44), 1);
}

#[test]
fn line_rasterization_connected_and_deterministic() {
    let pts = line_points(200, 20, 240, 107);
    assert!(pts.len() >= 2);
    assert_eq!(pts[0], (200, 20));
    assert_eq!(pts[pts.len() - 1], (240, 107));
    for w in pts.windows(2) {
        let (ax, ay) = w[0];
        let (bx, by) = w[1];
        assert!((ax - bx).abs() <= 1, "gap in x between {:?} and {:?}", w[0], w[1]);
        assert!((ay - by).abs() <= 1, "gap in y between {:?} and {:?}", w[0], w[1]);
        assert!(w[0] != w[1], "stalled at {:?}", w[0]);
    }
    let again = line_points(200, 20, 240, 107);
    assert_eq!(pts, again);

    let mut a = GrayFrame::new(512, 512);
    a.draw_line(200, 20, 240, 107, 0, 2);
    let mut b = GrayFrame::new(512, 512);
    b.draw_line(200, 20, 240, 107, 0, 2);
    assert_eq!(a.high_buffer(), b.high_buffer());
    assert_eq!(a.low_buffer(), b.low_buffer());
}

#[test]
fn diagonal_line_paints_its_cells() {
    let mut fb = GrayFrame::new(W, H);
    fb.draw_line(0, 0, 3, 3, 0, 1);
    for k in 0..4 {
        assert_eq!(fb.get_pixel(k, k), 0);
    }
    assert_eq!(fb.get_pixel(5, 5), 3);
}

#[test]
fn glyphs_have_ink_and_blanks_do_not() {
    assert_ne!(glyph(b'H'), 0);
    assert_ne!(glyph(b'e'), 0);
    assert_eq!(glyph(b' '), 0);
    // The 'H' design has ink in its top-left corner.
    assert_eq!(glyph(b'H') & 1, 1);
}

#[test]
fn blit_is_a_dark_overlay_on_the_high_plane_only() {
    let mut fb = GrayFrame::new(W, H);
    // One row, eight pixels wide, only the leftmost bit set.
    fb.blit_bitmap(&[0b1000_0000], 8, 0, 0);
    // High bit cleared, low bit untouched: level drops from 3 to 1.
    assert_eq!(fb.get_pixel(0, 0), 1);
    for x in 1..8 {
        assert_eq!(fb.get_pixel(x, 0), 3);
    }
    assert!(fb.low_buffer().iter().all(|&b| b == 0xFF));
}

#[test]
fn end_to_end_compose_panel_native() {
    let mut fb = GrayFrame::new(128, 296);
    fb.draw_glyph_run(b"Hello", 10, 15, 0);
    fb.fill_rectangle(50, 50, 25, 25, 1);

    // Row 50, column 50 carries the level-1 encoding: high bit clear, low
    // bit set. Within the byte covering columns 48..=55, columns 48 and 49
    // keep the blank level 3.
    let idx = 50 * BPR + 50 / 8;
    assert_eq!(fb.high_buffer()[idx], 0b1100_0000);
    assert_eq!(fb.low_buffer()[idx], 0xFF);
    assert_eq!(fb.get_pixel(50, 50), 1);
    assert_eq!(fb.get_pixel(74, 74), 1);
    assert_eq!(fb.get_pixel(75, 75), 3);

    // Row 15, column 10 is the top-left corner of the 'H': darkest level,
    // both plane bits clear.
    assert_eq!(fb.get_pixel(10, 15), 0);
    let hidx = 15 * BPR + 10 / 8;
    let bit = 7 - (10 % 8);
    assert_eq!((fb.high_buffer()[hidx] >> bit) & 1, 0);
    assert_eq!((fb.low_buffer()[hidx] >> bit) & 1, 0);
}
