use pinentry_wayland::canvas::{
    GlyphImage, PixelBuffer, BACKGROUND_COLOR, CURSOR_COLOR, INPUT_BOX_COLOR, TEXT_COLOR,
};
use pinentry_wayland::render::render_frame;

fn px(buf: &PixelBuffer, x: u32, y: u32) -> [u8; 4] {
    let off = ((y * buf.width + x) * 4) as usize;
    [
        buf.data[off],
        buf.data[off + 1],
        buf.data[off + 2],
        buf.data[off + 3],
    ]
}

fn argb(color: u32) -> [u8; 4] {
    [
        (color & 0xff) as u8,
        ((color >> 8) & 0xff) as u8,
        ((color >> 16) & 0xff) as u8,
        ((color >> 24) & 0xff) as u8,
    ]
}

#[test]
fn frame_has_background_labels_box_and_cursor() {
    let mut buf = PixelBuffer::new(400, 200);
    render_frame(&mut buf, &vec![], 0, true);
    // background outside the box
    assert_eq!(px(&buf, 0, 0), argb(BACKGROUND_COLOR));
    assert_eq!(px(&buf, 399, 199), argb(BACKGROUND_COLOR));
    // input box fill
    assert_eq!(px(&buf, 25, 125), argb(INPUT_BOX_COLOR));
    assert_eq!(px(&buf, 379, 159), argb(INPUT_BOX_COLOR));
    // left and right padding stay background
    assert_eq!(px(&buf, 19, 130), argb(BACKGROUND_COLOR));
    assert_eq!(px(&buf, 380, 130), argb(BACKGROUND_COLOR));
    // cursor bar sits at the first mark slot when the secret is empty
    assert_eq!(px(&buf, 30, 140), argb(CURSOR_COLOR));
    assert_eq!(px(&buf, 31, 140), argb(CURSOR_COLOR));
    assert_eq!(px(&buf, 32, 140), argb(INPUT_BOX_COLOR));
}

#[test]
fn one_redaction_mark_per_secret_character_and_no_more() {
    let mut buf = PixelBuffer::new(400, 200);
    render_frame(&mut buf, &vec![], 3, false);
    // the centers of the first three mark slots are inked
    for i in 0..3u32 {
        assert_eq!(px(&buf, 30 + 12 * i + 3, 139), argb(TEXT_COLOR));
        assert_eq!(px(&buf, 30 + 12 * i + 4, 140), argb(TEXT_COLOR));
    }
    // the fourth slot shows the plain box fill: exactly three marks
    assert_eq!(px(&buf, 30 + 36 + 3, 139), argb(INPUT_BOX_COLOR));
    assert_eq!(px(&buf, 30 + 36 + 4, 140), argb(INPUT_BOX_COLOR));
    // un-inked cells of a drawn mark keep the box fill
    assert_eq!(px(&buf, 30, 136), argb(INPUT_BOX_COLOR));
    // no cursor was requested
    assert_eq!(px(&buf, 30 + 36, 140), argb(INPUT_BOX_COLOR));
}

#[test]
fn cursor_follows_the_last_mark() {
    let mut buf = PixelBuffer::new(400, 200);
    render_frame(&mut buf, &vec![], 2, true);
    assert_eq!(px(&buf, 30 + 24, 140), argb(CURSOR_COLOR));
    // the marks to its left survive the cursor
    assert_eq!(px(&buf, 30 + 12 + 3, 139), argb(TEXT_COLOR));
}

#[test]
fn oversized_secrets_are_clipped_not_wrapped() {
    let mut buf = PixelBuffer::new(400, 200);
    render_frame(&mut buf, &vec![], 10_000, true);
    assert_eq!(buf.data.len(), 400 * 200 * 4);
    // the row below the marks row keeps the box fill: no wrap-around of
    // marks that fall past the right edge
    assert_eq!(px(&buf, 25, 150), argb(INPUT_BOX_COLOR));
}

#[test]
fn opaque_glyph_cell_takes_the_glyph_color() {
    let mut buf = PixelBuffer::new(40, 30);
    buf.fill(BACKGROUND_COLOR);
    let glyph = GlyphImage {
        mask: vec![255; 64],
        mask_width: 8,
        mask_height: 8,
        origin_x: 10,
        origin_y: 10,
        color: 0xFFB4BEFE,
    };
    buf.composite_glyph(&glyph);
    assert_eq!(px(&buf, 10, 10), [0xFE, 0xBE, 0xB4, 0xFF]);
    assert_eq!(px(&buf, 17, 17), [0xFE, 0xBE, 0xB4, 0xFF]);
    // just outside the mask: untouched
    assert_eq!(px(&buf, 18, 17), argb(BACKGROUND_COLOR));
    assert_eq!(px(&buf, 9, 10), argb(BACKGROUND_COLOR));
}

#[test]
fn half_coverage_blends_half_way() {
    let mut buf = PixelBuffer::new(10, 10);
    let glyph = GlyphImage {
        mask: vec![128; 1],
        mask_width: 1,
        mask_height: 1,
        origin_x: 2,
        origin_y: 2,
        color: 0xFF000000, // opaque black over the zeroed buffer
    };
    buf.composite_glyph(&glyph);
    // fg_alpha = 255*128/255 = 128; channels stay 0; alpha accumulates
    assert_eq!(px(&buf, 2, 2), [0, 0, 0, 128]);
    // zero coverage elsewhere would leave bytes; check a neighbour
    assert_eq!(px(&buf, 3, 2), [0, 0, 0, 0]);
}

#[test]
fn zero_coverage_cells_change_nothing() {
    let mut buf = PixelBuffer::new(10, 10);
    buf.fill(BACKGROUND_COLOR);
    let glyph = GlyphImage {
        mask: vec![0; 16],
        mask_width: 4,
        mask_height: 4,
        origin_x: 3,
        origin_y: 3,
        color: 0xFFFFFFFF,
    };
    buf.composite_glyph(&glyph);
    for y in 0..10 {
        for x in 0..10 {
            assert_eq!(px(&buf, x, y), argb(BACKGROUND_COLOR));
        }
    }
}

#[test]
fn glyphs_near_and_past_the_edges_stay_in_bounds() {
    let mut buf = PixelBuffer::new(40, 20);
    buf.fill(BACKGROUND_COLOR);
    let mask = vec![255u8; 64];
    for &(ox, oy) in &[
        (-4i32, -4i32),
        (-8, 5),
        (36, 16),
        (40, 20),
        (-100, -100),
        (1000, 1000),
        (39, -7),
        (-7, 19),
    ] {
        let glyph = GlyphImage {
            mask: mask.clone(),
            mask_width: 8,
            mask_height: 8,
            origin_x: ox,
            origin_y: oy,
            color: 0xFFB4BEFE,
        };
        buf.composite_glyph(&glyph);
        assert_eq!(buf.data.len(), 40 * 20 * 4);
    }
    // a glyph hanging off the top-left corner colored (0,0) but not (4,4)
    assert_eq!(px(&buf, 0, 0), [0xFE, 0xBE, 0xB4, 0xFF]);
}

#[test]
fn randomized_glyph_placements_never_write_out_of_bounds() {
    let mut buf = PixelBuffer::new(64, 48);
    buf.fill(BACKGROUND_COLOR);
    let mut seed: u64 = 0x2545F4914F6CDD1D;
    let mut next = move || {
        seed = seed.wrapping_mul(6364136223846793005).wrapping_add(1442695040888963407);
        (seed >> 33) as u32
    };
    for _ in 0..200 {
        let w = next() % 16 + 1;
        let h = next() % 16 + 1;
        let ox = (next() % 200) as i32 - 100;
        let oy = (next() % 160) as i32 - 80;
        let mut mask = Vec::new();
        for _ in 0..(w * h) {
            mask.push((next() % 256) as u8);
        }
        let glyph = GlyphImage {
            mask,
            mask_width: w,
            mask_height: h,
            origin_x: ox,
            origin_y: oy,
            color: 0xFFB4BEFE,
        };
        buf.composite_glyph(&glyph);
        assert_eq!(buf.data.len(), 64 * 48 * 4);
    }
}

#[test]
fn fill_rect_clips_to_the_window() {
    let mut buf = PixelBuffer::new(40, 20);
    buf.fill(BACKGROUND_COLOR);
    buf.fill_rect(35, 100, 5, 50, TEXT_COLOR);
    assert_eq!(px(&buf, 35, 5), argb(TEXT_COLOR));
    assert_eq!(px(&buf, 39, 19), argb(TEXT_COLOR));
    assert_eq!(px(&buf, 34, 10), argb(BACKGROUND_COLOR));
    assert_eq!(px(&buf, 35, 4), argb(BACKGROUND_COLOR));
    assert_eq!(buf.data.len(), 40 * 20 * 4);
}

#[test]
fn label_glyphs_are_drawn_under_the_box() {
    // a glyph reaching into the input box region is painted over by the box
    let mut buf = PixelBuffer::new(400, 200);
    let glyph = GlyphImage {
        mask: vec![255; 64],
        mask_width: 8,
        mask_height: 8,
        origin_x: 50,
        origin_y: 118,
        color: 0xFFFFFFFF,
    };
    render_frame(&mut buf, &vec![glyph], 0, false);
    // above the box: the glyph shows
    assert_eq!(px(&buf, 50, 118), [0xFF, 0xFF, 0xFF, 0xFF]);
    // inside the box: the box fill wins
    assert_eq!(px(&buf, 50, 125), argb(INPUT_BOX_COLOR));
}
