//! The pixel buffer the dialog composes its frame into, and the drawing
//! primitives over it: every write is proved to stay inside the buffer, and
//! each primitive states exactly which pixels it colors and that it leaves
//! every other pixel untouched.

use vstd::prelude::*;

verus! {

/// Largest window dimension the compositor accepts; keeps every pixel offset
/// comfortably inside `usize` on any platform.
pub const MAX_DIM: u32 = 4096;

/// Window background color (ARGB).
pub const BACKGROUND_COLOR: u32 = 0xFF1E1E2E;
/// Fill color of the input box (ARGB).
pub const INPUT_BOX_COLOR: u32 = 0xFF313244;
/// Color of the redaction marks (ARGB).
pub const TEXT_COLOR: u32 = 0xFFB4BEFE;
/// Color of the label text (ARGB).
pub const LABEL_COLOR: u32 = 0xFFB4BEFE;
/// Color of the cursor bar (ARGB).
pub const CURSOR_COLOR: u32 = 0xFFBAC2DE;

/// Horizontal padding of the input box.
pub const INPUT_BOX_PADDING: u32 = 20;
/// Top edge of the input box.
pub const INPUT_BOX_Y: u32 = 120;
/// Height of the input box.
pub const INPUT_BOX_HEIGHT: u32 = 40;
/// Width of one redaction mark.
pub const MARK_WIDTH: u32 = 8;
/// Height of one redaction mark.
pub const MARK_HEIGHT: u32 = 8;
/// Left edge of the first redaction mark.
pub const MARK_START_X: u32 = INPUT_BOX_PADDING + 10;
/// Top edge of the redaction marks.
pub const MARK_START_Y: u32 = INPUT_BOX_Y + 16;
/// Horizontal distance between the left edges of successive marks.
pub const MARK_STRIDE: u32 = MARK_WIDTH + 4;
/// Width of the cursor bar.
pub const CURSOR_WIDTH: u32 = 2;
/// Top edge of the cursor bar.
pub const CURSOR_TOP: u32 = INPUT_BOX_Y + 10;
/// Bottom edge (exclusive) of the cursor bar.
pub const CURSOR_BOTTOM: u32 = INPUT_BOX_Y + INPUT_BOX_HEIGHT - 10;

/// Byte `j` (0 = blue, 1 = green, 2 = red, 3 = alpha) of an ARGB color as it
/// lies in the buffer.
pub open spec fn color_byte(color: u32, j: int) -> u8 {
    if j == 0 {
        (color & 0xff) as u8
    } else if j == 1 {
        ((color >> 8) & 0xff) as u8
    } else if j == 2 {
        ((color >> 16) & 0xff) as u8
    } else {
        ((color >> 24) & 0xff) as u8
    }
}

/// Byte offset of pixel `(x, y)` in a buffer of the given width.
pub open spec fn pixel_off(width: u32, x: int, y: int) -> int {
    (y * width + x) * 4
}

/// Pixel `(x, y)` of `data` holds `color`.
pub open spec fn pixel_is(data: Seq<u8>, width: u32, x: int, y: int, color: u32) -> bool {
    forall|j: int| 0 <= j < 4 ==> data[pixel_off(width, x, y) + j] == color_byte(color, j)
}

/// Pixel `(x, y)` holds the same bytes in `d1` as in `d0`.
pub open spec fn pixel_unchanged(d0: Seq<u8>, d1: Seq<u8>, width: u32, x: int, y: int) -> bool {
    forall|k: int|
        pixel_off(width, x, y) <= k < pixel_off(width, x, y) + 4 ==> #[trigger] d1[k] == d0[k]
}

/// The four bytes of a pixel inside the window lie inside the buffer.
pub proof fn lemma_pixel_off_in_range(width: u32, height: u32, x: int, y: int)
    requires
        0 <= x < width,
        0 <= y < height,
    ensures
        0 <= pixel_off(width, x, y),
        pixel_off(width, x, y) + 4 <= width * height * 4,
{
    assert(0 <= (y * width + x) * 4 && (y * width + x) * 4 + 4 <= width * height * 4)
        by (nonlinear_arith)
        requires
            0 <= x < width,
            0 <= y < height,
    ;
}

/// Distinct in-window pixels occupy disjoint byte ranges.
pub proof fn lemma_pixel_off_distinct(width: u32, x1: int, y1: int, x2: int, y2: int)
    requires
        0 <= x1 < width,
        0 <= y1,
        0 <= x2 < width,
        0 <= y2,
        x1 != x2 || y1 != y2,
    ensures
        pixel_off(width, x1, y1) + 4 <= pixel_off(width, x2, y2) || pixel_off(width, x2, y2) + 4
            <= pixel_off(width, x1, y1),
{
    assert((y1 * width + x1) + 1 <= (y2 * width + x2) || (y2 * width + x2) + 1 <= (y1 * width
        + x1)) by (nonlinear_arith)
        requires
            0 <= x1 < width,
            0 <= y1,
            0 <= x2 < width,
            0 <= y2,
            x1 != x2 || y1 != y2,
    ;
}

/// A contiguous 4-byte-per-pixel frame buffer of one window, with its
/// declared stride fixed at `width * 4`.
pub struct PixelBuffer {
    pub data: Vec<u8>,
    pub width: u32,
    pub height: u32,
}

impl PixelBuffer {
    /// Well-formedness: the buffer holds exactly `width * height * 4` bytes
    /// and the dimensions are bounded.
    pub open spec fn wf(&self) -> bool {
        &&& self.width <= MAX_DIM
        &&& self.height <= MAX_DIM
        &&& self.data@.len() == self.width as int * self.height as int * 4
    }

    /// A zeroed buffer for a window of the given size.
    pub fn new(width: u32, height: u32) -> (r: Self)
        requires
            width <= MAX_DIM,
            height <= MAX_DIM,
        ensures
            r.wf(),
            r.width == width,
            r.height == height,
    {
        proof {
            assert(width as int * height as int * 4 <= MAX_DIM as int * MAX_DIM as int * 4)
                by (nonlinear_arith)
                requires
                    width <= MAX_DIM,
                    height <= MAX_DIM,
            ;
        }
        let n: usize = (width as usize) * (height as usize) * 4;
        let data: Vec<u8> = vec![0u8; n];
        PixelBuffer { data, width, height }
    }

    /// Writes the four bytes of pixel `(x, y)` and touches nothing else.
    pub fn put_pixel_bytes(&mut self, x: u32, y: u32, b: u8, g: u8, r: u8, a: u8)
        requires
            old(self).wf(),
            x < old(self).width,
            y < old(self).height,
        ensures
            final(self).wf(),
            final(self).width == old(self).width,
            final(self).height == old(self).height,
            final(self).data@[pixel_off(old(self).width, x as int, y as int) + 0] == b,
            final(self).data@[pixel_off(old(self).width, x as int, y as int) + 1] == g,
            final(self).data@[pixel_off(old(self).width, x as int, y as int) + 2] == r,
            final(self).data@[pixel_off(old(self).width, x as int, y as int) + 3] == a,
            forall|x2: int, y2: int|
                0 <= x2 < old(self).width && 0 <= y2 < old(self).height && (x2 != x || y2 != y)
                    ==> pixel_unchanged(
                    old(self).data@,
                    final(self).data@,
                    old(self).width,
                    x2,
                    y2,
                ),
    {
        proof {
            lemma_pixel_off_in_range(self.width, self.height, x as int, y as int);
            assert(y as int * self.width as int + x as int <= MAX_DIM as int * MAX_DIM as int
                + MAX_DIM as int) by (nonlinear_arith)
                requires
                    x < self.width <= MAX_DIM,
                    y < self.height <= MAX_DIM,
            ;
        }
        let row: usize = (y as usize) * (self.width as usize);
        let idx: usize = (row + x as usize) * 4;
        proof {
            assert(idx == pixel_off(self.width, x as int, y as int));
        }
        self.data[idx] = b;
        self.data[idx + 1] = g;
        self.data[idx + 2] = r;
        self.data[idx + 3] = a;
        proof {
            assert forall|x2: int, y2: int|
                0 <= x2 < old(self).width && 0 <= y2 < old(self).height && (x2 != x || y2
                    != y) implies pixel_unchanged(
                old(self).data@,
                self.data@,
                old(self).width,
                x2,
                y2,
            ) by {
                lemma_pixel_off_distinct(old(self).width, x2, y2, x as int, y as int);
                lemma_pixel_off_in_range(old(self).width, old(self).height, x2, y2);
            }
        }
    }

    /// Writes pixel `(x, y)` in `color` and touches nothing else.
    pub fn put_pixel(&mut self, x: u32, y: u32, color: u32)
        requires
            old(self).wf(),
            x < old(self).width,
            y < old(self).height,
        ensures
            final(self).wf(),
            final(self).width == old(self).width,
            final(self).height == old(self).height,
            pixel_is(final(self).data@, old(self).width, x as int, y as int, color),
            forall|x2: int, y2: int|
                0 <= x2 < old(self).width && 0 <= y2 < old(self).height && (x2 != x || y2 != y)
                    ==> pixel_unchanged(
                    old(self).data@,
                    final(self).data@,
                    old(self).width,
                    x2,
                    y2,
                ),
    {
        let b = (color & 0xff) as u8;
        let g = ((color >> 8) & 0xff) as u8;
        let r = ((color >> 16) & 0xff) as u8;
        let a = ((color >> 24) & 0xff) as u8;
        self.put_pixel_bytes(x, y, b, g, r, a);
    }

    /// Fills the whole buffer with `color`.
    pub fn fill(&mut self, color: u32)
        requires
            old(self).wf(),
        ensures
            final(self).wf(),
            final(self).width == old(self).width,
            final(self).height == old(self).height,
            forall|x: int, y: int|
                0 <= x < old(self).width && 0 <= y < old(self).height ==> pixel_is(
                    final(self).data@,
                    old(self).width,
                    x,
                    y,
                    color,
                ),
    {
        let mut y: u32 = 0;
        while y < self.height
            invariant
                self.wf(),
                self.width == old(self).width,
                self.height == old(self).height,
                y <= self.height,
                forall|x2: int, y2: int|
                    0 <= x2 < self.width && 0 <= y2 < y ==> pixel_is(
                        self.data@,
                        self.width,
                        x2,
                        y2,
                        color,
                    ),
            decreases self.height - y,
        {
            let mut x: u32 = 0;
            while x < self.width
                invariant
                    self.wf(),
                    self.width == old(self).width,
                    self.height == old(self).height,
                    y < self.height,
                    x <= self.width,
                    forall|x2: int, y2: int|
                        0 <= x2 < self.width && 0 <= y2 < y ==> pixel_is(
                            self.data@,
                            self.width,
                            x2,
                            y2,
                            color,
                        ),
                    forall|x2: int| 0 <= x2 < x ==> pixel_is(self.data@, self.width, x2, y as int, color),
                decreases self.width - x,
            {
                let ghost prev = self.data@;
                self.put_pixel(x, y, color);
                proof {
                    assert forall|x2: int, y2: int|
                        0 <= x2 < self.width && 0 <= y2 < y implies pixel_is(
                        self.data@,
                        self.width,
                        x2,
                        y2,
                        color,
                    ) by {
                        assert(pixel_unchanged(prev, self.data@, self.width, x2, y2));
                        assert(pixel_is(prev, self.width, x2, y2, color));
                    }
                    assert forall|x2: int| 0 <= x2 < x + 1 implies pixel_is(
                        self.data@,
                        self.width,
                        x2,
                        y as int,
                        color,
                    ) by {
                        if x2 < x {
                            assert(pixel_unchanged(prev, self.data@, self.width, x2, y as int));
                            assert(pixel_is(prev, self.width, x2, y as int, color));
                        }
                    }
                }
                x += 1;
            }
            y += 1;
        }
    }

    /// Fills the part of the rectangle `[x0, x1) x [y0, y1)` that lies inside
    /// the window with `color`, touching nothing else.
    pub fn fill_rect(&mut self, x0: u32, x1: u32, y0: u32, y1: u32, color: u32)
        requires
            old(self).wf(),
        ensures
            final(self).wf(),
            final(self).width == old(self).width,
            final(self).height == old(self).height,
            forall|x: int, y: int|
                x0 <= x < x1 && y0 <= y < y1 && 0 <= x < old(self).width && 0 <= y < old(
                    self,
                ).height ==> pixel_is(final(self).data@, old(self).width, x, y, color),
            forall|x: int, y: int|
                0 <= x < old(self).width && 0 <= y < old(self).height && !(x0 <= x < x1 && y0 <= y
                    < y1) ==> pixel_unchanged(
                    old(self).data@,
                    final(self).data@,
                    old(self).width,
                    x,
                    y,
                ),
    {
        let x_end: u32 = if x1 < self.width {
            x1
        } else {
            self.width
        };
        let y_end: u32 = if y1 < self.height {
            y1
        } else {
            self.height
        };
        if x0 >= x_end || y0 >= y_end {
            return ;
        }
        let mut y: u32 = y0;
        while y < y_end
            invariant
                self.wf(),
                self.width == old(self).width,
                self.height == old(self).height,
                x0 < x_end <= self.width,
                x_end <= x1,
                y0 <= y <= y_end <= self.height,
                y_end <= y1,
                x_end == if x1 < self.width { x1 } else { self.width },
                y_end == if y1 < self.height { y1 } else { self.height },
                forall|x2: int, y2: int|
                    x0 <= x2 < x_end && y0 <= y2 < y ==> pixel_is(
                        self.data@,
                        self.width,
                        x2,
                        y2,
                        color,
                    ),
                forall|x2: int, y2: int|
                    0 <= x2 < self.width && 0 <= y2 < self.height && !(x0 <= x2 < x1 && y0 <= y2
                        < y1) ==> pixel_unchanged(old(self).data@, self.data@, self.width, x2, y2),
            decreases y_end - y,
        {
            let mut x: u32 = x0;
            while x < x_end
                invariant
                    self.wf(),
                    self.width == old(self).width,
                    self.height == old(self).height,
                    x0 <= x <= x_end <= self.width,
                    x_end <= x1,
                    y0 <= y < y_end <= self.height,
                    y_end <= y1,
                    forall|x2: int, y2: int|
                        x0 <= x2 < x_end && y0 <= y2 < y ==> pixel_is(
                            self.data@,
                            self.width,
                            x2,
                            y2,
                            color,
                        ),
                    forall|x2: int| x0 <= x2 < x ==> pixel_is(self.data@, self.width, x2, y as int, color),
                    forall|x2: int, y2: int|
                        0 <= x2 < self.width && 0 <= y2 < self.height && !(x0 <= x2 < x1 && y0 <= y2
                            < y1) ==> pixel_unchanged(
                            old(self).data@,
                            self.data@,
                            self.width,
                            x2,
                            y2,
                        ),
                decreases x_end - x,
            {
                let ghost prev = self.data@;
                self.put_pixel(x, y, color);
                proof {
                    assert forall|x2: int, y2: int|
                        x0 <= x2 < x_end && y0 <= y2 < y implies pixel_is(
                        self.data@,
                        self.width,
                        x2,
                        y2,
                        color,
                    ) by {
                        assert(pixel_unchanged(prev, self.data@, self.width, x2, y2));
                        assert(pixel_is(prev, self.width, x2, y2, color));
                    }
                    assert forall|x2: int| x0 <= x2 < x + 1 implies pixel_is(
                        self.data@,
                        self.width,
                        x2,
                        y as int,
                        color,
                    ) by {
                        if x2 < x {
                            assert(pixel_unchanged(prev, self.data@, self.width, x2, y as int));
                            assert(pixel_is(prev, self.width, x2, y as int, color));
                        }
                    }
                    assert forall|x2: int, y2: int|
                        0 <= x2 < self.width && 0 <= y2 < self.height && !(x0 <= x2 < x1 && y0 <= y2
                            < y1) implies pixel_unchanged(
                        old(self).data@,
                        self.data@,
                        self.width,
                        x2,
                        y2,
                    ) by {
                        assert(pixel_unchanged(old(self).data@, prev, self.width, x2, y2));
                        assert(pixel_unchanged(prev, self.data@, self.width, x2, y2));
                    }
                }
                x += 1;
            }
            y += 1;
        }
    }

    /// Draws the fixed 8x8 redaction mark of slot `slot`, clipped to the
    /// window, touching no pixel outside the mark's pattern.
    pub fn draw_mark(&mut self, slot: usize)
        requires
            old(self).wf(),
            slot <= MAX_DIM as usize,
        ensures
            final(self).wf(),
            final(self).width == old(self).width,
            final(self).height == old(self).height,
            forall|x: int, y: int|
                0 <= x < old(self).width && 0 <= y < old(self).height && mark_slot_covers(
                    slot as int,
                    x,
                    y,
                ) ==> pixel_is(final(self).data@, old(self).width, x, y, TEXT_COLOR),
            forall|x: int, y: int|
                0 <= x < old(self).width && 0 <= y < old(self).height && !mark_slot_covers(
                    slot as int,
                    x,
                    y,
                ) ==> pixel_unchanged(old(self).data@, final(self).data@, old(self).width, x, y),
    {
        let left: u32 = MARK_START_X + (slot as u32) * MARK_STRIDE;
        let mut dy: u32 = 0;
        while dy < MARK_HEIGHT
            invariant
                self.wf(),
                self.width == old(self).width,
                self.height == old(self).height,
                slot <= MAX_DIM as usize,
                left == MARK_START_X + slot * MARK_STRIDE,
                dy <= MARK_HEIGHT,
                forall|x2: int, y2: int|
                    0 <= x2 < self.width && 0 <= y2 < self.height && mark_slot_covers(
                        slot as int,
                        x2,
                        y2,
                    ) && y2 < MARK_START_Y + dy ==> pixel_is(
                        self.data@,
                        self.width,
                        x2,
                        y2,
                        TEXT_COLOR,
                    ),
                forall|x2: int, y2: int|
                    0 <= x2 < self.width && 0 <= y2 < self.height && !mark_slot_covers(
                        slot as int,
                        x2,
                        y2,
                    ) ==> pixel_unchanged(old(self).data@, self.data@, self.width, x2, y2),
            decreases MARK_HEIGHT - dy,
        {
            let mut dx: u32 = 0;
            while dx < MARK_WIDTH
                invariant
                    self.wf(),
                    self.width == old(self).width,
                    self.height == old(self).height,
                    slot <= MAX_DIM as usize,
                    left == MARK_START_X + slot * MARK_STRIDE,
                    dy < MARK_HEIGHT,
                    dx <= MARK_WIDTH,
                    forall|x2: int, y2: int|
                        0 <= x2 < self.width && 0 <= y2 < self.height && mark_slot_covers(
                            slot as int,
                            x2,
                            y2,
                        ) && (y2 < MARK_START_Y + dy || (y2 == MARK_START_Y + dy && x2 < left
                            + dx)) ==> pixel_is(self.data@, self.width, x2, y2, TEXT_COLOR),
                    forall|x2: int, y2: int|
                        0 <= x2 < self.width && 0 <= y2 < self.height && !mark_slot_covers(
                            slot as int,
                            x2,
                            y2,
                        ) ==> pixel_unchanged(old(self).data@, self.data@, self.width, x2, y2),
                decreases MARK_WIDTH - dx,
            {
                proof {
                    assert(slot * MARK_STRIDE <= MAX_DIM * MARK_STRIDE) by (nonlinear_arith)
                        requires
                            0 <= slot <= MAX_DIM,
                    ;
                }
                let x: u32 = left + dx;
                let y: u32 = MARK_START_Y + dy;
                if mark_pattern_at(dx, dy) && x < self.width && y < self.height {
                    let ghost prev = self.data@;
                    self.put_pixel(x, y, TEXT_COLOR);
                    proof {
                        assert forall|x2: int, y2: int|
                            0 <= x2 < self.width && 0 <= y2 < self.height && mark_slot_covers(
                                slot as int,
                                x2,
                                y2,
                            ) && (y2 < MARK_START_Y + dy || (y2 == MARK_START_Y + dy && x2 < left
                                + dx + 1)) implies pixel_is(
                            self.data@,
                            self.width,
                            x2,
                            y2,
                            TEXT_COLOR,
                        ) by {
                            if x2 == x && y2 == y {
                            } else {
                                assert(pixel_unchanged(prev, self.data@, self.width, x2, y2));
                                assert(pixel_is(prev, self.width, x2, y2, TEXT_COLOR));
                            }
                        }
                        assert forall|x2: int, y2: int|
                            0 <= x2 < self.width && 0 <= y2 < self.height && !mark_slot_covers(
                                slot as int,
                                x2,
                                y2,
                            ) implies pixel_unchanged(
                            old(self).data@,
                            self.data@,
                            self.width,
                            x2,
                            y2,
                        ) by {
                            assert(pixel_unchanged(old(self).data@, prev, self.width, x2, y2));
                            assert(pixel_unchanged(prev, self.data@, self.width, x2, y2));
                        }
                    }
                }
                dx += 1;
            }
            dy += 1;
        }
    }

    /// Draws one redaction mark for each of the first `count` secret
    /// characters, at successive horizontal slots; marks falling outside the
    /// window are clipped. No other pixel is touched, so the frame shows
    /// exactly one mark per character and nothing of the characters
    /// themselves.
    pub fn draw_marks(&mut self, count: usize)
        requires
            old(self).wf(),
        ensures
            final(self).wf(),
            final(self).width == old(self).width,
            final(self).height == old(self).height,
            forall|x: int, y: int|
                0 <= x < old(self).width && 0 <= y < old(self).height && mark_covered(
                    count as int,
                    x,
                    y,
                ) ==> pixel_is(final(self).data@, old(self).width, x, y, TEXT_COLOR),
            forall|x: int, y: int|
                0 <= x < old(self).width && 0 <= y < old(self).height && !mark_covered(
                    count as int,
                    x,
                    y,
                ) ==> pixel_unchanged(old(self).data@, final(self).data@, old(self).width, x, y),
    {
        let n_eff: usize = if count > MAX_DIM as usize {
            MAX_DIM as usize
        } else {
            count
        };
        let mut i: usize = 0;
        while i < n_eff
            invariant
                self.wf(),
                self.width == old(self).width,
                self.height == old(self).height,
                i <= n_eff <= count,
                n_eff <= MAX_DIM as usize,
                forall|x2: int, y2: int|
                    0 <= x2 < self.width && 0 <= y2 < self.height && mark_covered(i as int, x2, y2)
                        ==> pixel_is(self.data@, self.width, x2, y2, TEXT_COLOR),
                forall|x2: int, y2: int|
                    0 <= x2 < self.width && 0 <= y2 < self.height && !mark_covered(i as int, x2, y2)
                        ==> pixel_unchanged(old(self).data@, self.data@, self.width, x2, y2),
            decreases n_eff - i,
        {
            let ghost prev = self.data@;
            self.draw_mark(i);
            proof {
                assert forall|x2: int, y2: int|
                    0 <= x2 < self.width && 0 <= y2 < self.height && mark_covered(
                        i + 1 as int,
                        x2,
                        y2,
                    ) implies pixel_is(self.data@, self.width, x2, y2, TEXT_COLOR) by {
                    if mark_slot_covers(i as int, x2, y2) {
                    } else {
                        let j = choose|j: int|
                            0 <= j < i + 1 && #[trigger] mark_slot_covers(j, x2, y2);
                        assert(mark_slot_covers(j, x2, y2) && j < i);
                        assert(mark_covered(i as int, x2, y2));
                        assert(pixel_is(prev, self.width, x2, y2, TEXT_COLOR));
                        assert(pixel_unchanged(prev, self.data@, self.width, x2, y2));
                    }
                }
                assert forall|x2: int, y2: int|
                    0 <= x2 < self.width && 0 <= y2 < self.height && !mark_covered(
                        i + 1 as int,
                        x2,
                        y2,
                    ) implies pixel_unchanged(
                    old(self).data@,
                    self.data@,
                    self.width,
                    x2,
                    y2,
                ) by {
                    assert(!mark_slot_covers(i as int, x2, y2));
                    assert(!mark_covered(i as int, x2, y2));
                    assert(pixel_unchanged(old(self).data@, prev, self.width, x2, y2));
                    assert(pixel_unchanged(prev, self.data@, self.width, x2, y2));
                }
            }
            i += 1;
        }
        proof {
            assert forall|x2: int, y2: int|
                0 <= x2 < self.width && 0 <= y2 < self.height && mark_covered(
                    count as int,
                    x2,
                    y2,
                ) implies mark_covered(n_eff as int, x2, y2) by {
                let j = choose|j: int| 0 <= j < count && #[trigger] mark_slot_covers(j, x2, y2);
                if j >= n_eff {
                    // then more marks were asked for than fit any window, and
                    // slot j lies wholly right of the window
                    assert(MARK_START_X + j * MARK_STRIDE > MAX_DIM) by (nonlinear_arith)
                        requires
                            j >= MAX_DIM,
                    ;
                    assert(false);
                }
            }
            assert forall|x2: int, y2: int|
                0 <= x2 < self.width && 0 <= y2 < self.height && !mark_covered(
                    count as int,
                    x2,
                    y2,
                ) implies !mark_covered(n_eff as int, x2, y2) by {
                if mark_covered(n_eff as int, x2, y2) {
                    let j = choose|j: int|
                        0 <= j < n_eff && #[trigger] mark_slot_covers(j, x2, y2);
                    assert(j < count);
                    assert(false);
                }
            }
        }
    }

    /// Draws the cursor bar just after the last redaction mark, clipped to
    /// the window, touching nothing else.
    pub fn draw_cursor(&mut self, count: usize)
        requires
            old(self).wf(),
        ensures
            final(self).wf(),
            final(self).width == old(self).width,
            final(self).height == old(self).height,
            forall|x: int, y: int|
                0 <= x < old(self).width && 0 <= y < old(self).height && cursor_covered(
                    count as int,
                    x,
                    y,
                ) ==> pixel_is(final(self).data@, old(self).width, x, y, CURSOR_COLOR),
            forall|x: int, y: int|
                0 <= x < old(self).width && 0 <= y < old(self).height && !cursor_covered(
                    count as int,
                    x,
                    y,
                ) ==> pixel_unchanged(old(self).data@, final(self).data@, old(self).width, x, y),
    {
        if count > MAX_DIM as usize {
            proof {
                assert forall|x: int, y: int|
                    0 <= x < self.width && cursor_covered(count as int, x, y) implies false by {
                    assert(MARK_START_X + count * MARK_STRIDE > MAX_DIM) by (nonlinear_arith)
                        requires
                            count > MAX_DIM,
                    ;
                }
            }
            return ;
        }
        let cx: u32 = MARK_START_X + (count as u32) * MARK_STRIDE;
        self.fill_rect(cx, cx + CURSOR_WIDTH, CURSOR_TOP, CURSOR_BOTTOM, CURSOR_COLOR);
    }
}

/// The fixed 8x8 plus/asterisk pattern of a redaction mark: which cells of
/// the 8x8 cell grid are inked.
pub open spec fn mark_pattern(dx: int, dy: int) -> bool {
    (3 <= dx && dx <= 4) || (3 <= dy && dy <= 4) || ((dx == 2 || dx == 5) && (dy == 2 || dy == 5))
        || ((dx == 1 || dx == 6) && (dy == 1 || dy == 6))
}

/// Exec mirror of [`mark_pattern`].
fn mark_pattern_at(dx: u32, dy: u32) -> (r: bool)
    ensures
        r == mark_pattern(dx as int, dy as int),
{
    (3 <= dx && dx <= 4) || (3 <= dy && dy <= 4) || ((dx == 2 || dx == 5) && (dy == 2 || dy == 5))
        || ((dx == 1 || dx == 6) && (dy == 1 || dy == 6))
}

/// Whether pixel `(x, y)` belongs to the inked pattern of redaction mark
/// `slot`.
pub open spec fn mark_slot_covers(slot: int, x: int, y: int) -> bool {
    let left = MARK_START_X + slot * MARK_STRIDE;
    &&& left <= x < left + MARK_WIDTH
    &&& MARK_START_Y <= y < MARK_START_Y + MARK_HEIGHT
    &&& mark_pattern(x - left, y - MARK_START_Y)
}

/// Whether pixel `(x, y)` belongs to the inked pattern of any of the first
/// `count` redaction marks.
pub open spec fn mark_covered(count: int, x: int, y: int) -> bool {
    exists|i: int| 0 <= i < count && #[trigger] mark_slot_covers(i, x, y)
}

/// Law: the frame holds no redaction mark beyond the first `count`. A pixel
/// that the pattern of some later slot would ink is covered by none of the
/// `count` drawn marks — so, by the frame's contract, it shows the plain
/// input-box fill, and the number of marks shown equals the secret's length.
pub proof fn lemma_no_mark_beyond_count(count: int, slot: int, x: int, y: int)
    requires
        0 <= count <= slot,
        mark_slot_covers(slot, x, y),
    ensures
        !mark_covered(count, x, y),
{
    if mark_covered(count, x, y) {
        let j = choose|j: int| 0 <= j < count && #[trigger] mark_slot_covers(j, x, y);
        // slots j < slot lie wholly left of slot: their spans cannot share x
        assert(j * MARK_STRIDE + MARK_STRIDE <= slot * MARK_STRIDE) by (nonlinear_arith)
            requires
                j < slot,
        ;
        assert(false);
    }
}

/// Whether pixel `(x, y)` belongs to the cursor bar drawn after `count`
/// redaction marks.
pub open spec fn cursor_covered(count: int, x: int, y: int) -> bool {
    let cx = MARK_START_X + count * MARK_STRIDE;
    &&& cx <= x < cx + CURSOR_WIDTH
    &&& CURSOR_TOP <= y < CURSOR_BOTTOM
}

/// One rasterized glyph as the text shaper hands it over: an alpha coverage
/// mask with its final pixel position on the canvas and the text color to
/// blend with.
pub struct GlyphImage {
    pub mask: Vec<u8>,
    pub mask_width: u32,
    pub mask_height: u32,
    pub origin_x: i32,
    pub origin_y: i32,
    pub color: u32,
}

impl GlyphImage {
    /// Well-formedness: the mask holds one coverage byte per cell.
    pub open spec fn wf(&self) -> bool {
        &&& self.mask_width <= MAX_DIM
        &&& self.mask_height <= MAX_DIM
        &&& self.mask@.len() == self.mask_width as int * self.mask_height as int
    }
}

/// Whether the glyph's mask covers pixel `(x, y)` with positive coverage.
pub open spec fn glyph_covers(g: GlyphImage, x: int, y: int) -> bool {
    &&& g.origin_x <= x < g.origin_x + g.mask_width
    &&& g.origin_y <= y < g.origin_y + g.mask_height
    &&& g.mask@[(y - g.origin_y) * g.mask_width + (x - g.origin_x)] > 0
}

/// The glyph's foreground alpha at a covered cell: its color's alpha scaled
/// by the mask coverage.
pub open spec fn scaled_alpha(color: u32, coverage: u8) -> int {
    (color_byte(color, 3) * coverage) / 255
}

/// Standard alpha-over blend of one color channel.
pub open spec fn blend_channel(fg: u8, bg: u8, fg_alpha: int) -> u8 {
    ((fg * fg_alpha + bg * (255 - fg_alpha)) / 255) as u8
}

/// Byte `j` of a pixel after the glyph's color is blended over it with the
/// given coverage: channels blend alpha-over, the destination alpha
/// accumulates saturating.
pub open spec fn blended_byte(old_byte: u8, color: u32, coverage: u8, j: int) -> u8 {
    let fa = scaled_alpha(color, coverage);
    if j == 3 {
        if old_byte + fa > 255 {
            255u8
        } else {
            (old_byte + fa) as u8
        }
    } else {
        blend_channel(color_byte(color, j), old_byte, fa)
    }
}

/// The mask coverage the glyph has at pixel `(x, y)`.
pub open spec fn glyph_coverage_at(g: GlyphImage, x: int, y: int) -> u8 {
    g.mask@[(y - g.origin_y) * g.mask_width + (x - g.origin_x)]
}

/// Pixel `(x, y)` of `d1` holds the bytes of the same pixel of `d0` with the
/// glyph's color blended over them.
pub open spec fn pixel_blended(
    d0: Seq<u8>,
    d1: Seq<u8>,
    width: u32,
    g: GlyphImage,
    x: int,
    y: int,
) -> bool {
    forall|k: int|
        pixel_off(width, x, y) <= k < pixel_off(width, x, y) + 4 ==> #[trigger] d1[k]
            == blended_byte(d0[k], g.color, glyph_coverage_at(g, x, y), k - pixel_off(width, x, y))
}

impl PixelBuffer {
    /// Alpha-composites one rasterized glyph onto the buffer: every covered
    /// in-window pixel is blended per [`blended_byte`], every pixel the mask
    /// does not cover keeps its bytes, and nothing outside the buffer is
    /// ever addressed, wherever the glyph was placed.
    #[verifier::loop_isolation(false)]
    pub fn composite_glyph(&mut self, g: &GlyphImage)
        requires
            old(self).wf(),
            g.wf(),
        ensures
            final(self).wf(),
            final(self).width == old(self).width,
            final(self).height == old(self).height,
            forall|x: int, y: int|
                #![trigger pixel_blended(old(self).data@, final(self).data@, old(self).width, *g, x, y)]
                0 <= x < old(self).width && 0 <= y < old(self).height && glyph_covers(*g, x, y)
                    ==> pixel_blended(old(self).data@, final(self).data@, old(self).width, *g, x, y),
            forall|x: int, y: int|
                #![trigger pixel_unchanged(old(self).data@, final(self).data@, old(self).width, x, y)]
                0 <= x < old(self).width && 0 <= y < old(self).height && !glyph_covers(*g, x, y)
                    ==> pixel_unchanged(old(self).data@, final(self).data@, old(self).width, x, y),
    {
        let alpha = ((g.color >> 24) & 0xff) as u8;
        let red = ((g.color >> 16) & 0xff) as u8;
        let green = ((g.color >> 8) & 0xff) as u8;
        let blue = (g.color & 0xff) as u8;
        let mut gy: u32 = 0;
        while gy < g.mask_height
            invariant
                self.wf(),
                old(self).wf(),
                self.width == old(self).width,
                self.height == old(self).height,
                g.wf(),
                gy <= g.mask_height,
                alpha == color_byte(g.color, 3),
                red == color_byte(g.color, 2),
                green == color_byte(g.color, 1),
                blue == color_byte(g.color, 0),
                forall|x2: int, y2: int|
                    #![trigger pixel_blended(old(self).data@, self.data@, self.width, *g, x2, y2)]
                    0 <= x2 < self.width && 0 <= y2 < self.height && glyph_covers(*g, x2, y2) && y2
                        < g.origin_y + gy ==> pixel_blended(
                        old(self).data@,
                        self.data@,
                        self.width,
                        *g,
                        x2,
                        y2,
                    ),
                forall|x2: int, y2: int|
                    #![trigger pixel_unchanged(old(self).data@, self.data@, self.width, x2, y2)]
                    0 <= x2 < self.width && 0 <= y2 < self.height && !(glyph_covers(*g, x2, y2)
                        && y2 < g.origin_y + gy) ==> pixel_unchanged(
                        old(self).data@,
                        self.data@,
                        self.width,
                        x2,
                        y2,
                    ),
            decreases g.mask_height - gy,
        {
            let mut gx: u32 = 0;
            while gx < g.mask_width
                invariant
                    self.wf(),
                    old(self).wf(),
                    self.width == old(self).width,
                    self.height == old(self).height,
                    g.wf(),
                    gy < g.mask_height,
                    gx <= g.mask_width,
                    alpha == color_byte(g.color, 3),
                    red == color_byte(g.color, 2),
                    green == color_byte(g.color, 1),
                    blue == color_byte(g.color, 0),
                    forall|x2: int, y2: int|
                        #![trigger pixel_blended(old(self).data@, self.data@, self.width, *g, x2, y2)]
                        0 <= x2 < self.width && 0 <= y2 < self.height && glyph_covers(*g, x2, y2)
                            && (y2 < g.origin_y + gy || (y2 == g.origin_y + gy && x2 < g.origin_x
                            + gx)) ==> pixel_blended(
                            old(self).data@,
                            self.data@,
                            self.width,
                            *g,
                            x2,
                            y2,
                        ),
                    forall|x2: int, y2: int|
                        #![trigger pixel_unchanged(old(self).data@, self.data@, self.width, x2, y2)]
                        0 <= x2 < self.width && 0 <= y2 < self.height && !(glyph_covers(*g, x2, y2)
                            && (y2 < g.origin_y + gy || (y2 == g.origin_y + gy && x2 < g.origin_x
                            + gx))) ==> pixel_unchanged(
                            old(self).data@,
                            self.data@,
                            self.width,
                            x2,
                            y2,
                        ),
                decreases g.mask_width - gx,
            {
                let cx: i64 = (g.origin_x as i64) + (gx as i64);
                let cy: i64 = (g.origin_y as i64) + (gy as i64);
                if 0 <= cx && cx < self.width as i64 && 0 <= cy && cy < self.height as i64 {
                    proof {
                        assert((gy as int) * (g.mask_width as int) + (gx as int) < (
                        g.mask_width as int) * (g.mask_height as int)) by (nonlinear_arith)
                            requires
                                gx < g.mask_width,
                                gy < g.mask_height,
                        ;
                        assert((gy as int) * (g.mask_width as int) + (gx as int) <= (MAX_DIM as int)
                            * (MAX_DIM as int)) by (nonlinear_arith)
                            requires
                                gx < g.mask_width <= MAX_DIM,
                                gy < g.mask_height <= MAX_DIM,
                        ;
                    }
                    let midx: usize = (gy as usize) * (g.mask_width as usize) + (gx as usize);
                    let coverage = g.mask[midx];
                    if coverage > 0 {
                        let x = cx as u32;
                        let y = cy as u32;
                        proof {
                            lemma_pixel_off_in_range(self.width, self.height, x as int, y as int);
                        }
                        proof {
                            assert((y as int) * (self.width as int) + (x as int) <= (MAX_DIM as int)
                                * (MAX_DIM as int) + (MAX_DIM as int)) by (nonlinear_arith)
                                requires
                                    x < self.width <= MAX_DIM,
                                    y < self.height <= MAX_DIM,
                            ;
                        }
                        let row: usize = (y as usize) * (self.width as usize);
                        let idx: usize = (row + x as usize) * 4;
                        proof {
                            assert(idx == pixel_off(self.width, x as int, y as int));
                        }
                        proof {
                            assert((alpha as u32) * (coverage as u32) <= 255 * 255)
                                by (nonlinear_arith)
                                requires
                                    alpha <= 255u8,
                                    coverage <= 255u8,
                            ;
                        }
                        let fa32: u32 = (alpha as u32) * (coverage as u32) / 255;
                        proof {
                            assert(fa32 == scaled_alpha(g.color, coverage));
                            assert(fa32 <= 255);
                        }
                        let inv32: u32 = 255 - fa32;
                        let old_b = self.data[idx];
                        let old_g = self.data[idx + 1];
                        let old_r = self.data[idx + 2];
                        let old_a = self.data[idx + 3];
                        proof {
                            assert((blue as u32) * fa32 + (old_b as u32) * inv32 <= 255 * 255)
                                by (nonlinear_arith)
                                requires
                                    blue <= 255u8,
                                    old_b <= 255u8,
                                    fa32 + inv32 == 255,
                            ;
                            assert((green as u32) * fa32 + (old_g as u32) * inv32 <= 255 * 255)
                                by (nonlinear_arith)
                                requires
                                    green <= 255u8,
                                    old_g <= 255u8,
                                    fa32 + inv32 == 255,
                            ;
                            assert((red as u32) * fa32 + (old_r as u32) * inv32 <= 255 * 255)
                                by (nonlinear_arith)
                                requires
                                    red <= 255u8,
                                    old_r <= 255u8,
                                    fa32 + inv32 == 255,
                            ;
                        }
                        let new_b = (((blue as u32) * fa32 + (old_b as u32) * inv32) / 255) as u8;
                        let new_g = (((green as u32) * fa32 + (old_g as u32) * inv32) / 255) as u8;
                        let new_r = (((red as u32) * fa32 + (old_r as u32) * inv32) / 255) as u8;
                        let new_a = old_a.saturating_add(fa32 as u8);
                        let ghost prev = self.data@;
                        proof {
                            assert forall|x2: int, y2: int|
                                0 <= x2 < old(self).width && 0 <= y2 < old(self).height && !(
                                glyph_covers(*g, x2, y2) && (y2 < g.origin_y + gy || (y2
                                    == g.origin_y + gy && x2 < g.origin_x + gx)))
                                    implies pixel_unchanged(
                                old(self).data@,
                                prev,
                                old(self).width,
                                x2,
                                y2,
                            ) by {
                                assert(pixel_unchanged(old(self).data@, prev, self.width, x2, y2));
                            }
                        }
                        self.put_pixel_bytes(x, y, new_b, new_g, new_r, new_a);
                        proof {
                            assert(glyph_coverage_at(*g, x as int, y as int) == coverage);
                            assert(new_b == blended_byte(prev[idx as int], g.color, coverage, 0));
                            assert(new_g == blended_byte(
                                prev[idx as int + 1],
                                g.color,
                                coverage,
                                1,
                            ));
                            assert(new_r == blended_byte(
                                prev[idx as int + 2],
                                g.color,
                                coverage,
                                2,
                            ));
                            assert(new_a == blended_byte(
                                prev[idx as int + 3],
                                g.color,
                                coverage,
                                3,
                            ));
                            assert(pixel_blended(prev, self.data@, self.width, *g, x as int, y as int));
                            lemma_composite_step(
                                *old(self),
                                prev,
                                *self,
                                *g,
                                x as int,
                                y as int,
                                gx as int,
                                gy as int,
                            );
                        }
                    } else {
                        proof {
                            assert forall|x2: int, y2: int|
                                0 <= x2 < self.width && 0 <= y2 < self.height && !(glyph_covers(
                                    *g,
                                    x2,
                                    y2,
                                ) && (y2 < g.origin_y + gy || (y2 == g.origin_y + gy && x2
                                    < g.origin_x + gx + 1))) implies pixel_unchanged(
                                old(self).data@,
                                self.data@,
                                self.width,
                                x2,
                                y2,
                            ) by {
                                assert(!(glyph_covers(*g, x2, y2) && (y2 < g.origin_y + gy || (y2
                                    == g.origin_y + gy && x2 < g.origin_x + gx))));
                                assert(pixel_unchanged(old(self).data@, self.data@, self.width, x2, y2));
                            }
                        }
                    }
                } else {
                    proof {
                        assert forall|x2: int, y2: int|
                            0 <= x2 < self.width && 0 <= y2 < self.height && !(glyph_covers(
                                *g,
                                x2,
                                y2,
                            ) && (y2 < g.origin_y + gy || (y2 == g.origin_y + gy && x2 < g.origin_x
                                + gx + 1))) implies pixel_unchanged(
                            old(self).data@,
                            self.data@,
                            self.width,
                            x2,
                            y2,
                        ) by {
                            assert(!(glyph_covers(*g, x2, y2) && (y2 < g.origin_y + gy || (y2
                                == g.origin_y + gy && x2 < g.origin_x + gx))));
                            assert(pixel_unchanged(old(self).data@, self.data@, self.width, x2, y2));
                        }
                    }
                }
                gx += 1;
            }
            gy += 1;
        }
    }
}

/// After blending one covered cell, the loop's partial-progress picture is
/// still accurate: the freshly written pixel is blended, every other pixel
/// keeps the state the previous iterations left it in.
proof fn lemma_composite_step(
    buf0: PixelBuffer,
    prev: Seq<u8>,
    buf2: PixelBuffer,
    g: GlyphImage,
    x: int,
    y: int,
    gx: int,
    gy: int,
)
    requires
        buf0.wf(),
        g.wf(),
        buf2.width == buf0.width,
        buf2.height == buf0.height,
        buf2.wf(),
        prev.len() == buf0.data@.len(),
        0 <= x < buf0.width,
        0 <= y < buf0.height,
        0 <= gx < g.mask_width,
        0 <= gy < g.mask_height,
        x == g.origin_x + gx,
        y == g.origin_y + gy,
        glyph_covers(g, x, y),
        // partial progress before this write
        forall|x2: int, y2: int|
            #![trigger pixel_blended(buf0.data@, prev, buf0.width, g, x2, y2)]
            0 <= x2 < buf0.width && 0 <= y2 < buf0.height && glyph_covers(g, x2, y2) && (y2
                < g.origin_y + gy || (y2 == g.origin_y + gy && x2 < g.origin_x + gx))
                ==> pixel_blended(buf0.data@, prev, buf0.width, g, x2, y2),
        forall|x2: int, y2: int|
            #![trigger pixel_unchanged(buf0.data@, prev, buf0.width, x2, y2)]
            0 <= x2 < buf0.width && 0 <= y2 < buf0.height && !(glyph_covers(g, x2, y2) && (y2
                < g.origin_y + gy || (y2 == g.origin_y + gy && x2 < g.origin_x + gx)))
                ==> pixel_unchanged(buf0.data@, prev, buf0.width, x2, y2),
        // this write
        pixel_blended(prev, buf2.data@, buf0.width, g, x, y),
        forall|x2: int, y2: int|
            #![trigger pixel_unchanged(prev, buf2.data@, buf0.width, x2, y2)]
            0 <= x2 < buf0.width && 0 <= y2 < buf0.height && (x2 != x || y2 != y)
                ==> pixel_unchanged(prev, buf2.data@, buf0.width, x2, y2),
    ensures
        forall|x2: int, y2: int|
            #![trigger pixel_blended(buf0.data@, buf2.data@, buf0.width, g, x2, y2)]
            0 <= x2 < buf0.width && 0 <= y2 < buf0.height && glyph_covers(g, x2, y2) && (y2
                < g.origin_y + gy || (y2 == g.origin_y + gy && x2 < g.origin_x + gx + 1))
                ==> pixel_blended(buf0.data@, buf2.data@, buf0.width, g, x2, y2),
        forall|x2: int, y2: int|
            #![trigger pixel_unchanged(buf0.data@, buf2.data@, buf0.width, x2, y2)]
            0 <= x2 < buf0.width && 0 <= y2 < buf0.height && !(glyph_covers(g, x2, y2) && (y2
                < g.origin_y + gy || (y2 == g.origin_y + gy && x2 < g.origin_x + gx + 1)))
                ==> pixel_unchanged(buf0.data@, buf2.data@, buf0.width, x2, y2),
{
    assert forall|x2: int, y2: int|
        0 <= x2 < buf0.width && 0 <= y2 < buf0.height && glyph_covers(g, x2, y2) && (y2
            < g.origin_y + gy || (y2 == g.origin_y + gy && x2 < g.origin_x + gx + 1))
            implies pixel_blended(buf0.data@, buf2.data@, buf0.width, g, x2, y2) by {
        if x2 == x && y2 == y {
            // the cell written this iteration: its previous bytes were
            // untouched by earlier iterations
            assert(pixel_unchanged(buf0.data@, prev, buf0.width, x, y));
            assert(pixel_blended(prev, buf2.data@, buf0.width, g, x, y));
        } else {
            assert(pixel_blended(buf0.data@, prev, buf0.width, g, x2, y2));
            assert(pixel_unchanged(prev, buf2.data@, buf0.width, x2, y2));
        }
    }
    assert forall|x2: int, y2: int|
        0 <= x2 < buf0.width && 0 <= y2 < buf0.height && !(glyph_covers(g, x2, y2) && (y2
            < g.origin_y + gy || (y2 == g.origin_y + gy && x2 < g.origin_x + gx + 1)))
            implies pixel_unchanged(buf0.data@, buf2.data@, buf0.width, x2, y2) by {
        assert(x2 != x || y2 != y);
        assert(pixel_unchanged(buf0.data@, prev, buf0.width, x2, y2));
        assert(pixel_unchanged(prev, buf2.data@, buf0.width, x2, y2));
    }
}

} // verus!
