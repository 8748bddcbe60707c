//! Frame composition: one call paints the complete dialog frame for the
//! current session state. The renderer learns nothing about the secret but
//! its length, so no frame can show the secret's characters; it shows exactly
//! one redaction mark per character.

use vstd::prelude::*;
use crate::canvas::{
    PixelBuffer, GlyphImage, glyph_covers, pixel_is, pixel_unchanged, mark_covered,
    mark_slot_covers, cursor_covered, BACKGROUND_COLOR, INPUT_BOX_COLOR, TEXT_COLOR, CURSOR_COLOR,
    INPUT_BOX_PADDING, INPUT_BOX_Y, INPUT_BOX_HEIGHT, MARK_START_X, MARK_STRIDE, MARK_WIDTH,
};

verus! {

/// Whether any glyph of the label text covers pixel `(x, y)`.
pub open spec fn any_glyph_covers(glyphs: Seq<GlyphImage>, x: int, y: int) -> bool {
    exists|i: int| 0 <= i < glyphs.len() && #[trigger] glyph_covers(glyphs[i], x, y)
}

/// Whether pixel `(x, y)` lies in the input box rectangle of a window of
/// the given width.
pub open spec fn in_input_box(width: u32, x: int, y: int) -> bool {
    &&& INPUT_BOX_PADDING <= x
    &&& x + INPUT_BOX_PADDING < width
    &&& INPUT_BOX_Y <= y < INPUT_BOX_Y + INPUT_BOX_HEIGHT
}

/// Composes one complete frame: background, the label glyphs the text shaper
/// produced, the input box, one redaction mark per secret character, and the
/// cursor bar. The secret itself never reaches this function, only its
/// length; every pixel of the input box that no mark and no cursor claims
/// shows the box fill, so the frame holds exactly `secret_len` marks.
pub fn render_frame(
    buf: &mut PixelBuffer,
    glyphs: &Vec<GlyphImage>,
    secret_len: usize,
    cursor_visible: bool,
)
    requires
        old(buf).wf(),
        forall|i: int| 0 <= i < glyphs@.len() ==> (#[trigger] glyphs@[i]).wf(),
    ensures
        final(buf).wf(),
        final(buf).width == old(buf).width,
        final(buf).height == old(buf).height,
        forall|x: int, y: int|
            0 <= x < old(buf).width && 0 <= y < old(buf).height && mark_covered(
                secret_len as int,
                x,
                y,
            ) ==> pixel_is(final(buf).data@, old(buf).width, x, y, TEXT_COLOR),
        forall|x: int, y: int|
            0 <= x < old(buf).width && 0 <= y < old(buf).height && in_input_box(
                old(buf).width,
                x,
                y,
            ) && !mark_covered(secret_len as int, x, y) && !(cursor_visible && cursor_covered(
                secret_len as int,
                x,
                y,
            )) ==> pixel_is(final(buf).data@, old(buf).width, x, y, INPUT_BOX_COLOR),
        cursor_visible ==> forall|x: int, y: int|
            0 <= x < old(buf).width && 0 <= y < old(buf).height && cursor_covered(
                secret_len as int,
                x,
                y,
            ) ==> pixel_is(final(buf).data@, old(buf).width, x, y, CURSOR_COLOR),
        forall|x: int, y: int|
            0 <= x < old(buf).width && 0 <= y < old(buf).height && !any_glyph_covers(glyphs@, x, y)
                && !in_input_box(old(buf).width, x, y) && !mark_covered(secret_len as int, x, y)
                && !(cursor_visible && cursor_covered(secret_len as int, x, y)) ==> pixel_is(
                final(buf).data@,
                old(buf).width,
                x,
                y,
                BACKGROUND_COLOR,
            ),
{
    buf.fill(BACKGROUND_COLOR);
    let mut k: usize = 0;
    while k < glyphs.len()
        invariant
            buf.wf(),
            buf.width == old(buf).width,
            buf.height == old(buf).height,
            k <= glyphs@.len(),
            forall|i: int| 0 <= i < glyphs@.len() ==> (#[trigger] glyphs@[i]).wf(),
            forall|x: int, y: int|
                0 <= x < buf.width && 0 <= y < buf.height && !any_glyph_covers(
                    glyphs@.take(k as int),
                    x,
                    y,
                ) ==> pixel_is(buf.data@, buf.width, x, y, BACKGROUND_COLOR),
        decreases glyphs@.len() - k,
    {
        let ghost prev = buf.data@;
        buf.composite_glyph(&glyphs[k]);
        proof {
            assert forall|x: int, y: int|
                0 <= x < buf.width && 0 <= y < buf.height && !any_glyph_covers(
                    glyphs@.take(k + 1 as int),
                    x,
                    y,
                ) implies pixel_is(buf.data@, buf.width, x, y, BACKGROUND_COLOR) by {
                assert(glyphs@.take(k + 1 as int)[k as int] == glyphs@[k as int]);
                assert(!glyph_covers(glyphs@[k as int], x, y));
                if any_glyph_covers(glyphs@.take(k as int), x, y) {
                    let i = choose|i: int|
                        0 <= i < k && #[trigger] glyph_covers(glyphs@.take(k as int)[i], x, y);
                    assert(glyphs@.take(k + 1 as int)[i] == glyphs@.take(k as int)[i]);
                    assert(false);
                }
                assert(pixel_is(prev, buf.width, x, y, BACKGROUND_COLOR));
                assert(pixel_unchanged(prev, buf.data@, buf.width, x, y));
            }
        }
        k += 1;
    }
    proof {
        assert(glyphs@.take(glyphs@.len() as int) =~= glyphs@);
    }
    let ghost after_glyphs = buf.data@;
    let x_end: u32 = if buf.width > INPUT_BOX_PADDING {
        buf.width - INPUT_BOX_PADDING
    } else {
        0
    };
    buf.fill_rect(
        INPUT_BOX_PADDING,
        x_end,
        INPUT_BOX_Y,
        INPUT_BOX_Y + INPUT_BOX_HEIGHT,
        INPUT_BOX_COLOR,
    );
    let ghost after_box = buf.data@;
    buf.draw_marks(secret_len);
    let ghost after_marks = buf.data@;
    if cursor_visible {
        buf.draw_cursor(secret_len);
    }
    proof {
        let w = old(buf).width;
        let h = old(buf).height;
        let n = secret_len as int;
        assert forall|x: int, y: int|
            0 <= x < w && 0 <= y < h && mark_covered(n, x, y) implies pixel_is(
            buf.data@,
            w,
            x,
            y,
            TEXT_COLOR,
        ) by {
            assert(pixel_is(after_marks, w, x, y, TEXT_COLOR));
            if cursor_visible {
                // every mark lies wholly left of the cursor bar
                let i = choose|i: int| 0 <= i < n && #[trigger] mark_slot_covers(i, x, y);
                assert(x < MARK_START_X + i * MARK_STRIDE + MARK_WIDTH);
                assert(i * MARK_STRIDE + MARK_STRIDE <= n * MARK_STRIDE) by (nonlinear_arith)
                    requires
                        i < n,
                ;
                assert(!cursor_covered(n, x, y));
                assert(pixel_unchanged(after_marks, buf.data@, w, x, y));
            }
        }
        assert forall|x: int, y: int|
            0 <= x < w && 0 <= y < h && in_input_box(w, x, y) && !mark_covered(n, x, y) && !(
            cursor_visible && cursor_covered(n, x, y)) implies pixel_is(
            buf.data@,
            w,
            x,
            y,
            INPUT_BOX_COLOR,
        ) by {
            assert(pixel_is(after_box, w, x, y, INPUT_BOX_COLOR));
            assert(pixel_unchanged(after_box, after_marks, w, x, y));
            if cursor_visible {
                assert(pixel_unchanged(after_marks, buf.data@, w, x, y));
            }
        }
        assert forall|x: int, y: int|
            0 <= x < w && 0 <= y < h && !any_glyph_covers(glyphs@, x, y) && !in_input_box(w, x, y)
                && !mark_covered(n, x, y) && !(cursor_visible && cursor_covered(
            n,
            x,
            y,
        )) implies pixel_is(buf.data@, w, x, y, BACKGROUND_COLOR) by {
            assert(pixel_is(after_glyphs, w, x, y, BACKGROUND_COLOR));
            assert(pixel_unchanged(after_glyphs, after_box, w, x, y));
            assert(pixel_unchanged(after_box, after_marks, w, x, y));
            if cursor_visible {
                assert(pixel_unchanged(after_marks, buf.data@, w, x, y));
            }
        }
    }
}

} // verus!
