//! Per-dialog session state: the window dimensions the display server
//! negotiated, whether the surface is ready to draw, the decorative cursor
//! flag, the label texts, and the input state machine. The session decides
//! when a frame may be composed and how large the pixel buffer must be.

use vstd::prelude::*;
use crate::canvas::{PixelBuffer, GlyphImage, MAX_DIM};
use crate::input::InputState;
use crate::render::render_frame;

verus! {

/// Default window width before the server configures one.
pub const WINDOW_WIDTH: u32 = 400;
/// Default window height before the server configures one.
pub const WINDOW_HEIGHT: u32 = 200;

/// One entry-dialog session.
pub struct DialogSession {
    pub width: u32,
    pub height: u32,
    pub configured: bool,
    pub cursor_visible: bool,
    pub description: String,
    pub prompt: String,
    pub title: String,
    pub input: InputState,
}

impl DialogSession {
    /// Well-formedness: the window dimensions stay within what the
    /// compositor accepts.
    pub open spec fn wf(&self) -> bool {
        &&& 1 <= self.width <= MAX_DIM
        &&& 1 <= self.height <= MAX_DIM
    }

    /// A fresh session for one dialog request: default window size, surface
    /// not yet configured, cursor mark always shown, no input yet.
    pub fn new(description: String, prompt: String, title: String) -> (s: Self)
        ensures
            s.wf(),
            s.width == WINDOW_WIDTH,
            s.height == WINDOW_HEIGHT,
            !s.configured,
            s.cursor_visible,
            s.description@ == description@,
            s.prompt@ == prompt@,
            s.title@ == title@,
            s.input@ == crate::input::initial_input_state(),
    {
        DialogSession {
            width: WINDOW_WIDTH,
            height: WINDOW_HEIGHT,
            configured: false,
            cursor_visible: true,
            description,
            prompt,
            title,
            input: InputState::new(),
        }
    }

    /// Applies a configuration event from the display server: the surface
    /// becomes ready to draw, and a supplied size replaces the current one.
    /// Dimensions beyond [`MAX_DIM`] are a machine limit the caller screens
    /// out before the call.
    pub fn configure(&mut self, new_size: Option<(u32, u32)>)
        requires
            old(self).wf(),
            new_size matches Some(s) ==> 1 <= s.0 <= MAX_DIM && 1 <= s.1 <= MAX_DIM,
        ensures
            final(self).wf(),
            final(self).configured,
            match new_size {
                Some(s) => final(self).width == s.0 && final(self).height == s.1,
                None => final(self).width == old(self).width && final(self).height == old(
                    self,
                ).height,
            },
            final(self).cursor_visible == old(self).cursor_visible,
            final(self).description == old(self).description,
            final(self).prompt == old(self).prompt,
            final(self).title == old(self).title,
            final(self).input == old(self).input,
    {
        self.configured = true;
        if let Some((w, h)) = new_size {
            self.width = w;
            self.height = h;
        }
    }

    /// How many bytes one frame buffer for this window takes: the declared
    /// stride is always `width * 4`, so the pool holds
    /// `width * height * 4` bytes.
    pub fn buffer_len(&self) -> (n: usize)
        requires
            self.wf(),
        ensures
            n == self.width as int * self.height as int * 4,
    {
        proof {
            assert(self.width as int * self.height as int * 4 <= MAX_DIM as int * MAX_DIM as int
                * 4) by (nonlinear_arith)
                requires
                    self.width <= MAX_DIM,
                    self.height <= MAX_DIM,
            ;
        }
        (self.width as usize) * (self.height as usize) * 4
    }

    /// Composes the frame for the current state, or nothing while the
    /// surface has not been configured yet: an unconfigured surface has no
    /// negotiated size, and drawing must not touch an unsized buffer.
    pub fn compose(&self, glyphs: &Vec<GlyphImage>) -> (r: Option<PixelBuffer>)
        requires
            self.wf(),
            forall|i: int| 0 <= i < glyphs@.len() ==> (#[trigger] glyphs@[i]).wf(),
        ensures
            (r is Some) == self.configured,
            r matches Some(buf) ==> {
                &&& buf.wf()
                &&& buf.width == self.width
                &&& buf.height == self.height
                &&& forall|x: int, y: int|
                    0 <= x < self.width && 0 <= y < self.height && crate::canvas::mark_covered(
                        self.input@.secret.len() as int,
                        x,
                        y,
                    ) ==> crate::canvas::pixel_is(
                        buf.data@,
                        self.width,
                        x,
                        y,
                        crate::canvas::TEXT_COLOR,
                    )
                &&& forall|x: int, y: int|
                    0 <= x < self.width && 0 <= y < self.height && crate::render::in_input_box(
                        self.width,
                        x,
                        y,
                    ) && !crate::canvas::mark_covered(self.input@.secret.len() as int, x, y) && !(
                    self.cursor_visible && crate::canvas::cursor_covered(
                        self.input@.secret.len() as int,
                        x,
                        y,
                    )) ==> crate::canvas::pixel_is(
                        buf.data@,
                        self.width,
                        x,
                        y,
                        crate::canvas::INPUT_BOX_COLOR,
                    )
                &&& forall|x: int, y: int|
                    0 <= x < self.width && 0 <= y < self.height && !crate::render::any_glyph_covers(
                        glyphs@,
                        x,
                        y,
                    ) && !crate::render::in_input_box(self.width, x, y)
                        && !crate::canvas::mark_covered(self.input@.secret.len() as int, x, y) && !(
                    self.cursor_visible && crate::canvas::cursor_covered(
                        self.input@.secret.len() as int,
                        x,
                        y,
                    )) ==> crate::canvas::pixel_is(
                        buf.data@,
                        self.width,
                        x,
                        y,
                        crate::canvas::BACKGROUND_COLOR,
                    )
            },
    {
        if !self.configured {
            return None;
        }
        let mut buf = PixelBuffer::new(self.width, self.height);
        let n = self.input.secret_len();
        render_frame(&mut buf, glyphs, n, self.cursor_visible);
        Some(buf)
    }
}

} // verus!
