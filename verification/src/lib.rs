//! Verified core of a Wayland PIN-entry dialog: the input state machine that
//! accumulates a secret from key events, the pixel compositor that draws a
//! redacted view of it, and the one-shot result slot that hands the outcome
//! back to the protocol thread.

pub mod canvas;
pub mod clipboard;
pub mod dialog;
pub mod font;
pub mod input;
pub mod keysym;
pub mod render;
pub mod result_slot;
pub mod session;

pub use keysym::keysym_to_char;
