//! A scrollback engine for a line-oriented terminal client: a
//! bounded append-only history log behind a two-mode viewport
//! controller. While live, each new line is shown by letting the
//! terminal scroll its output region one row; in scrollback the
//! window is repainted from history by direct addressing, and new
//! lines are logged without disturbing the view. Methods return the
//! primitive render operations to perform; a host carries them out
//! on the device and owns all the I/O.

pub mod escape;
pub mod render;
pub mod screen;
pub mod text;

use vstd::prelude::*;

verus! {

/// Number of rows a scroll command moves the scrollback window.
pub const SCROLL_STEP: usize = 5;

/// Upper bound on the number of lines the history log may hold.
pub const HISTORY_CAPACITY: usize = 1024;

/// The first terminal row of the scrollable output region; row 1 holds
/// the header separator.
pub const OUTPUT_START_LINE: u16 = 2;

} // verus!
