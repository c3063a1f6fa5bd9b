//! The size of the viewer's window.

use vstd::prelude::*;

verus! {

/// Width of the window in pixels.
pub const WIDTH: usize = 840;

/// Height of the window in pixels.
pub const HEIGHT: usize = 460;

/// Width of the part of the window that shows the image; the text stands to
/// its right.
pub const IMAGE_DISPLAY_WIDTH: usize = 600;

} // verus!
