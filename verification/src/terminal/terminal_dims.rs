use vstd::prelude::*;

verus! {

/// The size of the terminal window, in cells and in pixels.
#[derive(Clone, Copy, Debug, PartialEq, Eq, Structural)]
pub struct TerminalDims {
    pub rows: u16,
    pub cols: u16,
    pub pixels_x: u16,
    pub pixels_y: u16,
}

} // verus!
