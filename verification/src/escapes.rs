use vstd::prelude::*;

verus! {

/// A request the library makes of the terminal; the program that owns the
/// terminal turns each into its escape sequence.
#[derive(Clone, Copy, Debug, PartialEq, Eq, Structural)]
pub enum TerminalRequest {
    Bold,
    Underline,
    ReverseVideo,
    DisableShowCursor,
    EnableShowCursor,
    EnableAlternateScreenBufferCursorSaveOrRestore,
    DisableAlternateScreenBufferCursorSaveOrRestore,
}

} // verus!
