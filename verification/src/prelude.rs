pub use crate::components::{
    BarDirection, CharCanvas, CharEntry, GapBuffer, GapBufferIter, Props, SelectionBound,
    SelectionTree, SplitDir, SplitWindow, TextEditMode, TextEditor, TextEditorBuilder,
};
pub use crate::escapes::TerminalRequest;
pub use crate::point::{Bounds, Rect, Vec2};
pub use crate::terminal::{DrawCommand, Terminal};
pub use crate::terminal::terminal_dims::TerminalDims;
pub use crate::terminal::events::InputEvent;
