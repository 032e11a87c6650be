pub mod char_canvas;
pub mod loading_bar;
pub mod split_window;
pub mod text_editor;

pub use char_canvas::{CharCanvas, CharEntry, Props};
pub use loading_bar::BarDirection;
pub use split_window::{SplitDir, SplitWindow};
pub use text_editor::{TextEditMode, TextEditor, TextEditorBuilder};
pub use text_editor::gap_buffer::{GapBuffer, GapBufferIter};
pub use text_editor::selection_tree::{SelectionBound, SelectionTree};
