pub mod components;
pub mod escapes;
pub mod gap_buffer;
pub mod point;
pub mod prelude;
pub mod terminal;
