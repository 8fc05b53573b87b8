//! The logic of a color picker: reading and writing color notations, the
//! saved palette and favorites with their settings, and the decisions that
//! the window takes on edits and notices.

pub mod clipboard;
pub mod color;
pub mod editing;
pub mod saved_colors;
pub mod storage;
pub mod style;
pub mod text;
