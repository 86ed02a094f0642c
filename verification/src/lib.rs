//! The core of a small terminal text editor: rows of text addressed by
//! character, byte and screen column, a decoder for the bytes a terminal
//! sends, and an incremental search over a buffer of rows.

pub mod editor;
pub mod highlight;
pub mod input;
pub mod number;
pub mod row;
pub mod screen;
pub mod search;
pub mod strings;
pub mod terminal;
pub mod text_buffer;
pub mod utf8;
pub mod width;

pub use editor::Editor;
pub use highlight::Highlighting;
pub use input::{Decoder, InputSeq, SpecialKey};
pub use row::Row;
pub use screen::Screen;
pub use search::TextSearch;
pub use text_buffer::TextBuffer;
