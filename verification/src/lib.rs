use vstd::prelude::*;

pub mod editor;
pub mod highlight;
pub mod input;
pub mod numfmt;
pub mod render;
pub mod row;
pub mod text;

pub use editor::{EditorConfig, KeyAction, SearchState};
pub use render::AppendBuffer;
pub use editor::{editor_prompt_step, PromptStep};
pub use highlight::{default_syntax_db, is_separator, rust_syntax, update_syntax_row, EditorHighlight, EditorSyntax};
pub use input::{ctrl_key, decode_byte, decode_escape, decode_escape_tilde, EscapeStep};
pub use input::EditorKey;
pub use row::EditorRow;

verus! {

/// Number of columns between tab stops in the rendered form of a row.
pub const TAB_STOP: usize = 8;

/// How many consecutive quit commands a dirty document demands.
pub const QUIT_TIMES: u8 = 3;

} // verus!
