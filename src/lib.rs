//! Layout-aware text extraction from the drawing instructions of a page.
pub mod chunk;
pub mod cmap;
pub mod content;
pub mod error;
pub mod font;
pub mod interpreter;
pub mod superscript;
pub mod transcript;

pub use chunk::{merge_text_rows, TextChunk};
pub use cmap::parse_unicode_map;
pub use content::{OpCode, Operand, Operation};
pub use error::ExtractError;
pub use font::{Font, FontCache, FontEntry, UnicodeTable};
pub use interpreter::{interpret_page, interpret_pages, TextState};
pub use superscript::{reclassify_rows, superscript_offset};
pub use transcript::{build_transcript, Transcript};
