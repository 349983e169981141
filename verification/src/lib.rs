//! Turns a grammar-driven tokenizer's nested classification events into a
//! flat, position-addressed document of classified source ranges: each
//! classified unit of text becomes one occurrence with a packed
//! byte/line/column range and a coarse syntax kind.

pub mod dump;
pub mod emit;
pub mod kinds;
pub mod line_index;
pub mod props;
pub mod range;
pub mod tokenizer;

pub use emit::{Document, Event, LsifEmitter, Occurrence, TokenizerError};
pub use tokenizer::{index_language, IndexError};
pub use kinds::{SyntaxKind, CAPTURE_COUNT};
pub use line_index::LineManager;
pub use range::PackedRange;
