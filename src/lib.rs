//! A verified word, line, character and byte counter: option handling,
//! the counting engine, running totals and the report text.

pub mod text;
pub mod count;
pub mod options;
pub mod reader;
pub mod report;

pub use count::{count_content, count_text, Counts};
pub use options::Flags;
pub use reader::{CCWCFileReader, FileRecord};
pub use report::missing_file_message;
