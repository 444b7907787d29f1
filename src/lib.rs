//! Counting and enumerating the lines of text, resolving the list of files
//! to process, and tallying the outcome of a batch run.
pub mod batch;
pub mod files;
pub mod lines;
pub mod text;

pub use batch::{report, BatchOutcome, Flags};
pub use files::Files;
pub use lines::{count, count_and_print, split_lines};
pub use text::push_decimal;
