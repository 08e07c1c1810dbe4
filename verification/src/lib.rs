//! Incremental game-log ingestion core.
//!
//! Turns a growing plain-text log, presented as a sequence of lines, into a
//! compact stream of relevant lines and a deduplicated catalogue of observed
//! log-event shapes. The caller (an I/O shell) reads the file and hands the
//! lines in; everything here is pure and verified.

pub mod text;
pub mod reader;
pub mod tags;
pub mod markers;
pub mod signature;

pub use markers::contains_event_marker;
pub use markers::event_markers;
pub use reader::LogMetadata;
pub use reader::LogUpdate;
pub use reader::get_metadata;
pub use reader::line_count;
pub use reader::read_suffix;
pub use reader::read_update;
pub use signature::generate_signature;
pub use tags::RawLogPattern;
pub use tags::extract_log_pattern;

