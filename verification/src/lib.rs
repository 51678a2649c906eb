//! A bridge from a blocking, line-oriented byte source (the process's standard
//! input) to a bounded asynchronous channel of text lines.
//!
//! A dedicated worker thread performs blocking reads, splits the byte stream
//! into newline-delimited lines, decodes each line as UTF-8, and forwards every
//! successfully decoded line, in order, over the sending end of a bounded
//! channel. The consumer drains the receiving end without blocking its own
//! scheduler.
//!
//! The splitting of the byte stream into lines and the per-event behaviour of
//! the worker loop are verified here; the blocking reads themselves, the
//! spawning of the worker thread, and the channel implementation are outside
//! the verified core.

pub mod bridge;
pub mod decode;
pub mod lines;
pub mod props;

pub use bridge::ReadEvent;
pub use bridge::advance;
pub use bridge::send_all;
pub use bridge::step;
pub use decode::decode_lines;
pub use lines::LineBuffer;
