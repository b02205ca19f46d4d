//! A small helper library for "ask until valid" console input loops.
//!
//! The core is a prompt/read/parse/retry loop: write a prompt to an output
//! sink, read one line from an input source, trim it, and hand it to a
//! caller-supplied parsing function; on failure the error text is written to
//! the sink and the loop repeats. The sink and source are in-memory
//! capabilities, so the loop is fully specified and testable without a real
//! terminal; a surrounding program binds them to its own streams and drives
//! the same trim-and-parse step per line.

pub mod email;
pub mod reader;
pub mod stream;
pub mod text;

pub use email::Email;
pub use email::EmailParseError;
pub use reader::input_from;
pub use reader::next_line;
pub use reader::parse_trimmed;
pub use reader::prompt;
pub use reader::EndOfInput;
pub use stream::InputSource;
pub use stream::OutputSink;
pub use text::trim;
