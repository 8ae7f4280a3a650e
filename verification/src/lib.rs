//! A hex dump formatter.
//!
//! Bytes are rendered sixteen to a line. Each line carries the offset of its
//! first byte, the bytes in hexadecimal in two groups of eight, and the same
//! bytes as printable ASCII between two bars:
//!
//! ```text
//! 000000 54 68 69 73 20 69 73 20  61 20 74 65 73 74 20 6d |This is a test m|
//! 000010 65 73 73 61 67 65 2e                             |essage.|
//! ```
//!
//! [`render`] defines the text of every field and of a whole line.
//! [`dumper`] holds the incremental formatter, which takes one byte at a time
//! and hands out each line when it is complete. [`dump`] formats a whole
//! slice at once and states what the formatter emits over a whole input.

pub mod dump;
pub mod dumper;
pub mod render;

pub use dump::dump_to;
pub use dumper::{Dumper, LineState};
pub use render::ascii_char;
