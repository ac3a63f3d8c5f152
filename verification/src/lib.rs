//! A text scanner in the style of `java.util.Scanner`: it splits a byte
//! stream into tokens separated by a configurable regular-expression
//! delimiter, reads whole lines regardless of delimiter, and parses
//! tokens as 32-bit integers of a configurable radix.

pub mod delim;
pub mod number;
pub mod scanner;
pub mod source;
pub mod text;

pub use scanner::Scanner;
pub use source::ByteSource;
