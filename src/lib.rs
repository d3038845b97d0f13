//! Frequency tables over text: how often each character, word or line occurs.
//!
//! The input is a byte buffer read as newline-delimited UTF-8 text. Each line
//! is cut into tokens according to a [`CountOption`], and the tokens are
//! tallied into a [`FreqTable`]. A line that is not valid UTF-8 makes the
//! whole count fail with [`CountError::InvalidEncoding`].
pub mod count;
pub mod laws;
pub mod lines;
pub mod table;
pub mod words;

pub use count::{count, count_lines, CountError, CountOption};
pub use lines::read_lines;
pub use table::{tally, FreqTable};
