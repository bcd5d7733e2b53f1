//! Tokenizer and record assembler for access logs in the Apache "combined" format.
//!
//! A log is read through a [`reader::BufReader`], which hands out the bytes of
//! a [`stream::ByteStream`] as characters, one at a time, with one character
//! of pushback. The functions of [`token`] cut the characters into plain,
//! quoted and bracketed tokens. [`parse::parse_entry`] reads one token for
//! each role of a format table ([`format`]) and assembles a
//! [`entry::LogEntry`]; [`parse::parse`] and [`parse::parse_entries`] do so
//! for every line. [`render::serialize`] writes a record back as a line.
//! Malformed input ends a parse with a [`error::ParseError`] that tells the
//! kind of failure, the field, the offset and the token that was refused.
//!
//! Every function states what it returns over a mathematical model of its
//! input: the characters that a reader has left, the tokens they hold, and
//! the records those tokens make up. [`laws`] and [`roundtrip`] hold what is
//! proved of every line: what the placeholder `-` means, that a line without
//! its newline is never read as a record, and what survives when a line is
//! read and written back or written and read back.
//!
//! [`count`] counts the lines, words and bytes of a text.

pub mod count;
pub mod entry;
pub mod error;
pub mod format;
pub mod laws;
pub mod number;
pub mod parse;
pub mod reader;
pub mod render;
pub mod roundtrip;
pub mod stream;
pub mod text;
pub mod token;
