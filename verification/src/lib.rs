//! A minimal pattern-matching engine over raw bytes.
//!
//! The grammar is fixed: a byte matches itself, `.` matches any byte, a
//! leading `^` anchors the match to the start of the text, a final `$`
//! anchors it to the end, and `*` after a byte matches zero or more
//! repetitions of that byte. Every byte sequence is a valid pattern; bytes
//! that have no special meaning in their position are literals.

pub mod laws;
pub mod regex;
