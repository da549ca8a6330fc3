//! Sorting the fields within each line of text, or checking that they are
//! already in order.
//!
//! A line is split into fields ([`tokenizer`]), the fields are ordered by a
//! [`comparator::Comparator`] built once from the options, and each line is
//! either rewritten with its fields sorted or checked ([`line`]). A
//! [`driver::Driver`] numbers the lines of a stream and stops at the first
//! line that fails a check.
pub mod comparator;
pub mod tokenizer;
pub mod options;
pub mod line;
pub mod text;
pub mod driver;
