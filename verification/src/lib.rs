//! A verified core for a directory-tree differ.
//!
//! The library works on plain values: directory listings are sequences of
//! [`entry::Entry`] records (name, path, origin side, kind), file contents are
//! byte sequences, and timestamps are optional integers.  The caller reads the
//! filesystem, hands the plain values in, and carries out the actions the
//! library decides on: printing a report, comparing two files' bytes, or
//! recursing into a matched pair of subdirectories.

pub mod content;
pub mod entry;
pub mod listing;
pub mod order;
pub mod walk;
