//! Core of a small plain-text editor: the document buffer with undo/redo
//! history, byte-level encoding detection and round-trip codecs (UTF-8,
//! UTF-16 LE/BE with byte-order marks, Latin-1 fallback), substring search
//! and replacement with a resumable cursor, and the file gateway that ties
//! them together. Every operation is specified and verified; the
//! presentation layer around it only moves bytes and renders results.

pub mod codec;
pub mod config;
pub mod editor;
pub mod file_ops;
pub mod format;
pub mod search;
