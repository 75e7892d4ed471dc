//! A parallel recursive pattern-search engine.
//!
//! Given a root path, a regular-expression pattern and a colour choice, the
//! engine discovers regular files, scans each file line by line for matches,
//! and produces per-file record batches in which every matched line carries
//! the match highlighted with ANSI escape sequences.
//!
//! The library holds the verified core: the colour codec ([`colors`]), the
//! highlighter ([`highlighter`]), the file-discovery walker ([`crawler`]),
//! the reader-strategy selector ([`file_reader`]), the per-file scanner
//! ([`scanner`]) and the record sinks ([`result`], [`output`]). File
//! reading, thread-pool fan-out and argument handling live outside the
//! library and hand it plain values.
//!
//! The contracts pin down, among other things: that every batch opens with
//! one header and closes with one done record; that the matched count is
//! the sum of the pattern's non-overlapping matches over the emitted lines;
//! that stripping the inserted escape sequences recovers the scanned line;
//! that lines plus skipped account for every physical line; and that the
//! reader selector streams in multi-file context whatever the sizes.

pub mod colors;
pub mod crawler;
pub mod file_reader;
pub mod highlighter;
pub mod output;
pub mod result;
pub mod scanner;
