//! The reader selector: picks one of three file-reading strategies from the
//! scan context and the file's size.

use vstd::prelude::*;

verus! {

/// Largest file size, in bytes, read whole into memory.
pub const BULK_READ_SIZE_THRESHOLD: u64 = 7000000;

/// Largest file size, in bytes, scanned through a memory map.
pub const MEMORY_MAP_SIZE_THRESHOLD: u64 = 100000000;

/// A file-reading strategy.
#[derive(Debug, Clone, Copy, PartialEq, Eq, Structural)]
pub enum FileReader {
    /// Read the whole file into memory; for single files of at most
    /// `BULK_READ_SIZE_THRESHOLD` bytes.
    BulkRead,
    /// Map the file read-only; for single files of more than
    /// `BULK_READ_SIZE_THRESHOLD` and at most `MEMORY_MAP_SIZE_THRESHOLD`
    /// bytes.
    MemoryMap,
    /// Read line by line through a bounded buffer; for larger single files,
    /// for files whose size is unknown, and always in multi-file context.
    Streaming,
}

/// The strategy chosen for a file of the given size (`None` where the size
/// could not be read) in the given context.
pub open spec fn spec_select(file_size: Option<u64>, is_single_file: bool) -> FileReader {
    if !is_single_file {
        FileReader::Streaming
    } else {
        match file_size {
            Option::None => FileReader::Streaming,
            Option::Some(n) => {
                if n <= BULK_READ_SIZE_THRESHOLD {
                    FileReader::BulkRead
                } else if n <= MEMORY_MAP_SIZE_THRESHOLD {
                    FileReader::MemoryMap
                } else {
                    FileReader::Streaming
                }
            },
        }
    }
}

impl FileReader {
    /// Chooses the reading strategy for one file.
    ///
    /// In multi-file context the choice is `Streaming` whatever the size; in
    /// single-file context it is driven by the size alone, and a size that
    /// could not be read falls back to `Streaming`.
    pub fn select(file_size: Option<u64>, is_single_file: bool) -> (r: FileReader)
        ensures
            r == spec_select(file_size, is_single_file),
            !is_single_file ==> r == FileReader::Streaming,
            (file_size matches Some(n) && is_single_file && n <= BULK_READ_SIZE_THRESHOLD) ==> r
                == FileReader::BulkRead,
            (file_size matches Some(n) && is_single_file && BULK_READ_SIZE_THRESHOLD < n
                <= MEMORY_MAP_SIZE_THRESHOLD) ==> r == FileReader::MemoryMap,
            (file_size matches Some(n) && is_single_file && n > MEMORY_MAP_SIZE_THRESHOLD) ==> r
                == FileReader::Streaming,
            is_single_file && file_size is None ==> r == FileReader::Streaming,
    {
        if !is_single_file {
            return FileReader::Streaming;
        }
        match file_size {
            Option::None => FileReader::Streaming,
            Option::Some(n) => {
                if n <= BULK_READ_SIZE_THRESHOLD {
                    FileReader::BulkRead
                } else if n <= MEMORY_MAP_SIZE_THRESHOLD {
                    FileReader::MemoryMap
                } else {
                    FileReader::Streaming
                }
            },
        }
    }
}

} // verus!
