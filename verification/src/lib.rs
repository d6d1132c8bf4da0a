//! Store a fixed-capacity, checksummed configuration payload inside the
//! running program's own executable image.
//!
//! A reserved region (a named section of the executable) holds an encoded
//! frame: an eight-byte length, an eight-byte checksum, and the payload
//! bytes. Reading decodes the compiled-in copy of the region; writing
//! locates the region inside the on-disk executable and produces a patched
//! image that a thin I/O layer installs by an atomic rename. A write is
//! visible only to the next process start, never to the running process.

pub mod bytes;
pub mod checksum;
pub mod error;
pub mod frame;
pub mod laws;
pub mod locate;
pub mod payload;
pub mod region;
