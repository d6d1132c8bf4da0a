//! Error kinds surfaced by every operation of the library.

use vstd::prelude::*;

verus! {

/// Why an enclave operation failed.
///
/// Locating a region distinguishes a well-formed container that lacks the
/// named region (`SectionNotFound`) from a container that cannot be parsed
/// at all (`MalformedBinary`) and from a container format the library does
/// not understand (`UnsupportedPlatform`). Decoding distinguishes a
/// checksum failure (`PayloadChecksum`) from bytes that pass the checksum
/// but do not parse as the payload type (`Deserialize`). `BinaryNotLocated`
/// and `Io` are reserved for the I/O layer around the library: resolving
/// the running executable's path, and file read/write/rename/permissions.
#[derive(Clone, Copy, Debug, PartialEq, Eq, Structural)]
pub enum EnclaveError {
    /// The container parsed, but holds no region with the requested name.
    SectionNotFound,
    /// The encoded payload does not fit the reserved capacity: `payload`
    /// bytes were offered, `section` bytes are available for them.
    SectionSizeExceeded { payload: usize, section: usize },
    /// The stored bytes fail integrity validation; no valid payload is present.
    PayloadChecksum,
    /// The stored bytes pass the checksum but do not parse as the payload type.
    Deserialize,
    /// The running executable's path or file name could not be resolved.
    BinaryNotLocated,
    /// A file read, write, rename or permission change failed.
    Io,
    /// The executable container cannot be parsed as its magic number promises.
    MalformedBinary,
    /// The executable is in neither of the two supported container formats.
    UnsupportedPlatform,
}

} // verus!
