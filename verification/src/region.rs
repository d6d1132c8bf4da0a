//! The reserved region and its facade: a fixed-capacity, checksummed
//! container for an encoded payload, compiled into the binary, plus the
//! operations `decode`, `decode_or_default` and `write`.
//!
//! `decode` reads the compiled-in, in-memory copy of the region and never
//! touches the disk. `write` encodes the payload, locates the region
//! inside the given on-disk image and returns the patched image for the
//! I/O layer to install atomically. A successful write is therefore never
//! observed by `decode` in the same process: only a freshly started
//! process, whose region is loaded from the rewritten file, sees it.

use vstd::prelude::*;
use vstd::bytes::spec_u64_from_le_bytes;
use vstd::slice::{slice_subrange, slice_to_vec};
use core::marker::PhantomData;
use crate::bytes::read_u64_le;
use crate::checksum::checksum_of;
use crate::error::EnclaveError;
use crate::frame::{
    build_frame, frame_fits, patch_image, spec_available, spec_frame, spec_splice,
    lemma_frame_payload, FRAME_HEADER,
};
use crate::locate::{locate, spec_locate, Located};

verus! {

/// A payload type that owns a reserved region.
///
/// Beyond the name of its region, a payload type brings its own codec:
/// what a value encodes to, when two values count as equal in
/// specifications, and which value stands in on decode failure.
/// Implementations prove that decoding recognises exactly the encodings.
pub trait EnclaveLocator: Sized {
    /// The name of the reserved region bound to this payload type.
    spec fn spec_section() -> Seq<u8>;

    /// The bytes this value encodes to.
    spec fn encoded(self) -> Seq<u8>;

    /// Equality of payload values as specifications state it.
    spec fn equiv(self, other: Self) -> bool;

    /// The value is the type's default.
    spec fn is_default(self) -> bool;

    /// The region name as a byte buffer.
    fn section_name() -> (r: Vec<u8>)
        ensures
            r@ == Self::spec_section(),
    ;

    /// Serialize the value.
    fn encode(&self) -> (r: Vec<u8>)
        ensures
            r@ == self.encoded(),
    ;

    /// Deserialize a value from exactly `bytes`, or report that no value
    /// of the type encodes to these bytes.
    fn decode_payload(bytes: &[u8]) -> (r: Option<Self>)
        ensures
            match r {
                Some(v) => v.encoded() == bytes@ && (forall|w: Self|
                    (#[trigger] w.encoded()) == bytes@ ==> w.equiv(v)),
                None => forall|v: Self| (#[trigger] v.encoded()) != bytes@,
            },
    ;

    /// The default value substituted on decode failure.
    fn default_value() -> (r: Self)
        ensures
            r.is_default(),
    ;
}

/// The reserved region holding one encoded payload of type `T`.
///
/// `len` counts the meaningful bytes of `pack`; `checksum` covers exactly
/// those bytes; bytes of `pack` beyond `len` are stale and never read.
/// The capacity is fixed when the region is declared and bounds every
/// payload this enclave can hold.
pub struct Enclave<T> {
    /// Number of meaningful bytes of `pack`.
    pub len: u64,
    /// Checksum over `pack[0..len]`.
    pub checksum: u64,
    /// The raw byte buffer of the region.
    pub pack: Vec<u8>,
    /// The payload type this region is bound to.
    pub _phantom: PhantomData<T>,
}

/// The outcome of a write at the specification level: the patched image
/// and the number of payload bytes written, or the error owed.
pub open spec fn spec_write_result(enc: Seq<u8>, name: Seq<u8>, binary: Seq<u8>) -> Result<
    (Seq<u8>, int),
    EnclaveError,
> {
    match spec_locate(binary, name) {
        Located::Found { offset, size } => {
            if offset + size > binary.len() {
                Err(EnclaveError::MalformedBinary)
            } else if !frame_fits(enc, size as int) {
                Err(
                    EnclaveError::SectionSizeExceeded {
                        payload: enc.len() as usize,
                        section: spec_available(size as int) as usize,
                    },
                )
            } else {
                Ok((spec_splice(binary, offset as int, spec_frame(enc, size as int)), enc.len() as int))
            }
        },
        Located::NotFound => Err(EnclaveError::SectionNotFound),
        Located::Malformed => Err(EnclaveError::MalformedBinary),
        Located::Unsupported => Err(EnclaveError::UnsupportedPlatform),
    }
}

impl<T: EnclaveLocator> Enclave<T> {
    /// The region's capacity in bytes.
    pub open spec fn capacity(self) -> int {
        self.pack@.len() as int
    }

    /// The stored length is within the capacity; false only if the
    /// on-disk file was corrupted out of band.
    pub open spec fn valid_len(self) -> bool {
        self.len as int <= self.pack@.len()
    }

    /// The meaningful bytes of the buffer.
    pub open spec fn payload_bytes(self) -> Seq<u8> {
        self.pack@.subrange(0, self.len as int)
    }

    /// The stored checksum covers the meaningful bytes.
    pub open spec fn checksum_ok(self) -> bool {
        self.valid_len() && self.checksum == checksum_of(self.payload_bytes())
    }

    /// A fresh region of capacity `size`: no payload, zeroed buffer.
    pub fn new(size: usize) -> (r: Self)
        ensures
            r.len == 0,
            r.checksum == 0,
            r.capacity() == size,
            r.payload_bytes() == Seq::<u8>::empty(),
    {
        let r = Enclave { len: 0, checksum: 0, pack: crate::bytes::zero_vec(size), _phantom: PhantomData };
        proof {
            assert(r.payload_bytes() =~= Seq::<u8>::empty());
        }
        r
    }

    /// The region as a fresh process start sees it: the frame bytes read
    /// back from the named region of the on-disk image.
    pub fn from_region(bytes: &[u8]) -> (r: Self)
        requires
            bytes@.len() >= FRAME_HEADER,
        ensures
            r.len == spec_u64_from_le_bytes(bytes@.subrange(0, 8)),
            r.checksum == spec_u64_from_le_bytes(bytes@.subrange(8, 16)),
            r.pack@ == bytes@.skip(FRAME_HEADER as int),
    {
        let n: usize = bytes.len();
        let len = read_u64_le(bytes, 0);
        let ck = read_u64_le(bytes, 8);
        let pack = slice_to_vec(slice_subrange(bytes, FRAME_HEADER, n));
        proof {
            assert(bytes@.subrange(FRAME_HEADER as int, n as int) =~= bytes@.skip(
                FRAME_HEADER as int,
            ));
        }
        Enclave { len, checksum: ck, pack, _phantom: PhantomData }
    }

    /// Decode the embedded region into a payload value.
    ///
    /// The checksum is validated first, over exactly the meaningful
    /// bytes; only bytes that pass it are handed to the payload codec, so
    /// corruption is reported as `PayloadChecksum` and never surfaces as
    /// a deserialization error or a wrong value.
    pub fn decode(&self) -> (r: Result<T, EnclaveError>)
        ensures
            match r {
                Ok(v) => self.checksum_ok() && v.encoded() == self.payload_bytes() && (forall|
                    w: T,
                |
                    (#[trigger] w.encoded()) == self.payload_bytes() ==> w.equiv(v)),
                Err(e) => {
                    &&& !self.checksum_ok() ==> e == EnclaveError::PayloadChecksum
                    &&& self.checksum_ok() ==> e == EnclaveError::Deserialize && (forall|v: T|
                        (#[trigger] v.encoded()) != self.payload_bytes())
                },
            },
    {
        let cap = self.pack.len();
        if self.len > cap as u64 {
            return Err(EnclaveError::PayloadChecksum);
        }
        let l = self.len as usize;
        let meaningful = slice_subrange(self.pack.as_slice(), 0, l);
        let ck = crate::checksum::checksum(meaningful);
        if ck != self.checksum {
            return Err(EnclaveError::PayloadChecksum);
        }
        match T::decode_payload(meaningful) {
            Some(v) => Ok(v),
            None => Err(EnclaveError::Deserialize),
        }
    }

    /// Decode the embedded region, substituting the type's default value
    /// on any failure.
    pub fn decode_or_default(&self) -> (r: T)
        ensures
            self.checksum_ok() && (exists|v: T| (#[trigger] v.encoded())
                == self.payload_bytes()) ==> r.encoded() == self.payload_bytes(),
            !(self.checksum_ok() && (exists|v: T| (#[trigger] v.encoded())
                == self.payload_bytes())) ==> r.is_default(),
    {
        match self.decode() {
            Ok(v) => v,
            Err(_) => T::default_value(),
        }
    }

    /// Write a new payload into an image of the binary.
    ///
    /// Encodes the payload, locates this type's region inside `binary`,
    /// and returns the patched image together with the number of payload
    /// bytes written. The caller persists the image by writing it to a
    /// sibling temporary file and atomically renaming it over the
    /// original; the running process keeps its old in-memory region, so
    /// only the next process start observes the new payload.
    pub fn write(&self, payload: &T, binary: &[u8]) -> (r: Result<(Vec<u8>, usize), EnclaveError>)
        ensures
            ({
                let s = spec_write_result(payload.encoded(), T::spec_section(), binary@);
                match r {
                    Ok(p) => s matches Ok(sp) && p.0@ == sp.0 && p.1 as int == sp.1,
                    Err(e) => s == Err::<(Seq<u8>, int), EnclaveError>(e),
                }
            }),
    {
        self._write(payload, binary)
    }

    /// The write pipeline behind [`Self::write`]: encode, locate, frame,
    /// patch.
    pub fn _write(&self, payload: &T, binary: &[u8]) -> (r: Result<
        (Vec<u8>, usize),
        EnclaveError,
    >)
        ensures
            ({
                let s = spec_write_result(payload.encoded(), T::spec_section(), binary@);
                match r {
                    Ok(p) => s matches Ok(sp) && p.0@ == sp.0 && p.1 as int == sp.1,
                    Err(e) => s == Err::<(Seq<u8>, int), EnclaveError>(e),
                }
            }),
    {
        let name = T::section_name();
        let enc = payload.encode();
        let n: usize = binary.len();
        match locate(binary, name.as_slice()) {
            Err(e) => Err(e),
            Ok((offset, size)) => {
                if (offset as u128) + (size as u128) > (n as u128) {
                    return Err(EnclaveError::MalformedBinary);
                }
                match build_frame(enc.as_slice(), size as usize) {
                    Err(e) => Err(e),
                    Ok(frame) => {
                        proof {
                            lemma_frame_payload(enc@, size as int);
                        }
                        let img = patch_image(binary, offset as usize, frame.as_slice());
                        Ok((img, enc.len()))
                    },
                }
            },
        }
    }
}

} // verus!
