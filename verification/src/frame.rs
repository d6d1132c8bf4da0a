//! The encoded frame: the authoritative on-disk representation of a
//! reserved region, and the pure part of the atomic binary patcher.
//!
//! A frame fills its region exactly: an eight-byte little-endian payload
//! length, an eight-byte little-endian checksum of the payload, the
//! payload bytes, and zero padding up to the region's size. Patching an
//! image replaces the located region's byte range with a frame and touches
//! nothing else; the caller installs the patched image atomically.

use vstd::prelude::*;
use vstd::bytes::{spec_u64_to_le_bytes, u64_to_le_bytes};
use vstd::pervasive::VecAdditionalExecFns;
use vstd::slice::slice_to_vec;
use crate::checksum::{checksum, checksum_of};
use crate::error::EnclaveError;

verus! {

/// Bytes of a frame spent on the length and checksum fields.
pub const FRAME_HEADER: usize = 16;

/// A payload fits a region when the region holds it and the header.
pub open spec fn frame_fits(payload: Seq<u8>, region_size: int) -> bool {
    payload.len() + FRAME_HEADER <= region_size
}

/// The frame laid into a region of `region_size` bytes: length, checksum,
/// payload, zero padding.
pub open spec fn spec_frame(payload: Seq<u8>, region_size: int) -> Seq<u8> {
    spec_u64_to_le_bytes(payload.len() as u64) + spec_u64_to_le_bytes(checksum_of(payload))
        + payload + Seq::new((region_size - FRAME_HEADER - payload.len()) as nat, |i: int| 0u8)
}

/// The capacity left for payload bytes in a region of `region_size` bytes.
pub open spec fn spec_available(region_size: int) -> int {
    if region_size >= FRAME_HEADER {
        region_size - FRAME_HEADER
    } else {
        0
    }
}

/// Build the frame for `payload` in a region of `region_size` bytes, or
/// report that the payload does not fit.
pub fn build_frame(payload: &[u8], region_size: usize) -> (r: Result<Vec<u8>, EnclaveError>)
    ensures
        frame_fits(payload@, region_size as int) ==> (r matches Ok(f) && f@ == spec_frame(
            payload@,
            region_size as int,
        )),
        !frame_fits(payload@, region_size as int) ==> r == Err::<Vec<u8>, EnclaveError>(
            EnclaveError::SectionSizeExceeded {
                payload: payload@.len() as usize,
                section: spec_available(region_size as int) as usize,
            },
        ),
{
    let plen = payload.len();
    if region_size < FRAME_HEADER || plen > region_size - FRAME_HEADER {
        let available: usize = if region_size >= FRAME_HEADER {
            region_size - FRAME_HEADER
        } else {
            0
        };
        return Err(EnclaveError::SectionSizeExceeded { payload: plen, section: available });
    }
    let ck = checksum(payload);
    let mut f = u64_to_le_bytes(plen as u64);
    let mut ckb = u64_to_le_bytes(ck);
    f.append(&mut ckb);
    f.extend_from_slice(payload);
    proof {
        assert(f@ =~= spec_u64_to_le_bytes(plen as u64) + spec_u64_to_le_bytes(checksum_of(
            payload@,
        )) + payload@);
    }
    while f.len() < region_size
        invariant
            spec_u64_to_le_bytes(payload@.len() as u64).len() == 8,
            FRAME_HEADER + payload@.len() <= f@.len() <= region_size,
            f@.subrange(0, FRAME_HEADER + payload@.len() as int) == spec_u64_to_le_bytes(
                payload@.len() as u64,
            ) + spec_u64_to_le_bytes(checksum_of(payload@)) + payload@,
            forall|i: int| FRAME_HEADER + payload@.len() <= i < f@.len() ==> f@[i] == 0u8,
        decreases region_size - f.len(),
    {
        f.push(0u8);
        proof {
            assert(f@.subrange(0, FRAME_HEADER + payload@.len() as int) =~= f@.drop_last()
                .subrange(0, FRAME_HEADER + payload@.len() as int));
        }
    }
    proof {
        assert(f@ =~= spec_frame(payload@, region_size as int));
    }
    Ok(f)
}

/// The image with the byte range starting at `off` replaced by `frame`.
pub open spec fn spec_splice(image: Seq<u8>, off: int, frame: Seq<u8>) -> Seq<u8> {
    image.subrange(0, off) + frame + image.skip(off + frame.len())
}

/// Replace the bytes of `image` at `[offset, offset + frame.len())` by
/// `frame`, leaving every other byte unchanged.
#[verifier::loop_isolation(false)]
pub fn patch_image(image: &[u8], offset: usize, frame: &[u8]) -> (r: Vec<u8>)
    requires
        offset + frame@.len() <= image@.len(),
    ensures
        r@ == spec_splice(image@, offset as int, frame@),
        r@.len() == image@.len(),
{
    let n: usize = image.len();
    let mut out: Vec<u8> = slice_to_vec(image);
    let flen = frame.len();
    let mut i: usize = 0;
    while i < flen
        invariant
            i <= flen,
            out@.len() == image@.len(),
            forall|j: int| 0 <= j < offset ==> out@[j] == image@[j],
            forall|j: int| 0 <= j < i ==> out@[offset + j] == frame@[j],
            forall|j: int| offset + flen <= j < image@.len() ==> out@[j] == image@[j],
        decreases flen - i,
    {
        out.set(offset + i, frame[i]);
        i = i + 1;
    }
    proof {
        assert(out@ =~= spec_splice(image@, offset as int, frame@));
    }
    out
}

/// Inside a spliced image, the region holds exactly the frame.
pub proof fn lemma_splice_region(image: Seq<u8>, off: int, frame: Seq<u8>)
    requires
        0 <= off,
        off + frame.len() <= image.len(),
    ensures
        spec_splice(image, off, frame).len() == image.len(),
        spec_splice(image, off, frame).subrange(off, off + frame.len()) == frame,
        forall|j: int|
            0 <= j < image.len() && !(off <= j < off + frame.len()) ==> spec_splice(
                image,
                off,
                frame,
            )[j] == image[j],
{
    assert(spec_splice(image, off, frame).subrange(off, off + frame.len()) =~= frame);
}

/// The payload laid into a frame is recoverable from it.
pub proof fn lemma_frame_payload(payload: Seq<u8>, region_size: int)
    requires
        frame_fits(payload, region_size),
    ensures
        spec_frame(payload, region_size).len() == region_size,
        spec_frame(payload, region_size).subrange(
            FRAME_HEADER as int,
            FRAME_HEADER + payload.len() as int,
        ) == payload,
        spec_frame(payload, region_size).subrange(0, 8) == spec_u64_to_le_bytes(
            payload.len() as u64,
        ),
        spec_frame(payload, region_size).subrange(8, FRAME_HEADER as int) == spec_u64_to_le_bytes(
            checksum_of(payload),
        ),
{
    vstd::bytes::lemma_auto_spec_u64_to_from_le_bytes();
    assert(spec_frame(payload, region_size).subrange(
        FRAME_HEADER as int,
        FRAME_HEADER + payload.len() as int,
    ) =~= payload);
    assert(spec_frame(payload, region_size).subrange(0, 8) =~= spec_u64_to_le_bytes(
        payload.len() as u64,
    ));
    assert(spec_frame(payload, region_size).subrange(8, FRAME_HEADER as int)
        =~= spec_u64_to_le_bytes(checksum_of(payload)));
}

} // verus!
