//! The library's laws: proofs relating write, reload and decode.

use vstd::prelude::*;
use vstd::bytes::spec_u64_from_le_bytes;
use crate::checksum::{checksum_of, lemma_checksum_detects_corruption};
use crate::error::EnclaveError;
use crate::frame::{
    frame_fits, lemma_frame_payload, lemma_splice_region, spec_frame, spec_splice, FRAME_HEADER,
};
use crate::locate::{spec_locate, Located};
use crate::region::{spec_write_result, Enclave, EnclaveLocator};

verus! {

/// Round trip: when the region is located at `offset`/`size` inside
/// `binary` and the encoded payload fits it, the write succeeds, `img` is
/// the patched image, and an enclave reloaded from the written region —
/// as a fresh process start or [`Enclave::from_region`] builds it —
/// passes the checksum and holds exactly the encoded payload. By the
/// contracts of [`Enclave::decode`] and `EnclaveLocator::decode_payload`,
/// decoding it then yields a value equivalent to the one written.
pub proof fn lemma_round_trip<T: EnclaveLocator>(
    v: T,
    binary: Seq<u8>,
    offset: u64,
    size: u64,
    img: Seq<u8>,
    e: Enclave<T>,
)
    requires
        spec_locate(binary, T::spec_section()) == (Located::Found { offset, size }),
        offset + size <= binary.len(),
        frame_fits(v.encoded(), size as int),
        img == spec_splice(binary, offset as int, spec_frame(v.encoded(), size as int)),
        e.len == spec_u64_from_le_bytes(img.subrange(offset as int, offset + 8)),
        e.checksum == spec_u64_from_le_bytes(img.subrange(offset + 8, offset + FRAME_HEADER)),
        e.pack@ == img.subrange(offset as int, offset + size).skip(FRAME_HEADER as int),
    ensures
        spec_write_result(v.encoded(), T::spec_section(), binary) == Ok::<
            (Seq<u8>, int),
            EnclaveError,
        >((img, v.encoded().len() as int)),
        e.checksum_ok(),
        e.payload_bytes() == v.encoded(),
{
    let enc = v.encoded();
    let frame = spec_frame(enc, size as int);
    lemma_frame_payload(enc, size as int);
    lemma_splice_region(binary, offset as int, frame);
    vstd::bytes::lemma_auto_spec_u64_to_from_le_bytes();
    let region = img.subrange(offset as int, offset + size);
    assert(region == frame);
    assert(img.subrange(offset as int, offset + 8) =~= region.subrange(0, 8));
    assert(img.subrange(offset + 8, offset + FRAME_HEADER) =~= region.subrange(
        8,
        FRAME_HEADER as int,
    ));
    assert(e.len == enc.len());
    assert(e.checksum == checksum_of(enc));
    assert(e.pack@.len() == size - FRAME_HEADER);
    assert(e.payload_bytes() =~= frame.subrange(FRAME_HEADER as int, FRAME_HEADER + enc.len()));
}

/// Idempotence: writing the same value onto the once-written image again
/// succeeds or fails on its own, but whenever both writes succeed, both
/// images carry the same number of payload bytes and their located
/// regions hold the same payload — the value's encoding — so the decoded
/// payload after writing twice equals the decoded payload after writing
/// once.
pub proof fn lemma_write_idempotent<T: EnclaveLocator>(
    v: T,
    binary: Seq<u8>,
    img1: Seq<u8>,
    img2: Seq<u8>,
    n1: int,
    n2: int,
)
    requires
        spec_write_result(v.encoded(), T::spec_section(), binary) == Ok::<
            (Seq<u8>, int),
            EnclaveError,
        >((img1, n1)),
        spec_write_result(v.encoded(), T::spec_section(), img1) == Ok::<
            (Seq<u8>, int),
            EnclaveError,
        >((img2, n2)),
    ensures
        n1 == n2 == v.encoded().len(),
        spec_locate(binary, T::spec_section()) matches Located::Found { offset: o1, size: s1 }
            && img1.subrange(o1 + FRAME_HEADER, o1 + FRAME_HEADER + v.encoded().len())
            == v.encoded(),
        spec_locate(img1, T::spec_section()) matches Located::Found { offset: o2, size: s2 }
            && img2.subrange(o2 + FRAME_HEADER, o2 + FRAME_HEADER + v.encoded().len())
            == v.encoded(),
{
    let enc = v.encoded();
    let r1 = spec_locate(binary, T::spec_section());
    let r2 = spec_locate(img1, T::spec_section());
    if let Located::Found { offset: o1, size: s1 } = r1 {
        lemma_frame_payload(enc, s1 as int);
        lemma_splice_region(binary, o1 as int, spec_frame(enc, s1 as int));
        assert(img1.subrange(o1 as int, o1 + s1) == spec_frame(enc, s1 as int));
        assert(img1.subrange(o1 + FRAME_HEADER, o1 + FRAME_HEADER + enc.len()) =~= img1.subrange(
            o1 as int,
            o1 + s1,
        ).subrange(FRAME_HEADER as int, FRAME_HEADER + enc.len()));
    }
    if let Located::Found { offset: o2, size: s2 } = r2 {
        lemma_frame_payload(enc, s2 as int);
        lemma_splice_region(img1, o2 as int, spec_frame(enc, s2 as int));
        assert(img2.subrange(o2 as int, o2 + s2) == spec_frame(enc, s2 as int));
        assert(img2.subrange(o2 + FRAME_HEADER, o2 + FRAME_HEADER + enc.len()) =~= img2.subrange(
            o2 as int,
            o2 + s2,
        ).subrange(FRAME_HEADER as int, FRAME_HEADER + enc.len()));
    }
}

/// Corruption detection: if the enclave's checksum was computed over
/// `good` but its buffer now differs from `good` in exactly one byte of
/// the meaningful range — as after any single flipped bit — the checksum
/// no longer matches, so by the contract of [`Enclave::decode`] decoding
/// fails with `PayloadChecksum` and never yields a silently wrong value.
pub proof fn lemma_decode_detects_corruption<T: EnclaveLocator>(
    e: Enclave<T>,
    good: Seq<u8>,
    i: int,
)
    requires
        e.valid_len(),
        e.checksum == checksum_of(good),
        good.len() == e.payload_bytes().len(),
        0 <= i < good.len(),
        e.payload_bytes()[i] != good[i],
        forall|j: int| 0 <= j < good.len() && j != i ==> e.payload_bytes()[j] == good[j],
    ensures
        !e.checksum_ok(),
{
    lemma_checksum_detects_corruption(good, e.payload_bytes(), i);
}

/// A failed write changes nothing: the write pipeline is a pure function
/// of the image, and an error outcome carries no patched image at all, so
/// the original file is untouched until the caller installs a returned
/// image by the atomic rename.
pub proof fn lemma_failed_write_returns_no_image<T: EnclaveLocator>(v: T, binary: Seq<u8>)
    requires
        spec_locate(binary, T::spec_section()) is NotFound,
    ensures
        spec_write_result(v.encoded(), T::spec_section(), binary) == Err::<
            (Seq<u8>, int),
            EnclaveError,
        >(EnclaveError::SectionNotFound),
{
}

} // verus!
