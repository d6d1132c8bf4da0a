//! A concrete payload type: a counter and a byte-string label.
//!
//! The wire form is a fixed-width little-endian count, a little-endian
//! length field, and the label bytes, with nothing after them: decoding
//! accepts exactly the encodings, which is what makes the round trip and
//! the rejection of malformed bytes provable.

use vstd::prelude::*;
use vstd::bytes::{
    lemma_auto_spec_u64_to_from_le_bytes, spec_u64_to_le_bytes, u64_to_le_bytes,
};
use vstd::slice::{slice_subrange, slice_to_vec};
use crate::bytes::read_u64_le;
use crate::region::EnclaveLocator;

verus! {

/// A configuration payload: a count and a label.
#[derive(Clone, Debug)]
pub struct Config {
    /// An application counter.
    pub count: u64,
    /// An application label, as raw bytes.
    pub label: Vec<u8>,
}

impl Default for Config {
    /// The default payload: a zero count and an empty label.
    fn default() -> (r: Self)
        ensures
            r.is_default(),
    {
        Config { count: 0, label: Vec::new() }
    }
}

impl EnclaveLocator for Config {
    /// The region name `appconfig`.
    open spec fn spec_section() -> Seq<u8> {
        seq![0x61u8, 0x70u8, 0x70u8, 0x63u8, 0x6fu8, 0x6eu8, 0x66u8, 0x69u8, 0x67u8]
    }

    open spec fn encoded(self) -> Seq<u8> {
        spec_u64_to_le_bytes(self.count) + spec_u64_to_le_bytes(self.label@.len() as u64)
            + self.label@
    }

    open spec fn equiv(self, other: Self) -> bool {
        self.count == other.count && self.label@ == other.label@
    }

    open spec fn is_default(self) -> bool {
        self.count == 0 && self.label@ == Seq::<u8>::empty()
    }

    fn section_name() -> (r: Vec<u8>)
        ensures
            r@ == Self::spec_section(),
    {
        let mut v: Vec<u8> = Vec::new();
        v.push(0x61);
        v.push(0x70);
        v.push(0x70);
        v.push(0x63);
        v.push(0x6f);
        v.push(0x6e);
        v.push(0x66);
        v.push(0x69);
        v.push(0x67);
        proof {
            assert(v@ =~= Self::spec_section());
        }
        v
    }

    fn encode(&self) -> (r: Vec<u8>)
        ensures
            r@ == self.encoded(),
    {
        let mut v = u64_to_le_bytes(self.count);
        let mut l = u64_to_le_bytes(self.label.len() as u64);
        v.append(&mut l);
        v.extend_from_slice(self.label.as_slice());
        proof {
            assert(v@ =~= self.encoded());
        }
        v
    }

    fn decode_payload(bytes: &[u8]) -> (r: Option<Self>)
        ensures
            match r {
                Some(v) => v.encoded() == bytes@ && (forall|w: Self|
                    (#[trigger] w.encoded()) == bytes@ ==> w.equiv(v)),
                None => forall|v: Self| (#[trigger] v.encoded()) != bytes@,
            },
    {
        proof {
            lemma_auto_spec_u64_to_from_le_bytes();
        }
        let blen: usize = bytes.len();
        if blen < 16 {
            proof {
                assert forall|v: Self| (#[trigger] v.encoded()) != bytes@ by {
                    assert(v.encoded().len() >= 16);
                }
            }
            return None;
        }
        let count = read_u64_le(bytes, 0);
        let n = read_u64_le(bytes, 8);
        if n != (blen - 16) as u64 {
            proof {
                assert forall|v: Self| (#[trigger] v.encoded()) != bytes@ by {
                    if v.encoded() == bytes@ {
                        assert(v.encoded().subrange(8, 16) =~= spec_u64_to_le_bytes(
                            v.label@.len() as u64,
                        ));
                        assert(bytes@.subrange(8, 16) == spec_u64_to_le_bytes(
                            v.label@.len() as u64,
                        ));
                        assert(n == v.label@.len());
                        assert(bytes@.len() == 16 + v.label@.len());
                    }
                }
            }
            return None;
        }
        let label = slice_to_vec(slice_subrange(bytes, 16, blen));
        let c = Config { count, label };
        proof {
            assert(c.label@ == bytes@.subrange(16, blen as int));
            assert(spec_u64_to_le_bytes(count) == bytes@.subrange(0, 8));
            assert(c.label@.len() == blen - 16);
            assert(spec_u64_to_le_bytes(c.label@.len() as u64) == bytes@.subrange(8, 16));
            assert(c.encoded() =~= bytes@);
            assert forall|w: Self| (#[trigger] w.encoded()) == bytes@ implies w.equiv(c) by {
                assert(w.encoded().subrange(0, 8) =~= spec_u64_to_le_bytes(w.count));
                assert(w.encoded().subrange(8, 16) =~= spec_u64_to_le_bytes(
                    w.label@.len() as u64,
                ));
                assert(w.encoded().skip(16) =~= w.label@);
                assert(bytes@.subrange(0, 8) == spec_u64_to_le_bytes(w.count));
                assert(w.count == count);
                assert(w.label@ == bytes@.skip(16));
                assert(c.label@ =~= bytes@.skip(16));
            }
        }
        Some(c)
    }

    fn default_value() -> (r: Self)
        ensures
            r.is_default(),
    {
        Config { count: 0, label: Vec::new() }
    }
}

} // verus!
