//! The section locator: resolve a named region of an executable image to a
//! byte offset and byte length within the file.
//!
//! Two container formats are understood, each parsed directly from the
//! byte buffer and specified by spec functions that read the same header
//! fields:
//!
//! * the flat section-header-table format (ELF64, little-endian): every
//!   section header names its section through an index into a string
//!   table; the first header whose name equals the requested name wins;
//! * the segment-and-section format (Mach-O, 64-bit): load commands are
//!   walked for the well-known `__DATA` segment, and the requested name is
//!   looked up among that segment's sections.
//!
//! A buffer in neither format is unsupported; one whose magic number
//! promises a format that cannot be parsed is malformed; a well-formed
//! container without the requested region is `SectionNotFound`. The
//! locator is a pure function of the buffer and performs no I/O.

use vstd::prelude::*;
use vstd::arithmetic::mul::{lemma_mul_inequality, lemma_mul_is_distributive_add_other_way};
use crate::bytes::{le16_at, le32_at, le64_at, read_u16_le, read_u32_le, read_u64_le};
use crate::error::EnclaveError;

verus! {

/// The outcome of resolving a name against an executable image.
pub enum Located {
    /// The region exists: `offset` and `size` in bytes within the file.
    Found { offset: u64, size: u64 },
    /// The container parsed, but no region carries the requested name.
    NotFound,
    /// The bytes do not parse as the container format their magic promises.
    Malformed,
    /// The bytes are in neither supported container format.
    Unsupported,
}

/// How a `Located` outcome is surfaced to callers.
pub open spec fn located_as_result(l: Located) -> Result<(u64, u64), EnclaveError> {
    match l {
        Located::Found { offset, size } => Ok((offset, size)),
        Located::NotFound => Err(EnclaveError::SectionNotFound),
        Located::Malformed => Err(EnclaveError::MalformedBinary),
        Located::Unsupported => Err(EnclaveError::UnsupportedPlatform),
    }
}

// ------------------------------------------------------------------
// ELF64, little-endian: flat section-header table plus string table.
// ------------------------------------------------------------------

/// The buffer begins with the ELF magic.
pub open spec fn is_elf_magic(b: Seq<u8>) -> bool {
    b.len() >= 4 && b[0] == 0x7fu8 && b[1] == 0x45u8 && b[2] == 0x4cu8 && b[3] == 0x46u8
}

/// Offset of the section header table.
pub open spec fn elf_shoff(b: Seq<u8>) -> int {
    le64_at(b, 40) as int
}

/// Size of one section header table entry.
pub open spec fn elf_shentsize(b: Seq<u8>) -> int {
    le16_at(b, 58) as int
}

/// Number of section header table entries.
pub open spec fn elf_shnum(b: Seq<u8>) -> int {
    le16_at(b, 60) as int
}

/// Index of the section-name string table's own header.
pub open spec fn elf_shstrndx(b: Seq<u8>) -> int {
    le16_at(b, 62) as int
}

/// Start of section header `i`.
pub open spec fn elf_sh_base(b: Seq<u8>, i: int) -> int {
    elf_shoff(b) + i * elf_shentsize(b)
}

/// The `sh_name` field of header `i`: an offset into the string table.
pub open spec fn elf_sh_name(b: Seq<u8>, i: int) -> int {
    le32_at(b, elf_sh_base(b, i)) as int
}

/// The `sh_offset` field of header `i`: the section's place in the file.
pub open spec fn elf_sh_offset(b: Seq<u8>, i: int) -> u64 {
    le64_at(b, elf_sh_base(b, i) + 24)
}

/// The `sh_size` field of header `i`: the section's length in bytes.
pub open spec fn elf_sh_size(b: Seq<u8>, i: int) -> u64 {
    le64_at(b, elf_sh_base(b, i) + 32)
}

/// Start of the section-name string table.
pub open spec fn elf_strtab_off(b: Seq<u8>) -> int {
    elf_sh_offset(b, elf_shstrndx(b)) as int
}

/// Length of the section-name string table.
pub open spec fn elf_strtab_size(b: Seq<u8>) -> int {
    elf_sh_size(b, elf_shstrndx(b)) as int
}

/// The buffer parses as a little-endian ELF64 file whose section header
/// table and section-name string table lie within the buffer.
pub open spec fn elf_headers_ok(b: Seq<u8>) -> bool {
    &&& is_elf_magic(b)
    &&& b.len() >= 64
    &&& b[4] == 2u8  // 64-bit class
    &&& b[5] == 1u8  // little-endian data
    &&& elf_shentsize(b) >= 64
    &&& elf_shoff(b) + elf_shnum(b) * elf_shentsize(b) <= b.len()
    &&& elf_shstrndx(b) < elf_shnum(b)
    &&& elf_strtab_off(b) + elf_strtab_size(b) <= b.len()
}

/// The NUL-terminated string at offset `nm` of the string table equals
/// `name` (the terminator must lie inside the table).
pub open spec fn strname_matches(
    b: Seq<u8>,
    stoff: int,
    stsize: int,
    nm: int,
    name: Seq<u8>,
) -> bool {
    &&& nm + name.len() < stsize
    &&& (forall|j: int| 0 <= j < name.len() ==> b[stoff + nm + j] == name[j])
    &&& b[stoff + nm + name.len()] == 0u8
}

/// Section header `i` names its section `name`.
pub open spec fn elf_name_matches(b: Seq<u8>, i: int, name: Seq<u8>) -> bool {
    strname_matches(b, elf_strtab_off(b), elf_strtab_size(b), elf_sh_name(b, i), name)
}

/// The first section at index `i` or beyond whose name is `name`, with its
/// file offset and size.
pub open spec fn elf_find_from(b: Seq<u8>, name: Seq<u8>, i: int) -> Option<(u64, u64)>
    decreases elf_shnum(b) - i,
{
    if i >= elf_shnum(b) {
        None
    } else if elf_name_matches(b, i, name) {
        Some((elf_sh_offset(b, i), elf_sh_size(b, i)))
    } else {
        elf_find_from(b, name, i + 1)
    }
}

/// Resolve `name` against an ELF64 image.
pub open spec fn elf_locate(b: Seq<u8>, name: Seq<u8>) -> Located {
    if !elf_headers_ok(b) {
        Located::Malformed
    } else {
        match elf_find_from(b, name, 0) {
            Some((offset, size)) => Located::Found { offset, size },
            None => Located::NotFound,
        }
    }
}

// ------------------------------------------------------------------
// Mach-O, 64-bit: load commands, the __DATA segment, its sections.
// ------------------------------------------------------------------

/// The buffer begins with the 64-bit Mach-O magic.
pub open spec fn is_macho_magic(b: Seq<u8>) -> bool {
    b.len() >= 4 && le32_at(b, 0) == 0xfeedfacfu32
}

/// Number of load commands.
pub open spec fn macho_ncmds(b: Seq<u8>) -> int {
    le32_at(b, 16) as int
}

/// The load command at offset `o` is a 64-bit segment command.
pub open spec fn macho_is_seg64(b: Seq<u8>, o: int) -> bool {
    le32_at(b, o) == 0x19u32
}

/// Size in bytes of the load command at offset `o`.
pub open spec fn macho_cmdsize(b: Seq<u8>, o: int) -> int {
    le32_at(b, o + 4) as int
}

/// Number of sections of the segment command at offset `o`.
pub open spec fn macho_nsects(b: Seq<u8>, o: int) -> int {
    le32_at(b, o + 64) as int
}

/// A segment command at `o` is large enough for its inline section list.
pub open spec fn macho_seg_ok(b: Seq<u8>, o: int) -> bool {
    macho_cmdsize(b, o) >= 72 + macho_nsects(b, o) * 80
}

/// The `r` load commands from offset `o` on lie within the buffer, and
/// every segment command among them holds its declared sections.
pub open spec fn macho_cmds_ok(b: Seq<u8>, o: int, r: int) -> bool
    decreases r,
{
    if r <= 0 {
        true
    } else {
        &&& o + 8 <= b.len()
        &&& macho_cmdsize(b, o) >= 8
        &&& o + macho_cmdsize(b, o) <= b.len()
        &&& (macho_is_seg64(b, o) ==> macho_seg_ok(b, o))
        &&& macho_cmds_ok(b, o + macho_cmdsize(b, o), r - 1)
    }
}

/// The buffer parses as a 64-bit Mach-O file with a well-formed load
/// command list.
pub open spec fn macho_headers_ok(b: Seq<u8>) -> bool {
    &&& is_macho_magic(b)
    &&& b.len() >= 32
    &&& macho_cmds_ok(b, 32, macho_ncmds(b))
}

/// The 16-byte, NUL-padded name field at `p` equals `name`.
pub open spec fn fixed16_matches(b: Seq<u8>, p: int, name: Seq<u8>) -> bool {
    &&& name.len() <= 16
    &&& (forall|j: int| 0 <= j < name.len() ==> b[p + j] == name[j])
    &&& (name.len() < 16 ==> b[p + name.len()] == 0u8)
}

/// The name of the segment that holds configuration sections.
pub open spec fn data_segment_name() -> Seq<u8> {
    seq![0x5fu8, 0x5fu8, 0x44u8, 0x41u8, 0x54u8, 0x41u8]
}

/// Offset of the first `__DATA` segment command among the `r` commands
/// from offset `o` on.
pub open spec fn macho_find_seg(b: Seq<u8>, o: int, r: int) -> Option<int>
    decreases r,
{
    if r <= 0 {
        None
    } else if macho_is_seg64(b, o) && fixed16_matches(b, o + 8, data_segment_name()) {
        Some(o)
    } else {
        macho_find_seg(b, o + macho_cmdsize(b, o), r - 1)
    }
}

/// Start of section entry `i` of the segment command at `o`.
pub open spec fn macho_sect_base(o: int, i: int) -> int {
    o + 72 + i * 80
}

/// The first section at index `i` or beyond of the segment at `o` whose
/// name is `name`, with its file offset and size.
pub open spec fn macho_find_sect(b: Seq<u8>, o: int, name: Seq<u8>, i: int) -> Option<(u64, u64)>
    decreases macho_nsects(b, o) - i,
{
    if i >= macho_nsects(b, o) {
        None
    } else if fixed16_matches(b, macho_sect_base(o, i), name) {
        Some(
            (
                le32_at(b, macho_sect_base(o, i) + 48) as u64,
                le64_at(b, macho_sect_base(o, i) + 40),
            ),
        )
    } else {
        macho_find_sect(b, o, name, i + 1)
    }
}

/// Resolve `name` against a 64-bit Mach-O image.
pub open spec fn macho_locate(b: Seq<u8>, name: Seq<u8>) -> Located {
    if !macho_headers_ok(b) {
        Located::Malformed
    } else {
        match macho_find_seg(b, 32, macho_ncmds(b)) {
            None => Located::NotFound,
            Some(o) => match macho_find_sect(b, o, name, 0) {
                Some((offset, size)) => Located::Found { offset, size },
                None => Located::NotFound,
            },
        }
    }
}

// ------------------------------------------------------------------
// Dispatch.
// ------------------------------------------------------------------

/// Resolve `name` against an executable image of either supported format.
pub open spec fn spec_locate(b: Seq<u8>, name: Seq<u8>) -> Located {
    if is_elf_magic(b) {
        elf_locate(b, name)
    } else if is_macho_magic(b) {
        macho_locate(b, name)
    } else {
        Located::Unsupported
    }
}

/// Resolve the named region inside `binary`, returning its file offset
/// and size in bytes.
pub fn locate(binary: &[u8], name: &[u8]) -> (r: Result<(u64, u64), EnclaveError>)
    ensures
        r == located_as_result(spec_locate(binary@, name@)),
{
    let n = binary.len();
    if n >= 4 && binary[0] == 0x7f && binary[1] == 0x45 && binary[2] == 0x4c && binary[3] == 0x46 {
        elf_locate_exec(binary, name)
    } else if n >= 4 && read_u32_le(binary, 0) == 0xfeedfacf {
        macho_locate_exec(binary, name)
    } else {
        Err(EnclaveError::UnsupportedPlatform)
    }
}

/// Does the NUL-terminated string-table entry at `nm` equal `name`?
#[verifier::loop_isolation(false)]
fn strname_matches_exec(b: &[u8], stoff: u64, stsize: u64, nm: u32, name: &[u8]) -> (r: bool)
    requires
        stoff + stsize <= b@.len(),
    ensures
        r == strname_matches(b@, stoff as int, stsize as int, nm as int, name@),
{
    // Binding the length keeps the buffer's usize bound in scope.
    let blen: usize = b.len();
    let nlen: usize = name.len();
    if (nm as u128) + (nlen as u128) >= stsize as u128 {
        return false;
    }
    let p: u64 = stoff + (nm as u64) + (nlen as u64);
    if b[p as usize] != 0 {
        return false;
    }
    let base: u64 = stoff + (nm as u64);
    let mut j: usize = 0;
    while j < nlen
        invariant
            j <= nlen,
            nlen == name@.len(),
            base == stoff + nm,
            base + nlen < stoff + stsize <= b@.len(),
            forall|k: int| 0 <= k < j ==> b@[base as int + k] == name@[k],
        decreases nlen - j,
    {
        if b[(base as usize) + j] != name[j] {
            return false;
        }
        j = j + 1;
    }
    true
}

/// Does the 16-byte NUL-padded name field at `p` equal `name`?
#[verifier::loop_isolation(false)]
fn fixed16_matches_exec(b: &[u8], p: u64, name: &[u8]) -> (r: bool)
    requires
        p + 16 <= b@.len(),
    ensures
        r == fixed16_matches(b@, p as int, name@),
{
    // Binding the length keeps the buffer's usize bound in scope.
    let blen: usize = b.len();
    let nlen: usize = name.len();
    if nlen > 16 {
        return false;
    }
    if nlen < 16 && b[(p as usize) + nlen] != 0 {
        return false;
    }
    let mut j: usize = 0;
    while j < nlen
        invariant
            j <= nlen <= 16,
            nlen == name@.len(),
            p + 16 <= b@.len(),
            forall|k: int| 0 <= k < j ==> b@[p as int + k] == name@[k],
        decreases nlen - j,
    {
        if b[(p as usize) + j] != name[j] {
            return false;
        }
        j = j + 1;
    }
    true
}

/// Resolve `name` against an ELF64 image whose magic has been checked.
#[verifier::loop_isolation(false)]
fn elf_locate_exec(binary: &[u8], name: &[u8]) -> (r: Result<(u64, u64), EnclaveError>)
    requires
        is_elf_magic(binary@),
    ensures
        r == located_as_result(elf_locate(binary@, name@)),
{
    let n: usize = binary.len();
    if n < 64 || binary[4] != 2 || binary[5] != 1 {
        return Err(EnclaveError::MalformedBinary);
    }
    let shoff: u64 = read_u64_le(binary, 40);
    let shentsize: u16 = read_u16_le(binary, 58);
    let shnum: u16 = read_u16_le(binary, 60);
    let shstrndx: u16 = read_u16_le(binary, 62);
    if shentsize < 64 {
        return Err(EnclaveError::MalformedBinary);
    }
    proof {
        assert((shnum as int) * (shentsize as int) <= 0xffff * 0xffff) by (nonlinear_arith)
            requires
                0 <= shnum <= 0xffff,
                0 <= shentsize <= 0xffff,
        ;
    }
    if (shoff as u128) + (shnum as u128) * (shentsize as u128) > n as u128 {
        return Err(EnclaveError::MalformedBinary);
    }
    if shstrndx >= shnum {
        return Err(EnclaveError::MalformedBinary);
    }
    proof {
        lemma_elf_entry_in_bounds(binary@, shstrndx as int);
    }
    let stbase: u64 = shoff + (shstrndx as u64) * (shentsize as u64);
    let stoff: u64 = read_u64_le(binary, (stbase as usize) + 24);
    let stsize: u64 = read_u64_le(binary, (stbase as usize) + 32);
    proof {
        assert(stbase as int == elf_sh_base(binary@, elf_shstrndx(binary@)));
        assert(stoff as int == elf_strtab_off(binary@));
        assert(stsize as int == elf_strtab_size(binary@));
    }
    if (stoff as u128) + (stsize as u128) > n as u128 {
        return Err(EnclaveError::MalformedBinary);
    }
    assert(elf_headers_ok(binary@));
    let mut i: u16 = 0;
    while i < shnum
        invariant
            elf_headers_ok(binary@),
            n == binary@.len(),
            shoff == le64_at(binary@, 40),
            shentsize == le16_at(binary@, 58),
            shnum == le16_at(binary@, 60),
            stoff as int == elf_strtab_off(binary@),
            stsize as int == elf_strtab_size(binary@),
            stoff + stsize <= n,
            i <= shnum,
            elf_find_from(binary@, name@, 0) == elf_find_from(binary@, name@, i as int),
        decreases shnum - i,
    {
        proof {
            lemma_elf_entry_in_bounds(binary@, i as int);
        }
        let base: u64 = shoff + (i as u64) * (shentsize as u64);
        let nm: u32 = read_u32_le(binary, base as usize);
        proof {
            assert(base as int == elf_sh_base(binary@, i as int));
            assert(nm as int == elf_sh_name(binary@, i as int));
        }
        if strname_matches_exec(binary, stoff, stsize, nm, name) {
            let off: u64 = read_u64_le(binary, (base as usize) + 24);
            let size: u64 = read_u64_le(binary, (base as usize) + 32);
            proof {
                assert(elf_name_matches(binary@, i as int, name@));
                assert(elf_find_from(binary@, name@, i as int) == Some(
                    (elf_sh_offset(binary@, i as int), elf_sh_size(binary@, i as int)),
                ));
            }
            return Ok((off, size));
        }
        proof {
            assert(!elf_name_matches(binary@, i as int, name@));
            assert(elf_find_from(binary@, name@, i as int) == elf_find_from(
                binary@,
                name@,
                i as int + 1,
            ));
        }
        i = i + 1;
    }
    proof {
        assert(elf_find_from(binary@, name@, shnum as int) is None);
    }
    Err(EnclaveError::SectionNotFound)
}

/// Section header `i` of a table that fits the buffer lies within it.
proof fn lemma_elf_entry_in_bounds(b: Seq<u8>, i: int)
    requires
        elf_shentsize(b) >= 64,
        elf_shoff(b) + elf_shnum(b) * elf_shentsize(b) <= b.len(),
        0 <= i < elf_shnum(b),
    ensures
        elf_sh_base(b, i) + elf_shentsize(b) <= b.len(),
        elf_sh_base(b, i) + 64 <= b.len(),
        i * elf_shentsize(b) >= 0,
        i * elf_shentsize(b) <= elf_shnum(b) * elf_shentsize(b),
{
    let s = elf_shentsize(b);
    lemma_mul_is_distributive_add_other_way(s, i, 1);
    lemma_mul_inequality(i + 1, elf_shnum(b), s);
    lemma_mul_inequality(0, i, s);
    lemma_mul_inequality(i, elf_shnum(b), s);
}

/// Resolve `name` against a Mach-O image whose magic has been checked.
#[verifier::loop_isolation(false)]
fn macho_locate_exec(binary: &[u8], name: &[u8]) -> (r: Result<(u64, u64), EnclaveError>)
    requires
        is_macho_magic(binary@),
        !is_elf_magic(binary@),
    ensures
        r == located_as_result(macho_locate(binary@, name@)),
{
    let n: usize = binary.len();
    if n < 32 {
        return Err(EnclaveError::MalformedBinary);
    }
    let ncmds: u32 = read_u32_le(binary, 16);
    let seg_name: Vec<u8> = name_data_segment();
    // Walk the load commands once, checking well-formedness and looking
    // for the __DATA segment, exactly as the specification walks them.
    let mut o: u64 = 32;
    let mut k: u32 = 0;
    while k < ncmds
        invariant
            n == binary@.len(),
            n >= 32,
            32 <= o <= n,
            k <= ncmds,
            ncmds == le32_at(binary@, 16),
            seg_name@ == data_segment_name(),
            macho_cmds_ok(binary@, 32, ncmds as int) <==> macho_cmds_ok(
                binary@,
                o as int,
                (ncmds - k) as int,
            ),
            macho_find_seg(binary@, 32, ncmds as int) == macho_find_seg(
                binary@,
                o as int,
                (ncmds - k) as int,
            ),
        decreases ncmds - k,
    {
        if o > (n as u64) - 8 {
            proof {
                assert(!macho_cmds_ok(binary@, o as int, (ncmds - k) as int));
            }
            return Err(EnclaveError::MalformedBinary);
        }
        let cmd: u32 = read_u32_le(binary, o as usize);
        let cmdsize: u32 = read_u32_le(binary, (o as usize) + 4);
        if cmdsize < 8 || (o as u128) + (cmdsize as u128) > (n as u128) {
            proof {
                assert(!macho_cmds_ok(binary@, o as int, (ncmds - k) as int));
            }
            return Err(EnclaveError::MalformedBinary);
        }
        if cmd == 0x19 {
            if cmdsize < 72 {
                proof {
                    assert(!macho_seg_ok(binary@, o as int));
                    assert(!macho_cmds_ok(binary@, o as int, (ncmds - k) as int));
                }
                return Err(EnclaveError::MalformedBinary);
            }
            let nsects: u32 = read_u32_le(binary, (o as usize) + 64);
            if ((cmdsize as u64) - 72) / 80 < nsects as u64 {
                proof {
                    let ns = macho_nsects(binary@, o as int);
                    let cs = macho_cmdsize(binary@, o as int);
                    assert(ns * 80 > cs - 72) by (nonlinear_arith)
                        requires
                            (cs - 72) / 80 < ns,
                            cs >= 72,
                    ;
                    assert(!macho_seg_ok(binary@, o as int));
                    assert(!macho_cmds_ok(binary@, o as int, (ncmds - k) as int));
                }
                return Err(EnclaveError::MalformedBinary);
            }
            proof {
                let ns = macho_nsects(binary@, o as int);
                let cs = macho_cmdsize(binary@, o as int);
                assert(ns * 80 <= cs - 72) by (nonlinear_arith)
                    requires
                        ns <= (cs - 72) / 80,
                        cs >= 72,
                        ns >= 0,
                ;
                assert(macho_seg_ok(binary@, o as int));
            }
            if fixed16_matches_exec(binary, o + 8, seg_name.as_slice()) {
                proof {
                    assert(fixed16_matches(binary@, o as int + 8, data_segment_name()));
                    assert(macho_find_seg(binary@, o as int, (ncmds - k) as int) == Some(
                        o as int,
                    ));
                }
                // The rest of the command list must still be well formed
                // for the whole image to count as parsed.
                if !macho_cmds_ok_exec(binary, o + cmdsize as u64, ncmds - k - 1) {
                    proof {
                        assert(!macho_cmds_ok(binary@, o as int, (ncmds - k) as int));
                    }
                    return Err(EnclaveError::MalformedBinary);
                }
                proof {
                    assert(macho_cmds_ok(binary@, o as int, (ncmds - k) as int));
                    assert(macho_headers_ok(binary@));
                }
                return macho_sections_exec(binary, o, name);
            }
            proof {
                assert(!fixed16_matches(binary@, o as int + 8, data_segment_name()));
            }
        }
        proof {
            assert(macho_find_seg(binary@, o as int, (ncmds - k) as int) == macho_find_seg(
                binary@,
                o as int + macho_cmdsize(binary@, o as int),
                (ncmds - k - 1) as int,
            ));
        }
        o = o + cmdsize as u64;
        k = k + 1;
    }
    proof {
        assert(macho_cmds_ok(binary@, o as int, 0));
        assert(macho_headers_ok(binary@));
        assert(macho_find_seg(binary@, o as int, 0) is None);
    }
    Err(EnclaveError::SectionNotFound)
}

/// The data-segment name as a buffer for byte comparison.
fn name_data_segment() -> (r: Vec<u8>)
    ensures
        r@ == data_segment_name(),
{
    let mut v: Vec<u8> = Vec::new();
    v.push(0x5f);
    v.push(0x5f);
    v.push(0x44);
    v.push(0x41);
    v.push(0x54);
    v.push(0x41);
    proof {
        assert(v@ =~= data_segment_name());
    }
    v
}

/// Check that the `count` load commands from offset `start` on are well
/// formed.
#[verifier::loop_isolation(false)]
fn macho_cmds_ok_exec(binary: &[u8], start: u64, count: u32) -> (ok: bool)
    requires
        start <= binary@.len(),
    ensures
        ok == macho_cmds_ok(binary@, start as int, count as int),
{
    let n: usize = binary.len();
    let mut o: u64 = start;
    let mut r: u32 = count;
    while r > 0
        invariant
            n == binary@.len(),
            o <= n,
            macho_cmds_ok(binary@, start as int, count as int) <==> macho_cmds_ok(
                binary@,
                o as int,
                r as int,
            ),
        decreases r,
    {
        if n < 8 || o > (n as u64) - 8 {
            proof {
                assert(!macho_cmds_ok(binary@, o as int, r as int));
            }
            return false;
        }
        let cmd: u32 = read_u32_le(binary, o as usize);
        let cmdsize: u32 = read_u32_le(binary, (o as usize) + 4);
        if cmdsize < 8 || (o as u128) + (cmdsize as u128) > (n as u128) {
            proof {
                assert(!macho_cmds_ok(binary@, o as int, r as int));
            }
            return false;
        }
        if cmd == 0x19 {
            if cmdsize < 72 {
                proof {
                    assert(!macho_seg_ok(binary@, o as int));
                    assert(!macho_cmds_ok(binary@, o as int, r as int));
                }
                return false;
            }
            let nsects: u32 = read_u32_le(binary, (o as usize) + 64);
            if ((cmdsize as u64) - 72) / 80 < nsects as u64 {
                proof {
                    let ns = macho_nsects(binary@, o as int);
                    let cs = macho_cmdsize(binary@, o as int);
                    assert(ns * 80 > cs - 72) by (nonlinear_arith)
                        requires
                            (cs - 72) / 80 < ns,
                            cs >= 72,
                    ;
                    assert(!macho_seg_ok(binary@, o as int));
                    assert(!macho_cmds_ok(binary@, o as int, r as int));
                }
                return false;
            }
            proof {
                let ns = macho_nsects(binary@, o as int);
                let cs = macho_cmdsize(binary@, o as int);
                assert(ns * 80 <= cs - 72) by (nonlinear_arith)
                    requires
                        ns <= (cs - 72) / 80,
                        cs >= 72,
                        ns >= 0,
                ;
                assert(macho_seg_ok(binary@, o as int));
            }
        }
        o = o + cmdsize as u64;
        r = r - 1;
    }
    true
}

/// Search the sections of the segment command at `o` for `name`.
#[verifier::loop_isolation(false)]
fn macho_sections_exec(binary: &[u8], o: u64, name: &[u8]) -> (r: Result<(u64, u64), EnclaveError>)
    requires
        macho_headers_ok(binary@),
        o + macho_cmdsize(binary@, o as int) <= binary@.len(),
        macho_seg_ok(binary@, o as int),
        macho_cmdsize(binary@, o as int) >= 72,
        macho_find_seg(binary@, 32, macho_ncmds(binary@)) == Some(o as int),
    ensures
        r == located_as_result(macho_locate(binary@, name@)),
{
    let n: usize = binary.len();
    let nsects: u32 = read_u32_le(binary, (o as usize) + 64);
    let mut i: u32 = 0;
    while i < nsects
        invariant
            macho_headers_ok(binary@),
            o + macho_cmdsize(binary@, o as int) <= binary@.len(),
            macho_seg_ok(binary@, o as int),
            macho_find_seg(binary@, 32, macho_ncmds(binary@)) == Some(o as int),
            nsects == macho_nsects(binary@, o as int),
            i <= nsects,
            macho_find_sect(binary@, o as int, name@, 0) == macho_find_sect(
                binary@,
                o as int,
                name@,
                i as int,
            ),
        decreases nsects - i,
    {
        proof {
            lemma_macho_sect_in_bounds(binary@, o as int, i as int);
        }
        let base: u64 = o + 72 + (i as u64) * 80;
        proof {
            assert(base as int == macho_sect_base(o as int, i as int));
        }
        if fixed16_matches_exec(binary, base, name) {
            let size: u64 = read_u64_le(binary, (base as usize) + 40);
            let off: u32 = read_u32_le(binary, (base as usize) + 48);
            proof {
                assert(fixed16_matches(binary@, macho_sect_base(o as int, i as int), name@));
                assert(macho_find_sect(binary@, o as int, name@, i as int) == Some(
                    ((off as u64), size),
                ));
            }
            return Ok((off as u64, size));
        }
        proof {
            assert(!fixed16_matches(binary@, macho_sect_base(o as int, i as int), name@));
            assert(macho_find_sect(binary@, o as int, name@, i as int) == macho_find_sect(
                binary@,
                o as int,
                name@,
                i as int + 1,
            ));
        }
        i = i + 1;
    }
    proof {
        assert(macho_find_sect(binary@, o as int, name@, nsects as int) is None);
    }
    Err(EnclaveError::SectionNotFound)
}

/// Section entry `i` of a well-formed segment command lies within the buffer.
proof fn lemma_macho_sect_in_bounds(b: Seq<u8>, o: int, i: int)
    requires
        o + macho_cmdsize(b, o) <= b.len(),
        macho_seg_ok(b, o),
        0 <= i < macho_nsects(b, o),
    ensures
        macho_sect_base(o, i) + 80 <= b.len(),
        i * 80 >= 0,
        macho_sect_base(o, i) >= o + 72,
{
    lemma_mul_is_distributive_add_other_way(80, i, 1);
    lemma_mul_inequality(i + 1, macho_nsects(b, o), 80);
    lemma_mul_inequality(0, i, 80);
}

} // verus!
