use core::marker::PhantomData;

use binary_enclave::checksum::checksum;
use binary_enclave::error::EnclaveError;
use binary_enclave::frame::build_frame;
use binary_enclave::locate::locate;
use binary_enclave::payload::Config;
use binary_enclave::region::{Enclave, EnclaveLocator};

const SECTION_OFFSET: usize = 288;
const SECTION_SIZE: usize = 128;

/// A minimal ELF64 image: a null section, a 128-byte `appconfig` section
/// at offset 288, and the section-name string table.
fn sample_elf() -> Vec<u8> {
    let mut b = vec![0u8; SECTION_OFFSET + SECTION_SIZE];
    b[0] = 0x7f;
    b[1] = b'E';
    b[2] = b'L';
    b[3] = b'F';
    b[4] = 2; // 64-bit
    b[5] = 1; // little-endian
    b[40..48].copy_from_slice(&64u64.to_le_bytes()); // e_shoff
    b[58..60].copy_from_slice(&64u16.to_le_bytes()); // e_shentsize
    b[60..62].copy_from_slice(&3u16.to_le_bytes()); // e_shnum
    b[62..64].copy_from_slice(&2u16.to_le_bytes()); // e_shstrndx
    // section header 1: the appconfig section
    let e1 = 128;
    b[e1..e1 + 4].copy_from_slice(&1u32.to_le_bytes()); // sh_name
    b[e1 + 24..e1 + 32].copy_from_slice(&(SECTION_OFFSET as u64).to_le_bytes());
    b[e1 + 32..e1 + 40].copy_from_slice(&(SECTION_SIZE as u64).to_le_bytes());
    // section header 2: the string table itself
    let e2 = 192;
    b[e2..e2 + 4].copy_from_slice(&11u32.to_le_bytes());
    b[e2 + 24..e2 + 32].copy_from_slice(&256u64.to_le_bytes());
    b[e2 + 32..e2 + 40].copy_from_slice(&32u64.to_le_bytes());
    // string table at 256: "\0appconfig\0"
    b[257..266].copy_from_slice(b"appconfig");
    b
}

/// A minimal 64-bit Mach-O image: one `__DATA` segment with one
/// `appconfig` section of 128 bytes at offset 192.
fn sample_macho() -> Vec<u8> {
    let mut b = vec![0u8; 320];
    b[0..4].copy_from_slice(&0xfeedfacfu32.to_le_bytes());
    b[16..20].copy_from_slice(&1u32.to_le_bytes()); // ncmds
    b[20..24].copy_from_slice(&152u32.to_le_bytes()); // sizeofcmds
    let c = 32;
    b[c..c + 4].copy_from_slice(&0x19u32.to_le_bytes()); // LC_SEGMENT_64
    b[c + 4..c + 8].copy_from_slice(&152u32.to_le_bytes()); // cmdsize
    b[c + 8..c + 14].copy_from_slice(b"__DATA");
    b[c + 64..c + 68].copy_from_slice(&1u32.to_le_bytes()); // nsects
    let s = c + 72;
    b[s..s + 9].copy_from_slice(b"appconfig");
    b[s + 16..s + 22].copy_from_slice(b"__DATA");
    b[s + 40..s + 48].copy_from_slice(&128u64.to_le_bytes()); // size
    b[s + 48..s + 52].copy_from_slice(&192u32.to_le_bytes()); // offset
    b
}

fn region_of(img: &[u8]) -> &[u8] {
    &img[SECTION_OFFSET..SECTION_OFFSET + SECTION_SIZE]
}

#[test]
fn elf_locate_finds_section() {
    let elf = sample_elf();
    assert_eq!(locate(&elf, b"appconfig"), Ok((SECTION_OFFSET as u64, SECTION_SIZE as u64)));
}

#[test]
fn macho_locate_finds_section() {
    let macho = sample_macho();
    assert_eq!(locate(&macho, b"appconfig"), Ok((192, 128)));
}

#[test]
fn locate_missing_section_is_not_found() {
    let elf = sample_elf();
    assert_eq!(locate(&elf, b"absent"), Err(EnclaveError::SectionNotFound));
    let macho = sample_macho();
    assert_eq!(locate(&macho, b"absent"), Err(EnclaveError::SectionNotFound));
}

#[test]
fn locate_unknown_format_is_unsupported() {
    let b = vec![0u8; 64];
    assert_eq!(locate(&b, b"appconfig"), Err(EnclaveError::UnsupportedPlatform));
}

#[test]
fn locate_truncated_elf_is_malformed() {
    let mut elf = sample_elf();
    elf.truncate(200); // the section header table no longer fits
    assert_eq!(locate(&elf, b"appconfig"), Err(EnclaveError::MalformedBinary));
}

#[test]
fn write_then_reload_round_trips() {
    let elf = sample_elf();
    let enclave: Enclave<Config> = Enclave::new(SECTION_SIZE);
    let v = Config { count: 43, label: b"see".to_vec() };
    let (img, written) = enclave.write(&v, &elf).unwrap();
    assert_eq!(written, 8 + 8 + 3);
    assert_eq!(img.len(), elf.len());
    let reloaded: Enclave<Config> = Enclave::from_region(region_of(&img));
    let decoded = reloaded.decode().unwrap();
    assert_eq!(decoded.count, 43);
    assert_eq!(decoded.label, b"see".to_vec());
}

#[test]
fn shrinking_write_leaks_no_stale_bytes() {
    let elf = sample_elf();
    let enclave: Enclave<Config> = Enclave::new(SECTION_SIZE);
    let long = Config { count: 43, label: b"see".to_vec() };
    let (img1, _) = enclave.write(&long, &elf).unwrap();
    let short = Config { count: 0, label: Vec::new() };
    let (img2, written) = enclave.write(&short, &img1).unwrap();
    assert_eq!(written, 16);
    let reloaded: Enclave<Config> = Enclave::from_region(region_of(&img2));
    let decoded = reloaded.decode().unwrap();
    assert_eq!(decoded.count, 0);
    assert_eq!(decoded.label, Vec::<u8>::new());
}

#[test]
fn writing_twice_equals_writing_once() {
    let elf = sample_elf();
    let enclave: Enclave<Config> = Enclave::new(SECTION_SIZE);
    let v = Config { count: 7, label: b"twice".to_vec() };
    let (img1, n1) = enclave.write(&v, &elf).unwrap();
    let (img2, n2) = enclave.write(&v, &img1).unwrap();
    assert_eq!(n1, n2);
    let once: Enclave<Config> = Enclave::from_region(region_of(&img1));
    let twice: Enclave<Config> = Enclave::from_region(region_of(&img2));
    let d1 = once.decode().unwrap();
    let d2 = twice.decode().unwrap();
    assert_eq!(d1.count, d2.count);
    assert_eq!(d1.label, d2.label);
    assert_eq!(img1, img2);
}

#[test]
fn capacity_boundary_exact_fit_succeeds() {
    let elf = sample_elf();
    let enclave: Enclave<Config> = Enclave::new(SECTION_SIZE);
    // encoded length is 16 + label length; SECTION_SIZE - 16 = 112 payload
    // bytes are available, so a 96-byte label fits exactly.
    let v = Config { count: 1, label: vec![b'x'; 96] };
    let (_, written) = enclave.write(&v, &elf).unwrap();
    assert_eq!(written, 112);
}

#[test]
fn capacity_boundary_one_byte_over_fails() {
    let elf = sample_elf();
    let enclave: Enclave<Config> = Enclave::new(SECTION_SIZE);
    let v = Config { count: 1, label: vec![b'x'; 97] };
    assert_eq!(
        enclave.write(&v, &elf),
        Err(EnclaveError::SectionSizeExceeded { payload: 113, section: 112 })
    );
}

#[test]
fn any_single_bit_flip_is_detected() {
    let elf = sample_elf();
    let enclave: Enclave<Config> = Enclave::new(SECTION_SIZE);
    let v = Config { count: 43, label: b"see".to_vec() };
    let (img, written) = enclave.write(&v, &elf).unwrap();
    let payload_start = SECTION_OFFSET + 16;
    for byte in 0..written {
        for bit in 0..8 {
            let mut tampered = img.clone();
            tampered[payload_start + byte] ^= 1 << bit;
            let reloaded: Enclave<Config> = Enclave::from_region(region_of(&tampered));
            assert!(matches!(reloaded.decode(), Err(EnclaveError::PayloadChecksum)));
        }
    }
}

#[test]
fn missing_region_write_fails_and_modifies_nothing() {
    let mut elf = sample_elf();
    // Rename the section in the string table: the region is now absent.
    elf[257..266].copy_from_slice(b"elsewhere");
    let pristine = elf.clone();
    let enclave: Enclave<Config> = Enclave::new(SECTION_SIZE);
    let v = Config { count: 1, label: Vec::new() };
    assert_eq!(enclave.write(&v, &elf), Err(EnclaveError::SectionNotFound));
    assert_eq!(elf, pristine);
}

#[test]
fn original_intact_until_patched_image_is_installed() {
    let elf = sample_elf();
    let pristine = elf.clone();
    let enclave: Enclave<Config> = Enclave::new(SECTION_SIZE);
    let v = Config { count: 9, label: b"new".to_vec() };
    // The patched image exists only as a separate buffer: until the
    // caller installs it by the atomic rename, the original is untouched.
    let (img, _) = enclave.write(&v, &elf).unwrap();
    assert_eq!(elf, pristine);
    assert_ne!(img, pristine);
}

#[test]
fn fresh_region_decodes_to_default() {
    let enclave: Enclave<Config> = Enclave::new(SECTION_SIZE);
    assert!(matches!(enclave.decode(), Err(EnclaveError::PayloadChecksum)));
    let d = enclave.decode_or_default();
    assert_eq!(d.count, 0);
    assert_eq!(d.label, Vec::<u8>::new());
}

#[test]
fn checksum_passes_but_unparseable_is_deserialize_error() {
    // Three bytes with a correct checksum are no valid encoding: the
    // payload needs at least its two fixed-width fields.
    let bytes = vec![1u8, 2, 3];
    let enclave: Enclave<Config> = Enclave {
        len: 3,
        checksum: checksum(&bytes),
        pack: bytes,
        _phantom: PhantomData,
    };
    assert!(matches!(enclave.decode(), Err(EnclaveError::Deserialize)));
}

#[test]
fn stored_length_beyond_capacity_is_checksum_failure() {
    let enclave: Enclave<Config> = Enclave {
        len: 1000,
        checksum: 0,
        pack: vec![0u8; 8],
        _phantom: PhantomData,
    };
    assert!(matches!(enclave.decode(), Err(EnclaveError::PayloadChecksum)));
}

#[test]
fn frame_layout_is_length_checksum_payload_padding() {
    let payload = [1u8, 2, 3];
    let frame = build_frame(&payload, 32).unwrap();
    assert_eq!(frame.len(), 32);
    assert_eq!(&frame[0..8], &3u64.to_le_bytes());
    assert_eq!(&frame[8..16], &checksum(&payload).to_le_bytes());
    assert_eq!(&frame[16..19], &payload);
    assert!(frame[19..].iter().all(|b| *b == 0));
}

#[test]
fn frame_for_too_small_region_reports_capacity() {
    let payload = [1u8, 2, 3];
    assert_eq!(
        build_frame(&payload, 10),
        Err(EnclaveError::SectionSizeExceeded { payload: 3, section: 0 })
    );
}

#[test]
fn checksum_matches_known_values() {
    // 64-bit Fowler–Noll–Vo, xor-then-multiply variant.
    assert_eq!(checksum(b""), 0xcbf29ce484222325);
    assert_eq!(checksum(b"a"), 0xaf63dc4c8601ec8c);
    assert_eq!(checksum(b"ab"), 0x089c4407b545986a);
}

#[test]
fn encoding_matches_serde_wire_format() {
    // The payload codec uses the same wire form as the fixed-width
    // little-endian serde encoding of (count, label).
    let v = Config { count: 43, label: b"see".to_vec() };
    let wire = bincode::serialize(&(43u64, b"see".to_vec())).unwrap();
    assert_eq!(v.encode(), wire);
}

#[test]
fn elf_and_macho_resolve_the_same_name() {
    let elf = sample_elf();
    let macho = sample_macho();
    let name = Config::section_name();
    assert!(locate(&elf, &name).is_ok());
    assert!(locate(&macho, &name).is_ok());
}

#[test]
fn locate_agrees_with_goblin_on_elf() {
    let elf = sample_elf();
    let parsed = goblin::elf::Elf::parse(&elf).unwrap();
    let section = parsed
        .section_headers
        .iter()
        .find(|sec| parsed.shdr_strtab.get_at(sec.sh_name) == Some("appconfig"))
        .unwrap();
    assert_eq!(
        locate(&elf, b"appconfig"),
        Ok((section.sh_offset, section.sh_size))
    );
}

#[test]
fn locate_agrees_with_goblin_on_macho() {
    let macho = sample_macho();
    let parsed = goblin::mach::MachO::parse(&macho, 0).unwrap();
    let segment = parsed
        .segments
        .iter()
        .find(|s| s.name().unwrap() == "__DATA")
        .unwrap();
    let (sect, _) = segment
        .sections()
        .unwrap()
        .into_iter()
        .find(|sec| sec.0.name().unwrap() == "appconfig")
        .unwrap();
    assert_eq!(
        locate(&macho, b"appconfig"),
        Ok((sect.offset as u64, sect.size))
    );
}
