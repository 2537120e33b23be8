use reflective_loader::bytes::{read_u32, read_u64};
use reflective_loader::exports::get_module_exports;
use reflective_loader::imports::{bind_imports, import_requests, ImportTarget};
use reflective_loader::loader::{next_allocation_step, AllocStep};
use reflective_loader::mapper::copy_sections_to_local_process;
use reflective_loader::pe::{parse_headers, DataDirectory, LoadError};
use reflective_loader::reflective_loader;
use reflective_loader::reloc::rebase_image;

const NT: usize = 0x80;
const OPT: usize = NT + 24;
const TABLE: usize = OPT + 0xf0;
const PREFERRED: u64 = 0x1_8000_0000;

fn put16(b: &mut [u8], o: usize, v: u16) {
    b[o..o + 2].copy_from_slice(&v.to_le_bytes());
}

fn put32(b: &mut [u8], o: usize, v: u32) {
    b[o..o + 4].copy_from_slice(&v.to_le_bytes());
}

fn put64(b: &mut [u8], o: usize, v: u64) {
    b[o..o + 8].copy_from_slice(&v.to_le_bytes());
}

/// Headers of a PE32+ image with the given sections (va, raw size, raw ptr).
fn headers(len: usize, size_of_image: u32, sections: &[(u32, u32, u32)]) -> Vec<u8> {
    let mut b = vec![0u8; len];
    put16(&mut b, 0, 0x5a4d);
    put32(&mut b, 0x3c, NT as u32);
    put32(&mut b, NT, 0x4550);
    put16(&mut b, NT + 4, 0x8664);
    put16(&mut b, NT + 6, sections.len() as u16);
    put16(&mut b, NT + 20, 0xf0);
    put16(&mut b, OPT, 0x20b);
    put32(&mut b, OPT + 16, 0x1000);
    put64(&mut b, OPT + 24, PREFERRED);
    put32(&mut b, OPT + 56, size_of_image);
    put32(&mut b, OPT + 60, 0x400);
    put32(&mut b, OPT + 108, 16);
    for (i, &(va, raw, ptr)) in sections.iter().enumerate() {
        let s = TABLE + 40 * i;
        b[s..s + 5].copy_from_slice(b".sect");
        put32(&mut b, s + 8, raw);
        put32(&mut b, s + 12, va);
        put32(&mut b, s + 16, raw);
        put32(&mut b, s + 20, ptr);
    }
    b
}

fn set_directory(b: &mut [u8], k: usize, va: u32, size: u32) {
    put32(b, OPT + 112 + 8 * k, va);
    put32(b, OPT + 112 + 8 * k + 4, size);
}

/// File offset of an RVA in the `.text` section.
fn text(rva: usize) -> usize {
    rva - 0x1000 + 0x400
}

/// A DLL with a `.text` section at 0x1000 (file 0x400) and a `.reloc`
/// section at 0x2000 (file 0x600). The text holds three relocated words and
/// an import of `user32.dll`: `MessageBoxA` by name and ordinal 5.
fn sample_dll() -> Vec<u8> {
    let mut b = headers(0x800, 0x3000, &[(0x1000, 0x200, 0x400), (0x2000, 0x200, 0x600)]);
    // words that the relocations name
    put64(&mut b, text(0x1010), 0x1_8000_1000);
    put32(&mut b, text(0x1020), 0x8000_1100);
    put64(&mut b, text(0x1030), 0x1_8000_1200);
    // import descriptor at 0x1100, then a zero descriptor
    put32(&mut b, text(0x1100), 0x1140);
    put32(&mut b, text(0x1100) + 12, 0x1180);
    put32(&mut b, text(0x1100) + 16, 0x1160);
    // lookup table and address table
    for table in [0x1140usize, 0x1160] {
        put64(&mut b, text(table), 0x11a0);
        put64(&mut b, text(table) + 8, 0x8000_0000_0000_0005);
    }
    b[text(0x1180)..text(0x118b)].copy_from_slice(b"user32.dll\0");
    put16(&mut b, text(0x11a0), 7);
    b[text(0x11a2)..text(0x11ae)].copy_from_slice(b"MessageBoxA\0");
    set_directory(&mut b, 1, 0x1100, 40);
    // one relocation block for page 0x1000: DIR64, HIGHLOW, ABSOLUTE, DIR64
    let reloc = 0x600;
    put32(&mut b, reloc, 0x1000);
    put32(&mut b, reloc + 4, 16);
    put16(&mut b, reloc + 8, 0xa010);
    put16(&mut b, reloc + 10, 0x3020);
    put16(&mut b, reloc + 12, 0x0000);
    put16(&mut b, reloc + 14, 0xa030);
    set_directory(&mut b, 5, 0x2000, 16);
    b
}

#[test]
fn parses_headers_of_a_pe32_plus_dll() {
    let b = sample_dll();
    let h = parse_headers(&b).unwrap();
    assert_eq!(h.image_base, PREFERRED);
    assert_eq!(h.size_of_image, 0x3000);
    assert_eq!(h.size_of_headers, 0x400);
    assert_eq!(h.address_of_entry_point, 0x1000);
    assert_eq!(h.import_directory, DataDirectory { virtual_address: 0x1100, size: 40 });
    assert_eq!(h.base_relocation_directory, DataDirectory { virtual_address: 0x2000, size: 16 });
    assert_eq!(h.sections.len(), 2);
    assert_eq!(h.sections[1].pointer_to_raw_data, 0x600);
}

#[test]
fn wrong_bitness_is_rejected_before_allocation() {
    let mut b = sample_dll();
    put16(&mut b, OPT, 0x10b);
    assert_eq!(parse_headers(&b).err(), Some(LoadError::MalformedHeader));
    assert_eq!(reflective_loader(&b, PREFERRED).err(), Some(LoadError::MalformedHeader));
    let mut c = sample_dll();
    put16(&mut c, NT + 4, 0x014c);
    assert_eq!(parse_headers(&c).err(), Some(LoadError::MalformedHeader));
}

#[test]
fn bad_signatures_and_truncation_are_rejected() {
    let mut b = sample_dll();
    b[0] = b'X';
    assert_eq!(parse_headers(&b).err(), Some(LoadError::MalformedHeader));
    let c = sample_dll();
    assert_eq!(parse_headers(&c[..0x100]).err(), Some(LoadError::MalformedHeader));
    assert_eq!(parse_headers(&[]).err(), Some(LoadError::MalformedHeader));
}

#[test]
fn sections_are_copied_to_their_virtual_addresses() {
    let b = sample_dll();
    let h = parse_headers(&b).unwrap();
    let img = copy_sections_to_local_process(&b, &h).unwrap();
    assert_eq!(img.len(), 0x3000);
    assert_eq!(&img[..0x400], &b[..0x400]);
    assert_eq!(&img[0x1000..0x1200], &b[0x400..0x600]);
    assert_eq!(&img[0x2000..0x2200], &b[0x600..0x800]);
    assert!(img[0x1200..0x2000].iter().all(|&x| x == 0));
    assert!(img[0x2200..].iter().all(|&x| x == 0));
    for s in &h.sections {
        assert!(s.virtual_address as usize + s.size_of_raw_data as usize <= img.len());
    }
}

#[test]
fn section_outside_the_image_is_rejected() {
    let mut b = sample_dll();
    put32(&mut b, TABLE + 40 + 12, 0x2f00);
    let h = parse_headers(&b).unwrap();
    assert_eq!(copy_sections_to_local_process(&b, &h).err(), Some(LoadError::MalformedHeader));
}

#[test]
fn preferred_base_needs_no_relocation() {
    let b = sample_dll();
    let plan = reflective_loader(&b, PREFERRED).unwrap();
    assert_eq!(plan.entry_point, PREFERRED + 0x1000);
    assert_eq!(read_u64(&plan.image, 0x1010), 0x1_8000_1000);
    assert_eq!(read_u32(&plan.image, 0x1020), 0x8000_1100);
    assert_eq!(read_u64(&plan.image, 0x1030), 0x1_8000_1200);
}

#[test]
fn fallback_base_applies_every_relocation() {
    let b = sample_dll();
    let new_base: u64 = 0x2_0000_0000;
    let plan = reflective_loader(&b, new_base).unwrap();
    assert_eq!(plan.entry_point, new_base + 0x1000);
    assert_eq!(read_u64(&plan.image, 0x1010), 0x2_0000_1000);
    assert_eq!(read_u32(&plan.image, 0x1020), 0x0000_1100);
    assert_eq!(read_u64(&plan.image, 0x1030), 0x2_0000_1200);
    // the padding entry changed nothing
    assert_eq!(read_u64(&plan.image, 0x1000), 0);
}

#[test]
fn lower_base_relocates_with_a_negative_delta() {
    let b = sample_dll();
    let h = parse_headers(&b).unwrap();
    let mut img = copy_sections_to_local_process(&b, &h).unwrap();
    assert_eq!(rebase_image(&mut img, &h, 0x1000_0000), Ok(()));
    assert_eq!(read_u64(&img, 0x1010), 0x1000_1000);
    assert_eq!(read_u32(&img, 0x1020), 0x1000_1100);
}

#[test]
fn truncated_relocation_block_overflows() {
    let mut b = sample_dll();
    put32(&mut b, 0x600 + 4, 24);
    assert_eq!(reflective_loader(&b, 0x2_0000_0000).err(), Some(LoadError::RelocOverflow));
}

#[test]
fn relocation_past_the_image_overflows() {
    let mut b = sample_dll();
    put32(&mut b, 0x600, 0x2ff8);
    put16(&mut b, 0x600 + 8, 0xa004);
    assert_eq!(reflective_loader(&b, 0x2_0000_0000).err(), Some(LoadError::RelocOverflow));
}

#[test]
fn imports_by_name_and_by_ordinal_are_listed() {
    let b = sample_dll();
    let plan = reflective_loader(&b, PREFERRED).unwrap();
    assert_eq!(plan.imports.len(), 1);
    let m = &plan.imports[0];
    assert_eq!(m.name, b"user32.dll".to_vec());
    assert_eq!(m.first_thunk, 0x1160);
    assert_eq!(m.targets.len(), 2);
    match &m.targets[0] {
        ImportTarget::Name(n) => assert_eq!(n, &b"MessageBoxA".to_vec()),
        other => panic!("expected an import by name, got {:?}", other),
    }
    match &m.targets[1] {
        ImportTarget::Ordinal(n) => assert_eq!(*n, 5),
        other => panic!("expected an import by ordinal, got {:?}", other),
    }
}

#[test]
fn import_name_outside_the_image_is_rejected() {
    let b = sample_dll();
    let h = parse_headers(&b).unwrap();
    let mut img = copy_sections_to_local_process(&b, &h).unwrap();
    let last = img.len() - 1;
    img[last] = 1;
    let name_rva = (img.len() - 1) as u32;
    reflective_loader::bytes::write_u32(&mut img, 0x1100 + 12, name_rva);
    assert_eq!(import_requests(&img, h.import_directory).err(), Some(LoadError::MalformedHeader));
}

#[test]
fn resolved_addresses_fill_the_address_table() {
    let b = sample_dll();
    let mut plan = reflective_loader(&b, PREFERRED).unwrap();
    let before = plan.image.clone();
    let m = plan.imports[0].clone();
    let addresses = [0x7ff7_1234_5678u64, 0x7ff7_0000_0042];
    assert_eq!(bind_imports(&mut plan.image, &m, &addresses), Ok(()));
    assert_eq!(read_u64(&plan.image, 0x1160), 0x7ff7_1234_5678);
    assert_eq!(read_u64(&plan.image, 0x1168), 0x7ff7_0000_0042);
    // the lookup table keeps its entries
    assert_eq!(read_u64(&plan.image, 0x1140), 0x11a0);
    assert_eq!(&plan.image[..0x1160], &before[..0x1160]);
    assert_eq!(&plan.image[0x1170..], &before[0x1170..]);
}

#[test]
fn null_or_missing_addresses_fail_the_import() {
    let b = sample_dll();
    let mut plan = reflective_loader(&b, PREFERRED).unwrap();
    let before = plan.image.clone();
    let m = plan.imports[0].clone();
    assert_eq!(bind_imports(&mut plan.image, &m, &[0x1000, 0]), Err(LoadError::ImportFail));
    assert_eq!(bind_imports(&mut plan.image, &m, &[0x1000]), Err(LoadError::ImportFail));
    assert_eq!(plan.image, before);
}

#[test]
fn address_table_outside_the_image_is_rejected() {
    let b = sample_dll();
    let mut plan = reflective_loader(&b, PREFERRED).unwrap();
    let mut m = plan.imports[0].clone();
    m.first_thunk = 0x2ff8;
    assert_eq!(bind_imports(&mut plan.image, &m, &[1, 2]), Err(LoadError::MalformedHeader));
}

#[test]
fn allocation_falls_back_once() {
    assert_eq!(next_allocation_step(true, PREFERRED), Ok(AllocStep::Use(PREFERRED)));
    assert_eq!(next_allocation_step(true, 0), Ok(AllocStep::RetryAnywhere));
    assert_eq!(next_allocation_step(false, 0x2_0000_0000), Ok(AllocStep::Use(0x2_0000_0000)));
    assert_eq!(next_allocation_step(false, 0), Err(LoadError::AllocFail));
}

/// A mapped module whose export directory at 0x1000 names two functions.
fn sample_module() -> Vec<u8> {
    let mut b = headers(0x1100, 0x3000, &[]);
    set_directory(&mut b, 0, 0x1000, 0x100);
    put32(&mut b, 0x1000 + 20, 2);
    put32(&mut b, 0x1000 + 24, 2);
    put32(&mut b, 0x1000 + 28, 0x1040);
    put32(&mut b, 0x1000 + 32, 0x1050);
    put32(&mut b, 0x1000 + 36, 0x1060);
    put32(&mut b, 0x1040, 0x2000);
    put32(&mut b, 0x1044, 0x2010);
    put32(&mut b, 0x1050, 0x1070);
    put32(&mut b, 0x1054, 0x1080);
    put16(&mut b, 0x1060, 1);
    put16(&mut b, 0x1062, 0);
    b[0x1070..0x107f].copy_from_slice(b"GetProcAddress\0");
    b[0x1080..0x108d].copy_from_slice(b"LoadLibraryA\0");
    b
}

#[test]
fn named_exports_are_listed_with_absolute_addresses() {
    let base = 0x7ff9_0000_0000u64;
    let exports = get_module_exports(&sample_module(), base).unwrap();
    assert_eq!(exports.len(), 2);
    assert_eq!(exports[0].name, b"GetProcAddress".to_vec());
    assert_eq!(exports[0].address, base + 0x2010);
    assert_eq!(exports[1].name, b"LoadLibraryA".to_vec());
    assert_eq!(exports[1].address, base + 0x2000);
    assert!(!exports[0].forwarded && !exports[1].forwarded);
    let found = reflective_loader::exports::get_exports_by_hash(&exports, reflective_loader::fnv1a_hash_32(b"LoadLibraryA"));
    assert_eq!(found, Some(base + 0x2000));
}

#[test]
fn export_ordinal_out_of_range_is_rejected() {
    let mut b = sample_module();
    put16(&mut b, 0x1062, 2);
    assert_eq!(get_module_exports(&b, 0x1000).err(), Some(LoadError::MalformedHeader));
}

#[test]
fn export_inside_its_directory_is_forwarded() {
    let mut b = sample_module();
    put32(&mut b, 0x1040, 0x1090);
    b[0x1090..0x10a0].copy_from_slice(b"NTDLL.RtlAlloc\0\0");
    let exports = get_module_exports(&b, 0x1000).unwrap();
    assert!(exports[1].forwarded);
    assert!(!exports[0].forwarded);
    assert_eq!(exports[1].address, 0x1000 + 0x1090);
}

/// The fields of a standard DOS header, as linkers write them.
fn dos_stub(b: &mut [u8]) {
    put16(b, 2, 0x90);
    put16(b, 4, 3);
    put16(b, 8, 4);
    put16(b, 12, 0xffff);
    put16(b, 16, 0xb8);
    put16(b, 24, 0x40);
}

/// A DLL with a real DOS header, one `.text` section and no import
/// directory; with `relocs`, a `.reloc` section and its directory.
fn dll_without_imports(relocs: bool) -> Vec<u8> {
    let mut b = if relocs {
        headers(0x800, 0x3000, &[(0x1000, 0x200, 0x400), (0x2000, 0x200, 0x600)])
    } else {
        headers(0x600, 0x2000, &[(0x1000, 0x200, 0x400)])
    };
    dos_stub(&mut b);
    // the entry stores `return 1`: mov eax, 1; ret
    b[0x400..0x406].copy_from_slice(&[0xb8, 0x01, 0x00, 0x00, 0x00, 0xc3]);
    put64(&mut b, text(0x1010), 0x1_8000_1000);
    put32(&mut b, text(0x1020), 0x8000_1100);
    if relocs {
        put32(&mut b, 0x600, 0x1000);
        put32(&mut b, 0x604, 12);
        put16(&mut b, 0x608, 0xa010);
        put16(&mut b, 0x60a, 0x3020);
        set_directory(&mut b, 5, 0x2000, 12);
    }
    b
}

#[test]
fn minimal_dll_at_preferred_base_has_no_imports() {
    let b = dll_without_imports(false);
    let h = parse_headers(&b).unwrap();
    assert_eq!(h.import_directory, DataDirectory { virtual_address: 0, size: 0 });
    let plan = reflective_loader(&b, PREFERRED).unwrap();
    assert!(plan.imports.is_empty());
    assert_eq!(plan.entry_point, PREFERRED + 0x1000);
    assert_eq!(&plan.image[0x1000..0x1006], &[0xb8, 0x01, 0x00, 0x00, 0x00, 0xc3]);
    assert_eq!(read_u64(&plan.image, 0x1010), 0x1_8000_1000);
}

#[test]
fn dll_without_imports_at_fallback_base_is_relocated() {
    let b = dll_without_imports(true);
    let new_base: u64 = 0x2_0000_0000;
    let plan = reflective_loader(&b, new_base).unwrap();
    assert!(plan.imports.is_empty());
    assert_eq!(plan.entry_point, new_base + 0x1000);
    assert_eq!(read_u64(&plan.image, 0x1010), 0x2_0000_1000);
    assert_eq!(read_u32(&plan.image, 0x1020), 0x0000_1100);
}

#[test]
fn empty_import_directory_reads_nothing() {
    let b = dll_without_imports(false);
    let h = parse_headers(&b).unwrap();
    let img = copy_sections_to_local_process(&b, &h).unwrap();
    assert!(import_requests(&img, DataDirectory { virtual_address: 0, size: 0 }).unwrap().is_empty());
    assert!(import_requests(&img, DataDirectory { virtual_address: 0x1000, size: 0 }).unwrap().is_empty());
}

#[test]
fn missing_data_directories_are_empty() {
    let mut b = dll_without_imports(false);
    put32(&mut b, OPT + 108, 2);
    set_directory(&mut b, 5, 0x2000, 12);
    let h = parse_headers(&b).unwrap();
    assert_eq!(h.base_relocation_directory, DataDirectory { virtual_address: 0, size: 0 });
    let plan = reflective_loader(&b, 0x2_0000_0000).unwrap();
    assert_eq!(read_u64(&plan.image, 0x1010), 0x1_8000_1000);
}

#[test]
fn short_optional_header_holds_fewer_directories() {
    let mut b = dll_without_imports(false);
    // an optional header of 0x80 bytes holds two directories
    put16(&mut b, NT + 20, 0x80);
    let table = OPT + 0x80;
    let old = TABLE;
    let section: Vec<u8> = b[old..old + 40].to_vec();
    b[table..table + 40].copy_from_slice(&section);
    set_directory(&mut b, 1, 0x1100, 40);
    let h = parse_headers(&b).unwrap();
    assert_eq!(h.import_directory, DataDirectory { virtual_address: 0x1100, size: 40 });
    assert_eq!(h.base_relocation_directory, DataDirectory { virtual_address: 0, size: 0 });
    assert_eq!(h.sections[0].virtual_address, 0x1000);
}

#[test]
fn module_without_export_directory_has_no_exports() {
    let mut b = headers(0x1100, 0x3000, &[]);
    dos_stub(&mut b);
    assert!(get_module_exports(&b, 0x7ff9_0000_0000).unwrap().is_empty());
}
