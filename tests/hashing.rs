use reflective_loader::bootstrap::{
    GETPROCADDRESS_HASH, KERNEL32DLL_HASH, LOADLIBRARYA_HASH, NTDLLDLL_HASH, NTFLUSHINSTRUCTIONCACHE_HASH,
    VIRTUALALLOC_HASH,
};
use reflective_loader::{fnv1a_hash_32, fnv1a_hash_32_wstr};

fn wide(s: &str) -> Vec<u16> {
    s.encode_utf16().collect()
}

#[test]
fn empty_input_hashes_to_offset_basis() {
    assert_eq!(fnv1a_hash_32(b""), 0x811c9dc5);
    assert_eq!(fnv1a_hash_32_wstr(&[]), 0x811c9dc5);
}

#[test]
fn single_byte_hash_value() {
    assert_eq!(fnv1a_hash_32(b"a"), 0xe40c292c);
    assert_eq!(fnv1a_hash_32(b"A"), 0xe40c292c);
}

#[test]
fn hash_ignores_ascii_case() {
    assert_eq!(fnv1a_hash_32(b"LoadLibraryA"), fnv1a_hash_32(b"loadlibrarya"));
    assert_eq!(fnv1a_hash_32(b"MixedCase_123"), fnv1a_hash_32(b"mixedcase_123"));
    assert_ne!(fnv1a_hash_32(b"abc"), fnv1a_hash_32(b"abd"));
}

#[test]
fn non_letters_are_not_folded() {
    // '@' (0x40) and '`' (0x60) differ by 0x20 but are not letters.
    assert_ne!(fnv1a_hash_32(b"@"), fnv1a_hash_32(b"`"));
}

#[test]
fn narrow_and_wide_module_names_agree() {
    assert_eq!(fnv1a_hash_32(b"kernel32.dll"), fnv1a_hash_32_wstr(&wide("KERNEL32.DLL")));
    assert_eq!(fnv1a_hash_32_wstr(&wide("KERNEL32.DLL")), KERNEL32DLL_HASH);
    assert_eq!(fnv1a_hash_32_wstr(&wide("ntdll.dll")), NTDLLDLL_HASH);
}

#[test]
fn wide_units_are_narrowed_to_low_byte() {
    // 0x0141 narrows to 0x41 ('A'), which lowercases to 'a'.
    assert_eq!(fnv1a_hash_32_wstr(&[0x0141]), fnv1a_hash_32(b"a"));
}

#[test]
fn export_name_hash_constants() {
    assert_eq!(fnv1a_hash_32(b"LoadLibraryA"), LOADLIBRARYA_HASH);
    assert_eq!(fnv1a_hash_32(b"GetProcAddress"), GETPROCADDRESS_HASH);
    assert_eq!(fnv1a_hash_32(b"VirtualAlloc"), VIRTUALALLOC_HASH);
    assert_eq!(fnv1a_hash_32(b"NtFlushInstructionCache"), NTFLUSHINSTRUCTIONCACHE_HASH);
    assert_eq!(fnv1a_hash_32(b"kernel32.dll"), 0xa3e6f6c3);
}
