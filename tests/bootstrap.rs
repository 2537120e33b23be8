use reflective_loader::bootstrap::{ApiTable, LoadedModule};
use reflective_loader::exports::{get_exports_by_hash, ExportEntry};
use reflective_loader::pe::LoadError;
use reflective_loader::{fnv1a_hash_32, get_loaded_module_by_hash, set_exported_functions_by_hash};

fn wide(s: &str) -> Vec<u16> {
    s.encode_utf16().collect()
}

fn export(name: &str, address: u64) -> ExportEntry {
    ExportEntry { name: name.as_bytes().to_vec(), address, forwarded: false }
}

fn host_modules() -> Vec<LoadedModule> {
    vec![
        LoadedModule { name: wide("loader.exe"), base: 0x1_4000_0000, exports: vec![] },
        LoadedModule {
            name: wide("ntdll.dll"),
            base: 0x7ff8_0000_0000,
            exports: vec![export("NtClose", 0x7ff8_0000_1000), export("NtFlushInstructionCache", 0x7ff8_0000_2000)],
        },
        LoadedModule {
            name: wide("KERNEL32.DLL"),
            base: 0x7ff9_0000_0000,
            exports: vec![
                export("GetProcAddress", 0x7ff9_0000_3000),
                export("LoadLibraryA", 0x7ff9_0000_1000),
                export("VirtualAlloc", 0x7ff9_0000_2000),
            ],
        },
    ]
}

#[test]
fn finds_module_by_wide_name_hash() {
    let modules = host_modules();
    assert_eq!(get_loaded_module_by_hash(&modules, fnv1a_hash_32(b"kernel32.dll")), Some(0x7ff9_0000_0000));
    assert_eq!(get_loaded_module_by_hash(&modules, fnv1a_hash_32(b"NTDLL.DLL")), Some(0x7ff8_0000_0000));
    assert_eq!(get_loaded_module_by_hash(&modules, fnv1a_hash_32(b"user32.dll")), None);
}

#[test]
fn first_module_with_matching_hash_wins() {
    let mut modules = host_modules();
    modules.push(LoadedModule { name: wide("kernel32.dll"), base: 0x1234, exports: vec![] });
    assert_eq!(get_loaded_module_by_hash(&modules, fnv1a_hash_32(b"kernel32.dll")), Some(0x7ff9_0000_0000));
}

#[test]
fn export_lookup_by_hash() {
    let exports = host_modules()[2].exports.clone();
    assert_eq!(get_exports_by_hash(&exports, fnv1a_hash_32(b"LoadLibraryA")), Some(0x7ff9_0000_1000));
    assert_eq!(get_exports_by_hash(&exports, fnv1a_hash_32(b"virtualalloc")), Some(0x7ff9_0000_2000));
    assert_eq!(get_exports_by_hash(&exports, fnv1a_hash_32(b"ExitProcess")), None);
    assert_eq!(get_exports_by_hash(&[], fnv1a_hash_32(b"LoadLibraryA")), None);
}

#[test]
fn bootstrap_resolves_the_four_functions() {
    let table = set_exported_functions_by_hash(&host_modules()).unwrap();
    assert_eq!(
        table,
        ApiTable {
            load_library_a: 0x7ff9_0000_1000,
            get_proc_address: 0x7ff9_0000_3000,
            virtual_alloc: 0x7ff9_0000_2000,
            nt_flush_instruction_cache: 0x7ff8_0000_2000,
        }
    );
}

#[test]
fn bootstrap_twice_gives_the_same_table() {
    let modules = host_modules();
    let first = set_exported_functions_by_hash(&modules);
    let second = set_exported_functions_by_hash(&modules);
    assert_eq!(first, second);
    assert!(first.is_ok());
}

#[test]
fn bootstrap_misses_without_ntdll() {
    let mut modules = host_modules();
    modules.remove(1);
    assert_eq!(set_exported_functions_by_hash(&modules), Err(LoadError::BootstrapMiss));
}

#[test]
fn bootstrap_misses_without_an_export() {
    let mut modules = host_modules();
    modules[2].exports.remove(2);
    assert_eq!(set_exported_functions_by_hash(&modules), Err(LoadError::BootstrapMiss));
}

#[test]
fn forwarded_export_is_a_miss() {
    let mut modules = host_modules();
    modules[2].exports[1].forwarded = true;
    let exports = modules[2].exports.clone();
    assert_eq!(get_exports_by_hash(&exports, fnv1a_hash_32(b"LoadLibraryA")), None);
    assert_eq!(get_exports_by_hash(&exports, fnv1a_hash_32(b"GetProcAddress")), Some(0x7ff9_0000_3000));
    assert_eq!(set_exported_functions_by_hash(&modules), Err(LoadError::BootstrapMiss));
}
