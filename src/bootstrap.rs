//! Finding loaded modules by the hash of their names, and the table of the
//! four host functions that the loader calls.
use vstd::prelude::*;
use crate::exports::{find_export, get_exports_by_hash, ExportEntry};
use crate::hash::{fnv1a_hash_32_wstr, hash_of_wide};
use crate::pe::LoadError;

verus! {

/// Hash of `kernel32.dll`.
pub const KERNEL32DLL_HASH: u32 = 0xa3e6f6c3;

/// Hash of `ntdll.dll`.
pub const NTDLLDLL_HASH: u32 = 0xa62a3b3b;

/// Hash of `LoadLibraryA`.
pub const LOADLIBRARYA_HASH: u32 = 0x4dbc712f;

/// Hash of `GetProcAddress`.
pub const GETPROCADDRESS_HASH: u32 = 0xb8e4e945;

/// Hash of `VirtualAlloc`.
pub const VIRTUALALLOC_HASH: u32 = 0x0700da41;

/// Hash of `NtFlushInstructionCache`.
pub const NTFLUSHINSTRUCTIONCACHE_HASH: u32 = 0xbe436fc9;

/// One entry of the process's load-order module list: the module's file
/// name as UTF-16 units, its base address, and its named exports.
#[derive(Clone, Debug)]
pub struct LoadedModule {
    pub name: Vec<u16>,
    pub base: u64,
    pub exports: Vec<ExportEntry>,
}

/// The addresses of the host functions that the loader calls.
#[derive(Clone, Copy, Debug, PartialEq, Eq, Structural)]
pub struct ApiTable {
    pub load_library_a: u64,
    pub get_proc_address: u64,
    pub virtual_alloc: u64,
    pub nt_flush_instruction_cache: u64,
}

/// The index of the first module whose name hashes to `hash`.
pub open spec fn find_module(ms: Seq<LoadedModule>, hash: u32) -> Option<int>
    decreases ms.len(),
{
    if ms.len() == 0 {
        None
    } else if hash_of_wide(ms[0].name@) == hash {
        Some(0)
    } else {
        match find_module(ms.drop_first(), hash) {
            Some(i) => Some(i + 1),
            None => None,
        }
    }
}

proof fn lemma_find_module_in_range(ms: Seq<LoadedModule>, hash: u32)
    ensures
        find_module(ms, hash) matches Some(i) ==> 0 <= i < ms.len(),
    decreases ms.len(),
{
    if ms.len() > 0 {
        lemma_find_module_in_range(ms.drop_first(), hash);
    }
}

fn position_of_module(modules: &[LoadedModule], hash: u32) -> (r: Option<usize>)
    ensures
        match find_module(modules@, hash) {
            Some(i) => r == Some(i as usize),
            None => r is None,
        },
{
    let mut i: usize = 0;
    assert(modules@.skip(0) =~= modules@);
    while i < modules.len()
        invariant
            i <= modules@.len(),
            find_module(modules@, hash) == match find_module(modules@.skip(i as int), hash) {
                Some(k) => Some(k + i),
                None => None,
            },
        decreases modules@.len() - i,
    {
        assert(modules@.skip(i as int).drop_first() =~= modules@.skip(i + 1));
        if fnv1a_hash_32_wstr(modules[i].name.as_slice()) == hash {
            return Some(i);
        }
        i += 1;
    }
    None
}

/// The base address of the first module in load order whose name hashes to
/// `hash`.
pub fn get_loaded_module_by_hash(modules: &[LoadedModule], hash: u32) -> (r: Option<u64>)
    ensures
        match find_module(modules@, hash) {
            Some(i) => r == Some(modules@[i].base),
            None => r is None,
        },
{
    proof {
        lemma_find_module_in_range(modules@, hash);
    }
    match position_of_module(modules, hash) {
        Some(i) => Some(modules[i].base),
        None => None,
    }
}

/// The table that the module list yields: the three functions of the first
/// module named like `kernel32.dll` and the one of the first named like
/// `ntdll.dll`, each found by the hash of its name.
pub open spec fn bootstrap_of(ms: Seq<LoadedModule>) -> Result<ApiTable, LoadError> {
    match (find_module(ms, KERNEL32DLL_HASH), find_module(ms, NTDLLDLL_HASH)) {
        (Some(k), Some(n)) => match (
            find_export(ms[k].exports@, LOADLIBRARYA_HASH),
            find_export(ms[k].exports@, GETPROCADDRESS_HASH),
            find_export(ms[k].exports@, VIRTUALALLOC_HASH),
            find_export(ms[n].exports@, NTFLUSHINSTRUCTIONCACHE_HASH),
        ) {
            (Some(a), Some(b), Some(c), Some(d)) => Ok(
                ApiTable { load_library_a: a, get_proc_address: b, virtual_alloc: c, nt_flush_instruction_cache: d },
            ),
            _ => Err(LoadError::BootstrapMiss),
        },
        _ => Err(LoadError::BootstrapMiss),
    }
}

/// Resolves the four host functions from the process's module list. Fails
/// with `BootstrapMiss` where a module or an export is not found.
pub fn set_exported_functions_by_hash(modules: &[LoadedModule]) -> (r: Result<ApiTable, LoadError>)
    ensures
        r == bootstrap_of(modules@),
{
    proof {
        lemma_find_module_in_range(modules@, KERNEL32DLL_HASH);
        lemma_find_module_in_range(modules@, NTDLLDLL_HASH);
    }
    let k = match position_of_module(modules, KERNEL32DLL_HASH) {
        Some(k) => k,
        None => {
            return Err(LoadError::BootstrapMiss);
        },
    };
    let n = match position_of_module(modules, NTDLLDLL_HASH) {
        Some(n) => n,
        None => {
            return Err(LoadError::BootstrapMiss);
        },
    };
    let kernel32 = modules[k].exports.as_slice();
    let a = get_exports_by_hash(kernel32, LOADLIBRARYA_HASH);
    let b = get_exports_by_hash(kernel32, GETPROCADDRESS_HASH);
    let c = get_exports_by_hash(kernel32, VIRTUALALLOC_HASH);
    let d = get_exports_by_hash(modules[n].exports.as_slice(), NTFLUSHINSTRUCTIONCACHE_HASH);
    match (a, b, c, d) {
        (Some(a), Some(b), Some(c), Some(d)) => Ok(
            ApiTable { load_library_a: a, get_proc_address: b, virtual_alloc: c, nt_flush_instruction_cache: d },
        ),
        _ => Err(LoadError::BootstrapMiss),
    }
}

/// Resolving the host functions twice from the same module list yields the
/// same table, or the same failure.
pub proof fn lemma_bootstrap_idempotent(ms: Seq<LoadedModule>, first: Result<ApiTable, LoadError>, second: Result<ApiTable, LoadError>)
    requires
        first == bootstrap_of(ms),
        second == bootstrap_of(ms),
    ensures
        first == second,
{
}

} // verus!
