//! A reflective loader for 64-bit PE dynamic-link libraries.
//!
//! The library holds the logic of the loader as verified functions on plain
//! values: the case-insensitive FNV-1a name hashes, the lookup of loaded
//! modules and their exports, the parsing of PE headers, the mapping of
//! sections, base relocation and the binding of import slots. The work that
//! only the host can do (reading the loader data of the process, calling
//! `LoadLibraryA`, `GetProcAddress`, `VirtualAlloc`, flushing the instruction
//! cache, entering the image) is left to the caller, which hands the results
//! back as values.
pub mod bytes;
pub mod hash;
pub mod pe;
pub mod mapper;
pub mod reloc;
pub mod imports;
pub mod exports;
pub mod bootstrap;
pub mod loader;

pub use hash::{fnv1a_hash_32, fnv1a_hash_32_wstr};
pub use bootstrap::{get_loaded_module_by_hash, set_exported_functions_by_hash};
pub use loader::reflective_loader;
