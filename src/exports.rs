//! The export directory of a mapped module and lookup of an export by the
//! hash of its name.
use vstd::prelude::*;
use crate::bytes::{cstr_at, has_cstr, le16, le32, read_cstr, read_u16, read_u32};
use crate::hash::{fnv1a_hash_32, hash_of_bytes};
use crate::pe::{directory_at, headers_valid, parse_headers, LoadError, DIRECTORY_ENTRY_EXPORT};

verus! {

/// Size of the fixed part of the export directory.
pub const EXPORT_DIRECTORY_SIZE: u64 = 40;

/// One named export: its name, its absolute address, and whether it is
/// forwarded (its RVA lies within the export directory, so the address is
/// that of a forwarder string, not of code).
#[derive(Clone, Debug)]
pub struct ExportEntry {
    pub name: Vec<u8>,
    pub address: u64,
    pub forwarded: bool,
}

/// The name, absolute address and forwarding of the `i`-th named export of
/// the directory of `size` bytes at offset `d` of a module mapped at `base`;
/// `None` where a table entry, the ordinal or the name lies outside the
/// module, or the address overflows.
pub open spec fn export_at(img: Seq<u8>, d: int, size: int, base: int, i: int) -> Option<(Seq<u8>, int, bool)> {
    let functions = le32(img, d + 28);
    let names = le32(img, d + 32);
    let ordinals = le32(img, d + 36);
    if names + 4 * i + 4 > img.len() || ordinals + 2 * i + 2 > img.len() {
        None
    } else {
        let ord = le16(img, ordinals + 2 * i);
        let name = le32(img, names + 4 * i);
        if ord >= le32(img, d + 20) || functions + 4 * ord + 4 > img.len() || !has_cstr(img, name) {
            None
        } else if base + le32(img, functions + 4 * ord) > u64::MAX {
            None
        } else {
            let rva = le32(img, functions + 4 * ord);
            Some((cstr_at(img, name), base + rva, d <= rva < d + size))
        }
    }
}

/// Offset of the export directory of a module image.
pub open spec fn export_offset(img: Seq<u8>) -> int {
    directory_at(img, DIRECTORY_ENTRY_EXPORT as int).virtual_address as int
}

/// Size of the export directory of a module image.
pub open spec fn export_size(img: Seq<u8>) -> int {
    directory_at(img, DIRECTORY_ENTRY_EXPORT as int).size as int
}

/// Number of named exports of a module image.
pub open spec fn export_count(img: Seq<u8>) -> int {
    le32(img, export_offset(img) + 24)
}

/// The module has an export directory: its address and size are not zero.
pub open spec fn has_exports(img: Seq<u8>) -> bool {
    export_offset(img) != 0 && export_size(img) != 0
}

/// Number of named exports that the module lists: none without an export
/// directory.
pub open spec fn named_export_count(img: Seq<u8>) -> int {
    if has_exports(img) {
        export_count(img)
    } else {
        0
    }
}

/// The headers and the export directory, if any, of a module image can be
/// read.
pub open spec fn exports_readable(img: Seq<u8>, base: int) -> bool {
    &&& headers_valid(img)
    &&& has_exports(img) ==> export_offset(img) + EXPORT_DIRECTORY_SIZE <= img.len()
    &&& forall|i: int| 0 <= i < named_export_count(img)
        ==> #[trigger] export_at(img, export_offset(img), export_size(img), base, i) is Some
}

/// Lists the named exports of a module mapped at `base`, whose image is
/// `img`, in the order of its name table; a name that the table repeats is
/// listed each time. A module without an export directory has none. Fails
/// with `MalformedHeader` exactly when its headers, its export directory, or
/// one of its named exports cannot be read within the image.
pub fn get_module_exports(img: &[u8], base: u64) -> (r: Result<Vec<ExportEntry>, LoadError>)
    ensures
        r is Ok <==> exports_readable(img@, base as int),
        r matches Ok(v) ==> v@.len() == named_export_count(img@) && forall|i: int| 0 <= i < v@.len()
            ==> export_at(img@, export_offset(img@), export_size(img@), base as int, i)
            == Some((#[trigger] v@[i].name@, v@[i].address as int, v@[i].forwarded)),
        r matches Err(e) ==> e == LoadError::MalformedHeader,
{
    let h = match parse_headers(img) {
        Ok(h) => h,
        Err(e) => {
            return Err(e);
        },
    };
    let d = h.export_directory.virtual_address as u64;
    let dir_size = h.export_directory.size as u64;
    if d == 0 || dir_size == 0 {
        return Ok(Vec::new());
    }
    if d > img.len() as u64 || img.len() as u64 - d < EXPORT_DIRECTORY_SIZE {
        return Err(LoadError::MalformedHeader);
    }
    read_named_exports(img, d as usize, dir_size, base)
}

/// Reads the named exports of the export directory of `dir_size` bytes at
/// offset `d`.
fn read_named_exports(img: &[u8], d: usize, dir_size: u64, base: u64) -> (r: Result<Vec<ExportEntry>, LoadError>)
    requires
        d + EXPORT_DIRECTORY_SIZE <= img.len(),
        dir_size <= u32::MAX,
    ensures
        r is Ok <==> forall|i: int| 0 <= i < le32(img@, d + 24)
            ==> #[trigger] export_at(img@, d as int, dir_size as int, base as int, i) is Some,
        r matches Ok(v) ==> v@.len() == le32(img@, d + 24) && forall|i: int| 0 <= i < v@.len()
            ==> export_at(img@, d as int, dir_size as int, base as int, i)
            == Some((#[trigger] v@[i].name@, v@[i].address as int, v@[i].forwarded)),
        r matches Err(e) ==> e == LoadError::MalformedHeader,
{
    let len = img.len() as u64;
    let count = read_u32(img, d + 24) as u64;
    let functions = read_u32(img, d + 28) as u64;
    let names = read_u32(img, d + 32) as u64;
    let ordinals = read_u32(img, d + 36) as u64;
    let number_of_functions = read_u32(img, d + 20) as u64;
    let mut v: Vec<ExportEntry> = Vec::new();
    let mut i: u64 = 0;
    while i < count
        invariant
            d + EXPORT_DIRECTORY_SIZE <= img@.len(),
            dir_size <= u32::MAX,
            len == img@.len(),
            count == le32(img@, d + 24),
            functions == le32(img@, d + 28),
            names == le32(img@, d + 32),
            ordinals == le32(img@, d + 36),
            number_of_functions == le32(img@, d + 20),
            i <= count,
            v@.len() == i,
            forall|k: int| 0 <= k < i ==> export_at(img@, d as int, dir_size as int, base as int, k)
                == Some((#[trigger] v@[k].name@, v@[k].address as int, v@[k].forwarded)),
        decreases count - i,
    {
        if names + 4 * i + 4 > len || ordinals + 2 * i + 2 > len {
            assert(export_at(img@, d as int, dir_size as int, base as int, i as int) is None);
            return Err(LoadError::MalformedHeader);
        }
        let ord = read_u16(img, (ordinals + 2 * i) as usize) as u64;
        let name_rva = read_u32(img, (names + 4 * i) as usize);
        if ord >= number_of_functions || functions + 4 * ord + 4 > len {
            assert(export_at(img@, d as int, dir_size as int, base as int, i as int) is None);
            return Err(LoadError::MalformedHeader);
        }
        let rva = read_u32(img, (functions + 4 * ord) as usize) as u64;
        let name = match read_cstr(img, name_rva as usize) {
            Some(s) => s,
            None => {
                assert(export_at(img@, d as int, dir_size as int, base as int, i as int) is None);
                return Err(LoadError::MalformedHeader);
            },
        };
        if rva > u64::MAX - base {
            assert(export_at(img@, d as int, dir_size as int, base as int, i as int) is None);
            return Err(LoadError::MalformedHeader);
        }
        let forwarded = d as u64 <= rva && rva < d as u64 + dir_size;
        v.push(ExportEntry { name, address: base + rva, forwarded });
        i += 1;
    }
    assert forall|k: int| 0 <= k < count implies
        #[trigger] export_at(img@, d as int, dir_size as int, base as int, k) is Some by {
        assert(export_at(img@, d as int, dir_size as int, base as int, k)
            == Some((v@[k].name@, v@[k].address as int, v@[k].forwarded)));
    }
    Ok(v)
}

/// The address of the first export whose name hashes to `hash`; none where
/// that export is forwarded.
pub open spec fn find_export(es: Seq<ExportEntry>, hash: u32) -> Option<u64>
    decreases es.len(),
{
    if es.len() == 0 {
        None
    } else if hash_of_bytes(es[0].name@) == hash {
        if es[0].forwarded {
            None
        } else {
            Some(es[0].address)
        }
    } else {
        find_export(es.drop_first(), hash)
    }
}

/// Finds the address of the first export whose name hashes to `hash`. A
/// forwarded export found so is not followed: the result is then `None`.
pub fn get_exports_by_hash(exports: &[ExportEntry], hash: u32) -> (r: Option<u64>)
    ensures
        r == find_export(exports@, hash),
{
    let mut i: usize = 0;
    assert(exports@.skip(0) =~= exports@);
    while i < exports.len()
        invariant
            i <= exports@.len(),
            find_export(exports@, hash) == find_export(exports@.skip(i as int), hash),
        decreases exports@.len() - i,
    {
        assert(exports@.skip(i as int).drop_first() =~= exports@.skip(i + 1));
        if fnv1a_hash_32(exports[i].name.as_slice()) == hash {
            if exports[i].forwarded {
                return None;
            }
            return Some(exports[i].address);
        }
        i += 1;
    }
    None
}

/// An export that is not forwarded, and whose hash no earlier export
/// shares, is found by its hash, at its own address.
pub proof fn lemma_export_resolution(es: Seq<ExportEntry>, i: int)
    requires
        0 <= i < es.len(),
        !es[i].forwarded,
        forall|k: int| 0 <= k < i ==> hash_of_bytes(#[trigger] es[k].name@) != hash_of_bytes(es[i].name@),
    ensures
        find_export(es, hash_of_bytes(es[i].name@)) == Some(es[i].address),
    decreases i,
{
    if i > 0 {
        let rest = es.drop_first();
        assert(rest[i - 1] == es[i]);
        assert forall|k: int| 0 <= k < i - 1 implies hash_of_bytes(#[trigger] rest[k].name@) != hash_of_bytes(rest[i - 1].name@) by {
            assert(rest[k] == es[k + 1]);
        }
        assert(hash_of_bytes(es[0].name@) != hash_of_bytes(es[i].name@));
        lemma_export_resolution(rest, i - 1);
    }
}

} // verus!
