//! The import directory: which symbols of which modules the image needs, and
//! the binding of the import address table once the host has resolved them.
use vstd::prelude::*;
use crate::bytes::{bytes64, cstr_at, has_cstr, le32, le64, overlay, read_cstr, read_u32, read_u64, write_u64};
use crate::pe::{DataDirectory, LoadError};

verus! {

/// Size of one import descriptor.
pub const IMPORT_DESCRIPTOR_SIZE: u64 = 20;

/// Size of one thunk of the lookup and address tables.
pub const THUNK_SIZE: u64 = 8;

/// The bit of a lookup entry that marks an import by ordinal.
pub const ORDINAL_FLAG: u64 = 0x8000_0000_0000_0000;

/// How one symbol is imported.
#[derive(Clone, Debug)]
pub enum ImportTarget {
    /// By ordinal: the low 16 bits of the lookup entry.
    Ordinal(u16),
    /// By name: the zero-terminated name of the import-by-name record.
    Name(Vec<u8>),
}

/// What an `ImportTarget` denotes.
pub enum ImportRef {
    Ordinal(u16),
    Name(Seq<u8>),
}

impl View for ImportTarget {
    type V = ImportRef;

    open spec fn view(&self) -> ImportRef {
        match self {
            ImportTarget::Ordinal(n) => ImportRef::Ordinal(*n),
            ImportTarget::Name(s) => ImportRef::Name(s@),
        }
    }
}

/// The imports from one module: its name, the RVA of its import address
/// table, and the symbols in table order.
#[derive(Clone, Debug)]
pub struct ImportedModule {
    pub name: Vec<u8>,
    pub first_thunk: u32,
    pub targets: Vec<ImportTarget>,
}

/// What an `ImportedModule` denotes.
pub struct ImportedModuleView {
    pub name: Seq<u8>,
    pub first_thunk: u32,
    pub targets: Seq<ImportRef>,
}

impl View for ImportedModule {
    type V = ImportedModuleView;

    open spec fn view(&self) -> ImportedModuleView {
        ImportedModuleView {
            name: self.name@,
            first_thunk: self.first_thunk,
            targets: self.targets@.map_values(|t: ImportTarget| t@),
        }
    }
}

/// The views of a sequence of imported modules.
pub open spec fn modules_view(v: Seq<ImportedModule>) -> Seq<ImportedModuleView> {
    v.map_values(|m: ImportedModule| m@)
}

/// The symbol that the non-zero lookup entry `e` names, if its name lies
/// within the image.
pub open spec fn target_of(img: Seq<u8>, e: int) -> Option<ImportRef> {
    if e >= ORDINAL_FLAG {
        Some(ImportRef::Ordinal((e % 0x1_0000) as u16))
    } else if has_cstr(img, e + 2) {
        Some(ImportRef::Name(cstr_at(img, e + 2)))
    } else {
        None
    }
}

/// The symbols of the lookup table from offset `pos` up to its zero entry;
/// `None` where an entry or a name lies outside the image.
pub open spec fn lookup_targets(img: Seq<u8>, pos: int) -> Option<Seq<ImportRef>>
    decreases img.len() - pos,
{
    if pos < 0 || pos + THUNK_SIZE > img.len() {
        None
    } else if le64(img, pos) == 0 {
        Some(Seq::empty())
    } else {
        match target_of(img, le64(img, pos)) {
            None => None,
            Some(t) => match lookup_targets(img, pos + THUNK_SIZE) {
                Some(rest) => Some(seq![t] + rest),
                None => None,
            },
        }
    }
}

/// The modules of the import descriptors from offset `pos` up to the one
/// whose name RVA is zero; `None` where anything lies outside the image.
pub open spec fn descriptors(img: Seq<u8>, pos: int) -> Option<Seq<ImportedModuleView>>
    decreases img.len() - pos,
{
    if pos < 0 || pos + IMPORT_DESCRIPTOR_SIZE > img.len() {
        None
    } else {
        let name = le32(img, pos + 12);
        if name == 0 {
            Some(Seq::empty())
        } else if !has_cstr(img, name) {
            None
        } else {
            match lookup_targets(img, le32(img, pos)) {
                None => None,
                Some(ts) => match descriptors(img, pos + IMPORT_DESCRIPTOR_SIZE) {
                    Some(rest) => Some(
                        seq![ImportedModuleView { name: cstr_at(img, name), first_thunk: le32(img, pos + 16) as u32, targets: ts }]
                            + rest,
                    ),
                    None => None,
                },
            }
        }
    }
}

/// The modules that the import directory `dir` lists: none where the
/// directory is empty (zero address or size), else the descriptors from its
/// address on.
pub open spec fn imports_of(img: Seq<u8>, dir: DataDirectory) -> Option<Seq<ImportedModuleView>> {
    if dir.virtual_address == 0 || dir.size == 0 {
        Some(Seq::empty())
    } else {
        descriptors(img, dir.virtual_address as int)
    }
}

/// Reads the lookup table at offset `pos` up to its zero entry.
fn read_lookup_table(img: &[u8], pos: u64) -> (r: Option<Vec<ImportTarget>>)
    ensures
        match lookup_targets(img@, pos as int) {
            Some(ts) => r matches Some(v) && v@.map_values(|t: ImportTarget| t@) == ts,
            None => r is None,
        },
{
    let ghost goal = lookup_targets(img@, pos as int);
    let mut acc: Vec<ImportTarget> = Vec::new();
    let mut p = pos;
    loop
        invariant
            p <= pos + img@.len() + 8,
            goal == lookup_targets(img@, pos as int),
            goal == match lookup_targets(img@, p as int) {
                Some(rest) => Some(acc@.map_values(|t: ImportTarget| t@) + rest),
                None => None,
            },
        decreases img@.len() + 8 - (p - pos),
    {
        if p > img.len() as u64 || img.len() as u64 - p < THUNK_SIZE {
            return None;
        }
        let e = read_u64(img, p as usize);
        if e == 0 {
            assert(acc@.map_values(|t: ImportTarget| t@) + Seq::<ImportRef>::empty()
                =~= acc@.map_values(|t: ImportTarget| t@));
            return Some(acc);
        }
        let t = if e >= ORDINAL_FLAG {
            ImportTarget::Ordinal((e % 0x1_0000) as u16)
        } else {
            if e + 2 > img.len() as u64 {
                assert(!has_cstr(img@, e + 2));
                return None;
            }
            match read_cstr(img, (e + 2) as usize) {
                Some(s) => ImportTarget::Name(s),
                None => {
                    return None;
                },
            }
        };
        assert(target_of(img@, e as int) == Some(t@));
        let ghost before = acc@.map_values(|t: ImportTarget| t@);
        acc.push(t);
        assert(acc@.map_values(|t: ImportTarget| t@) =~= before.push(t@));
        proof {
            match lookup_targets(img@, p + THUNK_SIZE) {
                Some(rest) => {
                    assert(before + (seq![t@] + rest) =~= before.push(t@) + rest);
                },
                None => {},
            }
        }
        p = p + THUNK_SIZE;
    }
}

/// Lists the imports of a mapped image: for each import descriptor up to the
/// one whose name RVA is zero, the module name, the RVA of its address table
/// and the symbols of its lookup table. An empty import directory lists
/// nothing and reads nothing. Fails with `MalformedHeader` exactly when a
/// descriptor, a table entry or a name lies outside the image.
pub fn import_requests(img: &[u8], dir: DataDirectory) -> (r: Result<Vec<ImportedModule>, LoadError>)
    ensures
        match imports_of(img@, dir) {
            Some(ms) => r matches Ok(v) && modules_view(v@) == ms,
            None => r == Err::<Vec<ImportedModule>, LoadError>(LoadError::MalformedHeader),
        },
{
    let mut acc: Vec<ImportedModule> = Vec::new();
    if dir.virtual_address == 0 || dir.size == 0 {
        assert(modules_view(acc@) =~= Seq::<ImportedModuleView>::empty());
        return Ok(acc);
    }
    let ghost goal = descriptors(img@, dir.virtual_address as int);
    assert(goal == imports_of(img@, dir));
    let mut p = dir.virtual_address as u64;
    loop
        invariant
            p <= dir.virtual_address + img@.len() + 20,
            goal == descriptors(img@, dir.virtual_address as int),
            goal == imports_of(img@, dir),
            goal == match descriptors(img@, p as int) {
                Some(rest) => Some(modules_view(acc@) + rest),
                None => None,
            },
        decreases img@.len() + 20 - (p - dir.virtual_address),
    {
        if p > img.len() as u64 || img.len() as u64 - p < IMPORT_DESCRIPTOR_SIZE {
            return Err(LoadError::MalformedHeader);
        }
        let name_rva = read_u32(img, (p + 12) as usize);
        if name_rva == 0 {
            assert(modules_view(acc@) + Seq::<ImportedModuleView>::empty() =~= modules_view(acc@));
            return Ok(acc);
        }
        let name = match read_cstr(img, name_rva as usize) {
            Some(s) => s,
            None => {
                return Err(LoadError::MalformedHeader);
            },
        };
        let lookup = read_u32(img, p as usize);
        let targets = match read_lookup_table(img, lookup as u64) {
            Some(ts) => ts,
            None => {
                return Err(LoadError::MalformedHeader);
            },
        };
        let first_thunk = read_u32(img, (p + 16) as usize);
        let m = ImportedModule { name, first_thunk, targets };
        let ghost before = modules_view(acc@);
        acc.push(m);
        assert(modules_view(acc@) =~= before.push(m@));
        proof {
            match descriptors(img@, p + IMPORT_DESCRIPTOR_SIZE) {
                Some(rest) => {
                    assert(before + (seq![m@] + rest) =~= before.push(m@) + rest);
                },
                None => {},
            }
        }
        p = p + IMPORT_DESCRIPTOR_SIZE;
    }
}

/// The address table bytes for `a`: each address as eight little-endian bytes.
pub open spec fn slot_bytes(a: Seq<u64>) -> Seq<u8>
    decreases a.len(),
{
    if a.len() == 0 {
        Seq::empty()
    } else {
        slot_bytes(a.drop_last()) + bytes64(a.last() as int)
    }
}

proof fn lemma_slot_bytes_len(a: Seq<u64>)
    ensures
        slot_bytes(a).len() == THUNK_SIZE * a.len(),
    decreases a.len(),
{
    if a.len() > 0 {
        lemma_slot_bytes_len(a.drop_last());
    }
}

/// After the address table is written, slot `i` holds the `i`-th address.
pub proof fn lemma_slot_holds_address(img: Seq<u8>, ft: int, a: Seq<u64>, i: int)
    requires
        0 <= ft,
        ft + THUNK_SIZE * a.len() <= img.len(),
        0 <= i < a.len(),
    ensures
        le64(overlay(img, ft, slot_bytes(a)), ft + THUNK_SIZE * i) == a[i],
    decreases a.len(),
{
    let n = a.len() - 1;
    lemma_slot_bytes_len(a);
    lemma_slot_bytes_len(a.drop_last());
    let inner = overlay(img, ft, slot_bytes(a.drop_last()));
    assert(overlay(img, ft, slot_bytes(a)) =~= overlay(inner, ft + THUNK_SIZE * n, bytes64(a[n] as int)));
    if i == n {
        crate::bytes::lemma_read_written_u64(inner, ft + THUNK_SIZE * n, a[n] as int);
    } else {
        lemma_slot_holds_address(img, ft, a.drop_last(), i);
        let o = ft + THUNK_SIZE * i;
        let outer = overlay(inner, ft + THUNK_SIZE * n, bytes64(a[n] as int));
        assert(o + 8 <= ft + THUNK_SIZE * n);
        assert forall|k: int| o <= k < o + 8 implies #[trigger] outer[k] == inner[k] by {}
        assert(le64(outer, o) == le64(inner, o));
    }
}

/// Writes the resolved addresses of one module's symbols into its import
/// address table, slot `i` getting `addresses[i]`. Fails with `ImportFail`
/// where the count of addresses differs from the count of symbols or an
/// address is null, and with `MalformedHeader` where the table does not fit
/// in the image; the image is then left as it was.
pub fn bind_imports(img: &mut Vec<u8>, module: &ImportedModule, addresses: &[u64]) -> (r: Result<(), LoadError>)
    ensures
        r is Ok <==> addresses@.len() == module.targets@.len()
            && (forall|i: int| 0 <= i < addresses@.len() ==> #[trigger] addresses@[i] != 0)
            && module.first_thunk + THUNK_SIZE * addresses@.len() <= old(img)@.len(),
        r matches Err(e) ==> final(img)@ == old(img)@ && (e == LoadError::ImportFail
            <==> !(addresses@.len() == module.targets@.len()
            && forall|i: int| 0 <= i < addresses@.len() ==> #[trigger] addresses@[i] != 0)),
        r matches Err(e) ==> e == LoadError::ImportFail || e == LoadError::MalformedHeader,
        r is Ok ==> final(img)@ == overlay(old(img)@, module.first_thunk as int, slot_bytes(addresses@)),
        r is Ok ==> forall|i: int| 0 <= i < addresses@.len()
            ==> le64(final(img)@, module.first_thunk + THUNK_SIZE * i) == #[trigger] addresses@[i],
{
    let n = addresses.len();
    if n != module.targets.len() {
        return Err(LoadError::ImportFail);
    }
    let mut k: usize = 0;
    while k < n
        invariant
            n == addresses@.len(),
            k <= n,
            forall|i: int| 0 <= i < k ==> #[trigger] addresses@[i] != 0,
        decreases n - k,
    {
        if addresses[k] == 0 {
            return Err(LoadError::ImportFail);
        }
        k += 1;
    }
    let ft = module.first_thunk as u64;
    if ft > img.len() as u64 || (img.len() as u64 - ft) / THUNK_SIZE < n as u64 {
        return Err(LoadError::MalformedHeader);
    }
    assert(ft + THUNK_SIZE * n <= img@.len()) by (nonlinear_arith)
        requires
            ft <= img@.len(),
            (img@.len() - ft) / 8 >= n,
    ;
    let ghost start = img@;
    let mut i: usize = 0;
    assert(overlay(start, ft as int, slot_bytes(addresses@.take(0))) =~= start);
    while i < n
        invariant
            n == addresses@.len(),
            i <= n,
            ft + THUNK_SIZE * n <= start.len(),
            ft + THUNK_SIZE * n <= img.len(),
            img@ == overlay(start, ft as int, slot_bytes(addresses@.take(i as int))),
            start.len() == img@.len(),
        decreases n - i,
    {
        proof {
            lemma_slot_bytes_len(addresses@.take(i as int));
            assert(addresses@.take(i + 1).drop_last() =~= addresses@.take(i as int));
            assert(ft + THUNK_SIZE * i + 8 <= ft + THUNK_SIZE * n) by (nonlinear_arith)
                requires
                    i < n,
            ;
        }
        write_u64(img, (ft + THUNK_SIZE * i as u64) as usize, addresses[i]);
        proof {
            crate::bytes::lemma_overlay_append(start, ft as int, slot_bytes(addresses@.take(i as int)),
                bytes64(addresses@[i as int] as int));
        }
        i += 1;
    }
    assert(addresses@.take(n as int) =~= addresses@);
    assert forall|j: int| 0 <= j < addresses@.len() implies
        le64(img@, module.first_thunk + THUNK_SIZE * j) == #[trigger] addresses@[j] by {
        lemma_slot_holds_address(start, ft as int, addresses@, j);
    }
    Ok(())
}

} // verus!
