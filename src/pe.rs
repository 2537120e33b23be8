//! The PE32+ headers of an image: DOS header, NT headers, data directories
//! and the section table, read from the bytes of an on-disk image.
use vstd::prelude::*;
use crate::bytes::{le16, le32, le64, read_u16, read_u32, read_u64};

verus! {

/// Why loading an image stopped.
#[derive(Clone, Copy, Debug, PartialEq, Eq, Structural)]
pub enum LoadError {
    /// A required module or export was not found by its hash.
    BootstrapMiss,
    /// The headers are invalid, of the wrong bitness, or point outside the image.
    MalformedHeader,
    /// No memory could be allocated for the image.
    AllocFail,
    /// An imported module or symbol could not be resolved.
    ImportFail,
    /// A relocation lies outside its directory or outside the image.
    RelocOverflow,
}

pub const DOS_SIGNATURE: u16 = 0x5a4d;

pub const NT_SIGNATURE: u32 = 0x4550;

pub const MACHINE_AMD64: u16 = 0x8664;

pub const PE32_PLUS_MAGIC: u16 = 0x20b;

/// Offset of `e_lfanew` in the DOS header.
pub const E_LFANEW_OFFSET: usize = 0x3c;

/// Size of the NT signature and the file header.
pub const NT_FIXED_SIZE: usize = 24;

/// Size of the fixed part of the optional header; the data directories
/// follow it.
pub const OPTIONAL_HEADER_FIXED: usize = 112;

/// Size of one section header.
pub const SECTION_HEADER_SIZE: usize = 40;

pub const DIRECTORY_ENTRY_EXPORT: usize = 0;

pub const DIRECTORY_ENTRY_IMPORT: usize = 1;

pub const DIRECTORY_ENTRY_BASERELOC: usize = 5;

/// One data directory: where a table lies in the mapped image and its size.
#[derive(Clone, Copy, Debug, PartialEq, Eq, Structural)]
pub struct DataDirectory {
    pub virtual_address: u32,
    pub size: u32,
}

/// The fields of a section header that mapping reads.
#[derive(Clone, Copy, Debug, PartialEq, Eq, Structural)]
pub struct SectionHeader {
    pub virtual_address: u32,
    pub size_of_raw_data: u32,
    pub pointer_to_raw_data: u32,
}

/// The fields of the PE headers that the loader reads.
#[derive(Clone, Debug)]
pub struct PeHeaders {
    pub image_base: u64,
    pub size_of_image: u32,
    pub size_of_headers: u32,
    pub address_of_entry_point: u32,
    pub export_directory: DataDirectory,
    pub import_directory: DataDirectory,
    pub base_relocation_directory: DataDirectory,
    pub sections: Vec<SectionHeader>,
}

/// What a `PeHeaders` denotes.
pub struct PeHeadersView {
    pub image_base: u64,
    pub size_of_image: u32,
    pub size_of_headers: u32,
    pub address_of_entry_point: u32,
    pub export_directory: DataDirectory,
    pub import_directory: DataDirectory,
    pub base_relocation_directory: DataDirectory,
    pub sections: Seq<SectionHeader>,
}

impl View for PeHeaders {
    type V = PeHeadersView;

    open spec fn view(&self) -> PeHeadersView {
        PeHeadersView {
            image_base: self.image_base,
            size_of_image: self.size_of_image,
            size_of_headers: self.size_of_headers,
            address_of_entry_point: self.address_of_entry_point,
            export_directory: self.export_directory,
            import_directory: self.import_directory,
            base_relocation_directory: self.base_relocation_directory,
            sections: self.sections@,
        }
    }
}

/// Offset of the NT headers.
pub open spec fn nt_offset(b: Seq<u8>) -> int {
    le32(b, E_LFANEW_OFFSET as int)
}

/// Offset of the optional header.
pub open spec fn optional_offset(b: Seq<u8>) -> int {
    nt_offset(b) + NT_FIXED_SIZE
}

pub open spec fn number_of_sections(b: Seq<u8>) -> int {
    le16(b, nt_offset(b) + 6)
}

pub open spec fn size_of_optional_header(b: Seq<u8>) -> int {
    le16(b, nt_offset(b) + 20)
}

/// Offset of the section table.
pub open spec fn section_table_offset(b: Seq<u8>) -> int {
    optional_offset(b) + size_of_optional_header(b)
}

/// Offset of the header of section `i`.
pub open spec fn section_offset(b: Seq<u8>, i: int) -> int {
    section_table_offset(b) + SECTION_HEADER_SIZE * i
}

/// Offset of data directory `k`.
pub open spec fn directory_offset(b: Seq<u8>, k: int) -> int {
    optional_offset(b) + 112 + 8 * k
}

/// The bytes hold a 64-bit x86-64 PE image whose headers lie within them.
pub open spec fn headers_valid(b: Seq<u8>) -> bool {
    &&& b.len() >= 64
    &&& le16(b, 0) == DOS_SIGNATURE
    &&& nt_offset(b) + NT_FIXED_SIZE <= b.len()
    &&& le32(b, nt_offset(b)) == NT_SIGNATURE
    &&& le16(b, nt_offset(b) + 4) == MACHINE_AMD64
    &&& size_of_optional_header(b) >= OPTIONAL_HEADER_FIXED
    &&& optional_offset(b) + OPTIONAL_HEADER_FIXED <= b.len()
    &&& le16(b, optional_offset(b)) == PE32_PLUS_MAGIC
    &&& section_offset(b, number_of_sections(b)) <= b.len()
}

/// Data directory `k` is present: the header counts it
/// (`NumberOfRvaAndSizes`) and the optional header holds it.
pub open spec fn has_directory(b: Seq<u8>, k: int) -> bool {
    &&& k < le32(b, optional_offset(b) + 108)
    &&& OPTIONAL_HEADER_FIXED + 8 * k + 8 <= size_of_optional_header(b)
}

/// Data directory `k`; an absent one is empty (zero address and size).
pub open spec fn directory_at(b: Seq<u8>, k: int) -> DataDirectory {
    if has_directory(b, k) {
        DataDirectory {
            virtual_address: le32(b, directory_offset(b, k)) as u32,
            size: le32(b, directory_offset(b, k) + 4) as u32,
        }
    } else {
        DataDirectory { virtual_address: 0, size: 0 }
    }
}

pub open spec fn section_at(b: Seq<u8>, i: int) -> SectionHeader {
    SectionHeader {
        virtual_address: le32(b, section_offset(b, i) + 12) as u32,
        size_of_raw_data: le32(b, section_offset(b, i) + 16) as u32,
        pointer_to_raw_data: le32(b, section_offset(b, i) + 20) as u32,
    }
}

/// What the headers in `b` say.
pub open spec fn headers_view_of(b: Seq<u8>) -> PeHeadersView {
    let o = optional_offset(b);
    PeHeadersView {
        image_base: le64(b, o + 24) as u64,
        size_of_image: le32(b, o + 56) as u32,
        size_of_headers: le32(b, o + 60) as u32,
        address_of_entry_point: le32(b, o + 16) as u32,
        export_directory: directory_at(b, DIRECTORY_ENTRY_EXPORT as int),
        import_directory: directory_at(b, DIRECTORY_ENTRY_IMPORT as int),
        base_relocation_directory: directory_at(b, DIRECTORY_ENTRY_BASERELOC as int),
        sections: Seq::new(number_of_sections(b) as nat, |i: int| section_at(b, i)),
    }
}

fn read_directory(b: &[u8], opt: usize, soh: usize, k: usize) -> (d: DataDirectory)
    requires
        headers_valid(b@),
        opt == optional_offset(b@),
        soh == size_of_optional_header(b@),
        opt + soh <= b.len(),
        k <= 15,
    ensures
        d == directory_at(b@, k as int),
{
    let count = read_u32(b, opt + 108) as usize;
    if k < count && OPTIONAL_HEADER_FIXED + 8 * k + 8 <= soh {
        let o = opt + OPTIONAL_HEADER_FIXED + 8 * k;
        DataDirectory { virtual_address: read_u32(b, o), size: read_u32(b, o + 4) }
    } else {
        DataDirectory { virtual_address: 0, size: 0 }
    }
}

/// Reads the PE headers of an on-disk image. Fails with `MalformedHeader`
/// exactly when the signatures are wrong, the image is not a 64-bit x86-64
/// one, or the headers do not fit in the bytes.
pub fn parse_headers(b: &[u8]) -> (r: Result<PeHeaders, LoadError>)
    ensures
        r is Ok <==> headers_valid(b@),
        r matches Ok(h) ==> h@ == headers_view_of(b@),
        r matches Err(e) ==> e == LoadError::MalformedHeader,
{
    let len = b.len();
    if len < 64 || read_u16(b, 0) != DOS_SIGNATURE {
        return Err(LoadError::MalformedHeader);
    }
    let nt = read_u32(b, E_LFANEW_OFFSET) as usize;
    if nt > len || len - nt < NT_FIXED_SIZE {
        return Err(LoadError::MalformedHeader);
    }
    if read_u32(b, nt) != NT_SIGNATURE || read_u16(b, nt + 4) != MACHINE_AMD64 {
        return Err(LoadError::MalformedHeader);
    }
    let soh = read_u16(b, nt + 20) as usize;
    let opt = nt + NT_FIXED_SIZE;
    if soh < OPTIONAL_HEADER_FIXED || len - opt < OPTIONAL_HEADER_FIXED {
        return Err(LoadError::MalformedHeader);
    }
    if read_u16(b, opt) != PE32_PLUS_MAGIC {
        return Err(LoadError::MalformedHeader);
    }
    let n = read_u16(b, nt + 6) as usize;
    if soh > len - opt {
        return Err(LoadError::MalformedHeader);
    }
    let table = opt + soh;
    if (len - table) / SECTION_HEADER_SIZE < n {
        return Err(LoadError::MalformedHeader);
    }
    assert(section_offset(b@, n as int) <= b@.len()) by (nonlinear_arith)
        requires
            table == section_table_offset(b@),
            table <= len,
            (len - table) / 40 >= n as int,
            len == b@.len(),
    ;
    let mut sections: Vec<SectionHeader> = Vec::new();
    let mut i: usize = 0;
    while i < n
        invariant
            headers_valid(b@),
            n == number_of_sections(b@),
            table == section_table_offset(b@),
            len == b@.len(),
            i <= n,
            sections@.len() == i,
            forall|k: int| 0 <= k < i ==> #[trigger] sections@[k] == section_at(b@, k),
        decreases n - i,
    {
        assert(section_offset(b@, i + 1) <= section_offset(b@, n as int)) by (nonlinear_arith)
            requires
                i + 1 <= n,
        ;
        let s = table + SECTION_HEADER_SIZE * i;
        sections.push(SectionHeader {
            virtual_address: read_u32(b, s + 12),
            size_of_raw_data: read_u32(b, s + 16),
            pointer_to_raw_data: read_u32(b, s + 20),
        });
        i += 1;
    }
    assert(sections@ =~= Seq::new(number_of_sections(b@) as nat, |i: int| section_at(b@, i)));
    Ok(PeHeaders {
        image_base: read_u64(b, opt + 24),
        size_of_image: read_u32(b, opt + 56),
        size_of_headers: read_u32(b, opt + 60),
        address_of_entry_point: read_u32(b, opt + 16),
        export_directory: read_directory(b, opt, soh, DIRECTORY_ENTRY_EXPORT),
        import_directory: read_directory(b, opt, soh, DIRECTORY_ENTRY_IMPORT),
        base_relocation_directory: read_directory(b, opt, soh, DIRECTORY_ENTRY_BASERELOC),
        sections,
    })
}

} // verus!
