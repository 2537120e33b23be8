//! The image mapper: from the bytes of a DLL and the address of its
//! allocation to the mapped, rebased image, its import requests and its entry
//! point.
use vstd::prelude::*;
use crate::imports::{import_requests, imports_of, modules_view, ImportedModule};
use crate::mapper::{copy_sections_to_local_process, layout_fits, mapped_image};
use crate::pe::{headers_valid, headers_view_of, parse_headers, LoadError, PeHeaders, PeHeadersView};
use crate::reloc::{delta_of, rebase_image, relocated};

verus! {

/// A DLL ready to be copied to its allocation: the mapped and rebased image,
/// the imports that the host must resolve and bind, and the absolute address
/// of the entry point.
#[derive(Clone, Debug)]
pub struct LoadPlan {
    pub headers: PeHeaders,
    pub image: Vec<u8>,
    pub imports: Vec<ImportedModule>,
    pub entry_point: u64,
}

/// What to do after a request for the image's memory.
#[derive(Clone, Copy, Debug, PartialEq, Eq, Structural)]
pub enum AllocStep {
    /// Map the image at this address.
    Use(u64),
    /// The preferred base is taken: ask again, letting the allocator choose.
    RetryAnywhere,
}

/// Decides on the result of an allocation request: a non-null `result` is
/// the image's base; a null one at the preferred base calls for a second
/// request anywhere, and a null one from that second request is fatal.
pub fn next_allocation_step(at_preferred_base: bool, result: u64) -> (r: Result<AllocStep, LoadError>)
    ensures
        result != 0 ==> r == Ok::<AllocStep, LoadError>(AllocStep::Use(result)),
        result == 0 && at_preferred_base ==> r == Ok::<AllocStep, LoadError>(AllocStep::RetryAnywhere),
        result == 0 && !at_preferred_base ==> r == Err::<AllocStep, LoadError>(LoadError::AllocFail),
{
    if result != 0 {
        Ok(AllocStep::Use(result))
    } else if at_preferred_base {
        Ok(AllocStep::RetryAnywhere)
    } else {
        Err(LoadError::AllocFail)
    }
}

/// The image of `b` with headers `h`, mapped and rebased for `new_base`.
pub open spec fn rebased_image(b: Seq<u8>, h: PeHeadersView, new_base: u64) -> Result<Seq<u8>, LoadError> {
    relocated(mapped_image(b, h), h.base_relocation_directory, delta_of(new_base, h.image_base))
}

/// Every phase of preparing `b`, with headers `h`, for `new_base` succeeds:
/// the sections fit, the relocations stay within the image, the import
/// directory can be read, and the entry point's address does not overflow.
pub open spec fn plan_succeeds(b: Seq<u8>, h: PeHeadersView, new_base: u64) -> bool {
    &&& layout_fits(b, h)
    &&& rebased_image(b, h, new_base) is Ok
    &&& imports_of(rebased_image(b, h, new_base)->Ok_0, h.import_directory) is Some
    &&& new_base + h.address_of_entry_point <= u64::MAX
}

/// Prepares the DLL in `dll_bytes` for an allocation at `new_base`: reads its
/// headers, maps its sections, applies its base relocations for `new_base`,
/// lists its imports and computes the address of its entry point. Fails with
/// `MalformedHeader` where the headers are invalid or of the wrong bitness,
/// before anything else is done, and with the error of the first phase that
/// fails otherwise.
pub fn reflective_loader(dll_bytes: &[u8], new_base: u64) -> (r: Result<LoadPlan, LoadError>)
    ensures
        !headers_valid(dll_bytes@) ==> r == Err::<LoadPlan, LoadError>(LoadError::MalformedHeader),
        r matches Ok(p) ==> {
            &&& p.headers@ == headers_view_of(dll_bytes@)
            &&& plan_succeeds(dll_bytes@, p.headers@, new_base)
            &&& rebased_image(dll_bytes@, p.headers@, new_base) == Ok::<Seq<u8>, LoadError>(p.image@)
            &&& imports_of(p.image@, p.headers.import_directory) == Some(modules_view(p.imports@))
            &&& p.entry_point == new_base + p.headers.address_of_entry_point
        },
        headers_valid(dll_bytes@) && plan_succeeds(dll_bytes@, headers_view_of(dll_bytes@), new_base) ==> r is Ok,
        headers_valid(dll_bytes@) && !layout_fits(dll_bytes@, headers_view_of(dll_bytes@))
            ==> r == Err::<LoadPlan, LoadError>(LoadError::MalformedHeader),
        headers_valid(dll_bytes@) && layout_fits(dll_bytes@, headers_view_of(dll_bytes@))
            && rebased_image(dll_bytes@, headers_view_of(dll_bytes@), new_base) is Err
            ==> r == Err::<LoadPlan, LoadError>(LoadError::RelocOverflow),
        r matches Err(e) ==> e == LoadError::MalformedHeader || e == LoadError::RelocOverflow,
{
    let headers = match parse_headers(dll_bytes) {
        Ok(h) => h,
        Err(e) => {
            return Err(e);
        },
    };
    let mut image = match copy_sections_to_local_process(dll_bytes, &headers) {
        Ok(img) => img,
        Err(e) => {
            return Err(e);
        },
    };
    proof {
        crate::reloc::lemma_relocated_fails_by_overflow(image@, headers.base_relocation_directory,
            delta_of(new_base, headers.image_base));
    }
    match rebase_image(&mut image, &headers, new_base) {
        Ok(()) => {},
        Err(e) => {
            return Err(e);
        },
    }
    let imports = match import_requests(image.as_slice(), headers.import_directory) {
        Ok(v) => v,
        Err(e) => {
            return Err(e);
        },
    };
    if headers.address_of_entry_point as u64 > u64::MAX - new_base {
        return Err(LoadError::MalformedHeader);
    }
    let entry_point = new_base + headers.address_of_entry_point as u64;
    Ok(LoadPlan { headers, image, imports, entry_point })
}

} // verus!
