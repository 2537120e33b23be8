//! Mapping an on-disk image into an image-sized buffer: the headers at offset
//! zero, each section's raw data at its virtual address, zeros elsewhere.
use vstd::prelude::*;
use crate::bytes::overlay;
use crate::pe::{LoadError, PeHeaders, PeHeadersView, SectionHeader};

verus! {

/// The raw data of section `s` in the file bytes `b`.
pub open spec fn raw_data(b: Seq<u8>, s: SectionHeader) -> Seq<u8> {
    b.subrange(s.pointer_to_raw_data as int, s.pointer_to_raw_data + s.size_of_raw_data)
}

/// Section `s` lies within the file bytes and within an image of `size` bytes.
pub open spec fn section_fits(b: Seq<u8>, size: int, s: SectionHeader) -> bool {
    &&& s.pointer_to_raw_data + s.size_of_raw_data <= b.len()
    &&& s.virtual_address + s.size_of_raw_data <= size
}

/// The headers and every section fit in both the file and the image.
pub open spec fn layout_fits(b: Seq<u8>, h: PeHeadersView) -> bool {
    &&& h.size_of_headers <= b.len()
    &&& h.size_of_headers <= h.size_of_image
    &&& forall|i: int|
        0 <= i < h.sections.len() ==> #[trigger] section_fits(b, h.size_of_image as int, h.sections[i])
}

/// The image after the headers and the first `k` sections are copied.
pub open spec fn mapped_prefix(b: Seq<u8>, h: PeHeadersView, k: int) -> Seq<u8>
    decreases k,
{
    if k <= 0 {
        overlay(Seq::new(h.size_of_image as nat, |i: int| 0u8), 0, b.take(h.size_of_headers as int))
    } else {
        let s = h.sections[k - 1];
        overlay(mapped_prefix(b, h, k - 1), s.virtual_address as int, raw_data(b, s))
    }
}

/// The mapped image: headers and all sections copied, later sections over
/// earlier ones.
pub open spec fn mapped_image(b: Seq<u8>, h: PeHeadersView) -> Seq<u8> {
    mapped_prefix(b, h, h.sections.len() as int)
}

proof fn lemma_prefix_len(b: Seq<u8>, h: PeHeadersView, k: int)
    requires
        layout_fits(b, h),
        k <= h.sections.len(),
    ensures
        mapped_prefix(b, h, k).len() == h.size_of_image,
    decreases k,
{
    if k > 0 {
        lemma_prefix_len(b, h, k - 1);
        assert(section_fits(b, h.size_of_image as int, h.sections[k - 1]));
    }
}

/// Copies `n` bytes of `src` from offset `from` into `img` at offset `dst`.
fn copy_into(img: &mut Vec<u8>, dst: usize, src: &[u8], from: usize, n: usize)
    requires
        from + n <= src.len(),
        dst + n <= old(img).len(),
    ensures
        final(img)@ == overlay(old(img)@, dst as int, src@.subrange(from as int, from + n)),
{
    let ghost start = img@;
    let mut j: usize = 0;
    while j < n
        invariant
            from + n <= src.len(),
            dst + n <= start.len(),
            dst + n <= img.len(),
            j <= n,
            img@.len() == start.len(),
            forall|k: int|
                0 <= k < img@.len() ==> #[trigger] img@[k] == if dst <= k < dst + j {
                    src@[from + k - dst]
                } else {
                    start[k]
                },
        decreases n - j,
    {
        img.set(dst + j, src[from + j]);
        j += 1;
    }
    assert(img@ =~= overlay(start, dst as int, src@.subrange(from as int, from + n)));
}

/// Builds the mapped image of an on-disk image: `size_of_image` bytes, the
/// headers at offset zero and each section's raw data at its virtual address.
/// Fails with `MalformedHeader` exactly when the headers or a section lie
/// outside the file or outside the image.
pub fn copy_sections_to_local_process(b: &[u8], h: &PeHeaders) -> (r: Result<Vec<u8>, LoadError>)
    ensures
        r is Ok <==> layout_fits(b@, h@),
        r matches Ok(img) ==> img@ == mapped_image(b@, h@),
        r matches Ok(img) ==> img@.len() == h.size_of_image,
        r matches Ok(img) ==> forall|i: int| 0 <= i < h@.sections.len()
            ==> #[trigger] h@.sections[i].virtual_address + h@.sections[i].size_of_raw_data <= img@.len(),
        r matches Err(e) ==> e == LoadError::MalformedHeader,
{
    let size = h.size_of_image as usize;
    let hdr = h.size_of_headers as usize;
    if hdr > b.len() || hdr > size {
        return Err(LoadError::MalformedHeader);
    }
    let mut k: usize = 0;
    while k < h.sections.len()
        invariant
            forall|i: int| 0 <= i < k ==> #[trigger] section_fits(b@, h.size_of_image as int, h@.sections[i]),
            k <= h.sections.len(),
            size == h.size_of_image,
            hdr == h.size_of_headers,
            hdr <= b.len(),
            hdr <= size,
        decreases h.sections.len() - k,
    {
        let s = h.sections[k];
        if s.pointer_to_raw_data as u64 + s.size_of_raw_data as u64 > b.len() as u64
            || s.virtual_address as u64 + s.size_of_raw_data as u64 > size as u64 {
            assert(!section_fits(b@, h.size_of_image as int, h@.sections[k as int]));
            return Err(LoadError::MalformedHeader);
        }
        k += 1;
    }
    let mut img: Vec<u8> = Vec::new();
    while img.len() < size
        invariant
            img@.len() <= size,
            forall|i: int| 0 <= i < img@.len() ==> #[trigger] img@[i] == 0u8,
        decreases size - img@.len(),
    {
        img.push(0u8);
    }
    assert(img@ =~= Seq::new(h.size_of_image as nat, |i: int| 0u8));
    copy_into(&mut img, 0, b, 0, hdr);
    assert(b@.subrange(0, hdr as int) =~= b@.take(hdr as int));
    let mut k: usize = 0;
    while k < h.sections.len()
        invariant
            layout_fits(b@, h@),
            k <= h.sections.len(),
            size == h.size_of_image,
            img@ == mapped_prefix(b@, h@, k as int),
        decreases h.sections.len() - k,
    {
        let s = h.sections[k];
        proof {
            lemma_prefix_len(b@, h@, k as int);
            assert(section_fits(b@, h.size_of_image as int, h@.sections[k as int]));
        }
        copy_into(&mut img, s.virtual_address as usize, b, s.pointer_to_raw_data as usize, s.size_of_raw_data as usize);
        k += 1;
    }
    proof {
        lemma_prefix_len(b@, h@, k as int);
        assert forall|i: int| 0 <= i < h@.sections.len() implies
            #[trigger] h@.sections[i].virtual_address + h@.sections[i].size_of_raw_data <= img@.len() by {
            assert(section_fits(b@, h.size_of_image as int, h@.sections[i]));
        }
    }
    Ok(img)
}

} // verus!
