//! Base relocation: rewriting the mapped image for the address it was
//! actually loaded at.
use vstd::prelude::*;
use crate::bytes::{bytes32, bytes64, le16, le32, le64, overlay, read_u16, read_u32, read_u64, write_u32, write_u64};
use crate::pe::{DataDirectory, LoadError, PeHeaders};

verus! {

/// Relocation type that is padding.
pub const REL_BASED_ABSOLUTE: u16 = 0;

/// Relocation type that adds the low 32 bits of the delta to a 32-bit word.
pub const REL_BASED_HIGHLOW: u16 = 3;

/// Relocation type that adds the delta to a 64-bit word.
pub const REL_BASED_DIR64: u16 = 10;

/// Size of a relocation block header: page RVA and block size.
pub const BLOCK_HEADER_SIZE: u32 = 8;

pub open spec fn entry_type(e: int) -> int {
    e / 4096
}

pub open spec fn entry_offset(e: int) -> int {
    e % 4096
}

/// The image after applying one relocation entry `e` of the page at `page`.
pub open spec fn apply_entry(img: Seq<u8>, page: int, e: int, delta: u64) -> Result<Seq<u8>, LoadError> {
    let t = page + entry_offset(e);
    if entry_type(e) == REL_BASED_DIR64 {
        if t + 8 > img.len() {
            Err(LoadError::RelocOverflow)
        } else {
            Ok(overlay(img, t, bytes64((le64(img, t) + delta) % 0x1_0000_0000_0000_0000)))
        }
    } else if entry_type(e) == REL_BASED_HIGHLOW {
        if t + 4 > img.len() {
            Err(LoadError::RelocOverflow)
        } else {
            Ok(overlay(img, t, bytes32((le32(img, t) + delta) % 0x1_0000_0000)))
        }
    } else {
        Ok(img)
    }
}

/// The image after applying `count` entries read from offset `at` on, each
/// entry read from the image as the entries before it left it.
pub open spec fn apply_entries(img: Seq<u8>, page: int, at: int, count: nat, delta: u64) -> Result<Seq<u8>, LoadError>
    decreases count,
{
    if count == 0 {
        Ok(img)
    } else {
        match apply_entry(img, page, le16(img, at), delta) {
            Ok(next) => apply_entries(next, page, at + 2, (count - 1) as nat, delta),
            Err(e) => Err(e),
        }
    }
}

/// The image after applying the relocation blocks from offset `pos` up to the
/// directory's end `end`.
pub open spec fn apply_blocks(img: Seq<u8>, pos: int, end: int, delta: u64) -> Result<Seq<u8>, LoadError>
    decreases end - pos,
{
    if pos + BLOCK_HEADER_SIZE > end {
        Ok(img)
    } else {
        let page = le32(img, pos);
        let size = le32(img, pos + 4);
        if page == 0 || size == 0 {
            Ok(img)
        } else if size < BLOCK_HEADER_SIZE || pos + size > end {
            Err(LoadError::RelocOverflow)
        } else {
            match apply_entries(img, page, pos + BLOCK_HEADER_SIZE, ((size - BLOCK_HEADER_SIZE) / 2) as nat, delta) {
                Ok(next) => apply_blocks(next, pos + size, end, delta),
                Err(e) => Err(e),
            }
        }
    }
}

/// The image rebased by `delta`: unchanged where the delta is zero, else every
/// block of the relocation directory applied in turn.
pub open spec fn relocated(img: Seq<u8>, dir: DataDirectory, delta: u64) -> Result<Seq<u8>, LoadError> {
    if delta == 0 {
        Ok(img)
    } else if dir.virtual_address + dir.size > img.len() {
        Err(LoadError::RelocOverflow)
    } else {
        apply_blocks(img, dir.virtual_address as int, dir.virtual_address + dir.size, delta)
    }
}

/// The difference between the actual and the preferred base, modulo 2^64.
pub open spec fn delta_of(new_base: u64, image_base: u64) -> u64 {
    ((new_base - image_base + 0x1_0000_0000_0000_0000) % 0x1_0000_0000_0000_0000) as u64
}

proof fn lemma_entry_keeps_len(img: Seq<u8>, page: int, e: int, delta: u64)
    requires
        0 <= page,
        0 <= e,
    ensures
        apply_entry(img, page, e, delta) matches Ok(next) ==> next.len() == img.len(),
{
}

/// One relocation entry adds the delta to the word it names, truncated to the
/// word's width, and leaves every other byte as it was; an entry of another
/// type than `DIR64` or `HIGHLOW`, padding among them, changes nothing.
pub proof fn lemma_relocation_entry(img: Seq<u8>, page: int, e: int, delta: u64)
    requires
        0 <= page,
        0 <= e < 0x1_0000,
        apply_entry(img, page, e, delta) is Ok,
    ensures
        ({
            let next = apply_entry(img, page, e, delta)->Ok_0;
            let t = page + entry_offset(e);
            &&& next.len() == img.len()
            &&& entry_type(e) == REL_BASED_DIR64 ==> le64(next, t) == (le64(img, t) + delta) % 0x1_0000_0000_0000_0000
                && forall|j: int| 0 <= j < img.len() && !(t <= j < t + 8) ==> #[trigger] next[j] == img[j]
            &&& entry_type(e) == REL_BASED_HIGHLOW ==> le32(next, t) == (le32(img, t) + delta) % 0x1_0000_0000
                && forall|j: int| 0 <= j < img.len() && !(t <= j < t + 4) ==> #[trigger] next[j] == img[j]
            &&& entry_type(e) != REL_BASED_DIR64 && entry_type(e) != REL_BASED_HIGHLOW ==> next == img
        }),
{
    let t = page + entry_offset(e);
    if entry_type(e) == REL_BASED_DIR64 {
        crate::bytes::lemma_read_written_u64(img, t, (le64(img, t) + delta) % 0x1_0000_0000_0000_0000);
    } else if entry_type(e) == REL_BASED_HIGHLOW {
        crate::bytes::lemma_read_written_u32(img, t, (le32(img, t) + delta) % 0x1_0000_0000);
    }
}

/// The `k`-th entry of the block whose entries start at offset `at`.
pub open spec fn entry_at(img: Seq<u8>, at: int, k: int) -> int {
    le16(img, at + 2 * k)
}

/// How many bytes an entry rewrites: eight for `DIR64`, four for `HIGHLOW`,
/// none for the other types.
pub open spec fn entry_width(e: int) -> int {
    if entry_type(e) == REL_BASED_DIR64 {
        8
    } else if entry_type(e) == REL_BASED_HIGHLOW {
        4
    } else {
        0
    }
}

/// The ranges `[a, a + wa)` and `[b, b + wb)` do not overlap.
pub open spec fn apart(a: int, wa: int, b: int, wb: int) -> bool {
    a + wa <= b || b + wb <= a
}

/// No entry of the block rewrites the block's own entries.
pub open spec fn entries_untouched(img: Seq<u8>, page: int, at: int, count: int) -> bool {
    forall|k: int| 0 <= k < count ==> apart(
        page + entry_offset(#[trigger] entry_at(img, at, k)), entry_width(entry_at(img, at, k)), at, 2 * count)
}

proof fn lemma_entry_in_range(img: Seq<u8>, at: int, k: int)
    requires
        0 <= at + 2 * k,
        at + 2 * k + 2 <= img.len(),
    ensures
        0 <= entry_at(img, at, k) < 0x1_0000,
{
}

/// Applying a block's entries, none of which rewrites the entry table,
/// leaves every byte that no entry rewrites as it was: padding and entries of
/// unknown type change nothing.
pub proof fn lemma_entries_frame(img: Seq<u8>, page: int, at: int, count: nat, delta: u64, x: int)
    requires
        0 <= page,
        0 <= at,
        at + 2 * count <= img.len(),
        apply_entries(img, page, at, count, delta) is Ok,
        entries_untouched(img, page, at, count as int),
        0 <= x < img.len(),
        forall|k: int| 0 <= k < count ==> apart(
            page + entry_offset(#[trigger] entry_at(img, at, k)), entry_width(entry_at(img, at, k)), x, 1),
    ensures
        apply_entries(img, page, at, count, delta)->Ok_0.len() == img.len(),
        apply_entries(img, page, at, count, delta)->Ok_0[x] == img[x],
    decreases count,
{
    if count > 0 {
        let e = le16(img, at);
        lemma_entry_in_range(img, at, 0);
        assert(entry_at(img, at, 0) == e);
        lemma_relocation_entry(img, page, e, delta);
        let next = apply_entry(img, page, e, delta)->Ok_0;
        let c = (count - 1) as nat;
        assert forall|k: int| 0 <= k < c implies #[trigger] entry_at(next, at + 2, k) == entry_at(img, at, k + 1) by {
            assert(apart(page + entry_offset(entry_at(img, at, 0)), entry_width(entry_at(img, at, 0)), at, 2 * count as int));
        }
        assert forall|k: int| 0 <= k < c implies apart(
            page + entry_offset(#[trigger] entry_at(next, at + 2, k)), entry_width(entry_at(next, at + 2, k)), at + 2, 2 * c as int) by {
            assert(entry_at(next, at + 2, k) == entry_at(img, at, k + 1));
            assert(apart(page + entry_offset(entry_at(img, at, k + 1)), entry_width(entry_at(img, at, k + 1)), at, 2 * count as int));
        }
        assert forall|k: int| 0 <= k < c implies apart(
            page + entry_offset(#[trigger] entry_at(next, at + 2, k)), entry_width(entry_at(next, at + 2, k)), x, 1) by {
            assert(entry_at(next, at + 2, k) == entry_at(img, at, k + 1));
            assert(apart(page + entry_offset(entry_at(img, at, k + 1)), entry_width(entry_at(img, at, k + 1)), x, 1));
        }
        assert(apart(page + entry_offset(entry_at(img, at, 0)), entry_width(entry_at(img, at, 0)), x, 1));
        lemma_entries_frame(next, page, at + 2, c, delta, x);
    }
}

proof fn lemma_entries_word_bytes(img: Seq<u8>, page: int, at: int, count: nat, delta: u64, j: int)
    requires
        0 <= page,
        0 <= at,
        at + 2 * count <= img.len(),
        apply_entries(img, page, at, count, delta) is Ok,
        entries_untouched(img, page, at, count as int),
        0 <= j < count,
        entry_width(entry_at(img, at, j)) > 0,
        forall|k: int| 0 <= k < count && k != j ==> apart(
            page + entry_offset(#[trigger] entry_at(img, at, k)), entry_width(entry_at(img, at, k)),
            page + entry_offset(entry_at(img, at, j)), entry_width(entry_at(img, at, j))),
    ensures
        apply_entry(img, page, entry_at(img, at, j), delta) is Ok,
        forall|x: int| page + entry_offset(entry_at(img, at, j)) <= x
            < page + entry_offset(entry_at(img, at, j)) + entry_width(entry_at(img, at, j))
            ==> #[trigger] apply_entries(img, page, at, count, delta)->Ok_0[x]
            == apply_entry(img, page, entry_at(img, at, j), delta)->Ok_0[x],
    decreases count,
{
    let e = le16(img, at);
    lemma_entry_in_range(img, at, 0);
    lemma_entry_in_range(img, at, j);
    assert(entry_at(img, at, 0) == e);
    lemma_relocation_entry(img, page, e, delta);
    let next = apply_entry(img, page, e, delta)->Ok_0;
    let c = (count - 1) as nat;
    let ej = entry_at(img, at, j);
    let t = page + entry_offset(ej);
    let w = entry_width(ej);
    assert forall|k: int| 0 <= k < c implies #[trigger] entry_at(next, at + 2, k) == entry_at(img, at, k + 1) by {
        assert(apart(page + entry_offset(entry_at(img, at, 0)), entry_width(entry_at(img, at, 0)), at, 2 * count as int));
    }
    assert forall|k: int| 0 <= k < c implies apart(
        page + entry_offset(#[trigger] entry_at(next, at + 2, k)), entry_width(entry_at(next, at + 2, k)), at + 2, 2 * c as int) by {
        assert(entry_at(next, at + 2, k) == entry_at(img, at, k + 1));
        assert(apart(page + entry_offset(entry_at(img, at, k + 1)), entry_width(entry_at(img, at, k + 1)), at, 2 * count as int));
    }
    if j == 0 {
        assert forall|x: int| t <= x < t + w implies #[trigger] apply_entries(img, page, at, count, delta)->Ok_0[x]
            == apply_entry(img, page, ej, delta)->Ok_0[x] by {
            assert forall|k: int| 0 <= k < c implies apart(
                page + entry_offset(#[trigger] entry_at(next, at + 2, k)), entry_width(entry_at(next, at + 2, k)), x, 1) by {
                assert(entry_at(next, at + 2, k) == entry_at(img, at, k + 1));
                assert(apart(page + entry_offset(entry_at(img, at, k + 1)), entry_width(entry_at(img, at, k + 1)), t, w));
            }
            lemma_entries_frame(next, page, at + 2, c, delta, x);
        }
    } else {
        assert(entry_at(next, at + 2, j - 1) == ej);
        assert(apart(page + entry_offset(e), entry_width(e), t, w));
        assert forall|k: int| 0 <= k < c && k != j - 1 implies apart(
            page + entry_offset(#[trigger] entry_at(next, at + 2, k)), entry_width(entry_at(next, at + 2, k)), t, w) by {
            assert(entry_at(next, at + 2, k) == entry_at(img, at, k + 1));
        }
        lemma_entries_word_bytes(next, page, at + 2, c, delta, j - 1);
        // the word that entry `j` reads is the same in `next` as in `img`
        assert forall|x: int| t <= x < t + w implies #[trigger] next[x] == img[x] by {}
        if entry_type(ej) == REL_BASED_DIR64 {
            assert(le64(next, t) == le64(img, t));
        } else {
            assert(le32(next, t) == le32(img, t));
        }
        assert forall|x: int| t <= x < t + w implies #[trigger] apply_entry(next, page, ej, delta)->Ok_0[x]
            == apply_entry(img, page, ej, delta)->Ok_0[x] by {}
    }
}

/// Within one relocation block whose entries do not rewrite the entry table,
/// a `DIR64` or `HIGHLOW` entry whose word no other entry of the block
/// touches leaves that word holding its value before the block plus the
/// delta, truncated to the word's width.
pub proof fn lemma_block_relocation(img: Seq<u8>, page: int, at: int, count: nat, delta: u64, j: int)
    requires
        0 <= page,
        0 <= at,
        at + 2 * count <= img.len(),
        apply_entries(img, page, at, count, delta) is Ok,
        entries_untouched(img, page, at, count as int),
        0 <= j < count,
        forall|k: int| 0 <= k < count && k != j ==> apart(
            page + entry_offset(#[trigger] entry_at(img, at, k)), entry_width(entry_at(img, at, k)),
            page + entry_offset(entry_at(img, at, j)), entry_width(entry_at(img, at, j))),
    ensures
        ({
            let res = apply_entries(img, page, at, count, delta)->Ok_0;
            let e = entry_at(img, at, j);
            let t = page + entry_offset(e);
            &&& entry_type(e) == REL_BASED_DIR64 ==> le64(res, t) == (le64(img, t) + delta) % 0x1_0000_0000_0000_0000
            &&& entry_type(e) == REL_BASED_HIGHLOW ==> le32(res, t) == (le32(img, t) + delta) % 0x1_0000_0000
        }),
{
    let e = entry_at(img, at, j);
    let t = page + entry_offset(e);
    if entry_width(e) > 0 {
        lemma_entry_in_range(img, at, j);
        lemma_entries_word_bytes(img, page, at, count, delta, j);
        lemma_relocation_entry(img, page, e, delta);
        let res = apply_entries(img, page, at, count, delta)->Ok_0;
        let one = apply_entry(img, page, e, delta)->Ok_0;
        assert forall|x: int| t <= x < t + entry_width(e) implies #[trigger] res[x] == one[x] by {}
        if entry_type(e) == REL_BASED_DIR64 {
            assert(le64(res, t) == le64(one, t));
        } else {
            assert(le32(res, t) == le32(one, t));
        }
    }
}

/// Rebasing an image whose relocation directory holds one block: a `DIR64`
/// or `HIGHLOW` entry whose word no other entry touches, where no entry
/// rewrites the entry table, leaves that word holding its original value
/// plus the delta, truncated to the word's width.
pub proof fn lemma_rebase_one_block(img: Seq<u8>, dir: DataDirectory, delta: u64, j: int)
    requires
        delta != 0,
        dir.virtual_address + dir.size <= img.len(),
        le32(img, dir.virtual_address as int) != 0,
        le32(img, dir.virtual_address + 4) == dir.size,
        dir.size >= BLOCK_HEADER_SIZE,
        relocated(img, dir, delta) is Ok,
        ({
            let page = le32(img, dir.virtual_address as int);
            let at = dir.virtual_address + BLOCK_HEADER_SIZE;
            let count = (dir.size - BLOCK_HEADER_SIZE) / 2;
            &&& entries_untouched(img, page, at, count)
            &&& 0 <= j < count
            &&& forall|k: int| 0 <= k < count && k != j ==> apart(
                page + entry_offset(#[trigger] entry_at(img, at, k)), entry_width(entry_at(img, at, k)),
                page + entry_offset(entry_at(img, at, j)), entry_width(entry_at(img, at, j)))
        }),
    ensures
        ({
            let res = relocated(img, dir, delta)->Ok_0;
            let e = entry_at(img, dir.virtual_address + BLOCK_HEADER_SIZE, j);
            let t = le32(img, dir.virtual_address as int) + entry_offset(e);
            &&& entry_type(e) == REL_BASED_DIR64 ==> le64(res, t) == (le64(img, t) + delta) % 0x1_0000_0000_0000_0000
            &&& entry_type(e) == REL_BASED_HIGHLOW ==> le32(res, t) == (le32(img, t) + delta) % 0x1_0000_0000
        }),
{
    let pos = dir.virtual_address as int;
    let end = dir.virtual_address + dir.size;
    let page = le32(img, pos);
    let at = pos + BLOCK_HEADER_SIZE;
    let count = ((dir.size - BLOCK_HEADER_SIZE) / 2) as nat;
    let block = apply_entries(img, page, at, count, delta);
    assert(relocated(img, dir, delta) == apply_blocks(img, pos, end, delta));
    assert(apply_blocks(img, pos, end, delta) == match block {
        Ok(next) => apply_blocks(next, end, end, delta),
        Err(e) => Err(e),
    });
    assert(at + 2 * count <= img.len());
    if let Ok(next) = block {
        assert(apply_blocks(next, end, end, delta) == Ok::<Seq<u8>, LoadError>(next));
    }
    lemma_block_relocation(img, page, at, count, delta, j);
}

/// A block reached by the walk whose size runs past the end of the
/// directory stops rebasing with `RelocOverflow`.
pub proof fn lemma_truncated_block_overflows(img: Seq<u8>, pos: int, end: int, delta: u64)
    requires
        pos + BLOCK_HEADER_SIZE <= end,
        le32(img, pos) != 0,
        le32(img, pos + 4) != 0,
        pos + le32(img, pos + 4) > end,
    ensures
        apply_blocks(img, pos, end, delta) == Err::<Seq<u8>, LoadError>(LoadError::RelocOverflow),
{
}

/// Where the directory's first block runs past the directory's end, rebasing
/// for a new base fails with `RelocOverflow`.
pub proof fn lemma_rebase_truncated_first_block(img: Seq<u8>, dir: DataDirectory, delta: u64)
    requires
        delta != 0,
        dir.virtual_address + dir.size <= img.len(),
        dir.size >= BLOCK_HEADER_SIZE,
        le32(img, dir.virtual_address as int) != 0,
        le32(img, dir.virtual_address + 4) > dir.size,
    ensures
        relocated(img, dir, delta) == Err::<Seq<u8>, LoadError>(LoadError::RelocOverflow),
{
    lemma_truncated_block_overflows(img, dir.virtual_address as int, dir.virtual_address + dir.size, delta);
}

proof fn lemma_entries_fail_by_overflow(img: Seq<u8>, page: int, at: int, count: nat, delta: u64)
    ensures
        apply_entries(img, page, at, count, delta) matches Err(e) ==> e == LoadError::RelocOverflow,
    decreases count,
{
    if count > 0 {
        if let Ok(next) = apply_entry(img, page, le16(img, at), delta) {
            lemma_entries_fail_by_overflow(next, page, at + 2, (count - 1) as nat, delta);
        }
    }
}

proof fn lemma_blocks_fail_by_overflow(img: Seq<u8>, pos: int, end: int, delta: u64)
    ensures
        apply_blocks(img, pos, end, delta) matches Err(e) ==> e == LoadError::RelocOverflow,
    decreases end - pos,
{
    if pos + BLOCK_HEADER_SIZE <= end {
        let page = le32(img, pos);
        let size = le32(img, pos + 4);
        if page != 0 && size >= BLOCK_HEADER_SIZE && pos + size <= end {
            let count = ((size - BLOCK_HEADER_SIZE) / 2) as nat;
            lemma_entries_fail_by_overflow(img, page, pos + BLOCK_HEADER_SIZE, count, delta);
            if let Ok(next) = apply_entries(img, page, pos + BLOCK_HEADER_SIZE, count, delta) {
                lemma_blocks_fail_by_overflow(next, pos + size, end, delta);
            }
        }
    }
}

/// Rebasing fails only by a relocation overflow.
pub proof fn lemma_relocated_fails_by_overflow(img: Seq<u8>, dir: DataDirectory, delta: u64)
    ensures
        relocated(img, dir, delta) matches Err(e) ==> e == LoadError::RelocOverflow,
{
    lemma_blocks_fail_by_overflow(img, dir.virtual_address as int, dir.virtual_address + dir.size, delta);
}

/// Adds `delta` to the 64-bit word at offset `t`.
fn add_to_u64(img: &mut Vec<u8>, t: usize, delta: u64)
    requires
        t + 8 <= old(img).len(),
    ensures
        final(img)@ == overlay(old(img)@, t as int, bytes64((le64(old(img)@, t as int) + delta) % 0x1_0000_0000_0000_0000)),
{
    let w = read_u64(img.as_slice(), t);
    let v = w.wrapping_add(delta);
    assert(v == (w + delta) % 0x1_0000_0000_0000_0000);
    write_u64(img, t, v);
}

/// Adds the low 32 bits of `delta` to the 32-bit word at offset `t`.
fn add_to_u32(img: &mut Vec<u8>, t: usize, delta: u64)
    requires
        t + 4 <= old(img).len(),
    ensures
        final(img)@ == overlay(old(img)@, t as int, bytes32((le32(old(img)@, t as int) + delta) % 0x1_0000_0000)),
{
    let w = read_u32(img.as_slice(), t);
    let lo = (delta % 0x1_0000_0000) as u32;
    let v = w.wrapping_add(lo);
    assert(v == (w + lo) % 0x1_0000_0000);
    assert((w + lo) % 0x1_0000_0000 == (w + delta) % 0x1_0000_0000) by (nonlinear_arith)
        requires
            lo == delta % 0x1_0000_0000,
            0 <= w,
            0 <= delta,
    ;
    write_u32(img, t, v);
}

/// Applies one relocation entry to the image.
fn apply_relocation(img: &mut Vec<u8>, page: u32, e: u16, delta: u64) -> (r: Result<(), LoadError>)
    ensures
        match apply_entry(old(img)@, page as int, e as int, delta) {
            Ok(next) => r is Ok && final(img)@ == next,
            Err(err) => r == Err::<(), LoadError>(err) && final(img)@ == old(img)@,
        },
{
    let typ = e / 4096;
    let t = page as u64 + (e % 4096) as u64;
    assert(typ == entry_type(e as int) && t == page + entry_offset(e as int));
    if typ == REL_BASED_DIR64 {
        if t + 8 > img.len() as u64 {
            return Err(LoadError::RelocOverflow);
        }
        add_to_u64(img, t as usize, delta);
        Ok(())
    } else if typ == REL_BASED_HIGHLOW {
        if t + 4 > img.len() as u64 {
            return Err(LoadError::RelocOverflow);
        }
        add_to_u32(img, t as usize, delta);
        Ok(())
    } else {
        Ok(())
    }
}

/// Rebases the mapped image from its preferred base to `new_base`: each
/// `DIR64` entry adds the delta to the 64-bit word it names, each `HIGHLOW`
/// entry the delta's low 32 bits to the 32-bit word it names, and other
/// entry types are skipped. Fails with `RelocOverflow` where a block reaches
/// past the directory or an entry past the image.
pub fn rebase_image(img: &mut Vec<u8>, h: &PeHeaders, new_base: u64) -> (r: Result<(), LoadError>)
    ensures
        match relocated(old(img)@, h.base_relocation_directory, delta_of(new_base, h.image_base)) {
            Ok(next) => r is Ok && final(img)@ == next,
            Err(err) => r == Err::<(), LoadError>(err),
        },
{
    let delta = new_base.wrapping_sub(h.image_base);
    assert(delta == delta_of(new_base, h.image_base));
    if delta == 0 {
        return Ok(());
    }
    let dir = h.base_relocation_directory;
    let end = dir.virtual_address as u64 + dir.size as u64;
    if end > img.len() as u64 {
        return Err(LoadError::RelocOverflow);
    }
    let ghost goal = relocated(img@, dir, delta);
    let mut pos = dir.virtual_address as u64;
    assert(goal == apply_blocks(img@, pos as int, end as int, delta));
    while pos + 8 <= end
        invariant
            end <= img.len(),
            pos <= end,
            goal == apply_blocks(img@, pos as int, end as int, delta),
            goal == relocated(old(img)@, h.base_relocation_directory, delta_of(new_base, h.image_base)),
            end <= 0x2_0000_0000,
        decreases end - pos,
    {
        let page = read_u32(img.as_slice(), pos as usize);
        let size = read_u32(img.as_slice(), pos as usize + 4);
        if page == 0 || size == 0 {
            return Ok(());
        }
        if size < BLOCK_HEADER_SIZE || pos + size as u64 > end {
            return Err(LoadError::RelocOverflow);
        }
        let count = (size - BLOCK_HEADER_SIZE) / 2;
        assert(pos + 8 + 2 * count <= pos + size) by (nonlinear_arith)
            requires
                count == (size - 8) / 2,
                size >= 8,
        ;
        let ghost block_goal = apply_entries(img@, page as int, pos + 8, count as nat, delta);
        assert(goal == match block_goal {
            Ok(next) => apply_blocks(next, pos + size, end as int, delta),
            Err(e) => Err(e),
        });
        let mut i: u32 = 0;
        while i < count
            invariant
                i <= count,
                pos + 8 + 2 * count <= end,
                end <= img.len(),
                pos + size <= end,
                block_goal == apply_entries(img@, page as int, pos + 8 + 2 * i, (count - i) as nat, delta),
                goal == match block_goal {
                    Ok(next) => apply_blocks(next, pos + size, end as int, delta),
                    Err(e) => Err(e),
                },
                goal == relocated(old(img)@, h.base_relocation_directory, delta_of(new_base, h.image_base)),
                end <= 0x2_0000_0000,
            decreases count - i,
        {
            let e = read_u16(img.as_slice(), (pos + 8 + 2 * i as u64) as usize);
            proof {
                lemma_entry_keeps_len(img@, page as int, e as int, delta);
            }
            match apply_relocation(img, page, e, delta) {
                Ok(()) => {},
                Err(err) => {
                    return Err(err);
                },
            }
            i += 1;
        }
        pos = pos + size as u64;
    }
    Ok(())
}

} // verus!
