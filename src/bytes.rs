//! Little-endian reads and writes of integers in byte sequences.
use vstd::prelude::*;

verus! {

/// The 16-bit little-endian value at offset `o`.
pub open spec fn le16(b: Seq<u8>, o: int) -> int {
    b[o] + 256 * b[o + 1]
}

/// The 32-bit little-endian value at offset `o`.
pub open spec fn le32(b: Seq<u8>, o: int) -> int {
    le16(b, o) + 0x1_0000 * le16(b, o + 2)
}

/// The 64-bit little-endian value at offset `o`.
pub open spec fn le64(b: Seq<u8>, o: int) -> int {
    le32(b, o) + 0x1_0000_0000 * le32(b, o + 4)
}

/// `b` with the bytes from offset `o` on replaced by `src`.
pub open spec fn overlay(b: Seq<u8>, o: int, src: Seq<u8>) -> Seq<u8> {
    b.take(o) + src + b.skip(o + src.len())
}

/// Writing `x` and then `y` right after it is writing `x + y`.
pub proof fn lemma_overlay_append(b: Seq<u8>, o: int, x: Seq<u8>, y: Seq<u8>)
    requires
        0 <= o,
        o + x.len() + y.len() <= b.len(),
    ensures
        overlay(overlay(b, o, x), o + x.len(), y) == overlay(b, o, x + y),
{
    assert(overlay(overlay(b, o, x), o + x.len(), y) =~= overlay(b, o, x + y));
}

/// The two little-endian bytes of a 16-bit value.
pub open spec fn bytes16(v: int) -> Seq<u8> {
    seq![(v % 256) as u8, (v / 256) as u8]
}

/// The four little-endian bytes of a 32-bit value.
pub open spec fn bytes32(v: int) -> Seq<u8> {
    bytes16(v % 0x1_0000) + bytes16(v / 0x1_0000)
}

/// The eight little-endian bytes of a 64-bit value.
pub open spec fn bytes64(v: int) -> Seq<u8> {
    bytes32(v % 0x1_0000_0000) + bytes32(v / 0x1_0000_0000)
}

pub fn read_u16(b: &[u8], o: usize) -> (r: u16)
    requires
        o + 2 <= b.len(),
    ensures
        r == le16(b@, o as int),
{
    b[o] as u16 + 256 * (b[o + 1] as u16)
}

pub fn read_u32(b: &[u8], o: usize) -> (r: u32)
    requires
        o + 4 <= b.len(),
    ensures
        r == le32(b@, o as int),
{
    read_u16(b, o) as u32 + 0x1_0000 * (read_u16(b, o + 2) as u32)
}

pub fn read_u64(b: &[u8], o: usize) -> (r: u64)
    requires
        o + 8 <= b.len(),
    ensures
        r == le64(b@, o as int),
{
    read_u32(b, o) as u64 + 0x1_0000_0000 * (read_u32(b, o + 4) as u64)
}

/// Writing the bytes of a 32-bit value and reading them back gives the value.
pub proof fn lemma_read_written_u32(b: Seq<u8>, o: int, v: int)
    requires
        0 <= o,
        o + 4 <= b.len(),
        0 <= v < 0x1_0000_0000,
    ensures
        le32(overlay(b, o, bytes32(v)), o) == v,
        overlay(b, o, bytes32(v)).len() == b.len(),
{
    let c = overlay(b, o, bytes32(v));
    assert(c[o] == (v % 0x1_0000) % 256);
    assert(c[o + 1] == (v % 0x1_0000) / 256);
    assert(c[o + 2] == (v / 0x1_0000) % 256);
    assert(c[o + 3] == (v / 0x1_0000) / 256);
}

/// Writing the bytes of a 64-bit value and reading them back gives the value.
pub proof fn lemma_read_written_u64(b: Seq<u8>, o: int, v: int)
    requires
        0 <= o,
        o + 8 <= b.len(),
        0 <= v < 0x1_0000_0000_0000_0000,
    ensures
        le64(overlay(b, o, bytes64(v)), o) == v,
        overlay(b, o, bytes64(v)).len() == b.len(),
{
    let c = overlay(b, o, bytes64(v));
    let lo = v % 0x1_0000_0000;
    let hi = v / 0x1_0000_0000;
    assert(c =~= overlay(overlay(b, o, bytes32(lo)), o + 4, bytes32(hi)));
    lemma_read_written_u32(b, o, lo);
    lemma_read_written_u32(overlay(b, o, bytes32(lo)), o + 4, hi);
    let d = overlay(b, o, bytes32(lo));
    assert(le32(c, o) == le32(d, o)) by {
        assert(c[o] == d[o]);
        assert(c[o + 1] == d[o + 1]);
        assert(c[o + 2] == d[o + 2]);
        assert(c[o + 3] == d[o + 3]);
    }
}

fn write_u16(b: &mut Vec<u8>, o: usize, v: u16)
    requires
        o + 2 <= old(b).len(),
    ensures
        final(b)@ == overlay(old(b)@, o as int, bytes16(v as int)),
{
    b.set(o, (v % 256) as u8);
    b.set(o + 1, (v / 256) as u8);
    assert(b@ =~= overlay(old(b)@, o as int, bytes16(v as int)));
}

/// Stores a 32-bit value little-endian at offset `o`.
pub fn write_u32(b: &mut Vec<u8>, o: usize, v: u32)
    requires
        o + 4 <= old(b).len(),
    ensures
        final(b)@ == overlay(old(b)@, o as int, bytes32(v as int)),
{
    write_u16(b, o, (v % 0x1_0000) as u16);
    write_u16(b, o + 2, (v / 0x1_0000) as u16);
    assert(b@ =~= overlay(old(b)@, o as int, bytes32(v as int)));
}

/// Stores a 64-bit value little-endian at offset `o`.
pub fn write_u64(b: &mut Vec<u8>, o: usize, v: u64)
    requires
        o + 8 <= old(b).len(),
    ensures
        final(b)@ == overlay(old(b)@, o as int, bytes64(v as int)),
{
    write_u32(b, o, (v % 0x1_0000_0000) as u32);
    write_u32(b, o + 4, (v / 0x1_0000_0000) as u32);
    assert(b@ =~= overlay(old(b)@, o as int, bytes64(v as int)));
}

/// `s` is the zero-terminated string at offset `o`: its bytes are non-zero
/// and a zero follows them.
pub open spec fn is_cstr(b: Seq<u8>, o: int, s: Seq<u8>) -> bool {
    &&& 0 <= o
    &&& o + s.len() < b.len()
    &&& b[o + s.len()] == 0
    &&& s == b.subrange(o, o + s.len())
    &&& forall|k: int| 0 <= k < s.len() ==> #[trigger] s[k] != 0
}

/// A zero byte follows offset `o`, so a string starts there.
pub open spec fn has_cstr(b: Seq<u8>, o: int) -> bool {
    exists|s: Seq<u8>| is_cstr(b, o, s)
}

/// The zero-terminated string at offset `o`.
pub open spec fn cstr_at(b: Seq<u8>, o: int) -> Seq<u8> {
    choose|s: Seq<u8>| is_cstr(b, o, s)
}

/// A string at an offset is unique.
pub proof fn lemma_cstr_unique(b: Seq<u8>, o: int, s: Seq<u8>, t: Seq<u8>)
    requires
        is_cstr(b, o, s),
        is_cstr(b, o, t),
    ensures
        s == t,
{
    if s.len() < t.len() {
        assert(t[s.len() as int] == b[o + s.len()]);
    } else if t.len() < s.len() {
        assert(s[t.len() as int] == b[o + t.len()]);
    }
}

/// Reads the zero-terminated string at offset `o`; `None` where no zero
/// follows `o` within `b`.
pub fn read_cstr(b: &[u8], o: usize) -> (r: Option<Vec<u8>>)
    ensures
        r is Some <==> has_cstr(b@, o as int),
        r matches Some(s) ==> s@ == cstr_at(b@, o as int),
{
    if o >= b.len() {
        assert forall|t: Seq<u8>| !is_cstr(b@, o as int, t) by {}
        return None;
    }
    let mut s: Vec<u8> = Vec::new();
    let mut j: usize = o;
    assert(s@ =~= b@.subrange(o as int, j as int));
    while j < b.len()
        invariant
            o <= j <= b@.len(),
            s@ == b@.subrange(o as int, j as int),
            forall|k: int| 0 <= k < s@.len() ==> #[trigger] s@[k] != 0,
        decreases b@.len() - j,
    {
        if b[j] == 0 {
            assert(is_cstr(b@, o as int, s@));
            proof {
                lemma_cstr_unique(b@, o as int, s@, cstr_at(b@, o as int));
            }
            return Some(s);
        }
        s.push(b[j]);
        j += 1;
        assert(s@ =~= b@.subrange(o as int, j as int));
    }
    assert forall|t: Seq<u8>| !is_cstr(b@, o as int, t) by {
        if is_cstr(b@, o as int, t) {
            if t.len() < s@.len() {
                assert(s@[t.len() as int] == b@[o + t.len()]);
            }
        }
    }
    None
}

} // verus!
