//! Case-insensitive 32-bit FNV-1a hashes of narrow and wide names.
use vstd::prelude::*;

verus! {

pub const FNV_OFFSET_BASIS_32: u32 = 0x811c9dc5;

pub const FNV_PRIME_32: u32 = 0x01000193;

/// ASCII lowercase of one byte: `A`..`Z` become `a`..`z`, other bytes stay.
pub open spec fn ascii_lower(c: u8) -> u8 {
    if 65 <= c && c <= 90 {
        (c + 32) as u8
    } else {
        c
    }
}

/// The low 8 bits of a 16-bit unit.
pub open spec fn narrow(w: u16) -> u8 {
    (w % 256) as u8
}

/// One FNV-1a round: xor in the byte, multiply by the prime modulo 2^32.
pub open spec fn fnv_round(h: u32, c: u8) -> u32 {
    ((((h ^ (c as u32)) as nat) * (FNV_PRIME_32 as nat)) % 0x1_0000_0000) as u32
}

/// The hash of a byte sequence, each byte lowercased before it is mixed in.
pub open spec fn hash_of_bytes(s: Seq<u8>) -> u32
    decreases s.len(),
{
    if s.len() == 0 {
        FNV_OFFSET_BASIS_32
    } else {
        fnv_round(hash_of_bytes(s.drop_last()), ascii_lower(s.last()))
    }
}

/// The bytes that a wide name contributes: each unit narrowed to 8 bits.
pub open spec fn narrowed(s: Seq<u16>) -> Seq<u8> {
    s.map_values(|w: u16| narrow(w))
}

/// The hash of a sequence of 16-bit units, each narrowed to its low byte.
pub open spec fn hash_of_wide(s: Seq<u16>) -> u32 {
    hash_of_bytes(narrowed(s))
}

/// The sequence with every byte lowercased.
pub open spec fn lowercase(s: Seq<u8>) -> Seq<u8> {
    s.map_values(|c: u8| ascii_lower(c))
}

fn to_ascii_lower(c: u8) -> (r: u8)
    ensures
        r == ascii_lower(c),
{
    if 65 <= c && c <= 90 {
        c + 32
    } else {
        c
    }
}

fn mix(h: u32, c: u8) -> (r: u32)
    ensures
        r == fnv_round(h, c),
{
    (h ^ (c as u32)).wrapping_mul(FNV_PRIME_32)
}

/// FNV-1a over a byte sequence with each byte lowercased.
pub fn fnv1a_hash_32(chars: &[u8]) -> (hash: u32)
    ensures
        hash == hash_of_bytes(chars@),
{
    let mut hash: u32 = FNV_OFFSET_BASIS_32;
    let mut i: usize = 0;
    while i < chars.len()
        invariant
            i <= chars@.len(),
            hash == hash_of_bytes(chars@.take(i as int)),
        decreases chars@.len() - i,
    {
        assert(chars@.take(i + 1).drop_last() =~= chars@.take(i as int));
        hash = mix(hash, to_ascii_lower(chars[i]));
        i += 1;
    }
    assert(chars@.take(i as int) =~= chars@);
    hash
}

/// FNV-1a over a sequence of 16-bit units, each narrowed to its low byte and
/// lowercased.
pub fn fnv1a_hash_32_wstr(wchars: &[u16]) -> (hash: u32)
    ensures
        hash == hash_of_wide(wchars@),
{
    let mut hash: u32 = FNV_OFFSET_BASIS_32;
    let mut i: usize = 0;
    while i < wchars.len()
        invariant
            i <= wchars@.len(),
            hash == hash_of_wide(wchars@.take(i as int)),
        decreases wchars@.len() - i,
    {
        assert(narrowed(wchars@.take(i + 1)).drop_last() =~= narrowed(wchars@.take(i as int)));
        let c: u8 = (wchars[i] % 256) as u8;
        hash = mix(hash, to_ascii_lower(c));
        i += 1;
    }
    assert(wchars@.take(i as int) =~= wchars@);
    hash
}

/// Lowercasing a name first does not change its hash.
pub proof fn lemma_hash_ignores_case(s: Seq<u8>)
    ensures
        hash_of_bytes(s) == hash_of_bytes(lowercase(s)),
    decreases s.len(),
{
    if s.len() > 0 {
        assert(lowercase(s).drop_last() =~= lowercase(s.drop_last()));
        lemma_hash_ignores_case(s.drop_last());
        lemma_hash_ignores_case(lowercase(s.drop_last()));
        assert(lowercase(lowercase(s.drop_last())) =~= lowercase(s.drop_last()));
    }
}

/// A wide name hashes as the narrow name that its low bytes spell, whatever
/// the case of either.
pub proof fn lemma_wide_matches_narrow(w: Seq<u16>, s: Seq<u8>)
    requires
        lowercase(narrowed(w)) == lowercase(s),
    ensures
        hash_of_wide(w) == hash_of_bytes(s),
{
    lemma_hash_ignores_case(narrowed(w));
    lemma_hash_ignores_case(s);
}

} // verus!
