//! Lists of sizes as the fixed-width words that kernels take.

use vstd::prelude::*;

use vstd::bytes::{spec_u32_to_le_bytes, spec_u64_to_le_bytes, u32_to_le_bytes, u64_to_le_bytes};

verus! {

/// The sizes as unsigned 64-bit words.
pub open spec fn u64_words(v: Seq<usize>) -> Seq<u64> {
    v.map_values(|x: usize| x as u64)
}

/// The sizes as signed 64-bit words.
pub open spec fn i64_words(v: Seq<usize>) -> Seq<i64> {
    v.map_values(|x: usize| x as i64)
}

/// The sizes as signed 32-bit words.
pub open spec fn i32_words(v: Seq<usize>) -> Seq<i32> {
    v.map_values(|x: usize| x as i32)
}

pub fn to_u64s(v: &[usize]) -> (r: Vec<u64>)
    ensures
        r@ == u64_words(v@),
{
    let mut r: Vec<u64> = Vec::new();
    let mut i: usize = 0;
    while i < v.len()
        invariant
            i <= v.len(),
            r@ == u64_words(v@).take(i as int),
        decreases v.len() - i,
    {
        r.push(v[i] as u64);
        i += 1;
        assert(r@ =~= u64_words(v@).take(i as int));
    }
    assert(r@ =~= u64_words(v@));
    r
}

pub fn to_i64s(v: &[usize]) -> (r: Vec<i64>)
    ensures
        r@ == i64_words(v@),
{
    let mut r: Vec<i64> = Vec::new();
    let mut i: usize = 0;
    while i < v.len()
        invariant
            i <= v.len(),
            r@ == i64_words(v@).take(i as int),
        decreases v.len() - i,
    {
        r.push(v[i] as i64);
        i += 1;
        assert(r@ =~= i64_words(v@).take(i as int));
    }
    assert(r@ =~= i64_words(v@));
    r
}

pub fn to_i32s(v: &[usize]) -> (r: Vec<i32>)
    ensures
        r@ == i32_words(v@),
{
    let mut r: Vec<i32> = Vec::new();
    let mut i: usize = 0;
    while i < v.len()
        invariant
            i <= v.len(),
            r@ == i32_words(v@).take(i as int),
        decreases v.len() - i,
    {
        r.push(v[i] as i32);
        i += 1;
        assert(r@ =~= i32_words(v@).take(i as int));
    }
    assert(r@ =~= i32_words(v@));
    r
}

// ---- bytes ----

/// The little-endian bytes of a 32-bit word.
pub open spec fn le32(v: i32) -> Seq<u8> {
    spec_u32_to_le_bytes(v as u32)
}

/// The little-endian bytes of a 64-bit word.
pub open spec fn le64(v: i64) -> Seq<u8> {
    spec_u64_to_le_bytes(v as u64)
}

/// The little-endian bytes of 32-bit words.
pub open spec fn le32s(v: Seq<i32>) -> Seq<u8>
    decreases v.len(),
{
    if v.len() == 0 {
        Seq::empty()
    } else {
        le32s(v.drop_last()) + le32(v.last())
    }
}

/// The little-endian bytes of 64-bit words.
pub open spec fn le64s(v: Seq<i64>) -> Seq<u8>
    decreases v.len(),
{
    if v.len() == 0 {
        Seq::empty()
    } else {
        le64s(v.drop_last()) + le64(v.last())
    }
}

pub fn push_le32(b: &mut Vec<u8>, v: i32)
    ensures
        final(b)@ == old(b)@ + le32(v),
{
    let mut w = u32_to_le_bytes(v as u32);
    b.append(&mut w);
}

pub fn push_le64(b: &mut Vec<u8>, v: i64)
    ensures
        final(b)@ == old(b)@ + le64(v),
{
    let mut w = u64_to_le_bytes(v as u64);
    b.append(&mut w);
}

pub fn push_le32s(b: &mut Vec<u8>, v: &[i32])
    ensures
        final(b)@ == old(b)@ + le32s(v@),
{
    let mut i: usize = 0;
    assert(b@ =~= old(b)@ + le32s(v@.take(0)));
    while i < v.len()
        invariant
            i <= v.len(),
            b@ == old(b)@ + le32s(v@.take(i as int)),
        decreases v.len() - i,
    {
        push_le32(b, v[i]);
        assert(v@.take(i + 1).drop_last() =~= v@.take(i as int));
        i += 1;
        assert(b@ =~= old(b)@ + le32s(v@.take(i as int)));
    }
    assert(v@.take(v@.len() as int) =~= v@);
}

pub fn push_le64s(b: &mut Vec<u8>, v: &[i64])
    ensures
        final(b)@ == old(b)@ + le64s(v@),
{
    let mut i: usize = 0;
    assert(b@ =~= old(b)@ + le64s(v@.take(0)));
    while i < v.len()
        invariant
            i <= v.len(),
            b@ == old(b)@ + le64s(v@.take(i as int)),
        decreases v.len() - i,
    {
        push_le64(b, v[i]);
        assert(v@.take(i + 1).drop_last() =~= v@.take(i as int));
        i += 1;
        assert(b@ =~= old(b)@ + le64s(v@.take(i as int)));
    }
    assert(v@.take(v@.len() as int) =~= v@);
}

/// Words keep their width: four bytes each.
pub proof fn le32s_len(v: Seq<i32>)
    ensures
        le32s(v).len() == 4 * v.len(),
    decreases v.len(),
{
    vstd::bytes::lemma_auto_spec_u32_to_from_le_bytes();
    if v.len() > 0 {
        le32s_len(v.drop_last());
        assert(le32(v.last()).len() == 4);
    }
}

/// Words keep their width: eight bytes each.
pub proof fn le64s_len(v: Seq<i64>)
    ensures
        le64s(v).len() == 8 * v.len(),
    decreases v.len(),
{
    vstd::bytes::lemma_auto_spec_u64_to_from_le_bytes();
    if v.len() > 0 {
        le64s_len(v.drop_last());
        assert(le64(v.last()).len() == 8);
    }
}

} // verus!
