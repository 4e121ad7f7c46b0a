//! Weights packed into words, a few bits each.

use vstd::prelude::*;

use crate::error::Error;
use crate::text::{cat2, cat5, dec, decimal_usize};

verus! {

/// How weights are quantized: the sizes of the packed words and of the scales.
pub struct QuantPlan {
    pub group_size: usize,
    pub bits: usize,
    pub words: Vec<usize>,
    pub groups: Vec<usize>,
}

/// The group size that is asked for.
pub open spec fn asked_group(v: Option<i32>) -> usize {
    match v {
        Some(n) => n as usize,
        None => 64,
    }
}

/// The bits that are asked for.
pub open spec fn asked_bits(v: Option<i32>) -> usize {
    match v {
        Some(n) => n as usize,
        None => 4,
    }
}

/// Whether rows of `k` split into groups of `gs`, and groups into words.
pub open spec fn groupable(k: usize, gs: usize, bits: usize) -> bool {
    k % gs == 0 && gs % (32usize / bits) == 0
}

/// How an array of weights is quantized.
pub fn quantize_plan(dims: &[usize], group_size: Option<i32>, bits: Option<i32>) -> (r: Result<
    QuantPlan,
    Error,
>)
    requires
        dims@.len() > 0,
        dims@.last() > 0,
        dims@.last() * 32 <= usize::MAX,
        asked_group(group_size) > 0,
        0 < asked_bits(bits) < 32,
    ensures
        ({
            let k = dims@.last();
            let gs = asked_group(group_size);
            let b = asked_bits(bits);
            &&& r is Ok <==> groupable(k, gs, b)
            &&& r matches Err(e) ==> e.text() == "quantize: group size "@ + dec(gs as nat)
                + " incompatible with K="@ + dec(k as nat) + (", bits="@ + dec(b as nat))
            &&& r matches Ok(p) ==> {
                &&& p.group_size == gs
                &&& p.bits == b
                &&& p.words@ == dims@.drop_last().push((k * b / 32) as usize)
                &&& p.groups@ == dims@.drop_last().push((k / gs) as usize)
            }
        }),
{
    let gs: usize = match group_size {
        Some(n) => n as usize,
        None => 64,
    };
    let b: usize = match bits {
        Some(n) => n as usize,
        None => 4,
    };
    let n = dims.len();
    let k = dims[n - 1];
    proof {
        assert(32usize / b >= 1) by (nonlinear_arith)
            requires
                0 < b < 32,
        ;
        assert(k * b <= k * 32) by (nonlinear_arith)
            requires
                b <= 32,
                k >= 0,
        ;
    }
    if k % gs != 0 || gs % (32 / b) != 0 {
        let g = decimal_usize(gs);
        let kk = decimal_usize(k);
        let bb = decimal_usize(b);
        let tail = cat2(", bits=", &bb);
        return Err(
            Error::Msg(cat5("quantize: group size ", &g, " incompatible with K=", &kk, &tail)),
        );
    }
    let mut words: Vec<usize> = Vec::new();
    let mut groups: Vec<usize> = Vec::new();
    let mut i: usize = 0;
    while i < n - 1
        invariant
            n == dims@.len(),
            0 < n,
            i <= n - 1,
            words@ == dims@.take(i as int),
            groups@ == dims@.take(i as int),
        decreases n - i,
    {
        words.push(dims[i]);
        groups.push(dims[i]);
        i += 1;
        assert(words@ =~= dims@.take(i as int));
        assert(groups@ =~= dims@.take(i as int));
    }
    words.push(k * b / 32);
    groups.push(k / gs);
    proof {
        assert(dims@.take(n - 1) =~= dims@.drop_last());
    }
    Ok(QuantPlan { group_size: gs, bits: b, words, groups })
}

// ---- packing ----

/// The largest number of so many bits.
pub open spec fn mask(bits: usize) -> u32 {
    ((1u32 << (bits as u32)) - 1) as u32
}

/// What a code adds to its word at a place.
pub open spec fn placed(code: i32, bits: usize, at: int) -> u32 {
    ((code as u32) & mask(bits)) << ((at * bits) as u32)
}

/// The first `n` codes of a word.
pub open spec fn word_of(codes: Seq<i32>, bits: usize, first: int, n: int) -> u32
    decreases n,
{
    if n <= 0 {
        0
    } else {
        word_of(codes, bits, first, n - 1) | placed(codes[first + n - 1], bits, n - 1)
    }
}

/// Codes packed into words, the first code in the low bits.
pub open spec fn packed_words(codes: Seq<i32>, bits: usize) -> Seq<u32> {
    let per = 32int / (bits as int);
    Seq::new((codes.len() as int / per) as nat, |w: int| word_of(codes, bits, w * per, per))
}

/// The widths that fill a word.
pub open spec fn fills(bits: usize) -> bool {
    bits == 1 || bits == 2 || bits == 4 || bits == 8 || bits == 16
}

proof fn lemma_per(bits: usize)
    requires
        fills(bits),
    ensures
        1 <= 32int / (bits as int) <= 32,
        32int / (bits as int) * bits == 32,
{
    let b = bits as int;
    assert(1 <= 32int / b <= 32 && 32int / b * b == 32) by (nonlinear_arith)
        requires
            b == 1 || b == 2 || b == 4 || b == 8 || b == 16,
    ;
}

/// Codes packed into words, the first code in the low bits.
pub fn pack_codes(codes: &[i32], bits: usize) -> (words: Vec<u32>)
    requires
        fills(bits),
        codes@.len() % (32nat / (bits as nat)) == 0,
    ensures
        words@ == packed_words(codes@, bits),
{
    let per: usize = 32 / bits;
    let n = codes.len();
    proof {
        lemma_per(bits);
        let b = bits as u32;
        assert((1u32 << b) >= 1) by (bit_vector)
            requires
                b < 32,
        ;
    }
    let m: u32 = (1u32 << (bits as u32)) - 1;
    let mut words: Vec<u32> = Vec::new();
    let mut at: usize = 0;
    assert(words@.len() * per == 0) by (nonlinear_arith)
        requires
            words@.len() == 0,
    ;
    while at < n
        invariant
            fills(bits),
            per == 32usize / bits,
            per * bits == 32,
            1 <= per <= 32,
            m == mask(bits),
            n == codes@.len(),
            n % per == 0,
            at <= n,
            at == words@.len() * per,
            words@ == packed_words(codes@, bits).take(words@.len() as int),
            words@.len() <= n / per,
        decreases n - at,
    {
        proof {
            lemma_room(n as int, per as int, words@.len() as int);
        }
        let mut word: u32 = 0;
        let mut i: usize = 0;
        while i < per
            invariant
                fills(bits),
                per * bits == 32,
                1 <= per <= 32,
                m == mask(bits),
                n == codes@.len(),
                i <= per,
                at + per <= n,
                word == word_of(codes@, bits, at as int, i as int),
            decreases per - i,
        {
            proof {
                assert(i * bits < 32) by (nonlinear_arith)
                    requires
                        i < per,
                        per * bits == 32,
                        bits >= 1,
                ;
            }
            let shift: u32 = (i * bits) as u32;
            word = word | (((codes[at + i] as u32) & m) << shift);
            i += 1;
        }
        let ghost before = words@;
        words.push(word);
        at = at + per;
        proof {
            let k = before.len() as int;
            assert((k + 1) * per == k * per + per) by (nonlinear_arith);
            assert(words@ =~= packed_words(codes@, bits).take(k + 1));
        }
    }
    proof {
        let k = words@.len() as int;
        assert(k == n as int / (per as int)) by (nonlinear_arith)
            requires
                n == k * per,
                per >= 1,
        ;
        assert(words@ =~= packed_words(codes@, bits));
    }
    words
}

proof fn lemma_room(n: int, per: int, k: int)
    requires
        per >= 1,
        n % per == 0,
        k * per < n,
        0 <= k,
    ensures
        k + 1 <= n / per,
        k * per + per <= n,
{
    let q = n / per;
    assert(n == q * per) by (nonlinear_arith)
        requires
            q == n / per,
            n % per == 0,
            per >= 1,
    ;
    assert(k < q) by (nonlinear_arith)
        requires
            k * per < n,
            n == q * per,
            per >= 1,
    ;
    assert((k + 1) * per <= q * per) by (nonlinear_arith)
        requires
            k + 1 <= q,
            per >= 1,
    ;
    assert((k + 1) * per == k * per + per) by (nonlinear_arith);
}

proof fn lemma_word(codes: Seq<i32>, bits: usize, first: int, n: int)
    requires
        fills(bits),
        0 <= n <= 32int / (bits as int),
    ensures
        n * bits < 32 ==> word_of(codes, bits, first, n) >> ((n * bits) as u32) == 0u32,
        forall|j: int|
            0 <= j < n ==> ((#[trigger] placed(codes[first + j], bits, j)) >> ((j * bits) as u32))
                & mask(bits) == codes[first + j] as u32 & mask(bits) && (word_of(
                codes,
                bits,
                first,
                n,
            ) >> ((j * bits) as u32)) & mask(bits) == codes[first + j] as u32 & mask(bits),
    decreases n,
{
    if n == 0 {
        assert(0u32 >> 0u32 == 0u32) by (bit_vector);
        assert(n * bits == 0) by (nonlinear_arith)
            requires
                n == 0,
        ;
    }
    if n > 0 {
        lemma_word(codes, bits, first, n - 1);
        let w = word_of(codes, bits, first, n - 1);
        let c = codes[first + n - 1] as u32;
        let b = bits as u32;
        let m = mask(bits);
        let s = ((n - 1) * bits) as u32;
        assert(0 <= (n - 1) * bits <= 32 - bits) by (nonlinear_arith)
            requires
                1 <= n <= 32int / (bits as int),
                fills(bits),
        ;
        assert(n * bits == (n - 1) * bits + bits) by (nonlinear_arith);
        assert((1u32 << b) >= 1) by (bit_vector)
            requires
                b < 32,
        ;
        assert((((c & m) << s) >> s) & m == c & m && ((w | ((c & m) << s)) >> s) & m == c & m && (s
            + b < 32 ==> (w | ((c & m) << s)) >> ((s + b) as u32) == 0u32)) by (bit_vector)
            requires
                m == (1u32 << b) - 1,
                1 <= b <= 16,
                s <= 32 - b,
                w >> s == 0u32,
        ;
        let whole = word_of(codes, bits, first, n);
        assert(whole == w | ((c & m) << s));
        assert forall|j: int| 0 <= j < n implies ((#[trigger] placed(codes[first + j], bits, j))
            >> ((j * bits) as u32)) & mask(bits) == codes[first + j] as u32 & mask(bits) && (whole
            >> ((j * bits) as u32)) & mask(bits) == codes[first + j] as u32 & mask(bits) by {
            if j < n - 1 {
                assert(0 <= j * bits <= (n - 1) * bits - bits) by (nonlinear_arith)
                    requires
                        0 <= j < n - 1,
                        bits >= 1,
                ;
                let t = (j * bits) as u32;
                assert(placed(codes[first + j], bits, j) >> t & m == codes[first + j] as u32 & m);
                assert(((w | ((c & m) << s)) >> t) & m == (w >> t) & m) by (bit_vector)
                    requires
                        m == (1u32 << b) - 1,
                        1 <= b <= 16,
                        t + b <= s,
                        s <= 32 - b,
                ;
            }
        }
    }
}

/// Every code is read back from its place in its word, as far as its bits go.
pub proof fn codes_unpack(codes: Seq<i32>, bits: usize, i: int)
    requires
        fills(bits),
        codes.len() % (32nat / (bits as nat)) == 0,
        0 <= i < codes.len(),
    ensures
        ({
            let per = 32int / (bits as int);
            (packed_words(codes, bits)[i / per] >> ((i % per * bits) as u32)) & mask(bits)
                == codes[i] as u32 & mask(bits)
        }),
{
    let per = 32int / (bits as int);
    lemma_per(bits);
    let w = i / per;
    let j = i % per;
    assert(i == w * per + j && 0 <= j < per && 0 <= w < codes.len() as int / per) by (
    nonlinear_arith)
        requires
            per >= 1,
            w == i / per,
            j == i % per,
            0 <= i < codes.len(),
            codes.len() as int % per == 0,
    ;
    lemma_word(codes, bits, w * per, per);
    assert(placed(codes[w * per + j], bits, j) == placed(codes[i], bits, j));
}

} // verus!
