//! The internet checksum (one's-complement sum of big-endian 16-bit words).

use vstd::arithmetic::div_mod::{lemma_fundamental_div_mod, lemma_mod_multiples_vanish};
use vstd::prelude::*;

verus! {

/// The big-endian 16-bit word made of two bytes.
pub open spec fn word(hi: u8, lo: u8) -> u16 {
    (hi as int * 256 + lo as int) as u16
}

/// One's-complement addition: the carry out of bit 16 is added back into bit 0.
pub open spec fn ones_add(a: u16, b: u16) -> u16 {
    if a as int + b as int >= 0x10000 {
        (a as int + b as int - 0xFFFF) as u16
    } else {
        (a as int + b as int) as u16
    }
}

/// Folds `data` into the accumulator `acc` two bytes at a time, a final odd byte
/// being padded with a zero byte.
pub open spec fn ones_sum(acc: u16, data: Seq<u8>) -> u16
    decreases data.len(),
{
    if data.len() == 0 {
        acc
    } else if data.len() == 1 {
        ones_add(acc, word(data[0], 0))
    } else {
        ones_sum(ones_add(acc, word(data[0], data[1])), data.subrange(2, data.len() as int))
    }
}

/// The checksum that continues from an earlier checksum `start` over `data`.
pub open spec fn checksum_from(start: u16, data: Seq<u8>) -> u16 {
    (0xFFFF - ones_sum((0xFFFF - start) as u16, data)) as u16
}

/// The checksum of `data`.
pub open spec fn checksum_of(data: Seq<u8>) -> u16 {
    checksum_from(0xFFFF, data)
}

pub proof fn lemma_word_bits(hi: u8, lo: u8)
    ensures
        ((hi as u16) << 8) | lo as u16 == word(hi, lo),
{
    assert(((hi as u16) << 8) | lo as u16 == (hi as int * 256 + lo as int) as u16) by (bit_vector);
}

/// One's-complement addition of two words.
pub fn ones_complement_sum(a: u16, b: u16) -> (r: u16)
    ensures
        r == ones_add(a, b),
{
    let t: u32 = a as u32 + b as u32;
    if t >= 0x10000 {
        (t - 0xFFFF) as u16
    } else {
        t as u16
    }
}

/// Continues the checksum `checksum` over `data`. Started from the checksum of a
/// byte string of even length, it gives the checksum of that string followed by `data`.
pub fn internet_checksum_incremental(checksum: u16, data: &[u8]) -> (r: u16)
    ensures
        r == checksum_from(checksum, data@),
{
    let mut acc: u16 = !checksum;
    assert(!checksum == (0xFFFF - checksum) as u16) by (bit_vector);
    let n: usize = data.len();
    let mut i: usize = 0;
    assert(data@.subrange(0, n as int) =~= data@);
    while n - i > 1
        invariant
            i <= n,
            n == data@.len(),
            ones_sum(acc, data@.subrange(i as int, n as int)) == ones_sum(
                (0xFFFF - checksum) as u16,
                data@,
            ),
        decreases n - i,
    {
        let ghost rest = data@.subrange(i as int, n as int);
        assert(rest.subrange(2, rest.len() as int) =~= data@.subrange(i + 2, n as int));
        let hi: u8 = data[i];
        let lo: u8 = data[i + 1];
        proof {
            lemma_word_bits(hi, lo);
        }
        acc = ones_complement_sum(acc, ((hi as u16) << 8) | lo as u16);
        i = i + 2;
    }
    if i < n {
        assert(data@.subrange(i as int, n as int).len() == 1);
        let hi: u8 = data[i];
        proof {
            lemma_word_bits(hi, 0);
        }
        acc = ones_complement_sum(acc, ((hi as u16) << 8) | 0u16);
        i = i + 1;
    }
    assert(data@.subrange(i as int, n as int).len() == 0);
    assert(!acc == (0xFFFF - acc) as u16) by (bit_vector);
    !acc
}

/// The internet checksum of `data`.
pub fn internet_checksum(data: &[u8]) -> (r: u16)
    ensures
        r == checksum_of(data@),
{
    internet_checksum_incremental(0xFFFF, data)
}

/// The sum of the big-endian words of `data` as an unbounded integer.
pub open spec fn word_total(data: Seq<u8>) -> int
    decreases data.len(),
{
    if data.len() == 0 {
        0
    } else if data.len() == 1 {
        word(data[0], 0) as int
    } else {
        word(data[0], data[1]) + word_total(data.subrange(2, data.len() as int))
    }
}

/// The one's-complement value of a non-negative integer: zero stays zero, any
/// other value is reduced into `1..=0xFFFF` modulo `0xFFFF`.
pub open spec fn ones_norm(t: int) -> int {
    if t <= 0 {
        0
    } else {
        (t - 1) % 0xFFFF + 1
    }
}

proof fn lemma_ones_add_norm(a: u16, b: u16)
    ensures
        ones_add(a, b) as int == ones_norm(a + b),
{
    let t = a + b;
    if t > 0 && t < 0x10000 {
        assert((t - 1) % 0xFFFF == t - 1);
    } else if t >= 0x10000 {
        assert((t - 1) % 0xFFFF == t - 1 - 0xFFFF);
    }
}

proof fn lemma_norm_absorbs(x: int, y: int)
    requires
        x >= 0,
        y >= 0,
    ensures
        ones_norm(ones_norm(x) + y) == ones_norm(x + y),
{
    if x > 0 {
        let k = (x - 1) / 0xFFFF;
        lemma_fundamental_div_mod(x - 1, 0xFFFF);
        assert(ones_norm(x) == x - 0xFFFF * k);
        lemma_mod_multiples_vanish(k, x + y - 1 - 0xFFFF * k, 0xFFFF);
        assert(0xFFFF * k + (x + y - 1 - 0xFFFF * k) == x + y - 1);
    }
}

/// The folded sum is the one's-complement value of the accumulator plus all words.
pub proof fn lemma_ones_sum_value(acc: u16, data: Seq<u8>)
    ensures
        ones_sum(acc, data) as int == ones_norm(acc + word_total(data)),
    decreases data.len(),
{
    if data.len() == 0 {
        if acc > 0 {
            assert((acc - 1) % 0xFFFF == acc - 1);
        }
    } else if data.len() == 1 {
        lemma_ones_add_norm(acc, word(data[0], 0));
    } else {
        let w = word(data[0], data[1]);
        let rest = data.subrange(2, data.len() as int);
        lemma_ones_sum_value(ones_add(acc, w), rest);
        lemma_ones_add_norm(acc, w);
        lemma_word_total_nonneg(rest);
        lemma_norm_absorbs(acc + w, word_total(rest));
    }
}

/// Continuing a checksum over `b` from the checksum of `a`, where `a` has even
/// length, gives the checksum of `a` followed by `b`.
pub proof fn lemma_checksum_continues(a: Seq<u8>, b: Seq<u8>)
    requires
        a.len() % 2 == 0,
    ensures
        checksum_from(checksum_of(a), b) == checksum_of(a + b),
{
    lemma_ones_sum_concat(0, a, b);
}

proof fn lemma_ones_sum_concat(acc: u16, a: Seq<u8>, b: Seq<u8>)
    requires
        a.len() % 2 == 0,
    ensures
        ones_sum(ones_sum(acc, a), b) == ones_sum(acc, a + b),
    decreases a.len(),
{
    if a.len() == 0 {
        assert(a + b =~= b);
    } else {
        let ab = a + b;
        assert(ab.subrange(2, ab.len() as int) =~= a.subrange(2, a.len() as int) + b);
        lemma_ones_sum_concat(ones_add(acc, word(a[0], a[1])), a.subrange(2, a.len() as int), b);
    }
}

/// The high byte of a big-endian word.
pub open spec fn high_byte(v: u16) -> u8 {
    (v / 256) as u8
}

/// The low byte of a big-endian word.
pub open spec fn low_byte(v: u16) -> u8 {
    (v % 256) as u8
}

proof fn lemma_word_total_concat(a: Seq<u8>, b: Seq<u8>)
    requires
        a.len() % 2 == 0,
    ensures
        word_total(a + b) == word_total(a) + word_total(b),
    decreases a.len(),
{
    if a.len() == 0 {
        assert(a + b =~= b);
    } else {
        let ab = a + b;
        assert(ab.subrange(2, ab.len() as int) =~= a.subrange(2, a.len() as int) + b);
        lemma_word_total_concat(a.subrange(2, a.len() as int), b);
    }
}

/// Writing the checksum of a byte string into a zeroed checksum field that
/// starts at an even offset `k` gives a string whose checksum is zero.
pub proof fn lemma_checksum_verifies(data: Seq<u8>, k: int)
    requires
        0 <= k,
        k % 2 == 0,
        k + 2 <= data.len(),
        data[k] == 0,
        data[k + 1] == 0,
    ensures
        ({
            let c = checksum_of(data);
            checksum_of(data.update(k, high_byte(c)).update(k + 1, low_byte(c))) == 0
        }),
{
    let c = checksum_of(data);
    let filled = data.update(k, high_byte(c)).update(k + 1, low_byte(c));
    let n = data.len() as int;
    let pre = data.subrange(0, k);
    let post = data.subrange(k + 2, n);
    let mid = data.subrange(k, k + 2);
    let fmid = filled.subrange(k, k + 2);
    assert(data =~= pre + (mid + post));
    assert(filled =~= pre + (fmid + post));
    assert(mid.subrange(2, 2) =~= Seq::<u8>::empty());
    assert(fmid.subrange(2, 2) =~= Seq::<u8>::empty());
    lemma_word_total_concat(pre, mid + post);
    lemma_word_total_concat(pre, fmid + post);
    lemma_word_total_concat(mid, post);
    lemma_word_total_concat(fmid, post);
    assert(word(high_byte(c), low_byte(c)) == c);
    assert(word_total(mid.subrange(2, 2)) == 0);
    assert(word_total(fmid.subrange(2, 2)) == 0);
    assert(mid[0] == 0 && mid[1] == 0);
    assert(word_total(mid) == 0);
    assert(word_total(fmid) == c);
    let total = word_total(data);
    assert(word_total(filled) == total + c);
    lemma_ones_sum_value(0, data);
    lemma_ones_sum_value(0, filled);
    let s = ones_norm(total);
    assert(c == 0xFFFF - s);
    lemma_word_total_nonneg(data);
    if total > 0 {
        let q = (total - 1) / 0xFFFF;
        lemma_fundamental_div_mod(total - 1, 0xFFFF);
        assert(s == total - 0xFFFF * q);
        assert(total + c == 0xFFFF * q + 0xFFFF);
        lemma_mod_multiples_vanish(q, 0xFFFE, 0xFFFF);
        assert(0xFFFF * q + 0xFFFE == total + c - 1);
    }
}

proof fn lemma_word_total_nonneg(data: Seq<u8>)
    ensures
        word_total(data) >= 0,
    decreases data.len(),
{
    if data.len() > 1 {
        lemma_word_total_nonneg(data.subrange(2, data.len() as int));
    }
}

} // verus!
