//! The Internet checksum: the one's-complement sum of 16-bit big-endian words
//! with end-around carry, complemented at the end.
//!
//! Both header codecs store their checksum inside the bytes it covers, so the
//! sum is always taken with one word position left out.

use vstd::prelude::*;

verus! {

/// Number of 16-bit words in `data`; an odd trailing byte counts as a word.
pub open spec fn word_count(data: Seq<u8>) -> int {
    (data.len() as int + 1) / 2
}

/// The `i`-th big-endian word of `data`. A trailing odd byte is the high half
/// of a word whose low half is zero.
pub open spec fn word_at(data: Seq<u8>, i: int) -> int
    recommends
        0 <= i < word_count(data),
{
    let low: int = if 2 * i + 1 < data.len() {
        data[2 * i + 1] as int
    } else {
        0
    };
    data[2 * i] * 0x100 + low
}

/// Folds the carry out of bit 16 back into the low 16 bits.
pub open spec fn end_around(t: int) -> int {
    t % 0x1_0000 + t / 0x1_0000
}

/// One's-complement sum of the first `n` words of `data`, leaving out the word
/// at index `skip`.
pub open spec fn ones_sum(data: Seq<u8>, n: int, skip: int) -> int
    decreases n,
{
    if n <= 0 {
        0
    } else if n - 1 == skip {
        ones_sum(data, n - 1, skip)
    } else {
        end_around(ones_sum(data, n - 1, skip) + word_at(data, n - 1))
    }
}

/// The checksum of `data` with the word at index `skip` left out.
pub open spec fn internet_checksum(data: Seq<u8>, skip: int) -> u16 {
    (0xFFFF - ones_sum(data, word_count(data), skip)) as u16
}

/// A folded sum always fits in 16 bits.
pub proof fn lemma_ones_sum_bound(data: Seq<u8>, n: int, skip: int)
    requires
        n <= word_count(data),
    ensures
        0 <= ones_sum(data, n, skip) <= 0xFFFF,
    decreases n,
{
    if n > 0 {
        lemma_ones_sum_bound(data, n - 1, skip);
    }
}

/// Two byte strings whose words agree everywhere but at `skip` have the same
/// folded sum.
pub proof fn lemma_ones_sum_agree(a: Seq<u8>, b: Seq<u8>, n: int, skip: int)
    requires
        forall|i: int| 0 <= i < n && i != skip ==> word_at(a, i) == word_at(b, i),
    ensures
        ones_sum(a, n, skip) == ones_sum(b, n, skip),
    decreases n,
{
    if n > 0 {
        lemma_ones_sum_agree(a, b, n - 1, skip);
    }
}

/// The checksum does not depend on the two bytes of the word it leaves out:
/// whatever is stored there, recomputing gives the same value.
pub proof fn lemma_checksum_ignores_skipped_word(a: Seq<u8>, b: Seq<u8>, skip: int)
    requires
        a.len() == b.len(),
        forall|j: int| 0 <= j < a.len() && j != 2 * skip && j != 2 * skip + 1 ==> a[j] == b[j],
    ensures
        internet_checksum(a, skip) == internet_checksum(b, skip),
{
    lemma_ones_sum_agree(a, b, word_count(a), skip);
}

/// Plain sum of the first `n` words of `data`, leaving out the word at index
/// `skip`.
pub open spec fn word_sum(data: Seq<u8>, n: int, skip: int) -> int
    decreases n,
{
    if n <= 0 {
        0
    } else if n - 1 == skip {
        word_sum(data, n - 1, skip)
    } else {
        word_sum(data, n - 1, skip) + word_at(data, n - 1)
    }
}

/// Folding the carry back does not change a sum modulo 0xFFFF, so the folded
/// sum and the plain sum leave the same remainder.
pub proof fn lemma_ones_sum_congruent(data: Seq<u8>, n: int, skip: int)
    requires
        n <= word_count(data),
    ensures
        ones_sum(data, n, skip) % 0xFFFF == word_sum(data, n, skip) % 0xFFFF,
    decreases n,
{
    if n > 0 {
        lemma_ones_sum_congruent(data, n - 1, skip);
        lemma_ones_sum_bound(data, n - 1, skip);
        if n - 1 != skip {
            let t = ones_sum(data, n - 1, skip) + word_at(data, n - 1);
            assert(0 <= word_at(data, n - 1) <= 0xFFFF);
            assert(end_around(t) % 0xFFFF == t % 0xFFFF);
        }
    }
}

/// Changing one byte shifts the plain sum by the change of the word that
/// holds it.
proof fn lemma_word_sum_update(data: Seq<u8>, at: int, byte: u8, n: int, skip: int)
    requires
        0 <= at < data.len(),
        at / 2 != skip,
        n <= word_count(data),
    ensures
        word_sum(data.update(at, byte), n, skip) == word_sum(data, n, skip) + if at / 2 < n {
            word_at(data.update(at, byte), at / 2) - word_at(data, at / 2)
        } else {
            0
        },
    decreases n,
{
    if n > 0 {
        lemma_word_sum_update(data, at, byte, n - 1, skip);
        if n - 1 != at / 2 {
            assert(word_at(data.update(at, byte), n - 1) == word_at(data, n - 1));
        }
    }
}

/// A change of any single byte outside the checksum field changes the
/// checksum: no such corruption goes unnoticed.
pub proof fn lemma_single_byte_change_detected(data: Seq<u8>, at: int, byte: u8, skip: int)
    requires
        0 <= at < data.len(),
        byte != data[at],
        at != 2 * skip,
        at != 2 * skip + 1,
    ensures
        internet_checksum(data.update(at, byte), skip) != internet_checksum(data, skip),
{
    let changed = data.update(at, byte);
    let n = word_count(data);
    let w = at / 2;
    assert(word_count(changed) == n);
    lemma_word_sum_update(data, at, byte, n, skip);
    lemma_ones_sum_congruent(data, n, skip);
    lemma_ones_sum_congruent(changed, n, skip);
    lemma_ones_sum_bound(data, n, skip);
    lemma_ones_sum_bound(changed, n, skip);
    let delta = word_at(changed, w) - word_at(data, w);
    assert(delta == (byte - data[at]) * 0x100 || delta == byte - data[at]);
    assert(delta != 0 && -0xFFFF < delta < 0xFFFF);
    assert(word_sum(changed, n, skip) == word_sum(data, n, skip) + delta);
    assert(word_sum(changed, n, skip) % 0xFFFF != word_sum(data, n, skip) % 0xFFFF);
}

/// A folded sum is zero exactly when every word that went into it is zero.
pub proof fn lemma_ones_sum_zero(data: Seq<u8>, n: int, skip: int)
    requires
        n <= word_count(data),
    ensures
        ones_sum(data, n, skip) == 0 <==> forall|i: int|
            0 <= i < n && i != skip ==> word_at(data, i) == 0,
    decreases n,
{
    if n > 0 {
        lemma_ones_sum_zero(data, n - 1, skip);
        lemma_ones_sum_bound(data, n - 1, skip);
        if n - 1 != skip {
            let w = word_at(data, n - 1);
            assert(0 <= w <= 0xFFFF);
            if ones_sum(data, n, skip) == 0 {
                assert(ones_sum(data, n - 1, skip) == 0 && w == 0);
                assert forall|i: int| 0 <= i < n && i != skip implies word_at(data, i) == 0 by {
                    if i < n - 1 {
                    }
                }
            }
        }
    }
}

/// The plain sum over every word is the plain sum without the word at `skip`
/// plus that word.
proof fn lemma_word_sum_with_skipped(data: Seq<u8>, n: int, skip: int)
    requires
        0 <= skip,
        n <= word_count(data),
    ensures
        word_sum(data, n, -1) == word_sum(data, n, skip) + if skip < n {
            word_at(data, skip)
        } else {
            0
        },
    decreases n,
{
    if n > 0 {
        lemma_word_sum_with_skipped(data, n - 1, skip);
    }
}

/// Where the word at `skip` holds the checksum computed without it, the
/// checksum taken over every word, the stored one included, is zero.
pub proof fn lemma_valid_sums_to_zero(data: Seq<u8>, skip: int)
    requires
        0 <= skip < word_count(data),
        word_at(data, skip) == internet_checksum(data, skip),
    ensures
        internet_checksum(data, -1) == 0,
{
    let n = word_count(data);
    lemma_word_sum_with_skipped(data, n, skip);
    lemma_ones_sum_congruent(data, n, skip);
    lemma_ones_sum_congruent(data, n, -1);
    lemma_ones_sum_bound(data, n, skip);
    lemma_ones_sum_bound(data, n, -1);
    lemma_ones_sum_zero(data, n, skip);
    lemma_ones_sum_zero(data, n, -1);
    let part = ones_sum(data, n, skip);
    let all = ones_sum(data, n, -1);
    assert(word_at(data, skip) == 0xFFFF - part);
    assert(word_sum(data, n, -1) == word_sum(data, n, skip) + 0xFFFF - part);
    assert(all % 0xFFFF == 0);
    if all == 0 {
        assert(word_at(data, skip) == 0);
        assert(forall|i: int| 0 <= i < n && i != skip ==> word_at(data, i) == 0);
        assert(part == 0);
    }
}

/// Computes the Internet checksum of `data`, leaving out the 16-bit word at
/// index `skip_word` (the position of the stored checksum).
pub fn checksum(data: &[u8], skip_word: usize) -> (sum: u16)
    ensures
        sum == internet_checksum(data@, skip_word as int),
{
    let n = data.len();
    let words = n / 2 + n % 2;
    let mut sum: u32 = 0;
    let mut i: usize = 0;
    while i < words
        invariant
            n == data@.len(),
            words == word_count(data@),
            i <= words,
            sum == ones_sum(data@, i as int, skip_word as int),
            sum <= 0xFFFF,
        decreases words - i,
    {
        if i != skip_word {
            let high = data[2 * i] as u32;
            let low = if 2 * i + 1 < n {
                data[2 * i + 1] as u32
            } else {
                0
            };
            sum += high * 0x100 + low;
            assert(sum >> 16 <= 1 && ((sum + (sum >> 16)) as u32 & 0xFFFF) == end_around(sum as int))
                by (bit_vector)
                requires
                    sum <= 0x1_FFFE,
            ;
            sum += sum >> 16;
            sum &= 0xFFFF;
        }
        i += 1;
    }
    (0xFFFF - sum) as u16
}

} // verus!
