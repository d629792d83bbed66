//! On-disk form of a stored FIR response: its coefficients' 64-bit patterns,
//! each as 8 little-endian bytes, back to back.

use vstd::prelude::*;
use vstd::bytes::{spec_u64_from_le_bytes, spec_u64_to_le_bytes, u64_from_le_bytes, u64_to_le_bytes};

verus! {

/// The bytes of `words`, 8 little-endian bytes per word.
pub open spec fn le_bytes_of(words: Seq<u64>) -> Seq<u8>
    decreases words.len(),
{
    if words.len() == 0 {
        Seq::empty()
    } else {
        le_bytes_of(words.drop_last()) + spec_u64_to_le_bytes(words.last())
    }
}

/// Word `i` of a byte string: bytes `8i .. 8i + 8`, little endian.
pub open spec fn word_at(bytes: Seq<u8>, i: int) -> u64 {
    spec_u64_from_le_bytes(bytes.subrange(8 * i, 8 * i + 8))
}

proof fn lemma_le_bytes_len(words: Seq<u64>)
    ensures
        le_bytes_of(words).len() == 8 * words.len(),
    decreases words.len(),
{
    vstd::bytes::lemma_auto_spec_u64_to_from_le_bytes();
    if words.len() > 0 {
        lemma_le_bytes_len(words.drop_last());
    }
}

proof fn lemma_le_bytes_word(words: Seq<u64>, i: int)
    requires
        0 <= i < words.len(),
    ensures
        le_bytes_of(words).len() == 8 * words.len(),
        le_bytes_of(words).subrange(8 * i, 8 * i + 8) == spec_u64_to_le_bytes(words[i]),
    decreases words.len(),
{
    vstd::bytes::lemma_auto_spec_u64_to_from_le_bytes();
    lemma_le_bytes_len(words);
    let prefix = words.drop_last();
    lemma_le_bytes_len(prefix);
    let b = le_bytes_of(words);
    assert(b == le_bytes_of(prefix) + spec_u64_to_le_bytes(words.last()));
    if i == words.len() - 1 {
        assert(b.subrange(8 * i, 8 * i + 8) =~= spec_u64_to_le_bytes(words.last()));
    } else {
        lemma_le_bytes_word(prefix, i);
        assert(b.subrange(8 * i, 8 * i + 8) =~= le_bytes_of(prefix).subrange(8 * i, 8 * i + 8));
    }
}

/// Serialize words, 8 little-endian bytes each.
pub fn encode_words(words: &Vec<u64>) -> (bytes: Vec<u8>)
    requires
        words@.len() <= usize::MAX / 8,
    ensures
        bytes@ == le_bytes_of(words@),
        bytes@.len() == 8 * words@.len(),
{
    let mut out: Vec<u8> = Vec::new();
    let mut i: usize = 0;
    while i < words.len()
        invariant
            i <= words@.len(),
            out@ == le_bytes_of(words@.subrange(0, i as int)),
        decreases words@.len() - i,
    {
        let mut b = u64_to_le_bytes(words[i]);
        let ghost before = out@;
        out.append(&mut b);
        assert(words@.subrange(0, i + 1).drop_last() =~= words@.subrange(0, i as int));
        i = i + 1;
    }
    assert(words@.subrange(0, words@.len() as int) =~= words@);
    proof {
        lemma_le_bytes_len(words@);
    }
    out
}

/// Read back the words of a byte string; a trailing partial word is ignored.
pub fn decode_words(bytes: &[u8]) -> (words: Vec<u64>)
    ensures
        words@.len() == bytes@.len() / 8,
        forall|i: int| 0 <= i < words@.len() ==> #[trigger] words@[i] == word_at(bytes@, i),
{
    let blen = bytes.len();
    let n = blen / 8;
    let mut words: Vec<u64> = Vec::new();
    let mut i: usize = 0;
    while i < n
        invariant
            blen == bytes@.len(),
            n == bytes@.len() / 8,
            i <= n,
            words@.len() == i,
            forall|k: int| 0 <= k < i ==> #[trigger] words@[k] == word_at(bytes@, k),
        decreases n - i,
    {
        assert(8 * i + 8 <= bytes@.len()) by {
            vstd::arithmetic::div_mod::lemma_fundamental_div_mod(bytes@.len() as int, 8);
        }
        let mut chunk: Vec<u8> = Vec::new();
        let mut k: usize = 0;
        while k < 8
            invariant
                8 * i + 8 <= bytes@.len(),
                blen == bytes@.len(),
                k <= 8,
                chunk@ == bytes@.subrange(8 * i as int, 8 * i + k),
            decreases 8 - k,
        {
            chunk.push(bytes[8 * i + k]);
            k = k + 1;
        }
        let w = u64_from_le_bytes(chunk.as_slice());
        words.push(w);
        i = i + 1;
    }
    words
}

/// Law: a stored response reads back exactly as it was written: decoding the
/// encoding of any words gives the same words.
pub proof fn law_words_round_trip(words: Seq<u64>)
    ensures
        le_bytes_of(words).len() / 8 == words.len(),
        forall|i: int| 0 <= i < words.len() ==> #[trigger] word_at(le_bytes_of(words), i) == words[i],
{
    vstd::bytes::lemma_auto_spec_u64_to_from_le_bytes();
    lemma_le_bytes_len(words);
    assert forall|i: int| 0 <= i < words.len() implies #[trigger] word_at(le_bytes_of(words), i)
        == words[i] by {
        lemma_le_bytes_word(words, i);
    }
}

} // verus!
