use vstd::arithmetic::power2::{lemma_pow2_unfold, pow2};
use bit_field::BitArray;
use vstd::prelude::*;

verus! {

/// Number of binary digits of `m` (zero has none).
pub open spec fn bit_len(m: nat) -> nat
    decreases m,
{
    if m == 0 {
        0
    } else {
        1 + bit_len(m / 2)
    }
}

/// `ceil(log2(n))` for `n >= 1`: the fewest bits that can tell `n` values apart.
pub open spec fn ceil_log2(n: nat) -> nat {
    bit_len((n - 1) as nat)
}

/// Field width used for the block states of a section whose palette has `n`
/// entries: enough bits to index the palette, and never fewer than four.
pub open spec fn block_width(n: nat) -> nat {
    if n < 16 {
        4
    } else if ceil_log2(n) < 4 {
        4
    } else {
        ceil_log2(n)
    }
}

/// `m` has at most `k` binary digits exactly when it is below `2^k`.
pub proof fn lemma_bit_len_bound(m: nat, k: nat)
    ensures
        (m < pow2(k)) == (bit_len(m) <= k),
    decreases k,
{
    if k == 0 {
        assert(pow2(0) == 1) by {
            vstd::arithmetic::power2::lemma2_to64();
        };
    } else {
        lemma_pow2_unfold(k);
        lemma_bit_len_bound(m / 2, (k - 1) as nat);
        if m == 0 {
            vstd::arithmetic::power2::lemma_pow2_pos(k);
        }
    }
}

/// The block width is the smallest width of at least four bits whose range of
/// `2^w` values covers all `n` palette entries.
pub proof fn lemma_block_width_is_least(n: nat)
    requires
        n >= 1,
    ensures
        block_width(n) >= 4,
        n <= pow2(block_width(n)),
        block_width(n) > 4 ==> pow2((block_width(n) - 1) as nat) < n,
{
    let w = block_width(n);
    lemma_bit_len_bound((n - 1) as nat, w);
    if w > 4 {
        lemma_bit_len_bound((n - 1) as nat, (w - 1) as nat);
    }
    if n < 16 {
        assert(pow2(4) == 16) by {
            vstd::arithmetic::power2::lemma2_to64();
        };
    }
}

/// Get the number of bits that will be used in block states per block.
///
/// A palette of fewer than sixteen entries still takes four bits per block;
/// a larger one takes the fewest bits that can index every entry.
pub fn bits_per_block(palette_len: usize) -> (r: usize)
    requires
        palette_len >= 1,
    ensures
        r == block_width(palette_len as nat),
        palette_len < 16 ==> r == 4,
        4 <= r <= 64,
        palette_len <= pow2(r as nat),
        r > 4 ==> pow2((r - 1) as nat) < palette_len,
{
    let mut rest: usize = palette_len - 1;
    let mut len: usize = 0;
    while rest > 0
        invariant
            len + bit_len(rest as nat) == bit_len((palette_len - 1) as nat),
            len + rest <= palette_len,
        decreases rest,
    {
        rest = rest / 2;
        len = len + 1;
    }
    proof {
        lemma_block_width_is_least(palette_len as nat);
        vstd::arithmetic::power2::lemma2_to64();
        lemma_bit_len_bound((palette_len - 1) as nat, 64);
    }
    if palette_len < 16 || len < 4 {
        4
    } else {
        len
    }
}

/// The words read as one unsigned number, word 0 lowest: bit `k` of the
/// stream is bit `k % 64` of word `k / 64`.
pub open spec fn stream_value(words: Seq<u64>) -> nat
    decreases words.len(),
{
    if words.len() == 0 {
        0
    } else {
        words[0] as nat + pow2(64) * stream_value(words.drop_first())
    }
}

/// The `width` bits of the stream that start at bit `begin`, as an unsigned
/// number whose lowest bit is stream bit `begin`.
pub open spec fn field(words: Seq<u64>, begin: nat, width: nat) -> nat {
    (stream_value(words) / pow2(begin)) % pow2(width)
}

/// Stored words, whose signed values are only bit patterns, as unsigned words.
pub open spec fn unsigned_words(data: Seq<i64>) -> Seq<u64> {
    data.map_values(|w: i64| w as u64)
}

/// Number of whole fields of `bits` bits in `n_words` words; left-over bits
/// at the end are padding.
pub open spec fn item_count(n_words: nat, bits: nat) -> nat {
    n_words * 64 / bits
}

/// Field `i` of width `bits` of the stored words; for a width of at most 64
/// bits the field is below `2^64`, so the cast keeps it whole.
pub open spec fn item(data: Seq<i64>, bits: nat, i: int) -> u64 {
    field(unsigned_words(data), (i * bits) as nat, bits) as u64
}

/// Every whole field of width `bits` of the stored words, in stream order.
pub open spec fn expanded(data: Seq<i64>, bits: nat) -> Seq<u64> {
    Seq::new(item_count(data.len(), bits), |i: int| item(data, bits, i))
}

/// Relies on bit_field's `BitArray::get_bits` for `[u64]`: bit `k` of the
/// array is bit `k % 64` of word `k / 64`, and bits `begin..end` come back
/// with bit `begin` lowest. It panics on a range longer than 64 bits or past
/// the end of the array.
#[verifier::external_body]
fn array_bits(words: &[u64], begin: usize, end: usize) -> (r: u64)
    requires
        begin < end,
        end - begin <= 64,
        end <= words@.len() * 64,
    ensures
        r as nat == field(words@, begin as nat, (end - begin) as nat),
{
    words.get_bits(begin..end)
}

/// A field of `bits` bits is below `2^bits`.
proof fn lemma_field_bound(words: Seq<u64>, begin: nat, bits: nat)
    ensures
        field(words, begin, bits) < pow2(bits),
{
    vstd::arithmetic::power2::lemma_pow2_pos(bits);
    vstd::arithmetic::power2::lemma_pow2_pos(begin);
    vstd::arithmetic::div_mod::lemma_mod_pos_bound(
        (stream_value(words) / pow2(begin)) as int,
        pow2(bits) as int,
    );
}

/// Expand data into individual items of `bits_per_item` bits each.
///
/// The words are one continuous bit stream, word 0 first and each word from
/// its lowest bit up; a field may run from one word into the next. Bits left
/// over after the last whole field are dropped.
pub fn expand_generic(data: &[i64], bits_per_item: usize) -> (r: Vec<u64>)
    requires
        1 <= bits_per_item <= 64,
        data@.len() * 64 <= usize::MAX,
    ensures
        r@ == expanded(data@, bits_per_item as nat),
        r@.len() == data@.len() * 64 / (bits_per_item as nat),
        forall|i: int|
            0 <= i < r@.len() ==> (r@[i] as nat) == field(
                unsigned_words(data@),
                (i * bits_per_item) as nat,
                bits_per_item as nat,
            ),
        forall|i: int| 0 <= i < r@.len() ==> (r@[i] as nat) < pow2(bits_per_item as nat),
{
    let bits = bits_per_item;
    let n = data.len();
    let mut words: Vec<u64> = Vec::new();
    let mut k: usize = 0;
    while k < n
        invariant
            k <= n,
            n == data@.len(),
            words@ == unsigned_words(data@).take(k as int),
        decreases n - k,
    {
        words.push(#[verifier::truncate] (data[k] as u64));
        k = k + 1;
        assert(words@ == unsigned_words(data@).take(k as int));
    }
    assert(words@ == unsigned_words(data@));
    let count: usize = (n * 64) / bits;
    let mut result: Vec<u64> = Vec::new();
    let mut i: usize = 0;
    while i < count
        invariant
            i <= count,
            count == item_count(n as nat, bits as nat),
            n == data@.len(),
            n * 64 <= usize::MAX,
            1 <= bits <= 64,
            words@ == unsigned_words(data@),
            result@ == expanded(data@, bits as nat).take(i as int),
        decreases count - i,
    {
        proof {
            assert((i + 1) * bits <= count * bits) by (nonlinear_arith)
                requires
                    i + 1 <= count,
                    bits >= 1,
            ;
            vstd::arithmetic::div_mod::lemma_fundamental_div_mod((n * 64) as int, bits as int);
            vstd::arithmetic::div_mod::lemma_mod_pos_bound((n * 64) as int, bits as int);
            assert(count * bits <= n * 64) by (nonlinear_arith)
                requires
                    count == (n * 64) / (bits as int),
                    n * 64 == bits * ((n * 64) / (bits as int)) + (n * 64) % (bits as int),
                    (n * 64) % (bits as int) >= 0,
            ;
            assert(i * bits + bits == (i + 1) * bits) by (nonlinear_arith);
        }
        let begin: usize = i * bits;
        let end: usize = begin + bits;
        let v: u64 = array_bits(words.as_slice(), begin, end);
        result.push(v);
        i = i + 1;
        assert(result@ == expanded(data@, bits as nat).take(
            i as int,
        ));
    }
    assert(result@ == expanded(data@, bits as nat));
    proof {
        assert forall|j: int| 0 <= j < result@.len() implies (result@[j] as nat) == field(
            unsigned_words(data@),
            (j * bits) as nat,
            bits as nat,
        ) && (result@[j] as nat) < pow2(bits as nat) by {
            lemma_field_bound(unsigned_words(data@), (j * bits) as nat, bits as nat);
            vstd::arithmetic::power2::lemma2_to64();
            if bits < 64 {
                vstd::arithmetic::power2::lemma_pow2_strictly_increases(bits as nat, 64);
            }
        }
    }
    result
}

/// Expand block state data so that each block is an element of a `Vec`.
///
/// The fields are `bits_per_block(palette_len)` bits wide, where
/// `palette_len` is the number of entries in the palette of the section the
/// block states came from. This is the packing of format versions in which a
/// block may run from one word into the next; the later packing, which keeps
/// each block inside one word, is not decoded here.
pub fn expand_blockstates(state: &[i64], palette_len: usize) -> (r: Vec<u64>)
    requires
        palette_len >= 1,
        state@.len() * 64 <= usize::MAX,
    ensures
        r@ == expanded(state@, block_width(palette_len as nat)),
{
    expand_generic(state, bits_per_block(palette_len))
}

/// Expand heightmap data: fields of nine bits, one per column.
pub fn expand_heightmap(data: &[i64]) -> (r: Vec<u64>)
    requires
        data@.len() * 64 <= usize::MAX,
    ensures
        r@ == expanded(data@, 9),
{
    expand_generic(data, 9)
}

/// Decoding is a function of the words and the width alone: any two results
/// that meet the contract of `expand_generic` on the same inputs are equal.
pub proof fn lemma_expand_deterministic(data: Seq<i64>, bits: nat, a: Seq<u64>, b: Seq<u64>)
    requires
        1 <= bits <= 64,
        a == expanded(data, bits),
        b == expanded(data, bits),
    ensures
        a == b,
{
}

} // verus!
