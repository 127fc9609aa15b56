use vstd::prelude::*;
use vstd::arithmetic::div_mod::{lemma_div_is_ordered_by_denominator, lemma_fundamental_div_mod};
use crate::bytes::{copy_u8_to_u64, words_of_bytes, bytes_of_words, le_value, lemma_bytes_words_round_trip};

verus! {

/// The last word of the kernel's input block: the bytes `[1, 6, 0, 0, 0, 0, 0, 0]`
/// read little-endian.
pub const INPUT_PADDING_WORD: u64 = 0x0601;

/// Iterations of the kernel's inner loop per thread and launch.
pub const KERNEL_ITERATIONS: u32 = 4;

/// The six words handed to the kernel for a mining hash: a zero word (the
/// nonce slot), the four little-endian words of the hash, and the padding word.
pub open spec fn spec_kernel_input(mining_hash: Seq<u8>) -> Seq<u64> {
    let w = words_of_bytes(mining_hash);
    seq![0u64, w[0], w[1], w[2], w[3], INPUT_PADDING_WORD]
}

/// Builds the kernel's input words for a 32-byte mining hash.
pub fn kernel_input(mining_hash: Vec<u8>) -> (data: Vec<u64>)
    requires mining_hash.len() == 32,
    ensures
        data@ == spec_kernel_input(mining_hash@),
        data.len() == 6,
        data@[0] == 0,
        data@[5] == 0x0601,
        bytes_of_words(data@.subrange(1, 5)) == mining_hash@,
{
    let ghost hash = mining_hash@;
    let hash64 = copy_u8_to_u64(mining_hash);
    let mut data: Vec<u64> = Vec::with_capacity(6);
    data.push(0);
    data.push(hash64[0]);
    data.push(hash64[1]);
    data.push(hash64[2]);
    data.push(hash64[3]);
    data.push(INPUT_PADDING_WORD);
    assert(data@ =~= spec_kernel_input(hash));
    proof { lemma_kernel_input_carries_hash(hash); }
    data
}

/// Whatever the hash, the kernel input is six words: the zero nonce slot, then
/// the hash, then the word `0x0601`, the bytes `[1, 6, 0, 0, 0, 0, 0, 0]` read
/// little-endian.
pub proof fn lemma_kernel_input_frame(mining_hash: Seq<u8>)
    requires mining_hash.len() == 32,
    ensures
        spec_kernel_input(mining_hash).len() == 6,
        spec_kernel_input(mining_hash)[0] == 0,
        spec_kernel_input(mining_hash)[5] == 0x0601,
        spec_kernel_input(mining_hash)[5] as nat == le_value(seq![1u8, 6, 0, 0, 0, 0, 0, 0]),
{
    reveal_with_fuel(le_value, 9);
}

/// The kernel sees the whole mining hash: the four hash words of its input,
/// unpacked to bytes, are the mining hash.
pub proof fn lemma_kernel_input_carries_hash(mining_hash: Seq<u8>)
    requires mining_hash.len() == 32,
    ensures bytes_of_words(spec_kernel_input(mining_hash).subrange(1, 5)) == mining_hash,
{
    let w = words_of_bytes(mining_hash);
    assert(w.len() == 4);
    assert(spec_kernel_input(mining_hash).subrange(1, 5) =~= w);
    lemma_bytes_words_round_trip(mining_hash);
}

/// The width of the nonce window of each of `num_threads` devices.
pub open spec fn window_width(num_threads: u64) -> int {
    u64::MAX as int / num_threads as int
}

/// The first nonce that device `thread_index` of `num_threads` tries.
pub fn nonce_window_start(num_threads: u64, thread_index: u64) -> (start: u64)
    requires
        num_threads > 0,
        window_width(num_threads) * thread_index <= u64::MAX,
    ensures
        start == window_width(num_threads) * thread_index,
        start as int == (u64::MAX as int / num_threads as int) * thread_index as int,
{
    (u64::MAX / num_threads) * thread_index
}

/// The nonce windows of the devices fit below `u64::MAX` and do not overlap:
/// device `i` starts a full window width before device `j` for `i < j`.
pub proof fn lemma_nonce_windows_disjoint(num_threads: u64, i: u64, j: u64)
    requires
        num_threads > 0,
        i < j < num_threads,
    ensures
        window_width(num_threads) * i + window_width(num_threads) <= window_width(num_threads) * j,
        window_width(num_threads) * j + window_width(num_threads) <= u64::MAX,
{
    let w = window_width(num_threads);
    lemma_fundamental_div_mod(u64::MAX as int, num_threads as int);
    assert(w * num_threads <= u64::MAX) by (nonlinear_arith)
        requires w == u64::MAX as int / num_threads as int, num_threads > 0,
            u64::MAX as int == num_threads * (u64::MAX as int / num_threads as int) + u64::MAX as int % num_threads as int,
            0 <= u64::MAX as int % num_threads as int;
    assert(w * i + w <= w * j) by (nonlinear_arith)
        requires w >= 0, i < j;
    assert(w * j + w <= w * num_threads) by (nonlinear_arith)
        requires w >= 0, j < num_threads;
}

/// The windows of the devices share out the whole nonce space: `n` windows of
/// the width cover all nonces but fewer than `n`, so for two or more devices
/// the width is positive and distinct devices start at distinct nonces.
pub proof fn lemma_nonce_windows_cover(num_threads: u64)
    requires num_threads > 0,
    ensures
        window_width(num_threads) * num_threads <= u64::MAX,
        window_width(num_threads) * num_threads + num_threads > u64::MAX,
        num_threads >= 2 ==> window_width(num_threads) > 0,
{
    let w = window_width(num_threads);
    let n = num_threads as int;
    let m = u64::MAX as int;
    lemma_fundamental_div_mod(m, n);
    assert(m == n * (m / n) + m % n);
    assert(0 <= m % n < n) by {
        vstd::arithmetic::div_mod::lemma_mod_bound(m, n);
    }
    assert(w == m / n);
    assert(w * n <= m && w * n + n > m) by (nonlinear_arith)
        requires m == n * w + m % n, 0 <= m % n < n, n > 0;
    if num_threads >= 2 {
        assert(w > 0) by (nonlinear_arith)
            requires w * n + n > m, n >= 2, n <= m, w >= 0;
    }
}

/// The share target that the kernel compares hashes against for a difficulty.
pub fn target_from_difficulty(difficulty: u64) -> (target: u64)
    requires difficulty > 0,
    ensures target == u64::MAX / difficulty,
{
    u64::MAX / difficulty
}

/// A higher difficulty never gives a higher target, and difficulty times
/// target stays within `u64::MAX`.
pub proof fn lemma_target_antitone(d1: u64, d2: u64)
    requires 0 < d1 <= d2,
    ensures
        u64::MAX / d2 <= u64::MAX / d1,
        d1 * (u64::MAX / d1) <= u64::MAX,
{
    lemma_div_is_ordered_by_denominator(u64::MAX as int, d1 as int, d2 as int);
    lemma_fundamental_div_mod(u64::MAX as int, d1 as int);
    assert(d1 * (u64::MAX / d1) <= u64::MAX) by (nonlinear_arith)
        requires u64::MAX as int == d1 * (u64::MAX as int / d1 as int) + u64::MAX as int % d1 as int,
            0 <= u64::MAX as int % d1 as int;
}

} // verus!
