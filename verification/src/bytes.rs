use vstd::prelude::*;
use vstd::arithmetic::div_mod::{lemma_div_denominator, lemma_mod_breakdown, lemma_fundamental_div_mod_converse};

verus! {

/// `256` raised to the power `n`.
pub open spec fn pow256(n: nat) -> nat
    decreases n,
{
    if n == 0 { 1 } else { 256 * pow256((n - 1) as nat) }
}

/// The number that a byte string denotes when read little-endian
/// (`s[0]` is the least significant byte).
pub open spec fn le_value(s: Seq<u8>) -> nat
    decreases s.len(),
{
    if s.len() == 0 { 0 } else { s[0] as nat + 256 * le_value(s.drop_first()) }
}

/// The number that a byte string denotes when read big-endian
/// (`s.last()` is the least significant byte).
pub open spec fn be_value(s: Seq<u8>) -> nat
    decreases s.len(),
{
    if s.len() == 0 { 0 } else { be_value(s.drop_last()) * 256 + s.last() as nat }
}

/// The `n` low bytes of `w`, least significant first.
pub open spec fn le_bytes(w: nat, n: nat) -> Seq<u8> {
    Seq::new(n, |k: int| ((w / pow256(k as nat)) % 256) as u8)
}

/// Word `j` of a byte string: bytes `8j .. 8j + 8` read little-endian.
pub open spec fn chunk_word(s: Seq<u8>, j: int) -> nat {
    le_value(s.subrange(8 * j, 8 * j + 8))
}

/// The bytes left over after the last full group of eight, read big-endian
/// (the last byte of the string is the least significant).
pub open spec fn tail_word(s: Seq<u8>) -> nat {
    be_value(s.subrange(s.len() - s.len() % 8, s.len() as int))
}

/// The words that `copy_u8_to_u64` makes of a byte string: one per full group
/// of eight bytes, read little-endian, then, where bytes are left over, one
/// more word that holds them read big-endian.
pub open spec fn words_of_bytes(s: Seq<u8>) -> Seq<u64> {
    let full = Seq::new(s.len() / 8, |j: int| chunk_word(s, j) as u64);
    if s.len() % 8 == 0 { full } else { full.push(tail_word(s) as u64) }
}

/// The bytes that `copy_u64_to_u8` makes of words: the eight bytes of each
/// word, least significant first, word after word.
pub open spec fn bytes_of_words(ws: Seq<u64>) -> Seq<u8>
    decreases ws.len(),
{
    if ws.len() == 0 {
        Seq::empty()
    } else {
        bytes_of_words(ws.drop_last()) + le_bytes(ws.last() as nat, 8)
    }
}

proof fn lemma_pow256_positive(n: nat)
    ensures pow256(n) > 0,
    decreases n,
{
    if n > 0 { lemma_pow256_positive((n - 1) as nat); }
}

proof fn lemma_pow256_monotone(a: nat, b: nat)
    requires a <= b,
    ensures pow256(a) <= pow256(b),
    decreases b,
{
    if a < b {
        lemma_pow256_monotone(a, (b - 1) as nat);
        lemma_pow256_positive((b - 1) as nat);
    }
}

proof fn lemma_pow256_small()
    ensures
        pow256(7) == 0x100_0000_0000_0000,
        pow256(8) == 0x1_0000_0000_0000_0000,
{
    reveal_with_fuel(pow256, 9);
}

proof fn lemma_bytes_of_words_len(ws: Seq<u64>)
    ensures bytes_of_words(ws).len() == 8 * ws.len(),
    decreases ws.len(),
{
    if ws.len() > 0 { lemma_bytes_of_words_len(ws.drop_last()); }
}

/// Appending one more byte to the little-endian bytes of `w`.
proof fn lemma_le_bytes_push(w: nat, k: nat)
    ensures le_bytes(w, k + 1) == le_bytes(w, k).push(((w / pow256(k)) % 256) as u8),
{
    assert(le_bytes(w, k + 1) =~= le_bytes(w, k).push(((w / pow256(k)) % 256) as u8));
}

/// Division by `256^(k+1)` is division by `256^k`, then by `256`.
proof fn lemma_div_pow256_step(w: nat, k: nat)
    ensures w / pow256(k + 1) == (w / pow256(k)) / 256,
{
    lemma_pow256_positive(k);
    lemma_div_denominator(w as int, pow256(k) as int, 256);
    assert(pow256(k + 1) == pow256(k) * 256) by (nonlinear_arith)
        requires pow256(k + 1) == 256 * pow256(k);
}

/// An `n`-byte string read little-endian is below `256^n`.
pub proof fn lemma_le_value_bound(s: Seq<u8>)
    ensures le_value(s) < pow256(s.len()),
    decreases s.len(),
{
    if s.len() > 0 {
        lemma_le_value_bound(s.drop_first());
    }
}

/// An `n`-byte string read big-endian is below `256^n`.
pub proof fn lemma_be_value_bound(s: Seq<u8>)
    ensures be_value(s) < pow256(s.len()),
    decreases s.len(),
{
    if s.len() > 0 {
        lemma_be_value_bound(s.drop_last());
        assert(pow256(s.len()) == 256 * pow256((s.len() - 1) as nat));
    }
}

/// Reading the `n` low bytes of `w` back gives `w` modulo `256^n`.
pub proof fn lemma_le_value_of_le_bytes(w: nat, n: nat)
    ensures le_value(le_bytes(w, n)) == w % pow256(n),
    decreases n,
{
    if n == 0 {
        assert(le_bytes(w, n) =~= Seq::<u8>::empty());
    } else {
        let b = le_bytes(w, n);
        assert forall|k: int| 0 <= k < n - 1 implies
            #[trigger] b.drop_first()[k] == le_bytes(w / 256, (n - 1) as nat)[k] by {
            lemma_pow256_positive(k as nat);
            lemma_div_denominator(w as int, 256, pow256(k as nat) as int);
            assert(256 * pow256(k as nat) == pow256((k + 1) as nat));
        }
        assert(b.drop_first() =~= le_bytes(w / 256, (n - 1) as nat));
        lemma_le_value_of_le_bytes(w / 256, (n - 1) as nat);
        lemma_pow256_positive((n - 1) as nat);
        lemma_mod_breakdown(w as int, 256, pow256((n - 1) as nat) as int);
        assert(pow256(0) == 1);
        assert(w / 1 == w);
        assert(b[0] == (w % 256) as u8);
    }
}

/// The `n` little-endian bytes of the value of an `n`-byte string are that string.
pub proof fn lemma_le_bytes_of_le_value(s: Seq<u8>)
    ensures le_bytes(le_value(s), s.len()) == s,
    decreases s.len(),
{
    if s.len() > 0 {
        let v = le_value(s);
        let r = le_value(s.drop_first());
        lemma_fundamental_div_mod_converse(v as int, 256, r as int, s[0] as int);
        lemma_le_bytes_of_le_value(s.drop_first());
        let b = le_bytes(v, s.len());
        assert forall|k: int| 0 <= k < s.len() implies #[trigger] b[k] == s[k] by {
            if k == 0 {
                assert(pow256(0) == 1);
                assert(v / 1 == v);
            } else {
                lemma_pow256_positive((k - 1) as nat);
                lemma_div_denominator(v as int, 256, pow256((k - 1) as nat) as int);
                assert(256 * pow256((k - 1) as nat) == pow256(k as nat));
                assert(v / pow256(k as nat) == r / pow256((k - 1) as nat));
                assert(le_bytes(r, (s.len() - 1) as nat)[k - 1] == s.drop_first()[k - 1]);
            }
        }
        assert(b =~= s);
    }
}

/// Bytes `8i .. 8i + 8` of the bytes of `ws` are the bytes of `ws[i]`.
proof fn lemma_bytes_of_words_chunk(ws: Seq<u64>, i: int)
    requires 0 <= i < ws.len(),
    ensures
        bytes_of_words(ws).len() == 8 * ws.len(),
        bytes_of_words(ws).subrange(8 * i, 8 * i + 8) == le_bytes(ws[i] as nat, 8),
    decreases ws.len(),
{
    lemma_bytes_of_words_len(ws);
    let prefix = ws.drop_last();
    lemma_bytes_of_words_len(prefix);
    if i < ws.len() - 1 {
        lemma_bytes_of_words_chunk(prefix, i);
        assert(bytes_of_words(ws).subrange(8 * i, 8 * i + 8)
            =~= bytes_of_words(prefix).subrange(8 * i, 8 * i + 8));
    } else {
        assert(bytes_of_words(ws).subrange(8 * i, 8 * i + 8) =~= le_bytes(ws[i] as nat, 8));
    }
}

/// Unpacking words into bytes and packing the bytes again gives back the words.
pub proof fn lemma_words_bytes_round_trip(ws: Seq<u64>)
    ensures words_of_bytes(bytes_of_words(ws)) == ws,
{
    let b = bytes_of_words(ws);
    lemma_bytes_of_words_len(ws);
    assert(b.len() % 8 == 0 && b.len() / 8 == ws.len());
    assert forall|j: int| 0 <= j < ws.len() implies #[trigger] (chunk_word(b, j) as u64) == ws[j] by {
        lemma_bytes_of_words_chunk(ws, j);
        lemma_le_value_of_le_bytes(ws[j] as nat, 8);
        lemma_pow256_small();
        assert((ws[j] as nat) % 0x1_0000_0000_0000_0000 == ws[j] as nat);
    }
    assert(words_of_bytes(b) =~= ws);
}

/// Packing a byte string whose length is a multiple of eight into words and
/// unpacking the words again gives back the bytes.
pub proof fn lemma_bytes_words_round_trip(bs: Seq<u8>)
    requires bs.len() % 8 == 0,
    ensures bytes_of_words(words_of_bytes(bs)) == bs,
    decreases bs.len(),
{
    if bs.len() > 0 {
        let n = bs.len() / 8;
        let p = bs.subrange(0, bs.len() - 8);
        let ws = words_of_bytes(bs);
        assert(p.len() % 8 == 0 && p.len() / 8 == n - 1);
        assert forall|j: int| 0 <= j < n - 1 implies #[trigger] chunk_word(bs, j) == chunk_word(p, j) by {
            assert(bs.subrange(8 * j, 8 * j + 8) =~= p.subrange(8 * j, 8 * j + 8));
        }
        assert(ws.drop_last() =~= words_of_bytes(p));
        lemma_bytes_words_round_trip(p);
        let last8 = bs.subrange(8 * (n - 1), 8 * (n - 1) + 8);
        lemma_le_value_bound(last8);
        lemma_pow256_small();
        assert(ws.last() as nat == le_value(last8));
        lemma_le_bytes_of_le_value(last8);
        assert(bs =~= p + last8);
    }
}

/// Byte order of the packing: in each full word the first of its eight bytes
/// is the least significant and the eighth the most significant; in the word
/// made of leftover bytes, the last byte of the string is the least
/// significant and the word stays below `256` to the number of leftover bytes.
pub proof fn lemma_words_byte_order(s: Seq<u8>)
    ensures
        forall|j: int| 0 <= j < s.len() / 8 ==> {
            &&& #[trigger] words_of_bytes(s)[j] % 256 == s[8 * j]
            &&& words_of_bytes(s)[j] / 0x100_0000_0000_0000 == s[8 * j + 7]
        },
        s.len() % 8 != 0 ==> {
            &&& words_of_bytes(s).last() % 256 == s.last()
            &&& words_of_bytes(s).last() < pow256((s.len() % 8) as nat)
        },
{
    lemma_pow256_small();
    assert forall|j: int| 0 <= j < s.len() / 8 implies {
        &&& #[trigger] words_of_bytes(s)[j] % 256 == s[8 * j]
        &&& words_of_bytes(s)[j] / 0x100_0000_0000_0000 == s[8 * j + 7]
    } by {
        let c = s.subrange(8 * j, 8 * j + 8);
        lemma_le_value_bound(c);
        lemma_le_bytes_of_le_value(c);
        let v = le_value(c);
        assert(words_of_bytes(s)[j] == v);
        assert(le_bytes(v, 8)[0] == c[0]);
        assert(pow256(0) == 1);
        assert(v / 1 == v);
        assert(le_bytes(v, 8)[7] == c[7]);
        assert(v / 0x100_0000_0000_0000 < 256);
    }
    if s.len() % 8 != 0 {
        let t = s.subrange(s.len() - s.len() % 8, s.len() as int);
        lemma_be_value_bound(t);
        lemma_pow256_monotone(t.len(), 8);
        assert(be_value(t) == be_value(t.drop_last()) * 256 + t.last() as nat);
        assert(words_of_bytes(s).last() == be_value(t));
    }
}

/// Byte order of the unpacking: the eight bytes of each word start with its
/// least significant byte and end with its most significant one.
pub proof fn lemma_bytes_byte_order(ws: Seq<u64>)
    ensures
        bytes_of_words(ws).len() == 8 * ws.len(),
        forall|i: int| 0 <= i < ws.len() ==> {
            &&& #[trigger] bytes_of_words(ws)[8 * i] == ws[i] % 256
            &&& bytes_of_words(ws)[8 * i + 7] == ws[i] / 0x100_0000_0000_0000
        },
{
    lemma_bytes_of_words_len(ws);
    lemma_pow256_small();
    assert forall|i: int| 0 <= i < ws.len() implies {
        &&& #[trigger] bytes_of_words(ws)[8 * i] == ws[i] % 256
        &&& bytes_of_words(ws)[8 * i + 7] == ws[i] / 0x100_0000_0000_0000
    } by {
        lemma_bytes_of_words_chunk(ws, i);
        let b = bytes_of_words(ws).subrange(8 * i, 8 * i + 8);
        assert(b[0] == bytes_of_words(ws)[8 * i]);
        assert(b[7] == bytes_of_words(ws)[8 * i + 7]);
        assert(pow256(0) == 1);
        assert(ws[i] as nat / 1 == ws[i] as nat);
        assert(ws[i] as nat / 0x100_0000_0000_0000 < 256);
    }
}

/// Packs bytes into 64-bit words: each full group of eight bytes becomes one
/// word read little-endian; bytes left over after the last full group become
/// one more word in which the last byte of `input` is the least significant.
pub fn copy_u8_to_u64(input: Vec<u8>) -> (output: Vec<u64>)
    ensures
        output@ == words_of_bytes(input@),
        output.len() == input.len() / 8 + if input.len() % 8 == 0 { 0usize } else { 1usize },
{
    let n = input.len();
    let full = n / 8;
    let mut output: Vec<u64> = Vec::with_capacity(full);
    let mut j: usize = 0;
    while j < full
        invariant
            n == input.len(),
            full == n / 8,
            j <= full,
            output@ == Seq::new(j as nat, |i: int| chunk_word(input@, i) as u64),
        decreases full - j,
    {
        let w = le_word_at(&input, 8 * j);
        output.push(w);
        j += 1;
        assert(output@ =~= Seq::new(j as nat, |i: int| chunk_word(input@, i) as u64));
    }
    let remaining = n % 8;
    if remaining > 0 {
        let start = n - remaining;
        let mut v: u64 = 0;
        let mut k: usize = start;
        while k < n
            invariant
                n == input.len(),
                start == n - n % 8,
                start <= k <= n,
                n - start < 8,
                v as nat == be_value(input@.subrange(start as int, k as int)),
            decreases n - k,
        {
            proof {
                lemma_be_value_bound(input@.subrange(start as int, k as int));
                lemma_pow256_monotone((k - start) as nat, 7);
                lemma_pow256_small();
                assert(input@.subrange(start as int, k + 1).drop_last()
                    =~= input@.subrange(start as int, k as int));
            }
            v = v * 256 + input[k] as u64;
            k += 1;
        }
        output.push(v);
    }
    proof {
        let full_seq = Seq::new((n / 8) as nat, |i: int| chunk_word(input@, i) as u64);
        if n % 8 == 0 {
            assert(output@ =~= full_seq);
        } else {
            assert(output@ =~= full_seq.push(tail_word(input@) as u64));
        }
    }
    output
}

/// The little-endian word held by bytes `start .. start + 8`.
fn le_word_at(input: &Vec<u8>, start: usize) -> (w: u64)
    requires start + 8 <= input.len(),
    ensures w as nat == le_value(input@.subrange(start as int, start + 8)),
{
    let mut w: u64 = 0;
    let mut k: usize = 8;
    while k > 0
        invariant
            k <= 8,
            start + 8 <= input.len(),
            w as nat == le_value(input@.subrange(start + k, start + 8)),
        decreases k,
    {
        k -= 1;
        proof {
            let s = input@.subrange(start + k, start + 8);
            assert(s.drop_first() =~= input@.subrange(start + k + 1, start + 8));
            lemma_le_value_bound(s.drop_first());
            lemma_pow256_monotone((7 - k) as nat, 7);
            lemma_pow256_small();
        }
        w = w * 256 + input[start + k] as u64;
    }
    w
}

/// Unpacks 64-bit words into bytes: the eight bytes of each word, least
/// significant first, word after word.
pub fn copy_u64_to_u8(input: Vec<u64>) -> (output: Vec<u8>)
    requires input.len() * 8 <= usize::MAX,
    ensures
        output@ == bytes_of_words(input@),
        output.len() == 8 * input.len(),
{
    let mut output: Vec<u8> = Vec::with_capacity(input.len() * 8);
    let mut j: usize = 0;
    while j < input.len()
        invariant
            j <= input.len(),
            output@ == bytes_of_words(input@.take(j as int)),
        decreases input.len() - j,
    {
        let value = input[j];
        let ghost before = output@;
        let mut x: u64 = value;
        let mut k: usize = 0;
        proof {
            assert(pow256(0) == 1);
            assert(value as nat / 1 == value as nat);
            assert(before + le_bytes(value as nat, 0) =~= before);
        }
        while k < 8
            invariant
                k <= 8,
                x as nat == value as nat / pow256(k as nat),
                output@ == before + le_bytes(value as nat, k as nat),
            decreases 8 - k,
        {
            proof {
                lemma_le_bytes_push(value as nat, k as nat);
                lemma_div_pow256_step(value as nat, k as nat);
            }
            output.push((x % 256) as u8);
            x = x / 256;
            k += 1;
        }
        proof {
            assert(input@.take(j + 1).drop_last() =~= input@.take(j as int));
        }
        j += 1;
    }
    proof {
        assert(input@.take(input.len() as int) =~= input@);
        lemma_bytes_of_words_len(input@);
    }
    output
}

} // verus!
