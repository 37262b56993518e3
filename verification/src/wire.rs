//! Fixed-width integers in either byte order.

use vstd::prelude::*;
use vstd::arithmetic::div_mod::lemma_fundamental_div_mod_converse;

verus! {

/// The order in which the bytes of a multi-byte field are laid out.
#[derive(Clone, Copy, Debug, PartialEq, Eq, Structural)]
pub enum ByteOrder {
    /// Most significant byte first.
    Big,
    /// Least significant byte first.
    Little,
}

/// The 32-bit value whose bytes are `b3 b2 b1 b0`, most significant first.
pub open spec fn word_of(b3: u8, b2: u8, b1: u8, b0: u8) -> u32 {
    (b3 as int * 0x100_0000 + b2 as int * 0x1_0000 + b1 as int * 0x100 + b0 as int) as u32
}

/// Byte `k` of `v`, where byte 0 is the least significant.
pub open spec fn byte_of(v: u32, k: int) -> u8 {
    if k == 0 {
        (v as int % 0x100) as u8
    } else if k == 1 {
        (v as int / 0x100 % 0x100) as u8
    } else if k == 2 {
        (v as int / 0x1_0000 % 0x100) as u8
    } else {
        (v as int / 0x100_0000) as u8
    }
}

/// The 32-bit field that starts at position `p` of `s`.
pub open spec fn u32_at(s: Seq<u8>, p: int, order: ByteOrder) -> u32
    recommends
        0 <= p,
        p + 4 <= s.len(),
{
    match order {
        ByteOrder::Big => word_of(s[p], s[p + 1], s[p + 2], s[p + 3]),
        ByteOrder::Little => word_of(s[p + 3], s[p + 2], s[p + 1], s[p]),
    }
}

/// The four bytes that hold `v` in the given order.
pub open spec fn u32_bytes(v: u32, order: ByteOrder) -> Seq<u8> {
    match order {
        ByteOrder::Big => seq![byte_of(v, 3), byte_of(v, 2), byte_of(v, 1), byte_of(v, 0)],
        ByteOrder::Little => seq![byte_of(v, 0), byte_of(v, 1), byte_of(v, 2), byte_of(v, 3)],
    }
}

/// The 64-bit field that starts at position `p` of `s`.
pub open spec fn u64_at(s: Seq<u8>, p: int, order: ByteOrder) -> u64
    recommends
        0 <= p,
        p + 8 <= s.len(),
{
    match order {
        ByteOrder::Big => (u32_at(s, p, order) as int * 0x1_0000_0000 + u32_at(
            s,
            p + 4,
            order,
        ) as int) as u64,
        ByteOrder::Little => (u32_at(s, p + 4, order) as int * 0x1_0000_0000 + u32_at(
            s,
            p,
            order,
        ) as int) as u64,
    }
}

/// The eight bytes that hold `v` in the given order.
pub open spec fn u64_bytes(v: u64, order: ByteOrder) -> Seq<u8> {
    let high = (v as int / 0x1_0000_0000) as u32;
    let low = (v as int % 0x1_0000_0000) as u32;
    match order {
        ByteOrder::Big => u32_bytes(high, order) + u32_bytes(low, order),
        ByteOrder::Little => u32_bytes(low, order) + u32_bytes(high, order),
    }
}

/// The signed reading of a 32-bit pattern (two's complement).
pub open spec fn signed_of(v: u32) -> i32 {
    if v < 0x8000_0000 {
        v as i32
    } else {
        (v as int - 0x1_0000_0000) as i32
    }
}

/// The 32-bit pattern of a signed value (two's complement).
pub open spec fn pattern_of(v: i32) -> u32 {
    if v >= 0 {
        v as u32
    } else {
        (v as int + 0x1_0000_0000) as u32
    }
}

/// The number of bytes that are left in a buffer of `len` bytes from
/// position `p` on.
pub open spec fn left(len: nat, p: int) -> nat {
    if 0 <= p <= len {
        (len - p) as nat
    } else {
        0
    }
}

/// `s` holds the bytes `enc` from position `p` on.
pub open spec fn holds_at(s: Seq<u8>, p: int, enc: Seq<u8>) -> bool {
    &&& 0 <= p
    &&& p + enc.len() <= s.len()
    &&& forall|i: int| 0 <= i < enc.len() ==> s[p + i] == #[trigger] enc[i]
}

/// The bytes that hold the 32-bit values `words`, one after another.
pub open spec fn words_bytes(words: Seq<u32>, order: ByteOrder) -> Seq<u8>
    decreases words.len(),
{
    if words.len() == 0 {
        Seq::empty()
    } else {
        words_bytes(words.drop_last(), order) + u32_bytes(words.last(), order)
    }
}

/// The `n` consecutive 32-bit fields that start at position `p` of `s`.
pub open spec fn words_at(s: Seq<u8>, p: int, n: nat, order: ByteOrder) -> Seq<u32> {
    Seq::new(n, |i: int| u32_at(s, p + 4 * i, order))
}

/// A run of `n` NUL bytes.
pub open spec fn zeros(n: nat) -> Seq<u8> {
    Seq::new(n, |i: int| 0u8)
}

/// Where `s` holds `a + b` at `p`, it holds `a` at `p` and `b` right after.
pub proof fn lemma_holds_split(s: Seq<u8>, p: int, a: Seq<u8>, b: Seq<u8>)
    requires
        holds_at(s, p, a + b),
    ensures
        holds_at(s, p, a),
        holds_at(s, p + a.len(), b),
{
    let e = a + b;
    assert forall|i: int| 0 <= i < a.len() implies s[p + i] == #[trigger] a[i] by {
        assert(e[i] == a[i]);
    }
    assert forall|i: int| 0 <= i < b.len() implies s[p + a.len() + i] == #[trigger] b[i] by {
        assert(e[a.len() + i] == b[i]);
    }
}

/// What a sequence holds, it still holds after more bytes are appended.
pub proof fn lemma_holds_extend(s: Seq<u8>, p: int, enc: Seq<u8>, more: Seq<u8>)
    requires
        holds_at(s, p, enc),
    ensures
        holds_at(s + more, p, enc),
{
    assert forall|i: int| 0 <= i < enc.len() implies (s + more)[p + i] == #[trigger] enc[i] by {
        assert(s[p + i] == enc[i]);
    }
}

/// The bytes of `n` words are `4 * n` bytes.
pub proof fn lemma_words_len(words: Seq<u32>, order: ByteOrder)
    ensures
        words_bytes(words, order).len() == 4 * words.len(),
    decreases words.len(),
{
    if words.len() > 0 {
        lemma_words_len(words.drop_last(), order);
    }
}

/// Reading back the bytes of a run of 32-bit values gives the values.
pub proof fn lemma_words_round_trip(s: Seq<u8>, p: int, words: Seq<u32>, order: ByteOrder)
    requires
        holds_at(s, p, words_bytes(words, order)),
    ensures
        words_at(s, p, words.len(), order) == words,
    decreases words.len(),
{
    if words.len() > 0 {
        let front = words.drop_last();
        lemma_words_len(front, order);
        lemma_holds_split(s, p, words_bytes(front, order), u32_bytes(words.last(), order));
        lemma_words_round_trip(s, p, front, order);
        lemma_u32_round_trip(s, p + 4 * front.len(), words.last(), order);
        assert forall|i: int| 0 <= i < words.len() implies words_at(s, p, words.len(), order)[i]
            == words[i] by {
            if i < front.len() {
                assert(words_at(s, p, front.len(), order)[i] == front[i]);
            }
        }
    }
    assert(words_at(s, p, words.len(), order) =~= words);
}

/// Reading back the bytes of a 32-bit value gives the value.
pub proof fn lemma_u32_round_trip(s: Seq<u8>, p: int, v: u32, order: ByteOrder)
    requires
        holds_at(s, p, u32_bytes(v, order)),
    ensures
        u32_at(s, p, order) == v,
{
    let e = u32_bytes(v, order);
    assert(s[p + 0] == e[0]);
    assert(s[p + 1] == e[1]);
    assert(s[p + 2] == e[2]);
    assert(s[p + 3] == e[3]);
}

/// The bytes of a 32-bit value that is made of four bytes are those bytes.
pub proof fn lemma_bytes_of_word(b3: u8, b2: u8, b1: u8, b0: u8)
    ensures
        byte_of(word_of(b3, b2, b1, b0), 3) == b3,
        byte_of(word_of(b3, b2, b1, b0), 2) == b2,
        byte_of(word_of(b3, b2, b1, b0), 1) == b1,
        byte_of(word_of(b3, b2, b1, b0), 0) == b0,
{
    let w: int = b3 as int * 0x100_0000 + b2 as int * 0x1_0000 + b1 as int * 0x100 + b0 as int;
    assert(word_of(b3, b2, b1, b0) as int == w);
    lemma_fundamental_div_mod_converse(
        w,
        0x100,
        b3 as int * 0x1_0000 + b2 as int * 0x100 + b1 as int,
        b0 as int,
    );
    lemma_fundamental_div_mod_converse(
        b3 as int * 0x1_0000 + b2 as int * 0x100 + b1 as int,
        0x100,
        b3 as int * 0x100 + b2 as int,
        b1 as int,
    );
    lemma_fundamental_div_mod_converse(
        w,
        0x1_0000,
        b3 as int * 0x100 + b2 as int,
        b1 as int * 0x100 + b0 as int,
    );
    lemma_fundamental_div_mod_converse(b3 as int * 0x100 + b2 as int, 0x100, b3 as int, b2 as int);
    lemma_fundamental_div_mod_converse(
        w,
        0x100_0000,
        b3 as int,
        b2 as int * 0x1_0000 + b1 as int * 0x100 + b0 as int,
    );
}

/// Two neighbouring ranges of a sequence make up the range that spans
/// both.
pub proof fn lemma_subrange_join(s: Seq<u8>, a: int, b: int, c: int)
    requires
        0 <= a <= b <= c <= s.len(),
    ensures
        s.subrange(a, b) + s.subrange(b, c) == s.subrange(a, c),
{
    assert(s.subrange(a, b) + s.subrange(b, c) =~= s.subrange(a, c));
}

/// Writing the 32-bit value that is read at a position gives the four
/// bytes at that position.
pub proof fn lemma_u32_kept(s: Seq<u8>, p: int, order: ByteOrder)
    requires
        0 <= p,
        p + 4 <= s.len(),
    ensures
        u32_bytes(u32_at(s, p, order), order) == s.subrange(p, p + 4),
{
    lemma_bytes_of_word(s[p], s[p + 1], s[p + 2], s[p + 3]);
    lemma_bytes_of_word(s[p + 3], s[p + 2], s[p + 1], s[p]);
    assert(u32_bytes(u32_at(s, p, order), order) =~= s.subrange(p, p + 4));
}

/// Writing the 64-bit value that is read at a position gives the eight
/// bytes at that position.
pub proof fn lemma_u64_kept(s: Seq<u8>, p: int, order: ByteOrder)
    requires
        0 <= p,
        p + 8 <= s.len(),
    ensures
        u64_bytes(u64_at(s, p, order), order) == s.subrange(p, p + 8),
{
    lemma_u32_kept(s, p, order);
    lemma_u32_kept(s, p + 4, order);
    lemma_subrange_join(s, p, p + 4, p + 8);
    let first = u32_at(s, p, order);
    let second = u32_at(s, p + 4, order);
    let v = u64_at(s, p, order);
    match order {
        ByteOrder::Big => {
            assert((v as int / 0x1_0000_0000) as u32 == first);
            assert((v as int % 0x1_0000_0000) as u32 == second);
        },
        ByteOrder::Little => {
            assert((v as int / 0x1_0000_0000) as u32 == second);
            assert((v as int % 0x1_0000_0000) as u32 == first);
        },
    }
}

/// Writing the 32-bit values that are read at a position gives the bytes
/// at that position.
pub proof fn lemma_words_kept(s: Seq<u8>, p: int, n: nat, order: ByteOrder)
    requires
        0 <= p,
        p + 4 * n <= s.len(),
    ensures
        words_bytes(words_at(s, p, n, order), order) == s.subrange(p, p + 4 * n),
    decreases n,
{
    let ws = words_at(s, p, n, order);
    if n == 0 {
        assert(words_bytes(ws, order) =~= s.subrange(p, p));
    } else {
        assert(ws.drop_last() =~= words_at(s, p, (n - 1) as nat, order));
        lemma_words_kept(s, p, (n - 1) as nat, order);
        lemma_u32_kept(s, p + 4 * (n - 1), order);
        lemma_subrange_join(s, p, p + 4 * (n - 1), p + 4 * n);
    }
}

/// Reading back the bytes of a 64-bit value gives the value.
pub proof fn lemma_u64_round_trip(s: Seq<u8>, p: int, v: u64, order: ByteOrder)
    requires
        holds_at(s, p, u64_bytes(v, order)),
    ensures
        u64_at(s, p, order) == v,
{
    let high = (v as int / 0x1_0000_0000) as u32;
    let low = (v as int % 0x1_0000_0000) as u32;
    let e = u64_bytes(v, order);
    match order {
        ByteOrder::Big => {
            assert forall|i: int| 0 <= i < 4 implies s[p + i] == #[trigger] u32_bytes(
                high,
                order,
            )[i] by {
                assert(e[i] == u32_bytes(high, order)[i]);
            }
            assert forall|i: int| 0 <= i < 4 implies s[p + 4 + i] == #[trigger] u32_bytes(
                low,
                order,
            )[i] by {
                assert(e[4 + i] == u32_bytes(low, order)[i]);
            }
            lemma_u32_round_trip(s, p, high, order);
            lemma_u32_round_trip(s, p + 4, low, order);
        },
        ByteOrder::Little => {
            assert forall|i: int| 0 <= i < 4 implies s[p + i] == #[trigger] u32_bytes(
                low,
                order,
            )[i] by {
                assert(e[i] == u32_bytes(low, order)[i]);
            }
            assert forall|i: int| 0 <= i < 4 implies s[p + 4 + i] == #[trigger] u32_bytes(
                high,
                order,
            )[i] by {
                assert(e[4 + i] == u32_bytes(high, order)[i]);
            }
            lemma_u32_round_trip(s, p, low, order);
            lemma_u32_round_trip(s, p + 4, high, order);
        },
    }
}

/// The two readings of a 32-bit pattern, signed and unsigned, determine each other.
pub proof fn lemma_signed_round_trip(v: i32, w: u32)
    ensures
        signed_of(pattern_of(v)) == v,
        pattern_of(signed_of(w)) == w,
{
}

/// Reads the 32-bit field at `pos`.
pub(crate) fn read_u32(bytes: &[u8], pos: usize, order: ByteOrder) -> (v: u32)
    requires
        pos + 4 <= bytes.len(),
    ensures
        v == u32_at(bytes@, pos as int, order),
{
    let a: u32 = bytes[pos] as u32;
    let b: u32 = bytes[pos + 1] as u32;
    let c: u32 = bytes[pos + 2] as u32;
    let d: u32 = bytes[pos + 3] as u32;
    match order {
        ByteOrder::Big => a * 0x100_0000 + b * 0x1_0000 + c * 0x100 + d,
        ByteOrder::Little => d * 0x100_0000 + c * 0x1_0000 + b * 0x100 + a,
    }
}

/// Reads the 64-bit field at `pos`.
pub(crate) fn read_u64(bytes: &[u8], pos: usize, order: ByteOrder) -> (v: u64)
    requires
        pos + 8 <= bytes.len(),
    ensures
        v == u64_at(bytes@, pos as int, order),
{
    let first: u64 = read_u32(bytes, pos, order) as u64;
    let second: u64 = read_u32(bytes, pos + 4, order) as u64;
    match order {
        ByteOrder::Big => first * 0x1_0000_0000 + second,
        ByteOrder::Little => second * 0x1_0000_0000 + first,
    }
}

/// The signed reading of a 32-bit pattern.
pub fn to_signed(v: u32) -> (r: i32)
    ensures
        r == signed_of(v),
{
    if v < 0x8000_0000 {
        v as i32
    } else {
        let rest: u32 = v - 0x8000_0000;
        (rest as i32) - 0x7fff_ffff - 1
    }
}

/// The 32-bit pattern of a signed value.
pub fn to_pattern(v: i32) -> (r: u32)
    ensures
        r == pattern_of(v),
{
    if v >= 0 {
        v as u32
    } else {
        let rest: i32 = v + 0x7fff_ffff + 1;
        (rest as u32) + 0x8000_0000
    }
}

/// Appends the four bytes of `v` to `out`.
pub fn put_u32(out: &mut Vec<u8>, v: u32, order: ByteOrder)
    ensures
        final(out)@ == old(out)@ + u32_bytes(v, order),
{
    let b0: u8 = (v % 0x100) as u8;
    let b1: u8 = (v / 0x100 % 0x100) as u8;
    let b2: u8 = (v / 0x1_0000 % 0x100) as u8;
    let b3: u8 = (v / 0x100_0000) as u8;
    match order {
        ByteOrder::Big => {
            out.push(b3);
            out.push(b2);
            out.push(b1);
            out.push(b0);
        },
        ByteOrder::Little => {
            out.push(b0);
            out.push(b1);
            out.push(b2);
            out.push(b3);
        },
    }
    assert(out@ =~= old(out)@ + u32_bytes(v, order));
}

/// Appends the eight bytes of `v` to `out`.
pub fn put_u64(out: &mut Vec<u8>, v: u64, order: ByteOrder)
    ensures
        final(out)@ == old(out)@ + u64_bytes(v, order),
{
    let high: u32 = (v / 0x1_0000_0000) as u32;
    let low: u32 = (v % 0x1_0000_0000) as u32;
    match order {
        ByteOrder::Big => {
            put_u32(out, high, order);
            put_u32(out, low, order);
        },
        ByteOrder::Little => {
            put_u32(out, low, order);
            put_u32(out, high, order);
        },
    }
    assert(out@ =~= old(out)@ + u64_bytes(v, order));
}

/// Appends the bytes of the 32-bit values `words`, in their order, to `out`.
pub fn put_words(out: &mut Vec<u8>, words: &[u32], order: ByteOrder)
    ensures
        final(out)@ == old(out)@ + words_bytes(words@, order),
{
    let mut i: usize = 0;
    assert(words@.take(0).len() == 0);
    assert(out@ =~= old(out)@ + words_bytes(words@.take(0), order));
    while i < words.len()
        invariant
            i <= words.len(),
            out@ == old(out)@ + words_bytes(words@.take(i as int), order),
        decreases words.len() - i,
    {
        let ghost before = words@.take(i as int);
        put_u32(out, words[i], order);
        i += 1;
        proof {
            let now = words@.take(i as int);
            assert(now.drop_last() =~= before);
            assert(out@ =~= old(out)@ + words_bytes(now, order));
        }
    }
    assert(words@.take(i as int) =~= words@);
}

/// The bytes of the 32-bit values `words`, in their order.
pub fn bytes_of_words(words: &[u32], order: ByteOrder) -> (out: Vec<u8>)
    ensures
        out@ == words_bytes(words@, order),
{
    let mut out: Vec<u8> = Vec::new();
    put_words(&mut out, words, order);
    assert(out@ =~= words_bytes(words@, order));
    out
}

/// Appends `n` NUL bytes to `out`.
pub fn put_zeros(out: &mut Vec<u8>, n: usize)
    ensures
        final(out)@ == old(out)@ + zeros(n as nat),
{
    let mut i: usize = 0;
    assert(out@ =~= old(out)@ + zeros(0));
    while i < n
        invariant
            i <= n,
            out@ == old(out)@ + zeros(i as nat),
        decreases n - i,
    {
        out.push(0u8);
        i += 1;
        assert(out@ =~= old(out)@ + zeros(i as nat));
    }
}

/// Appends `bytes` to `out`.
pub fn put_bytes(out: &mut Vec<u8>, bytes: &[u8])
    ensures
        final(out)@ == old(out)@ + bytes@,
{
    let mut i: usize = 0;
    assert(out@ =~= old(out)@ + bytes@.take(0));
    while i < bytes.len()
        invariant
            i <= bytes.len(),
            out@ == old(out)@ + bytes@.take(i as int),
        decreases bytes.len() - i,
    {
        out.push(bytes[i]);
        i += 1;
        assert(out@ =~= old(out)@ + bytes@.take(i as int));
    }
    assert(bytes@.take(i as int) =~= bytes@);
}

} // verus!
