use vstd::prelude::*;

verus! {

/// `256^k`.
pub open spec fn pow256(k: nat) -> nat
    decreases k,
{
    if k == 0 {
        1
    } else {
        256 * pow256((k - 1) as nat)
    }
}

/// The `k` low-order bytes of `n`, most significant first.
pub open spec fn be_bytes(n: nat, k: nat) -> Seq<u8>
    decreases k,
{
    if k == 0 {
        Seq::empty()
    } else {
        be_bytes(n / 256, (k - 1) as nat).push((n % 256) as u8)
    }
}

/// The number that a big-endian byte string denotes.
pub open spec fn be_value(s: Seq<u8>) -> nat
    decreases s.len(),
{
    if s.len() == 0 {
        0
    } else {
        be_value(s.drop_last()) * 256 + s.last() as nat
    }
}

/// The number held by the word that starts at byte `i` of `d`.
pub open spec fn word_at(d: Seq<u8>, i: int) -> nat {
    be_value(d.subrange(i, i + 32))
}

/// Whether a whole word starts at byte `i` of `d` and holds a number no
/// larger than the length of `d`.
pub open spec fn small_word_at(d: Seq<u8>, i: int) -> bool {
    0 <= i && i + 32 <= d.len() && word_at(d, i) <= d.len()
}

/// Whether every offset and length that a decoder of the tuple
/// `(address, string, string)` follows is a word within `d` whose value does
/// not exceed the length of `d`: the offset of the tuple, the offsets of the
/// two strings in it, and the two length words they point at.
pub open spec fn inputs_lengths_fit(d: Seq<u8>) -> bool {
    small_word_at(d, 0) && {
        let o = word_at(d, 0) as int;
        small_word_at(d, o + 32) && small_word_at(d, o + 64) && small_word_at(
            d,
            o + word_at(d, o + 32),
        ) && small_word_at(d, o + word_at(d, o + 64))
    }
}

/// An ABI word holding the unsigned integer `n`.
pub open spec fn uint_word(n: nat) -> Seq<u8> {
    be_bytes(n, 32)
}

/// `n` zero bytes.
pub open spec fn zeros(n: nat) -> Seq<u8> {
    Seq::new(n, |i: int| 0u8)
}

/// The number of zero bytes that pad `len` bytes to a whole number of words.
pub open spec fn pad_len(len: nat) -> nat {
    ((32 - len % 32) % 32) as nat
}

/// A 20-byte address right-aligned in a word.
pub open spec fn address_word(a: Seq<u8>) -> Seq<u8> {
    zeros(12) + a
}

/// The tail of a dynamic `bytes` or `string` value: its length, then its
/// bytes padded with zeros to a whole number of words.
pub open spec fn dyn_tail(b: Seq<u8>) -> Seq<u8> {
    uint_word(b.len()) + b + zeros(pad_len(b.len()))
}

/// A single `string` value ABI-encoded on its own: the offset of its tail,
/// then the tail.
pub open spec fn string_abi(b: Seq<u8>) -> Seq<u8> {
    uint_word(32) + dyn_tail(b)
}

/// The tuple `(address, string, string)` ABI-encoded on its own: the offset
/// of the tuple, the address, the offsets of the two tails, then the tails.
pub open spec fn inputs_abi(sender: Seq<u8>, theorem: Seq<u8>, solution: Seq<u8>) -> Seq<u8> {
    uint_word(32) + address_word(sender) + uint_word(96) + uint_word(
        96 + dyn_tail(theorem).len(),
    ) + dyn_tail(theorem) + dyn_tail(solution)
}

/// The static tuple `(address, bytes32)` ABI-encoded: two words in place.
pub open spec fn journal_abi(sender: Seq<u8>, hash: Seq<u8>) -> Seq<u8> {
    address_word(sender) + hash
}

/// The tuple `(address, bytes32, bytes)` ABI-encoded on its own.
pub open spec fn receipt_abi(sender: Seq<u8>, hash: Seq<u8>, artifact: Seq<u8>) -> Seq<u8> {
    uint_word(32) + address_word(sender) + hash + uint_word(96) + dyn_tail(artifact)
}

pub proof fn lemma_be_bytes_len(n: nat, k: nat)
    ensures
        be_bytes(n, k).len() == k,
    decreases k,
{
    if k > 0 {
        lemma_be_bytes_len(n / 256, (k - 1) as nat);
    }
}

/// Reading back the bytes of a number that fits gives the number.
pub proof fn lemma_be_value_of_bytes(n: nat, k: nat)
    requires
        n < pow256(k),
    ensures
        be_value(be_bytes(n, k)) == n,
    decreases k,
{
    if k > 0 {
        let q = n / 256;
        let p = pow256((k - 1) as nat);
        assert(q < p) by (nonlinear_arith)
            requires
                n < 256 * p,
                q == n / 256,
        ;
        lemma_be_value_of_bytes(q, (k - 1) as nat);
        let s = be_bytes(n, k);
        assert(s.drop_last() =~= be_bytes(q, (k - 1) as nat));
        assert(q * 256 + n % 256 == n) by (nonlinear_arith)
            requires
                q == n / 256,
        ;
    }
}

/// A prefix of a big-endian byte string denotes no more than the whole.
pub proof fn lemma_be_value_prefix(s: Seq<u8>, j: int)
    requires
        0 <= j <= s.len(),
    ensures
        be_value(s.subrange(0, j)) <= be_value(s),
    decreases s.len(),
{
    if j == s.len() {
        assert(s.subrange(0, j) =~= s);
    } else {
        lemma_be_value_prefix(s.drop_last(), j);
        assert(s.drop_last().subrange(0, j) =~= s.subrange(0, j));
    }
}

pub proof fn lemma_pow256_word()
    ensures
        pow256(32) > usize::MAX,
{
    reveal_with_fuel(pow256, 33);
}

/// Words of two lengths that fit in memory are equal only if the lengths are.
pub proof fn lemma_uint_word_injective(a: nat, b: nat)
    requires
        a <= usize::MAX,
        b <= usize::MAX,
        uint_word(a) == uint_word(b),
    ensures
        a == b,
{
    lemma_pow256_word();
    lemma_be_value_of_bytes(a, 32);
    lemma_be_value_of_bytes(b, 32);
}

pub proof fn lemma_dyn_tail_len(b: Seq<u8>)
    ensures
        dyn_tail(b).len() == 32 + b.len() + pad_len(b.len()),
{
    lemma_be_bytes_len(b.len(), 32);
}

/// Two `(address, string, string)` encodings are equal only if the values are.
pub proof fn lemma_inputs_abi_injective(
    s1: Seq<u8>,
    t1: Seq<u8>,
    u1: Seq<u8>,
    s2: Seq<u8>,
    t2: Seq<u8>,
    u2: Seq<u8>,
)
    requires
        s1.len() == 20,
        s2.len() == 20,
        inputs_abi(s1, t1, u1).len() <= usize::MAX,
        inputs_abi(s1, t1, u1) == inputs_abi(s2, t2, u2),
    ensures
        s1 == s2,
        t1 == t2,
        u1 == u2,
{
    let d1 = inputs_abi(s1, t1, u1);
    let d2 = inputs_abi(s2, t2, u2);
    lemma_be_bytes_len(32, 32);
    lemma_be_bytes_len(96, 32);
    lemma_be_bytes_len(96 + dyn_tail(t1).len(), 32);
    lemma_be_bytes_len(96 + dyn_tail(t2).len(), 32);
    lemma_be_bytes_len(t1.len(), 32);
    lemma_be_bytes_len(t2.len(), 32);
    lemma_be_bytes_len(u1.len(), 32);
    lemma_be_bytes_len(u2.len(), 32);
    lemma_dyn_tail_len(t1);
    lemma_dyn_tail_len(t2);
    lemma_dyn_tail_len(u1);
    lemma_dyn_tail_len(u2);
    assert(d1.subrange(44, 64) =~= s1);
    assert(d2.subrange(44, 64) =~= s2);
    assert(d1.subrange(128, 160) =~= uint_word(t1.len()));
    assert(d2.subrange(128, 160) =~= uint_word(t2.len()));
    lemma_uint_word_injective(t1.len(), t2.len());
    let a: int = 160 + t1.len() as int;
    assert(d1.subrange(160, a) =~= t1);
    assert(d2.subrange(160, a) =~= t2);
    let b: int = 128 + dyn_tail(t1).len() as int;
    assert(d1.subrange(b, b + 32) =~= uint_word(u1.len()));
    assert(d2.subrange(b, b + 32) =~= uint_word(u2.len()));
    lemma_uint_word_injective(u1.len(), u2.len());
    assert(d1.subrange(b + 32, b + 32 + u1.len() as int) =~= u1);
    assert(d2.subrange(b + 32, b + 32 + u1.len() as int) =~= u2);
}

/// In the encoding of `(address, string, string)` the offsets and lengths
/// that a decoder follows all fit.
pub proof fn lemma_inputs_abi_lengths_fit(s: Seq<u8>, t: Seq<u8>, u: Seq<u8>)
    requires
        s.len() == 20,
        inputs_abi(s, t, u).len() <= usize::MAX,
    ensures
        inputs_lengths_fit(inputs_abi(s, t, u)),
{
    let d = inputs_abi(s, t, u);
    let tt = dyn_tail(t).len();
    lemma_pow256_word();
    lemma_be_bytes_len(32, 32);
    lemma_be_bytes_len(96, 32);
    lemma_be_bytes_len(96 + tt, 32);
    lemma_be_bytes_len(t.len(), 32);
    lemma_be_bytes_len(u.len(), 32);
    lemma_dyn_tail_len(t);
    lemma_dyn_tail_len(u);
    lemma_be_value_of_bytes(32, 32);
    lemma_be_value_of_bytes(96, 32);
    lemma_be_value_of_bytes(96 + tt, 32);
    lemma_be_value_of_bytes(t.len(), 32);
    lemma_be_value_of_bytes(u.len(), 32);
    assert(d.subrange(0, 32) =~= uint_word(32));
    assert(d.subrange(64, 96) =~= uint_word(96));
    assert(d.subrange(96, 128) =~= uint_word(96 + tt));
    assert(d.subrange(128, 160) =~= uint_word(t.len()));
    let b: int = 128 + tt as int;
    assert(d.subrange(b, b + 32) =~= uint_word(u.len()));
}

/// Two `(address, bytes32, bytes)` encodings are equal only if the values are.
pub proof fn lemma_receipt_abi_injective(
    s1: Seq<u8>,
    h1: Seq<u8>,
    p1: Seq<u8>,
    s2: Seq<u8>,
    h2: Seq<u8>,
    p2: Seq<u8>,
)
    requires
        s1.len() == 20,
        s2.len() == 20,
        h1.len() == 32,
        h2.len() == 32,
        receipt_abi(s1, h1, p1).len() <= usize::MAX,
        receipt_abi(s1, h1, p1) == receipt_abi(s2, h2, p2),
    ensures
        s1 == s2,
        h1 == h2,
        p1 == p2,
{
    let d1 = receipt_abi(s1, h1, p1);
    let d2 = receipt_abi(s2, h2, p2);
    lemma_be_bytes_len(32, 32);
    lemma_be_bytes_len(96, 32);
    lemma_be_bytes_len(p1.len(), 32);
    lemma_be_bytes_len(p2.len(), 32);
    assert(d1.subrange(44, 64) =~= s1);
    assert(d2.subrange(44, 64) =~= s2);
    assert(d1.subrange(64, 96) =~= h1);
    assert(d2.subrange(64, 96) =~= h2);
    assert(d1.subrange(128, 160) =~= uint_word(p1.len()));
    assert(d2.subrange(128, 160) =~= uint_word(p2.len()));
    lemma_uint_word_injective(p1.len(), p2.len());
    assert(d1.subrange(160, 160 + p1.len() as int) =~= p1);
    assert(d2.subrange(160, 160 + p1.len() as int) =~= p2);
}

/// Two journals are equal only if their fields are.
pub proof fn lemma_journal_abi_injective(s1: Seq<u8>, h1: Seq<u8>, s2: Seq<u8>, h2: Seq<u8>)
    requires
        s1.len() == 20,
        s2.len() == 20,
        journal_abi(s1, h1) == journal_abi(s2, h2),
    ensures
        s1 == s2,
        h1 == h2,
{
    let d1 = journal_abi(s1, h1);
    let d2 = journal_abi(s2, h2);
    assert(d1.subrange(12, 32) =~= s1);
    assert(d2.subrange(12, 32) =~= s2);
    assert(d1.subrange(32, d1.len() as int) =~= h1);
    assert(d2.subrange(32, d2.len() as int) =~= h2);
}

} // verus!
