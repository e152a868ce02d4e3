//! The mathematical model shared by every operation: a fixed-width value is a
//! little-endian sequence of bytes, read as a natural number or as a string of bits.
use vstd::prelude::*;

verus! {

/// `256^n`, the number of distinct values held by `n` bytes.
pub open spec fn pow256(n: nat) -> nat
    decreases n,
{
    if n == 0 {
        1
    } else {
        256 * pow256((n - 1) as nat)
    }
}

/// The unsigned value of a little-endian byte sequence: `sum of s[i] * 256^i`.
pub open spec fn le_value(s: Seq<u8>) -> nat
    decreases s.len(),
{
    if s.len() == 0 {
        0
    } else {
        le_value(s.drop_last()) + s.last() as nat * pow256((s.len() - 1) as nat)
    }
}

/// The `n` little-endian bytes of `v` (its value modulo `256^n`).
pub open spec fn le_bytes_of(v: nat, n: nat) -> Seq<u8> {
    Seq::new(n, |k: int| ((v / pow256(k as nat)) % 256) as u8)
}

/// The powers of 256 at the widths of the native integer types.
pub proof fn lemma_pow256_values()
    ensures
        pow256(1) == 0x100,
        pow256(2) == 0x1_0000,
        pow256(4) == 0x1_0000_0000,
        pow256(8) == 0x1_0000_0000_0000_0000,
        pow256(16) == 0x1_0000_0000_0000_0000_0000_0000_0000_0000,
{
    reveal_with_fuel(pow256, 17);
}

pub proof fn lemma_pow256_pos(n: nat)
    ensures
        pow256(n) > 0,
    decreases n,
{
    if n > 0 {
        lemma_pow256_pos((n - 1) as nat);
    }
}

pub proof fn lemma_pow256_add(a: nat, b: nat)
    ensures
        pow256(a + b) == pow256(a) * pow256(b),
    decreases b,
{
    if b > 0 {
        lemma_pow256_add(a, (b - 1) as nat);
        assert((a + b - 1) as nat == a + (b - 1) as nat);
        assert(pow256(a + b) == 256 * pow256((a + b - 1) as nat));
        assert(pow256(a) * pow256(b) == pow256(a) * (256 * pow256((b - 1) as nat)));
        assert(pow256(a) * (256 * pow256((b - 1) as nat)) == 256 * (pow256(a) * pow256(
            (b - 1) as nat,
        ))) by (nonlinear_arith);
    } else {
        assert(pow256(b) == 1);
        assert(a + b == a);
    }
}

pub proof fn lemma_pow256_monotone(a: nat, b: nat)
    requires
        a <= b,
    ensures
        pow256(a) <= pow256(b),
    decreases b,
{
    if a < b {
        lemma_pow256_monotone(a, (b - 1) as nat);
    }
}

/// A sequence of `n` bytes holds a value below `256^n`.
pub proof fn lemma_le_value_bound(s: Seq<u8>)
    ensures
        le_value(s) < pow256(s.len()),
    decreases s.len(),
{
    if s.len() > 0 {
        let n = (s.len() - 1) as nat;
        lemma_le_value_bound(s.drop_last());
        let p = pow256(n);
        let v = le_value(s.drop_last());
        let b = s.last() as nat;
        assert(v + b * p < 256 * p) by (nonlinear_arith)
            requires
                v < p,
                b < 256,
        ;
    }
}

/// Extending a prefix by one byte adds that byte at its positional weight.
pub proof fn lemma_le_value_take(s: Seq<u8>, i: int)
    requires
        0 <= i < s.len(),
    ensures
        le_value(s.take(i + 1)) == le_value(s.take(i)) + s[i] as nat * pow256(i as nat),
{
    assert(s.take(i + 1).drop_last() =~= s.take(i));
}

/// Replacing one byte changes the value by the difference at that byte's weight.
pub proof fn lemma_le_value_update(s: Seq<u8>, j: int, x: u8)
    requires
        0 <= j < s.len(),
    ensures
        le_value(s.update(j, x)) + s[j] as nat * pow256(j as nat) == le_value(s) + x as nat
            * pow256(j as nat),
    decreases s.len(),
{
    let t = s.update(j, x);
    if j == s.len() - 1 {
        assert(t.drop_last() =~= s.drop_last());
    } else {
        lemma_le_value_update(s.drop_last(), j, x);
        assert(t.drop_last() =~= s.drop_last().update(j, x));
    }
}

/// The first `k` bytes hold the value modulo `256^k`.
pub proof fn lemma_le_value_take_mod(s: Seq<u8>, k: nat)
    requires
        k <= s.len(),
    ensures
        le_value(s.take(k as int)) == le_value(s) % pow256(k),
    decreases s.len(),
{
    lemma_pow256_pos(k);
    if k == s.len() {
        assert(s.take(k as int) =~= s);
        lemma_le_value_bound(s);
        vstd::arithmetic::div_mod::lemma_small_mod(le_value(s), pow256(k));
    } else {
        let n = (s.len() - 1) as nat;
        let t = s.drop_last();
        lemma_le_value_take_mod(t, k);
        assert(t.take(k as int) =~= s.take(k as int));
        lemma_pow256_add(k, (n - k) as nat);
        let pk = pow256(k);
        let q = pow256((n - k) as nat);
        let b = s.last() as int;
        assert(le_value(s) == le_value(t) + (b * q) * pk) by (nonlinear_arith)
            requires
                le_value(s) == le_value(t) + b * pow256(n),
                pow256(n) == pk * q,
        ;
        vstd::arithmetic::div_mod::lemma_mod_multiples_vanish(b * q, le_value(t) as int, pk as int);
        assert(le_value(s) as int == pk * (b * q) + le_value(t)) by (nonlinear_arith)
            requires
                le_value(s) == le_value(t) + (b * q) * pk,
        ;
    }
}

/// Two byte sequences of one length with one value are the same sequence.
pub proof fn lemma_le_value_injective(s: Seq<u8>, t: Seq<u8>)
    requires
        s.len() == t.len(),
        le_value(s) == le_value(t),
    ensures
        s == t,
    decreases s.len(),
{
    if s.len() > 0 {
        let n = (s.len() - 1) as nat;
        let p = pow256(n) as int;
        lemma_pow256_pos(n);
        lemma_le_value_bound(s.drop_last());
        lemma_le_value_bound(t.drop_last());
        vstd::arithmetic::div_mod::lemma_fundamental_div_mod_converse(
            le_value(s) as int,
            p,
            s.last() as int,
            le_value(s.drop_last()) as int,
        );
        vstd::arithmetic::div_mod::lemma_fundamental_div_mod_converse(
            le_value(t) as int,
            p,
            t.last() as int,
            le_value(t.drop_last()) as int,
        );
        lemma_le_value_injective(s.drop_last(), t.drop_last());
        assert(s =~= t.drop_last().push(t.last()));
        assert(t =~= t.drop_last().push(t.last()));
    }
}

/// The bytes of `v` read back give `v` modulo `256^n`.
pub proof fn lemma_le_bytes_of_value(v: nat, n: nat)
    ensures
        le_bytes_of(v, n).len() == n,
        le_value(le_bytes_of(v, n)) == v % pow256(n),
    decreases n,
{
    lemma_pow256_pos(n);
    if n == 0 {
        assert(le_bytes_of(v, n) =~= Seq::<u8>::empty());
    } else {
        let m = (n - 1) as nat;
        let s = le_bytes_of(v, n);
        lemma_le_bytes_of_value(v, m);
        assert(s.drop_last() =~= le_bytes_of(v, m));
        lemma_pow256_pos(m);
        let p = pow256(m) as int;
        vstd::arithmetic::div_mod::lemma_mod_breakdown(v as int, p, 256);
        assert(pow256(n) == p * 256);
        vstd::arithmetic::div_mod::lemma_mod_pos_bound((v / pow256(m)) as int, 256);
        assert(s.last() as int == (v / pow256(m)) % 256);
        assert(le_value(s) == v % pow256(m) + ((v / pow256(m)) % 256) * p);
        let d = ((v as int / p) % 256);
        assert(d * p == p * d) by (nonlinear_arith);
    }
}

/// The bytes of a sequence's value are the sequence itself.
pub proof fn lemma_le_value_bytes(s: Seq<u8>)
    ensures
        le_bytes_of(le_value(s), s.len()) == s,
{
    lemma_le_bytes_of_value(le_value(s), s.len());
    lemma_le_value_bound(s);
    vstd::arithmetic::div_mod::lemma_small_mod(le_value(s), pow256(s.len()));
    lemma_le_value_injective(le_bytes_of(le_value(s), s.len()), s);
}

/// Bit `j` of byte `b`, counting from the least significant.
pub open spec fn byte_bit(b: u8, j: u8) -> bool {
    (b >> j) & 1u8 == 1u8
}

/// Bit `k` of a little-endian byte sequence, counting from the least
/// significant bit of its first byte; false outside the sequence.
pub open spec fn bit_at(s: Seq<u8>, k: int) -> bool {
    0 <= k < 8 * s.len() && byte_bit(s[k / 8], (k % 8) as u8)
}

/// Bit `8 * i + j` of a sequence is bit `j` of its byte `i`.
pub proof fn lemma_bit_at_index(s: Seq<u8>, i: int, j: int)
    requires
        0 <= i < s.len(),
        0 <= j < 8,
    ensures
        bit_at(s, 8 * i + j) == byte_bit(s[i], j as u8),
{
    vstd::arithmetic::div_mod::lemma_fundamental_div_mod_converse(8 * i + j, 8, i, j);
}

/// Appending a byte leaves the bits before it as they were.
pub proof fn lemma_bit_at_push(s: Seq<u8>, x: u8, k: int)
    requires
        0 <= k < 8 * s.len(),
    ensures
        bit_at(s.push(x), k) == bit_at(s, k),
{
    vstd::arithmetic::div_mod::lemma_fundamental_div_mod(k, 8);
    vstd::arithmetic::div_mod::lemma_mod_pos_bound(k, 8);
}

/// No bit of a zero byte is set.
pub proof fn lemma_zero_byte_bits(j: u8)
    ensures
        !byte_bit(0, j),
{
    assert(((0u8 >> j) & 1u8) != 1u8) by (bit_vector);
}

/// A byte is determined by its eight bits.
proof fn lemma_byte_from_bits(x: u8, y: u8)
    by (bit_vector)
    requires
        byte_bit(x, 0) == byte_bit(y, 0),
        byte_bit(x, 1) == byte_bit(y, 1),
        byte_bit(x, 2) == byte_bit(y, 2),
        byte_bit(x, 3) == byte_bit(y, 3),
        byte_bit(x, 4) == byte_bit(y, 4),
        byte_bit(x, 5) == byte_bit(y, 5),
        byte_bit(x, 6) == byte_bit(y, 6),
        byte_bit(x, 7) == byte_bit(y, 7),
    ensures
        x == y,
{
}

/// Two byte sequences of one length that agree on every bit are equal.
pub proof fn lemma_bits_extensional(s: Seq<u8>, t: Seq<u8>)
    requires
        s.len() == t.len(),
        forall|k: int| 0 <= k < 8 * s.len() ==> bit_at(s, k) == bit_at(t, k),
    ensures
        s == t,
{
    assert forall|i: int| 0 <= i < s.len() implies s[i] == t[i] by {
        lemma_bit_at_index(s, i, 0);
        lemma_bit_at_index(t, i, 0);
        assert(bit_at(s, 8 * i + 0) == bit_at(t, 8 * i + 0));
        lemma_bit_at_index(s, i, 1);
        lemma_bit_at_index(t, i, 1);
        assert(bit_at(s, 8 * i + 1) == bit_at(t, 8 * i + 1));
        lemma_bit_at_index(s, i, 2);
        lemma_bit_at_index(t, i, 2);
        assert(bit_at(s, 8 * i + 2) == bit_at(t, 8 * i + 2));
        lemma_bit_at_index(s, i, 3);
        lemma_bit_at_index(t, i, 3);
        assert(bit_at(s, 8 * i + 3) == bit_at(t, 8 * i + 3));
        lemma_bit_at_index(s, i, 4);
        lemma_bit_at_index(t, i, 4);
        assert(bit_at(s, 8 * i + 4) == bit_at(t, 8 * i + 4));
        lemma_bit_at_index(s, i, 5);
        lemma_bit_at_index(t, i, 5);
        assert(bit_at(s, 8 * i + 5) == bit_at(t, 8 * i + 5));
        lemma_bit_at_index(s, i, 6);
        lemma_bit_at_index(t, i, 6);
        assert(bit_at(s, 8 * i + 6) == bit_at(t, 8 * i + 6));
        lemma_bit_at_index(s, i, 7);
        lemma_bit_at_index(t, i, 7);
        assert(bit_at(s, 8 * i + 7) == bit_at(t, 8 * i + 7));
        lemma_byte_from_bits(s[i], t[i]);
    }
    assert(s =~= t);
}

} // verus!
