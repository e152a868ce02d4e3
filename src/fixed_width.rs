//! Fixed-width values and their little-endian byte views.
//!
//! Every native integer type of 8 to 128 bits, signed or unsigned, is a
//! `FixedWidth` value: a bit pattern of `byte_width()` bytes. The operations of
//! this library read only that bit pattern, through the byte buffer of
//! `value_to_bytes`, and build their results back with `bytes_to_value`.
use vstd::prelude::*;
use crate::model::{le_bytes_of, le_value, lemma_le_bytes_of_value, lemma_le_value_bound, lemma_le_value_bytes, lemma_le_value_take, lemma_pow256_monotone, lemma_pow256_pos, lemma_pow256_values, pow256};

verus! {

/// A value whose bit pattern is a fixed number of bytes.
pub trait FixedWidth: Sized + Copy {
    /// The declared width in bytes.
    spec fn byte_width() -> nat;

    /// The bit pattern read as an unsigned number (two's complement for signed types).
    spec fn bits_value(self) -> nat;

    proof fn lemma_width()
        ensures
            1 <= Self::byte_width() <= 16,
    ;

    proof fn lemma_bits_bound(x: Self)
        ensures
            x.bits_value() < pow256(Self::byte_width()),
    ;

    /// A value is determined by its bit pattern.
    proof fn lemma_bits_injective(x: Self, y: Self)
        ensures
            x.bits_value() == y.bits_value() ==> x == y,
    ;

    fn width_in_bytes() -> (r: usize)
        ensures
            r == Self::byte_width(),
    ;

    fn to_bits(self) -> (r: u128)
        ensures
            r == self.bits_value(),
    ;

    fn from_bits(v: u128) -> (r: Self)
        requires
            v < pow256(Self::byte_width()),
        ensures
            r.bits_value() == v,
    ;
}

/// `2^(8W)`: every operation of the library wraps modulo this.
pub open spec fn modulus<T: FixedWidth>() -> nat {
    pow256(T::byte_width())
}

/// The number of bits of `T`.
pub open spec fn bit_width<T: FixedWidth>() -> nat {
    8 * T::byte_width()
}

/// The little-endian bytes of `x`, least significant first.
pub open spec fn bytes_of<T: FixedWidth>(x: T) -> Seq<u8> {
    le_bytes_of(x.bits_value(), T::byte_width())
}

/// `n` zero bytes.
pub fn zero_bytes(n: usize) -> (r: Vec<u8>)
    ensures
        r@.len() == n,
        le_value(r@) == 0,
        forall|i: int| 0 <= i < n ==> r@[i] == 0,
{
    let mut r: Vec<u8> = Vec::new();
    let mut i: usize = 0;
    while i < n
        invariant
            i <= n,
            r@.len() == i,
            le_value(r@) == 0,
            forall|j: int| 0 <= j < i ==> r@[j] == 0,
        decreases n - i,
    {
        let ghost before = r@;
        r.push(0);
        proof {
            assert(r@.drop_last() =~= before);
            assert(le_value(r@) == le_value(before) + 0 * pow256(i as nat));
        }
        i = i + 1;
    }
    r
}

/// The low `n` bytes of `v`, least significant first.
pub fn u128_to_le_bytes(v: u128, n: usize) -> (r: Vec<u8>)
    ensures
        r@ == le_bytes_of(v as nat, n as nat),
{
    let mut r: Vec<u8> = Vec::new();
    let mut rest: u128 = v;
    let mut i: usize = 0;
    assert(pow256(0) == 1);
    assert(v as nat / 1 == v as nat);
    while i < n
        invariant
            i <= n,
            rest == v as nat / pow256(i as nat),
            r@ =~= le_bytes_of(v as nat, i as nat),
        decreases n - i,
    {
        proof {
            lemma_pow256_pos(i as nat);
            vstd::arithmetic::div_mod::lemma_div_denominator(v as int, pow256(i as nat) as int, 256);
            assert(pow256((i + 1) as nat) == pow256(i as nat) * 256);
        }
        r.push((rest % 256) as u8);
        rest = rest / 256;
        i = i + 1;
        proof {
            assert forall|k: int| 0 <= k < i implies r@[k] == le_bytes_of(v as nat, i as nat)[k] by {
                if k < i - 1 {
                    assert(r@[k] == le_bytes_of(v as nat, (i - 1) as nat)[k]);
                }
            }
        }
    }
    r
}

/// The unsigned value of at most sixteen little-endian bytes.
pub fn le_bytes_to_u128(b: &[u8]) -> (r: u128)
    requires
        b@.len() <= 16,
    ensures
        r == le_value(b@),
{
    let n = b.len();
    let mut acc: u128 = 0;
    let mut weight: u128 = 1;
    let mut i: usize = 0;
    while i < n
        invariant
            n == b@.len() <= 16,
            i <= n,
            acc == le_value(b@.take(i as int)),
            i < n ==> weight == pow256(i as nat),
        decreases n - i,
    {
        proof {
            lemma_le_value_take(b@, i as int);
            lemma_le_value_bound(b@.take(i + 1));
            lemma_pow256_monotone((i + 1) as nat, 16);
            lemma_pow256_values();
        }
        acc = acc + (b[i] as u128) * weight;
        if i + 1 < n {
            proof {
                lemma_pow256_monotone((i + 1) as nat, 15);
                assert(pow256((i + 1) as nat) == 256 * pow256(i as nat));
                reveal_with_fuel(pow256, 16);
            }
            weight = weight * 256;
        }
        i = i + 1;
    }
    assert(b@.take(n as int) =~= b@);
    acc
}

/// The byte view of `x`: `byte_width()` bytes, least significant first.
pub fn value_to_bytes<T: FixedWidth>(x: T) -> (r: Vec<u8>)
    ensures
        r@ == bytes_of(x),
        r@.len() == T::byte_width(),
        le_value(r@) == x.bits_value(),
{
    proof {
        lemma_bytes_of_value(x);
    }
    u128_to_le_bytes(x.to_bits(), T::width_in_bytes())
}

/// The value whose byte view is `b`.
pub fn bytes_to_value<T: FixedWidth>(b: &[u8]) -> (r: T)
    requires
        b@.len() == T::byte_width(),
    ensures
        bytes_of(r) == b@,
        r.bits_value() == le_value(b@),
{
    proof {
        T::lemma_width();
        lemma_le_value_bound(b@);
        lemma_le_value_bytes(b@);
    }
    T::from_bits(le_bytes_to_u128(b))
}

/// Reading a value back from its byte view gives the value: the view of `x`
/// has the width of `T`, and no other value has the same view.
pub proof fn lemma_round_trip<T: FixedWidth>(x: T)
    ensures
        bytes_of(x).len() == T::byte_width(),
        forall|y: T| #[trigger] bytes_of(y) == bytes_of(x) ==> y == x,
{
    lemma_bytes_of_value(x);
    assert forall|y: T| #[trigger] bytes_of(y) == bytes_of(x) implies y == x by {
        lemma_bytes_of_value(y);
        T::lemma_bits_injective(x, y);
    }
}

/// The byte view of `x` reads back as its bit pattern.
pub proof fn lemma_bytes_of_value<T: FixedWidth>(x: T)
    ensures
        bytes_of(x).len() == T::byte_width(),
        le_value(bytes_of(x)) == x.bits_value(),
{
    T::lemma_bits_bound(x);
    lemma_pow256_pos(T::byte_width());
    lemma_le_bytes_of_value(x.bits_value(), T::byte_width());
    vstd::arithmetic::div_mod::lemma_small_mod(x.bits_value(), pow256(T::byte_width()));
}

impl FixedWidth for u8 {
    open spec fn byte_width() -> nat {
        1
    }

    open spec fn bits_value(self) -> nat {
        self as nat
    }

    proof fn lemma_width() {
    }

    proof fn lemma_bits_bound(x: u8) {
        lemma_pow256_values();
    }

    proof fn lemma_bits_injective(x: u8, y: u8) {
    }

    fn width_in_bytes() -> usize {
        1
    }

    fn to_bits(self) -> u128 {
        self as u128
    }

    fn from_bits(v: u128) -> u8 {
        proof {
            lemma_pow256_values();
        }
        v as u8
    }
}

impl FixedWidth for u16 {
    open spec fn byte_width() -> nat {
        2
    }

    open spec fn bits_value(self) -> nat {
        self as nat
    }

    proof fn lemma_width() {
    }

    proof fn lemma_bits_bound(x: u16) {
        lemma_pow256_values();
    }

    proof fn lemma_bits_injective(x: u16, y: u16) {
    }

    fn width_in_bytes() -> usize {
        2
    }

    fn to_bits(self) -> u128 {
        self as u128
    }

    fn from_bits(v: u128) -> u16 {
        proof {
            lemma_pow256_values();
        }
        v as u16
    }
}

impl FixedWidth for u32 {
    open spec fn byte_width() -> nat {
        4
    }

    open spec fn bits_value(self) -> nat {
        self as nat
    }

    proof fn lemma_width() {
    }

    proof fn lemma_bits_bound(x: u32) {
        lemma_pow256_values();
    }

    proof fn lemma_bits_injective(x: u32, y: u32) {
    }

    fn width_in_bytes() -> usize {
        4
    }

    fn to_bits(self) -> u128 {
        self as u128
    }

    fn from_bits(v: u128) -> u32 {
        proof {
            lemma_pow256_values();
        }
        v as u32
    }
}

impl FixedWidth for u64 {
    open spec fn byte_width() -> nat {
        8
    }

    open spec fn bits_value(self) -> nat {
        self as nat
    }

    proof fn lemma_width() {
    }

    proof fn lemma_bits_bound(x: u64) {
        lemma_pow256_values();
    }

    proof fn lemma_bits_injective(x: u64, y: u64) {
    }

    fn width_in_bytes() -> usize {
        8
    }

    fn to_bits(self) -> u128 {
        self as u128
    }

    fn from_bits(v: u128) -> u64 {
        proof {
            lemma_pow256_values();
        }
        v as u64
    }
}

impl FixedWidth for u128 {
    open spec fn byte_width() -> nat {
        16
    }

    open spec fn bits_value(self) -> nat {
        self as nat
    }

    proof fn lemma_width() {
    }

    proof fn lemma_bits_bound(x: u128) {
        lemma_pow256_values();
    }

    proof fn lemma_bits_injective(x: u128, y: u128) {
    }

    fn width_in_bytes() -> usize {
        16
    }

    fn to_bits(self) -> u128 {
        self
    }

    fn from_bits(v: u128) -> u128 {
        v
    }
}

impl FixedWidth for i8 {
    open spec fn byte_width() -> nat {
        1
    }

    open spec fn bits_value(self) -> nat {
        (self as u8) as nat
    }

    proof fn lemma_width() {
    }

    proof fn lemma_bits_bound(x: i8) {
        lemma_pow256_values();
    }

    proof fn lemma_bits_injective(x: i8, y: i8) {
        assert((x as u8) == (y as u8) ==> x == y) by (bit_vector);
    }

    fn width_in_bytes() -> usize {
        1
    }

    fn to_bits(self) -> u128 {
        (self as u8) as u128
    }

    fn from_bits(v: u128) -> i8 {
        proof {
            lemma_pow256_values();
        }
        let b: u8 = v as u8;
        assert(((b as i8) as u8) == b) by (bit_vector);
        b as i8
    }
}

impl FixedWidth for i16 {
    open spec fn byte_width() -> nat {
        2
    }

    open spec fn bits_value(self) -> nat {
        (self as u16) as nat
    }

    proof fn lemma_width() {
    }

    proof fn lemma_bits_bound(x: i16) {
        lemma_pow256_values();
    }

    proof fn lemma_bits_injective(x: i16, y: i16) {
        assert((x as u16) == (y as u16) ==> x == y) by (bit_vector);
    }

    fn width_in_bytes() -> usize {
        2
    }

    fn to_bits(self) -> u128 {
        (self as u16) as u128
    }

    fn from_bits(v: u128) -> i16 {
        proof {
            lemma_pow256_values();
        }
        let b: u16 = v as u16;
        assert(((b as i16) as u16) == b) by (bit_vector);
        b as i16
    }
}

impl FixedWidth for i32 {
    open spec fn byte_width() -> nat {
        4
    }

    open spec fn bits_value(self) -> nat {
        (self as u32) as nat
    }

    proof fn lemma_width() {
    }

    proof fn lemma_bits_bound(x: i32) {
        lemma_pow256_values();
    }

    proof fn lemma_bits_injective(x: i32, y: i32) {
        assert((x as u32) == (y as u32) ==> x == y) by (bit_vector);
    }

    fn width_in_bytes() -> usize {
        4
    }

    fn to_bits(self) -> u128 {
        (self as u32) as u128
    }

    fn from_bits(v: u128) -> i32 {
        proof {
            lemma_pow256_values();
        }
        let b: u32 = v as u32;
        assert(((b as i32) as u32) == b) by (bit_vector);
        b as i32
    }
}

impl FixedWidth for i64 {
    open spec fn byte_width() -> nat {
        8
    }

    open spec fn bits_value(self) -> nat {
        (self as u64) as nat
    }

    proof fn lemma_width() {
    }

    proof fn lemma_bits_bound(x: i64) {
        lemma_pow256_values();
    }

    proof fn lemma_bits_injective(x: i64, y: i64) {
        assert((x as u64) == (y as u64) ==> x == y) by (bit_vector);
    }

    fn width_in_bytes() -> usize {
        8
    }

    fn to_bits(self) -> u128 {
        (self as u64) as u128
    }

    fn from_bits(v: u128) -> i64 {
        proof {
            lemma_pow256_values();
        }
        let b: u64 = v as u64;
        assert(((b as i64) as u64) == b) by (bit_vector);
        b as i64
    }
}

impl FixedWidth for i128 {
    open spec fn byte_width() -> nat {
        16
    }

    open spec fn bits_value(self) -> nat {
        (self as u128) as nat
    }

    proof fn lemma_width() {
    }

    proof fn lemma_bits_bound(x: i128) {
        lemma_pow256_values();
    }

    proof fn lemma_bits_injective(x: i128, y: i128) {
        assert((x as u128) == (y as u128) ==> x == y) by (bit_vector);
    }

    fn width_in_bytes() -> usize {
        16
    }

    fn to_bits(self) -> u128 {
        self as u128
    }

    fn from_bits(v: u128) -> i128 {
        assert(((v as i128) as u128) == v) by (bit_vector);
        v as i128
    }
}

impl FixedWidth for usize {
    open spec fn byte_width() -> nat {
        (usize::BITS / 8) as nat
    }

    open spec fn bits_value(self) -> nat {
        self as nat
    }

    proof fn lemma_width() {
    }

    proof fn lemma_bits_bound(x: usize) {
        lemma_pow256_values();
    }

    proof fn lemma_bits_injective(x: usize, y: usize) {
    }

    fn width_in_bytes() -> usize {
        (usize::BITS / 8) as usize
    }

    fn to_bits(self) -> u128 {
        self as u128
    }

    fn from_bits(v: u128) -> usize {
        proof {
            lemma_pow256_values();
        }
        v as usize
    }
}

impl FixedWidth for isize {
    open spec fn byte_width() -> nat {
        (usize::BITS / 8) as nat
    }

    open spec fn bits_value(self) -> nat {
        (self as usize) as nat
    }

    proof fn lemma_width() {
    }

    proof fn lemma_bits_bound(x: isize) {
        lemma_pow256_values();
    }

    proof fn lemma_bits_injective(x: isize, y: isize) {
        assert((x as usize) == (y as usize) ==> x == y) by (bit_vector);
    }

    fn width_in_bytes() -> usize {
        (usize::BITS / 8) as usize
    }

    fn to_bits(self) -> u128 {
        (self as usize) as u128
    }

    fn from_bits(v: u128) -> isize {
        proof {
            lemma_pow256_values();
        }
        let b: usize = v as usize;
        assert(((b as isize) as usize) == b) by (bit_vector);
        b as isize
    }
}

} // verus!
