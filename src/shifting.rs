//! Shifts and rotations on byte buffers. An amount of `n` bits moves whole
//! bytes by `n / 8` positions and the bits inside them by `n % 8`; the bits
//! that leave one byte are carried into its neighbour.
use vstd::prelude::*;
use crate::model::{bit_at, byte_bit, lemma_bit_at_index, lemma_bit_at_push, lemma_bits_extensional, lemma_zero_byte_bits};
use crate::fixed_width::{FixedWidth, bit_width, bytes_of, bytes_to_value, lemma_round_trip, value_to_bytes, zero_bytes};

verus! {

/// `r` is `a` shifted left by `n` bits: bit `k` of `r` is bit `k - n` of `a`, or zero.
pub open spec fn is_shift_left(r: Seq<u8>, a: Seq<u8>, n: nat) -> bool {
    &&& r.len() == a.len()
    &&& forall|k: int|
        0 <= k < 8 * a.len() ==> #[trigger] bit_at(r, k) == (k >= n && bit_at(a, k - n))
}

/// `r` is `a` shifted right by `n` bits: bit `k` of `r` is bit `k + n` of `a`, or zero.
pub open spec fn is_shift_right(r: Seq<u8>, a: Seq<u8>, n: nat) -> bool {
    &&& r.len() == a.len()
    &&& forall|k: int| 0 <= k < 8 * a.len() ==> #[trigger] bit_at(r, k) == bit_at(a, k + n)
}

/// `r` is `a` rotated left by `n` bits: bit `k` of `r` is bit `k - n` of `a`,
/// the position taken modulo the bit width.
pub open spec fn is_rotate_left(r: Seq<u8>, a: Seq<u8>, n: nat) -> bool {
    &&& r.len() == a.len()
    &&& forall|k: int|
        0 <= k < 8 * a.len() ==> #[trigger] bit_at(r, k) == bit_at(a, (k - n) % (8 * a.len() as int))
}

/// `r` is `a` rotated right by `n` bits: bit `k` of `r` is bit `k + n` of `a`,
/// the position taken modulo the bit width.
pub open spec fn is_rotate_right(r: Seq<u8>, a: Seq<u8>, n: nat) -> bool {
    &&& r.len() == a.len()
    &&& forall|k: int|
        0 <= k < 8 * a.len() ==> #[trigger] bit_at(r, k) == bit_at(a, (k + n) % (8 * a.len() as int))
}

proof fn lemma_join_left_bits(hi: u8, lo: u8, s: u8)
    by (bit_vector)
    requires
        0 < s < 8,
    ensures
        forall|j: u8|
            j < 8 ==> #[trigger] (((hi << s) | (lo >> (8 - s) as u8)) >> j) & 1u8 == if j >= s {
                (hi >> (j - s) as u8) & 1u8
            } else {
                (lo >> (j + 8 - s) as u8) & 1u8
            },
{
}

proof fn lemma_join_right_bits(lo: u8, hi: u8, s: u8)
    by (bit_vector)
    requires
        0 < s < 8,
    ensures
        forall|j: u8|
            j < 8 ==> #[trigger] (((lo >> s) | (hi << (8 - s) as u8)) >> j) & 1u8 == if j + s < 8 {
                (lo >> (j + s) as u8) & 1u8
            } else {
                (hi >> (j + s - 8) as u8) & 1u8
            },
{
}

/// `hi` shifted left by `s` bits, its vacated low bits filled from the top of `lo`.
fn join_left(hi: u8, lo: u8, s: u8) -> (r: u8)
    requires
        s < 8,
    ensures
        forall|j: u8|
            j < 8 ==> #[trigger] byte_bit(r, j) == if j >= s {
                byte_bit(hi, (j - s) as u8)
            } else {
                byte_bit(lo, (j + 8 - s) as u8)
            },
{
    if s == 0 {
        hi
    } else {
        proof {
            lemma_join_left_bits(hi, lo, s);
        }
        (hi << s) | (lo >> (8 - s))
    }
}

/// `lo` shifted right by `s` bits, its vacated high bits filled from the bottom of `hi`.
fn join_right(lo: u8, hi: u8, s: u8) -> (r: u8)
    requires
        s < 8,
    ensures
        forall|j: u8|
            j < 8 ==> #[trigger] byte_bit(r, j) == if j + s < 8 {
                byte_bit(lo, (j + s) as u8)
            } else {
                byte_bit(hi, (j + s - 8) as u8)
            },
{
    if s == 0 {
        lo
    } else {
        proof {
            lemma_join_right_bits(lo, hi, s);
        }
        (lo >> s) | (hi << (8 - s))
    }
}

/// Left shift by `n` bits; an amount of the full width or more gives zero.
pub fn shift_left_bytes(a: &[u8], n: u128) -> (r: Vec<u8>)
    ensures
        is_shift_left(r@, a@, n as nat),
{
    let len = a.len();
    if n >= 8 * (len as u128) {
        let r = zero_bytes(len);
        proof {
            assert forall|k: int| 0 <= k < 8 * a@.len() implies #[trigger] bit_at(r@, k) == (k >= n
                && bit_at(a@, k - n)) by {
                lemma_zero_byte_bits((k % 8) as u8);
                vstd::arithmetic::div_mod::lemma_fundamental_div_mod(k, 8);
            }
        }
        return r;
    }
    let q: usize = (n / 8) as usize;
    let s: u8 = (n % 8) as u8;
    proof {
        vstd::arithmetic::div_mod::lemma_fundamental_div_mod(n as int, 8);
    }
    let mut r: Vec<u8> = Vec::new();
    let mut i: usize = 0;
    while i < len
        invariant
            len == a@.len(),
            n < 8 * len,
            n == 8 * q + s,
            s < 8,
            i <= len,
            r@.len() == i,
            forall|k: int|
                0 <= k < 8 * i ==> #[trigger] bit_at(r@, k) == (k >= n && bit_at(a@, k - n)),
        decreases len - i,
    {
        let hi: u8 = if i >= q {
            a[i - q]
        } else {
            0
        };
        let lo: u8 = if i > q {
            a[i - q - 1]
        } else {
            0
        };
        let byte = join_left(hi, lo, s);
        let ghost prev = r@;
        r.push(byte);
        proof {
            assert forall|k: int| 0 <= k < 8 * (i + 1) implies #[trigger] bit_at(r@, k) == (k >= n
                && bit_at(a@, k - n)) by {
                if k < 8 * i {
                    lemma_bit_at_push(prev, byte, k);
                } else {
                    let j = k - 8 * i;
                    lemma_bit_at_index(r@, i as int, j);
                    assert(byte_bit(byte, j as u8) == if j as u8 >= s {
                        byte_bit(hi, (j as u8 - s) as u8)
                    } else {
                        byte_bit(lo, (j as u8 + 8 - s) as u8)
                    });
                    if j >= s {
                        if i >= q {
                            lemma_bit_at_index(a@, i - q, j - s);
                        } else {
                            lemma_zero_byte_bits((j - s) as u8);
                        }
                    } else {
                        if i > q {
                            lemma_bit_at_index(a@, i - q - 1, j + 8 - s);
                        } else {
                            lemma_zero_byte_bits((j + 8 - s) as u8);
                        }
                    }
                }
            }
        }
        i = i + 1;
    }
    r
}

/// Logical right shift by `n` bits; an amount of the full width or more gives zero.
pub fn shift_right_bytes(a: &[u8], n: u128) -> (r: Vec<u8>)
    ensures
        is_shift_right(r@, a@, n as nat),
{
    let len = a.len();
    if n >= 8 * (len as u128) {
        let r = zero_bytes(len);
        proof {
            assert forall|k: int| 0 <= k < 8 * a@.len() implies #[trigger] bit_at(r@, k) == bit_at(
                a@,
                k + n,
            ) by {
                lemma_zero_byte_bits((k % 8) as u8);
                vstd::arithmetic::div_mod::lemma_fundamental_div_mod(k, 8);
            }
        }
        return r;
    }
    let q: usize = (n / 8) as usize;
    let s: u8 = (n % 8) as u8;
    proof {
        vstd::arithmetic::div_mod::lemma_fundamental_div_mod(n as int, 8);
    }
    let mut r: Vec<u8> = Vec::new();
    let mut i: usize = 0;
    while i < len
        invariant
            len == a@.len(),
            n < 8 * len,
            n == 8 * q + s,
            s < 8,
            i <= len,
            r@.len() == i,
            forall|k: int| 0 <= k < 8 * i ==> #[trigger] bit_at(r@, k) == bit_at(a@, k + n),
        decreases len - i,
    {
        let lo: u8 = if q < len - i {
            a[i + q]
        } else {
            0
        };
        let hi: u8 = if q + 1 < len - i {
            a[i + q + 1]
        } else {
            0
        };
        let byte = join_right(lo, hi, s);
        let ghost prev = r@;
        r.push(byte);
        proof {
            assert forall|k: int| 0 <= k < 8 * (i + 1) implies #[trigger] bit_at(r@, k) == bit_at(
                a@,
                k + n,
            ) by {
                if k < 8 * i {
                    lemma_bit_at_push(prev, byte, k);
                } else {
                    let j = k - 8 * i;
                    lemma_bit_at_index(r@, i as int, j);
                    assert(byte_bit(byte, j as u8) == if j as u8 + s < 8 {
                        byte_bit(lo, (j as u8 + s) as u8)
                    } else {
                        byte_bit(hi, (j as u8 + s - 8) as u8)
                    });
                    if j + s < 8 {
                        if i + q < len {
                            lemma_bit_at_index(a@, i + q, j + s);
                        } else {
                            lemma_zero_byte_bits((j + s) as u8);
                        }
                    } else {
                        if i + q + 1 < len {
                            lemma_bit_at_index(a@, i + q + 1, j + s - 8);
                        } else {
                            lemma_zero_byte_bits((j + s - 8) as u8);
                        }
                    }
                }
            }
        }
        i = i + 1;
    }
    r
}

/// Left rotation by `n` bits, the amount taken modulo the bit width.
pub fn rotate_left_bytes(a: &[u8], n: u128) -> (r: Vec<u8>)
    ensures
        is_rotate_left(r@, a@, n as nat),
{
    let len = a.len();
    if len == 0 {
        return Vec::new();
    }
    let total: u128 = 8 * (len as u128);
    let m: u128 = n % total;
    let q: usize = (m / 8) as usize;
    let s: u8 = (m % 8) as u8;
    let ghost t = total as int;
    proof {
        vstd::arithmetic::div_mod::lemma_fundamental_div_mod(n as int, t);
        vstd::arithmetic::div_mod::lemma_mod_pos_bound(n as int, t);
        vstd::arithmetic::div_mod::lemma_fundamental_div_mod(m as int, 8);
    }
    let mut r: Vec<u8> = Vec::new();
    let mut i: usize = 0;
    while i < len
        invariant
            len == a@.len(),
            len > 0,
            t == 8 * len,
            n == t * (n as int / t) + m,
            m < t,
            m == 8 * q + s,
            s < 8,
            i <= len,
            r@.len() == i,
            forall|k: int|
                0 <= k < 8 * i ==> #[trigger] bit_at(r@, k) == bit_at(a@, (k - n) % t),
        decreases len - i,
    {
        let src: usize = if i >= q {
            i - q
        } else {
            i + (len - q)
        };
        let prev_src: usize = if src > 0 {
            src - 1
        } else {
            len - 1
        };
        let byte = join_left(a[src], a[prev_src], s);
        let ghost prev = r@;
        r.push(byte);
        proof {
            assert forall|k: int| 0 <= k < 8 * (i + 1) implies #[trigger] bit_at(r@, k) == bit_at(
                a@,
                (k - n) % t,
            ) by {
                if k < 8 * i {
                    lemma_bit_at_push(prev, byte, k);
                } else {
                    let j = k - 8 * i;
                    lemma_bit_at_index(r@, i as int, j);
                    assert(byte_bit(byte, j as u8) == if j as u8 >= s {
                        byte_bit(a@[src as int], (j as u8 - s) as u8)
                    } else {
                        byte_bit(a@[prev_src as int], (j as u8 + 8 - s) as u8)
                    });
                    let d = n as int / t;
                    assert(t * (-d) == -(t * d)) by (nonlinear_arith);
                    vstd::arithmetic::div_mod::lemma_mod_multiples_vanish(-d, k - m, t);
                    assert((k - n) % t == (k - m) % t);
                    let (idx, off) = if j >= s {
                        (src as int, j - s)
                    } else {
                        (prev_src as int, j + 8 - s)
                    };
                    let base = 8 * idx + off;
                    if k - m >= 0 {
                        vstd::arithmetic::div_mod::lemma_fundamental_div_mod_converse(k - m, t, 0, base);
                    } else {
                        vstd::arithmetic::div_mod::lemma_fundamental_div_mod_converse(k - m, t, -1, base);
                    }
                    assert((k - m) % t == base);
                    lemma_bit_at_index(a@, idx, off);
                }
            }
        }
        i = i + 1;
    }
    r
}

/// Right rotation by `n` bits, the amount taken modulo the bit width.
pub fn rotate_right_bytes(a: &[u8], n: u128) -> (r: Vec<u8>)
    ensures
        is_rotate_right(r@, a@, n as nat),
{
    let len = a.len();
    if len == 0 {
        return Vec::new();
    }
    let total: u128 = 8 * (len as u128);
    let m: u128 = n % total;
    let q: usize = (m / 8) as usize;
    let s: u8 = (m % 8) as u8;
    let ghost t = total as int;
    proof {
        vstd::arithmetic::div_mod::lemma_fundamental_div_mod(n as int, t);
        vstd::arithmetic::div_mod::lemma_mod_pos_bound(n as int, t);
        vstd::arithmetic::div_mod::lemma_fundamental_div_mod(m as int, 8);
    }
    let mut r: Vec<u8> = Vec::new();
    let mut i: usize = 0;
    while i < len
        invariant
            len == a@.len(),
            len > 0,
            t == 8 * len,
            n == t * (n as int / t) + m,
            m < t,
            m == 8 * q + s,
            s < 8,
            i <= len,
            r@.len() == i,
            forall|k: int|
                0 <= k < 8 * i ==> #[trigger] bit_at(r@, k) == bit_at(a@, (k + n) % t),
        decreases len - i,
    {
        let src: usize = if q < len - i {
            i + q
        } else {
            q - (len - i)
        };
        let next_src: usize = if src + 1 < len {
            src + 1
        } else {
            0
        };
        let byte = join_right(a[src], a[next_src], s);
        let ghost prev = r@;
        r.push(byte);
        proof {
            assert forall|k: int| 0 <= k < 8 * (i + 1) implies #[trigger] bit_at(r@, k) == bit_at(
                a@,
                (k + n) % t,
            ) by {
                if k < 8 * i {
                    lemma_bit_at_push(prev, byte, k);
                } else {
                    let j = k - 8 * i;
                    lemma_bit_at_index(r@, i as int, j);
                    assert(byte_bit(byte, j as u8) == if j as u8 + s < 8 {
                        byte_bit(a@[src as int], (j as u8 + s) as u8)
                    } else {
                        byte_bit(a@[next_src as int], (j as u8 + s - 8) as u8)
                    });
                    vstd::arithmetic::div_mod::lemma_mod_multiples_vanish(n as int / t, k + m, t);
                    let (idx, off) = if j + s < 8 {
                        (src as int, j + s)
                    } else {
                        (next_src as int, j + s - 8)
                    };
                    let base = 8 * idx + off;
                    if k + m < t {
                        vstd::arithmetic::div_mod::lemma_fundamental_div_mod_converse(k + m, t, 0, base);
                    } else {
                        vstd::arithmetic::div_mod::lemma_fundamental_div_mod_converse(k + m, t, 1, base);
                    }
                    lemma_bit_at_index(a@, idx, off);
                }
            }
        }
        i = i + 1;
    }
    r
}

/// `a` shifted left by the unsigned reading of `shift_amount` bits.
pub fn ebm_left_shift<T: FixedWidth, U: FixedWidth>(a: T, shift_amount: U) -> (r: T)
    ensures
        is_shift_left(bytes_of(r), bytes_of(a), shift_amount.bits_value()),
{
    let x = value_to_bytes(a);
    let z = shift_left_bytes(x.as_slice(), shift_amount.to_bits());
    bytes_to_value(z.as_slice())
}

/// `a` shifted right, with zeros entering at the top, by the unsigned reading
/// of `shift_amount` bits.
pub fn ebm_right_shift<T: FixedWidth, U: FixedWidth>(a: T, shift_amount: U) -> (r: T)
    ensures
        is_shift_right(bytes_of(r), bytes_of(a), shift_amount.bits_value()),
{
    let x = value_to_bytes(a);
    let z = shift_right_bytes(x.as_slice(), shift_amount.to_bits());
    bytes_to_value(z.as_slice())
}

/// `a` rotated left by the unsigned reading of `rotate_amount` bits.
pub fn ebm_left_rotate<T: FixedWidth, U: FixedWidth>(a: T, rotate_amount: U) -> (r: T)
    ensures
        is_rotate_left(bytes_of(r), bytes_of(a), rotate_amount.bits_value()),
{
    let x = value_to_bytes(a);
    let z = rotate_left_bytes(x.as_slice(), rotate_amount.to_bits());
    bytes_to_value(z.as_slice())
}

/// `a` rotated right by the unsigned reading of `rotate_amount` bits.
pub fn ebm_right_rotate<T: FixedWidth, U: FixedWidth>(a: T, rotate_amount: U) -> (r: T)
    ensures
        is_rotate_right(bytes_of(r), bytes_of(a), rotate_amount.bits_value()),
{
    let x = value_to_bytes(a);
    let z = rotate_right_bytes(x.as_slice(), rotate_amount.to_bits());
    bytes_to_value(z.as_slice())
}

/// A shift by zero bits, and a rotation by the full bit width, leave a value unchanged.
pub proof fn lemma_shift_rotate_identity<T: FixedWidth>(a: T)
    ensures
        forall|r: T| #[trigger] is_shift_left(bytes_of(r), bytes_of(a), 0) ==> r == a,
        forall|r: T|
            #[trigger] is_rotate_left(bytes_of(r), bytes_of(a), bit_width::<T>()) ==> r == a,
{
    lemma_round_trip(a);
    let t = bit_width::<T>() as int;
    assert forall|r: T| #[trigger] is_shift_left(bytes_of(r), bytes_of(a), 0) implies r == a by {
        assert forall|k: int| 0 <= k < t implies bit_at(bytes_of(r), k) == bit_at(bytes_of(a), k) by {
            assert(bit_at(bytes_of(r), k) == (k >= 0 && bit_at(bytes_of(a), k - 0)));
        }
        lemma_bits_extensional(bytes_of(r), bytes_of(a));
    }
    assert forall|r: T| #[trigger] is_rotate_left(bytes_of(r), bytes_of(a), bit_width::<T>()) implies r
        == a by {
        assert forall|k: int| 0 <= k < t implies bit_at(bytes_of(r), k) == bit_at(bytes_of(a), k) by {
            assert(bit_at(bytes_of(r), k) == bit_at(bytes_of(a), (k - t) % t));
            vstd::arithmetic::div_mod::lemma_fundamental_div_mod_converse(k - t, t, -1, k);
        }
        lemma_bits_extensional(bytes_of(r), bytes_of(a));
    }
}

/// Rotating right by `n` bits undoes a rotation left by `n` bits.
pub proof fn lemma_rotate_lossless<T: FixedWidth>(a: T, n: nat)
    ensures
        forall|l: T, r: T|
            #![trigger is_rotate_left(bytes_of(l), bytes_of(a), n), is_rotate_right(bytes_of(r), bytes_of(l), n)]
            is_rotate_left(bytes_of(l), bytes_of(a), n) && is_rotate_right(
                bytes_of(r),
                bytes_of(l),
                n,
            ) ==> r == a,
{
    lemma_round_trip(a);
    T::lemma_width();
    let t = bit_width::<T>() as int;
    assert forall|l: T, r: T|
        #![trigger is_rotate_left(bytes_of(l), bytes_of(a), n), is_rotate_right(bytes_of(r), bytes_of(l), n)]
        is_rotate_left(bytes_of(l), bytes_of(a), n) && is_rotate_right(bytes_of(r), bytes_of(l), n)
        implies r == a by {
        lemma_round_trip(l);
        lemma_round_trip(r);
        assert forall|k: int| 0 <= k < t implies bit_at(bytes_of(r), k) == bit_at(bytes_of(a), k) by {
            let k2 = (k + n) % t;
            vstd::arithmetic::div_mod::lemma_mod_pos_bound(k + n, t);
            assert(bit_at(bytes_of(r), k) == bit_at(bytes_of(l), k2));
            assert(bit_at(bytes_of(l), k2) == bit_at(bytes_of(a), (k2 - n) % t));
            vstd::arithmetic::div_mod::lemma_sub_mod_noop_right(k2, n as int, t);
            vstd::arithmetic::div_mod::lemma_sub_mod_noop(k + n, n as int, t);
            vstd::arithmetic::div_mod::lemma_small_mod(k as nat, t as nat);
        }
        lemma_bits_extensional(bytes_of(r), bytes_of(a));
    }
}

} // verus!
