//! Wrapping arithmetic on byte buffers: addition with a carry chain,
//! subtraction with a borrow chain, schoolbook long multiplication, and
//! division and remainder through a wide accumulator.
use vstd::prelude::*;
use crate::model::{le_value, lemma_le_value_bound, lemma_le_value_take, lemma_le_value_take_mod, lemma_le_value_update, lemma_pow256_add, lemma_pow256_pos, pow256, lemma_le_bytes_of_value};
use crate::fixed_width::{FixedWidth, modulus, value_to_bytes, bytes_to_value, le_bytes_to_u128, u128_to_le_bytes, zero_bytes};

verus! {

/// The quotient that division by zero defines as zero.
pub open spec fn quotient_value(x: nat, y: nat) -> nat {
    if y == 0 {
        0
    } else {
        x / y
    }
}

/// The remainder that division by zero defines as zero.
pub open spec fn remainder_value(x: nat, y: nat) -> nat {
    if y == 0 {
        0
    } else {
        x % y
    }
}

/// Byte-wise sum with carry propagation; the carry out of the top byte is dropped.
pub fn add_bytes(a: &[u8], b: &[u8]) -> (r: Vec<u8>)
    requires
        a@.len() == b@.len(),
    ensures
        r@.len() == a@.len(),
        le_value(r@) == (le_value(a@) + le_value(b@)) % pow256(a@.len()),
{
    let n = a.len();
    let mut r: Vec<u8> = Vec::new();
    let mut carry: u16 = 0;
    let mut i: usize = 0;
    while i < n
        invariant
            n == a@.len() == b@.len(),
            i <= n,
            r@.len() == i,
            carry <= 1,
            le_value(r@) + carry * pow256(i as nat) == le_value(a@.take(i as int)) + le_value(
                b@.take(i as int),
            ),
        decreases n - i,
    {
        let sum: u16 = a[i] as u16 + b[i] as u16 + carry;
        let ghost old_r = r@;
        let ghost old_carry = carry;
        proof {
            lemma_le_value_take(a@, i as int);
            lemma_le_value_take(b@, i as int);
            lemma_le_value_take(r@.push((sum % 256) as u8), i as int);
            assert(r@.push((sum % 256) as u8).take(i as int) =~= r@);
            assert(r@.push((sum % 256) as u8).take(i + 1) =~= r@.push((sum % 256) as u8));
            let p = pow256(i as nat);
            assert(pow256((i + 1) as nat) == 256 * p);
            assert((sum % 256) * p + (sum / 256) * (256 * p) == sum * p) by (nonlinear_arith);
        }
        r.push((sum % 256) as u8);
        carry = sum / 256;
        proof {
            let p = pow256(i as nat);
            assert(le_value(r@) == le_value(old_r) + (sum % 256) as nat * p);
            assert(sum == a[i as int] + b[i as int] + old_carry);
            assert(carry * pow256((i + 1) as nat) == (sum / 256) * (256 * p));
            let (x, y, c) = (a[i as int] as int, b[i as int] as int, old_carry as int);
            assert(sum * p == x * p + y * p + c * p) by (nonlinear_arith)
                requires
                    sum == x + y + c,
            ;
        }
        i = i + 1;
    }
    proof {
        assert(a@.take(n as int) =~= a@);
        assert(b@.take(n as int) =~= b@);
        lemma_le_value_bound(r@);
        vstd::arithmetic::div_mod::lemma_fundamental_div_mod_converse(
            (le_value(a@) + le_value(b@)) as int,
            pow256(n as nat) as int,
            carry as int,
            le_value(r@) as int,
        );
    }
    r
}

/// Byte-wise difference with borrow propagation; a borrow out of the top byte wraps.
pub fn sub_bytes(a: &[u8], b: &[u8]) -> (r: Vec<u8>)
    requires
        a@.len() == b@.len(),
    ensures
        r@.len() == a@.len(),
        le_value(r@) == (le_value(a@) - le_value(b@)) % (pow256(a@.len()) as int),
{
    let n = a.len();
    let mut r: Vec<u8> = Vec::new();
    let mut borrow: i16 = 0;
    let mut i: usize = 0;
    while i < n
        invariant
            n == a@.len() == b@.len(),
            i <= n,
            r@.len() == i,
            0 <= borrow <= 1,
            le_value(r@) - borrow * pow256(i as nat) == le_value(a@.take(i as int)) - le_value(
                b@.take(i as int),
            ),
        decreases n - i,
    {
        let diff: i16 = a[i] as i16 - b[i] as i16 - borrow;
        let ghost old_r = r@;
        let ghost old_borrow = borrow;
        let byte: u8;
        if diff < 0 {
            byte = (diff + 256) as u8;
            borrow = 1;
        } else {
            byte = diff as u8;
            borrow = 0;
        }
        proof {
            lemma_le_value_take(a@, i as int);
            lemma_le_value_take(b@, i as int);
            lemma_le_value_take(r@.push(byte), i as int);
            assert(r@.push(byte).take(i as int) =~= r@);
            assert(r@.push(byte).take(i + 1) =~= r@.push(byte));
            let p = pow256(i as nat);
            assert(pow256((i + 1) as nat) == 256 * p);
            let new_borrow: int = if diff < 0 { 1 } else { 0 };
            assert(byte == diff + 256 * new_borrow);
            assert(byte * p - new_borrow * (256 * p) == diff * p) by (nonlinear_arith)
                requires
                    byte == diff + 256 * new_borrow,
            ;
        }
        r.push(byte);
        proof {
            let p = pow256(i as nat);
            assert(le_value(r@) == le_value(old_r) + byte as nat * p);
            assert(borrow * pow256((i + 1) as nat) == borrow * (256 * p));
            let (x, y, c) = (a[i as int] as int, b[i as int] as int, old_borrow as int);
            assert(diff * p == x * p - y * p - c * p) by (nonlinear_arith)
                requires
                    diff == x - y - c,
            ;
        }
        i = i + 1;
    }
    proof {
        assert(a@.take(n as int) =~= a@);
        assert(b@.take(n as int) =~= b@);
        lemma_le_value_bound(r@);
        assert((-borrow) * pow256(n as nat) == -(borrow * pow256(n as nat))) by (nonlinear_arith);
        vstd::arithmetic::div_mod::lemma_fundamental_div_mod_converse(
            le_value(a@) - le_value(b@),
            pow256(n as nat) as int,
            -borrow,
            le_value(r@) as int,
        );
    }
    r
}

/// Adds `p` into slot `k` of a byte accumulator and cascades the overflow into
/// the higher slots until none remains or the accumulator ends.
fn add_into_slot(acc: &mut Vec<u8>, k: usize, p: u16)
    requires
        k < old(acc)@.len(),
    ensures
        final(acc)@.len() == old(acc)@.len(),
        le_value(final(acc)@) == (le_value(old(acc)@) + p * pow256(k as nat)) % (pow256(
            old(acc)@.len(),
        ) as int),
{
    let n = acc.len();
    let ghost target: int = le_value(acc@) + p * pow256(k as nat);
    let mut carry: u32 = p as u32;
    let mut j: usize = k;
    while j < n && carry > 0
        invariant
            n == acc@.len(),
            k <= j <= n,
            carry <= 0xFFFF,
            le_value(acc@) + carry * pow256(j as nat) == target,
        decreases n - j,
    {
        let t: u32 = acc[j] as u32 + carry;
        let ghost before = acc@;
        let ghost old_carry = carry;
        acc.set(j, (t % 256) as u8);
        carry = t / 256;
        proof {
            let w = pow256(j as nat);
            lemma_le_value_update(before, j as int, (t % 256) as u8);
            assert(pow256((j + 1) as nat) == 256 * w);
            assert((t % 256) * w + (t / 256) * (256 * w) == t * w) by (nonlinear_arith);
            let (x, c) = (before[j as int] as int, old_carry as int);
            assert(t * w == x * w + c * w) by (nonlinear_arith)
                requires
                    t == x + c,
            ;
        }
        j = j + 1;
    }
    proof {
        lemma_le_value_bound(acc@);
        lemma_pow256_pos(n as nat);
        if carry == 0 {
            vstd::arithmetic::div_mod::lemma_small_mod(le_value(acc@), pow256(n as nat));
        } else {
            vstd::arithmetic::div_mod::lemma_fundamental_div_mod_converse(
                target as int,
                pow256(n as nat) as int,
                carry as int,
                le_value(acc@) as int,
            );
        }
    }
}

/// Schoolbook long multiplication: each byte-pair product is accumulated at the
/// slot of its combined weight in a double-width accumulator, whose low half is
/// the wrapped product.
pub fn mul_bytes(a: &[u8], b: &[u8]) -> (r: Vec<u8>)
    requires
        a@.len() == b@.len(),
        a@.len() <= usize::MAX / 2,
    ensures
        r@.len() == a@.len(),
        le_value(r@) == (le_value(a@) * le_value(b@)) % pow256(a@.len()),
{
    let n = a.len();
    let mut acc = zero_bytes(2 * n);
    let ghost m = pow256((2 * n) as nat) as int;
    let ghost bv = le_value(b@) as int;
    proof {
        lemma_pow256_pos((2 * n) as nat);
        vstd::arithmetic::div_mod::lemma_small_mod(0, m as nat);
        assert(a@.take(0) =~= Seq::<u8>::empty());
        assert(le_value(a@.take(0)) == 0);
        assert(0 * bv == 0);
    }
    let mut i: usize = 0;
    while i < n
        invariant
            n == a@.len() == b@.len(),
            n <= usize::MAX / 2,
            i <= n,
            acc@.len() == 2 * n,
            m == pow256((2 * n) as nat),
            m > 0,
            bv == le_value(b@),
            le_value(acc@) == (le_value(a@.take(i as int)) * bv) % m,
        decreases n - i,
    {
        let ghost ai = a@[i as int] as int;
        let ghost wi = pow256(i as nat) as int;
        let ghost base = le_value(a@.take(i as int)) * bv;
        proof {
            assert(b@.take(0) =~= Seq::<u8>::empty());
            assert(ai * wi * 0 == 0) by (nonlinear_arith);
        }
        let mut j: usize = 0;
        while j < n
            invariant
                n == a@.len() == b@.len(),
                n <= usize::MAX / 2,
                i < n,
                j <= n,
                acc@.len() == 2 * n,
                m == pow256((2 * n) as nat),
                m > 0,
                ai == a@[i as int],
                wi == pow256(i as nat),
                le_value(acc@) == (base + ai * wi * le_value(b@.take(j as int))) % m,
            decreases n - j,
        {
            let x: u16 = a[i] as u16;
            let y: u16 = b[j] as u16;
            assert(x * y <= 255 * 255) by (nonlinear_arith)
                requires
                    x <= 255,
                    y <= 255,
            ;
            let prod: u16 = x * y;
            let ghost before = le_value(acc@) as int;
            add_into_slot(&mut acc, i + j, prod);
            proof {
                let bj = b@[j as int] as int;
                let wj = pow256(j as nat) as int;
                let bt = le_value(b@.take(j as int)) as int;
                lemma_le_value_take(b@, j as int);
                lemma_pow256_add(i as nat, j as nat);
                assert(prod * pow256((i + j) as nat) == ai * wi * (bj * wj)) by (nonlinear_arith)
                    requires
                        prod == ai * bj,
                        pow256((i + j) as nat) == wi * wj,
                ;
                vstd::arithmetic::div_mod::lemma_add_mod_noop(base + ai * wi * bt, ai * wi * (bj * wj), m);
                vstd::arithmetic::div_mod::lemma_mod_twice(ai * wi * (bj * wj), m);
                vstd::arithmetic::div_mod::lemma_add_mod_noop(before, ai * wi * (bj * wj), m);
                vstd::arithmetic::div_mod::lemma_mod_twice(base + ai * wi * bt, m);
                assert(ai * wi * bt + ai * wi * (bj * wj) == ai * wi * (bt + bj * wj)) by (nonlinear_arith);
            }
            j = j + 1;
        }
        proof {
            assert(b@.take(n as int) =~= b@);
            lemma_le_value_take(a@, i as int);
            assert(le_value(a@.take(i as int)) * bv + ai * wi * bv == (le_value(a@.take(i as int)) + ai * wi) * bv) by (nonlinear_arith);
        }
        i = i + 1;
    }
    let mut r: Vec<u8> = Vec::new();
    let mut k: usize = 0;
    while k < n
        invariant
            k <= n,
            acc@.len() == 2 * n,
            r@ =~= acc@.take(k as int),
        decreases n - k,
    {
        r.push(acc[k]);
        k = k + 1;
    }
    proof {
        assert(a@.take(n as int) =~= a@);
        let w = pow256(n as nat) as int;
        lemma_le_value_take_mod(acc@, n as nat);
        lemma_pow256_add(n as nat, n as nat);
        assert((n + n) as nat == (2 * n) as nat);
        lemma_pow256_pos(n as nat);
        vstd::arithmetic::div_mod::lemma_mod_mod(le_value(a@) * bv, w, w);
    }
    r
}

/// Unsigned quotient; zero when the divisor is zero.
pub fn div_bytes(a: &[u8], b: &[u8]) -> (r: Vec<u8>)
    requires
        a@.len() == b@.len(),
        a@.len() <= 16,
    ensures
        r@.len() == a@.len(),
        le_value(r@) == quotient_value(le_value(a@), le_value(b@)),
{
    let x = le_bytes_to_u128(a);
    let y = le_bytes_to_u128(b);
    let q: u128 = if y == 0 {
        0
    } else {
        x / y
    };
    proof {
        lemma_le_value_bound(a@);
        lemma_le_bytes_of_value(q as nat, a@.len());
        if y != 0 {
            vstd::arithmetic::div_mod::lemma_div_is_ordered_by_denominator(x as int, 1, y as int);
        }
        vstd::arithmetic::div_mod::lemma_small_mod(q as nat, pow256(a@.len()));
    }
    u128_to_le_bytes(q, a.len())
}

/// Unsigned remainder; zero when the divisor is zero.
pub fn rem_bytes(a: &[u8], b: &[u8]) -> (r: Vec<u8>)
    requires
        a@.len() == b@.len(),
        a@.len() <= 16,
    ensures
        r@.len() == a@.len(),
        le_value(r@) == remainder_value(le_value(a@), le_value(b@)),
{
    let x = le_bytes_to_u128(a);
    let y = le_bytes_to_u128(b);
    let m: u128 = if y == 0 {
        0
    } else {
        x % y
    };
    proof {
        lemma_le_value_bound(a@);
        lemma_le_bytes_of_value(m as nat, a@.len());
        if y != 0 {
            vstd::arithmetic::div_mod::lemma_mod_decreases(x as nat, y as nat);
        }
        vstd::arithmetic::div_mod::lemma_small_mod(m as nat, pow256(a@.len()));
    }
    u128_to_le_bytes(m, a.len())
}

/// Wrapping addition of two values of one width.
pub fn ebm_add<T: FixedWidth>(a: T, b: T) -> (r: T)
    ensures
        r.bits_value() == (a.bits_value() + b.bits_value()) % modulus::<T>(),
{
    let x = value_to_bytes(a);
    let y = value_to_bytes(b);
    let z = add_bytes(x.as_slice(), y.as_slice());
    bytes_to_value(z.as_slice())
}

/// Wrapping subtraction of two values of one width.
pub fn ebm_sub<T: FixedWidth>(a: T, b: T) -> (r: T)
    ensures
        r.bits_value() == (a.bits_value() - b.bits_value()) % (modulus::<T>() as int),
{
    let x = value_to_bytes(a);
    let y = value_to_bytes(b);
    let z = sub_bytes(x.as_slice(), y.as_slice());
    bytes_to_value(z.as_slice())
}

/// Wrapping multiplication of two values of one width.
pub fn ebm_mul<T: FixedWidth>(a: T, b: T) -> (r: T)
    ensures
        r.bits_value() == (a.bits_value() * b.bits_value()) % modulus::<T>(),
{
    proof {
        T::lemma_width();
    }
    let x = value_to_bytes(a);
    let y = value_to_bytes(b);
    let z = mul_bytes(x.as_slice(), y.as_slice());
    bytes_to_value(z.as_slice())
}

/// Unsigned division of the bit patterns; a zero divisor gives zero.
pub fn ebm_div<T: FixedWidth>(a: T, b: T) -> (r: T)
    ensures
        r.bits_value() == quotient_value(a.bits_value(), b.bits_value()),
{
    proof {
        T::lemma_width();
    }
    let x = value_to_bytes(a);
    let y = value_to_bytes(b);
    let z = div_bytes(x.as_slice(), y.as_slice());
    bytes_to_value(z.as_slice())
}

/// Unsigned remainder of the bit patterns; a zero divisor gives zero.
pub fn ebm_mod<T: FixedWidth>(a: T, b: T) -> (r: T)
    ensures
        r.bits_value() == remainder_value(a.bits_value(), b.bits_value()),
{
    proof {
        T::lemma_width();
    }
    let x = value_to_bytes(a);
    let y = value_to_bytes(b);
    let z = rem_bytes(x.as_slice(), y.as_slice());
    bytes_to_value(z.as_slice())
}

/// Subtracting `b` from the wrapped sum of `a` and `b` gives `a` back.
pub proof fn lemma_add_sub_inverse<T: FixedWidth>(a: T, b: T)
    ensures
        forall|s: T, d: T|
            #![trigger s.bits_value(), d.bits_value()]
            s.bits_value() == (a.bits_value() + b.bits_value()) % modulus::<T>() && d.bits_value()
                == (s.bits_value() - b.bits_value()) % (modulus::<T>() as int) ==> d == a,
{
    let m = modulus::<T>() as int;
    T::lemma_bits_bound(a);
    T::lemma_bits_bound(b);
    lemma_pow256_pos(T::byte_width());
    assert forall|s: T, d: T|
        #![trigger s.bits_value(), d.bits_value()]
        s.bits_value() == (a.bits_value() + b.bits_value()) % modulus::<T>() && d.bits_value() == (
        s.bits_value() - b.bits_value()) % m implies d == a by {
        let (x, y) = (a.bits_value() as int, b.bits_value() as int);
        vstd::arithmetic::div_mod::lemma_sub_mod_noop(x + y, y, m);
        vstd::arithmetic::div_mod::lemma_small_mod(b.bits_value(), m as nat);
        vstd::arithmetic::div_mod::lemma_small_mod(a.bits_value(), m as nat);
        assert(x + y - y == x);
        T::lemma_bits_injective(d, a);
    }
}

/// Wrapping multiplication does not depend on the order of its operands.
pub proof fn lemma_mul_commutative<T: FixedWidth>(a: T, b: T)
    ensures
        forall|p: T, q: T|
            #![trigger p.bits_value(), q.bits_value()]
            p.bits_value() == (a.bits_value() * b.bits_value()) % modulus::<T>() && q.bits_value()
                == (b.bits_value() * a.bits_value()) % modulus::<T>() ==> p == q,
{
    assert(a.bits_value() * b.bits_value() == b.bits_value() * a.bits_value()) by (nonlinear_arith);
    assert forall|p: T, q: T|
        #![trigger p.bits_value(), q.bits_value()]
        p.bits_value() == (a.bits_value() * b.bits_value()) % modulus::<T>() && q.bits_value() == (
        b.bits_value() * a.bits_value()) % modulus::<T>() implies p == q by {
        T::lemma_bits_injective(p, q);
    }
}

/// Division and remainder by zero both give the zero of the width.
pub proof fn lemma_div_mod_by_zero<T: FixedWidth>(a: T, zero: T)
    requires
        zero.bits_value() == 0,
    ensures
        forall|q: T|
            q.bits_value() == quotient_value(a.bits_value(), zero.bits_value()) ==> q == zero,
        forall|m: T|
            m.bits_value() == remainder_value(a.bits_value(), zero.bits_value()) ==> m == zero,
{
    assert forall|q: T| q.bits_value() == quotient_value(a.bits_value(), zero.bits_value()) implies q
        == zero by {
        T::lemma_bits_injective(q, zero);
    }
    assert forall|m: T| m.bits_value() == remainder_value(a.bits_value(), zero.bits_value()) implies m
        == zero by {
        T::lemma_bits_injective(m, zero);
    }
}

} // verus!
