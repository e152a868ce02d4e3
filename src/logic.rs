//! Byte-wise logic: each output byte depends on the input bytes at its position alone.
use vstd::prelude::*;
use crate::fixed_width::{FixedWidth, bytes_of, value_to_bytes, bytes_to_value};

verus! {

/// Byte-wise AND of two buffers of one length.
pub fn and_bytes(a: &[u8], b: &[u8]) -> (r: Vec<u8>)
    requires
        a@.len() == b@.len(),
    ensures
        r@.len() == a@.len(),
        forall|i: int| 0 <= i < r@.len() ==> r@[i] == a@[i] & b@[i],
{
    let mut r: Vec<u8> = Vec::new();
    let mut i: usize = 0;
    while i < a.len()
        invariant
            a@.len() == b@.len(),
            i <= a@.len(),
            r@.len() == i,
            forall|j: int| 0 <= j < i ==> r@[j] == a@[j] & b@[j],
        decreases a@.len() - i,
    {
        r.push(a[i] & b[i]);
        i = i + 1;
    }
    r
}

/// Byte-wise OR of two buffers of one length.
pub fn or_bytes(a: &[u8], b: &[u8]) -> (r: Vec<u8>)
    requires
        a@.len() == b@.len(),
    ensures
        r@.len() == a@.len(),
        forall|i: int| 0 <= i < r@.len() ==> r@[i] == a@[i] | b@[i],
{
    let mut r: Vec<u8> = Vec::new();
    let mut i: usize = 0;
    while i < a.len()
        invariant
            a@.len() == b@.len(),
            i <= a@.len(),
            r@.len() == i,
            forall|j: int| 0 <= j < i ==> r@[j] == a@[j] | b@[j],
        decreases a@.len() - i,
    {
        r.push(a[i] | b[i]);
        i = i + 1;
    }
    r
}

/// Byte-wise exclusive OR of two buffers of one length.
pub fn xor_bytes(a: &[u8], b: &[u8]) -> (r: Vec<u8>)
    requires
        a@.len() == b@.len(),
    ensures
        r@.len() == a@.len(),
        forall|i: int| 0 <= i < r@.len() ==> r@[i] == a@[i] ^ b@[i],
{
    let mut r: Vec<u8> = Vec::new();
    let mut i: usize = 0;
    while i < a.len()
        invariant
            a@.len() == b@.len(),
            i <= a@.len(),
            r@.len() == i,
            forall|j: int| 0 <= j < i ==> r@[j] == a@[j] ^ b@[j],
        decreases a@.len() - i,
    {
        r.push(a[i] ^ b[i]);
        i = i + 1;
    }
    r
}

/// Byte-wise complement.
pub fn not_bytes(a: &[u8]) -> (r: Vec<u8>)
    ensures
        r@.len() == a@.len(),
        forall|i: int| 0 <= i < r@.len() ==> r@[i] == !a@[i],
{
    let mut r: Vec<u8> = Vec::new();
    let mut i: usize = 0;
    while i < a.len()
        invariant
            i <= a@.len(),
            r@.len() == i,
            forall|j: int| 0 <= j < i ==> r@[j] == !a@[j],
        decreases a@.len() - i,
    {
        r.push(!a[i]);
        i = i + 1;
    }
    r
}

/// Bitwise AND of two values of one width.
pub fn ebm_and<T: FixedWidth>(a: T, b: T) -> (r: T)
    ensures
        forall|i: int|
            0 <= i < T::byte_width() ==> bytes_of(r)[i] == bytes_of(a)[i] & bytes_of(b)[i],
{
    let x = value_to_bytes(a);
    let y = value_to_bytes(b);
    let z = and_bytes(x.as_slice(), y.as_slice());
    bytes_to_value(z.as_slice())
}

/// Bitwise OR of two values of one width.
pub fn ebmor<T: FixedWidth>(a: T, b: T) -> (r: T)
    ensures
        forall|i: int|
            0 <= i < T::byte_width() ==> bytes_of(r)[i] == bytes_of(a)[i] | bytes_of(b)[i],
{
    let x = value_to_bytes(a);
    let y = value_to_bytes(b);
    let z = or_bytes(x.as_slice(), y.as_slice());
    bytes_to_value(z.as_slice())
}

/// Bitwise exclusive OR of two values of one width.
pub fn ebmxor<T: FixedWidth>(a: T, b: T) -> (r: T)
    ensures
        forall|i: int|
            0 <= i < T::byte_width() ==> bytes_of(r)[i] == bytes_of(a)[i] ^ bytes_of(b)[i],
{
    let x = value_to_bytes(a);
    let y = value_to_bytes(b);
    let z = xor_bytes(x.as_slice(), y.as_slice());
    bytes_to_value(z.as_slice())
}

/// Bitwise complement.
pub fn ebmnot<T: FixedWidth>(a: T) -> (r: T)
    ensures
        forall|i: int| 0 <= i < T::byte_width() ==> bytes_of(r)[i] == !bytes_of(a)[i],
{
    let x = value_to_bytes(a);
    let z = not_bytes(x.as_slice());
    bytes_to_value(z.as_slice())
}

} // verus!
