//! Bit counting: population count and the lengths of the runs of equal bits at
//! either end of a value, found by a scan that stops at the first bit breaking the run.
use vstd::prelude::*;
use crate::model::{bit_at, lemma_bit_at_index};
use crate::fixed_width::{FixedWidth, bit_width, bytes_of, lemma_round_trip, value_to_bytes};

verus! {

/// The number of set bits among the lowest `k` bits of `s`.
pub open spec fn count_ones_below(s: Seq<u8>, k: nat) -> nat
    decreases k,
{
    if k == 0 {
        0
    } else {
        count_ones_below(s, (k - 1) as nat) + if bit_at(s, k - 1) {
            1nat
        } else {
            0nat
        }
    }
}

/// The top `r` bits of `s` all equal `b`, and the bit below them, if any, does not.
pub open spec fn is_leading_run(s: Seq<u8>, b: bool, r: nat) -> bool {
    let t = 8 * s.len();
    &&& r <= t
    &&& forall|k: int| t - r <= k < t ==> #[trigger] bit_at(s, k) == b
    &&& r < t ==> bit_at(s, t - 1 - r) != b
}

/// The bottom `r` bits of `s` all equal `b`, and the bit above them, if any, does not.
pub open spec fn is_trailing_run(s: Seq<u8>, b: bool, r: nat) -> bool {
    let t = 8 * s.len();
    &&& r <= t
    &&& forall|k: int| 0 <= k < r ==> #[trigger] bit_at(s, k) == b
    &&& r < t ==> bit_at(s, r as int) != b
}

/// The number of set bits, counted byte by byte and bit by bit.
pub fn population_count_bytes(a: &[u8]) -> (r: u32)
    requires
        8 * a@.len() <= u32::MAX,
    ensures
        r == count_ones_below(a@, 8 * a@.len()),
{
    let len = a.len();
    let mut count: u32 = 0;
    let mut i: usize = 0;
    while i < len
        invariant
            len == a@.len(),
            8 * len <= u32::MAX,
            i <= len,
            count <= 8 * i,
            count == count_ones_below(a@, 8 * i as nat),
        decreases len - i,
    {
        let byte = a[i];
        let mut j: u8 = 0;
        while j < 8
            invariant
                len == a@.len(),
                8 * len <= u32::MAX,
                i < len,
                byte == a@[i as int],
                j <= 8,
                count <= 8 * i + j,
                count == count_ones_below(a@, (8 * i + j) as nat),
            decreases 8 - j,
        {
            proof {
                lemma_bit_at_index(a@, i as int, j as int);
            }
            if (byte >> j) & 1 == 1 {
                count = count + 1;
            }
            j = j + 1;
        }
        i = i + 1;
    }
    count
}

/// The length of the run of bits equal to `b` at the most significant end.
pub fn count_leading(a: &[u8], b: bool) -> (r: u32)
    requires
        8 * a@.len() <= u32::MAX,
    ensures
        is_leading_run(a@, b, r as nat),
{
    let len = a.len();
    let mut count: u32 = 0;
    let mut i: usize = len;
    while i > 0
        invariant
            len == a@.len(),
            8 * len <= u32::MAX,
            i <= len,
            count == 8 * (len - i),
            forall|k: int| 8 * i <= k < 8 * len ==> #[trigger] bit_at(a@, k) == b,
        decreases i,
    {
        let byte = a[i - 1];
        let mut j: u8 = 8;
        while j > 0
            invariant
                len == a@.len(),
                8 * len <= u32::MAX,
                0 < i <= len,
                byte == a@[i - 1],
                j <= 8,
                count == 8 * (len - i) + (8 - j),
                forall|k: int| 8 * (i - 1) + j <= k < 8 * len ==> #[trigger] bit_at(a@, k) == b,
            decreases j,
        {
            proof {
                lemma_bit_at_index(a@, i - 1, j - 1);
            }
            if ((byte >> (j - 1)) & 1 == 1) != b {
                return count;
            }
            count = count + 1;
            j = j - 1;
        }
        i = i - 1;
    }
    count
}

/// The length of the run of bits equal to `b` at the least significant end.
pub fn count_trailing(a: &[u8], b: bool) -> (r: u32)
    requires
        8 * a@.len() <= u32::MAX,
    ensures
        is_trailing_run(a@, b, r as nat),
{
    let len = a.len();
    let mut count: u32 = 0;
    let mut i: usize = 0;
    while i < len
        invariant
            len == a@.len(),
            8 * len <= u32::MAX,
            i <= len,
            count == 8 * i,
            forall|k: int| 0 <= k < 8 * i ==> #[trigger] bit_at(a@, k) == b,
        decreases len - i,
    {
        let byte = a[i];
        let mut j: u8 = 0;
        while j < 8
            invariant
                len == a@.len(),
                8 * len <= u32::MAX,
                i < len,
                byte == a@[i as int],
                j <= 8,
                count == 8 * i + j,
                forall|k: int| 0 <= k < 8 * i + j ==> #[trigger] bit_at(a@, k) == b,
            decreases 8 - j,
        {
            proof {
                lemma_bit_at_index(a@, i as int, j as int);
            }
            if ((byte >> j) & 1 == 1) != b {
                return count;
            }
            count = count + 1;
            j = j + 1;
        }
        i = i + 1;
    }
    count
}

/// The number of set bits of `a`.
pub fn ebm_population_count<T: FixedWidth>(a: T) -> (r: u32)
    ensures
        r == count_ones_below(bytes_of(a), bit_width::<T>()),
{
    proof {
        lemma_round_trip(a);
        T::lemma_width();
    }
    let x = value_to_bytes(a);
    population_count_bytes(x.as_slice())
}

/// The number of zero bits above the highest set bit; the bit width for zero.
pub fn ebm_leading_zeros<T: FixedWidth>(a: T) -> (r: u32)
    ensures
        is_leading_run(bytes_of(a), false, r as nat),
{
    proof {
        T::lemma_width();
    }
    let x = value_to_bytes(a);
    count_leading(x.as_slice(), false)
}

/// The number of set bits above the highest zero bit; the bit width when all are set.
pub fn ebm_leading_ones<T: FixedWidth>(a: T) -> (r: u32)
    ensures
        is_leading_run(bytes_of(a), true, r as nat),
{
    proof {
        T::lemma_width();
    }
    let x = value_to_bytes(a);
    count_leading(x.as_slice(), true)
}

/// The number of zero bits below the lowest set bit; the bit width for zero.
pub fn ebm_trailing_zeros<T: FixedWidth>(a: T) -> (r: u32)
    ensures
        is_trailing_run(bytes_of(a), false, r as nat),
{
    proof {
        T::lemma_width();
    }
    let x = value_to_bytes(a);
    count_trailing(x.as_slice(), false)
}

/// The number of set bits below the lowest zero bit; the bit width when all are set.
pub fn ebm_trailing_ones<T: FixedWidth>(a: T) -> (r: u32)
    ensures
        is_trailing_run(bytes_of(a), true, r as nat),
{
    proof {
        T::lemma_width();
    }
    let x = value_to_bytes(a);
    count_trailing(x.as_slice(), true)
}

} // verus!
