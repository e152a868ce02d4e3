use eidolon_math::arithmetic::{add_bytes, div_bytes, ebm_add, ebm_div, ebm_mod, ebm_mul, ebm_sub, mul_bytes, rem_bytes, sub_bytes};
use eidolon_math::counting::{
    count_leading, count_trailing, ebm_leading_ones, ebm_leading_zeros, ebm_population_count,
    ebm_trailing_ones, ebm_trailing_zeros, population_count_bytes,
};
use eidolon_math::fixed_width::{bytes_to_value, le_bytes_to_u128, u128_to_le_bytes, value_to_bytes};
use eidolon_math::logic::{and_bytes, ebm_and, ebmnot, ebmor, ebmxor, not_bytes, or_bytes, xor_bytes};
use eidolon_math::shifting::{
    ebm_left_rotate, ebm_left_shift, ebm_right_rotate, ebm_right_shift, rotate_left_bytes,
    rotate_right_bytes, shift_left_bytes, shift_right_bytes,
};

const SAMPLES_U32: [u32; 8] = [0, 1, 2, 0x7F, 0x8000_0000, 0xDEAD_BEEF, 0x1234_5678, u32::MAX];
const SAMPLES_U128: [u128; 6] = [
    0,
    1,
    0xFFFF_FFFF_FFFF_FFFF,
    0x0123_4567_89AB_CDEF_FEDC_BA98_7654_3210,
    1 << 127,
    u128::MAX,
];

#[test]
fn round_trip_of_byte_views() {
    for x in SAMPLES_U32 {
        let b = value_to_bytes(x);
        assert_eq!(b.len(), 4);
        assert_eq!(bytes_to_value::<u32>(&b), x);
        assert_eq!(b, x.to_le_bytes().to_vec());
    }
    for x in SAMPLES_U128 {
        assert_eq!(bytes_to_value::<u128>(&value_to_bytes(x)), x);
        assert_eq!(value_to_bytes(x), x.to_le_bytes().to_vec());
    }
    for x in [i64::MIN, -1, 0, 1, i64::MAX] {
        assert_eq!(bytes_to_value::<i64>(&value_to_bytes(x)), x);
    }
    for x in i8::MIN..=i8::MAX {
        assert_eq!(bytes_to_value::<i8>(&value_to_bytes(x)), x);
    }
    assert_eq!(value_to_bytes(0x1234u16), vec![0x34, 0x12]);
    assert_eq!(bytes_to_value::<u32>(&[1, 2, 3, 4]), 0x0403_0201);
    assert_eq!(bytes_to_value::<i16>(&[0xFF, 0xFF]), -1);
}

#[test]
fn wide_accumulator_conversions() {
    assert_eq!(le_bytes_to_u128(&[]), 0);
    assert_eq!(le_bytes_to_u128(&[0x01, 0x02, 0x03]), 0x030201);
    assert_eq!(le_bytes_to_u128(&[0xFF; 16]), u128::MAX);
    assert_eq!(u128_to_le_bytes(0x030201, 2), vec![0x01, 0x02]);
    assert_eq!(u128_to_le_bytes(7, 0), Vec::<u8>::new());
}

#[test]
fn add_then_sub_gives_back_the_first_operand() {
    for a in 0..=255u8 {
        for b in 0..=255u8 {
            assert_eq!(ebm_sub(ebm_add(a, b), b), a);
        }
    }
    for a in SAMPLES_U128 {
        for b in SAMPLES_U128 {
            assert_eq!(ebm_sub(ebm_add(a, b), b), a);
        }
    }
    assert_eq!(ebm_sub(ebm_add(i32::MAX, 5i32), 5i32), i32::MAX);
}

#[test]
fn multiplication_is_commutative() {
    for a in SAMPLES_U32 {
        for b in SAMPLES_U32 {
            assert_eq!(ebm_mul(a, b), ebm_mul(b, a));
        }
    }
    for a in SAMPLES_U128 {
        for b in SAMPLES_U128 {
            assert_eq!(ebm_mul(a, b), ebm_mul(b, a));
        }
    }
}

#[test]
fn shift_by_zero_and_rotate_by_width_are_identities() {
    for a in 0..=255u8 {
        assert_eq!(ebm_left_shift(a, 0u8), a);
        assert_eq!(ebm_left_rotate(a, 8u8), a);
    }
    for a in SAMPLES_U32 {
        assert_eq!(ebm_left_shift(a, 0u32), a);
        assert_eq!(ebm_left_rotate(a, 32u32), a);
    }
    for a in SAMPLES_U128 {
        assert_eq!(ebm_left_shift(a, 0u8), a);
        assert_eq!(ebm_left_rotate(a, 128u8), a);
    }
}

#[test]
fn rotate_right_undoes_rotate_left() {
    for a in SAMPLES_U32 {
        for n in 0..80u8 {
            assert_eq!(ebm_right_rotate(ebm_left_rotate(a, n), n), a);
        }
    }
    for a in SAMPLES_U128 {
        for n in [0u16, 1, 7, 8, 9, 63, 64, 127, 128, 129, 1000] {
            assert_eq!(ebm_right_rotate(ebm_left_rotate(a, n), n), a);
        }
    }
}

#[test]
fn division_and_remainder_by_zero_give_zero() {
    for a in 0..=255u8 {
        assert_eq!(ebm_div(a, 0u8), 0);
        assert_eq!(ebm_mod(a, 0u8), 0);
    }
    for a in SAMPLES_U128 {
        assert_eq!(ebm_div(a, 0u128), 0);
        assert_eq!(ebm_mod(a, 0u128), 0);
    }
    assert_eq!(ebm_div(-5i16, 0i16), 0);
    assert_eq!(ebm_mod(-5i16, 0i16), 0);
}

#[test]
fn concrete_scenarios() {
    assert_eq!(ebm_add(5u8, 3u8), 8);
    assert_eq!(ebm_add(255u8, 1u8), 0);
    assert_eq!(ebm_sub(8u8, 3u8), 5);
    assert_eq!(ebm_sub(0u8, 1u8), 255);
    assert_eq!(ebm_mul(5u8, 3u8), 15);
    assert_eq!(ebm_mul(0x00FFu16, 0x0002u16), 0x01FE);
    assert_eq!(ebm_left_shift(5u8, 2u8), 20);
    assert_eq!(ebm_left_shift(0x00FFu16, 8u16), 0xFF00);
    assert_eq!(ebm_left_rotate(0x80u8, 1u8), 0x01);
    assert_eq!(ebm_right_rotate(0x01u8, 1u8), 0x80);
    assert_eq!(ebm_population_count(0xFFu8), 8);
    assert_eq!(ebm_leading_zeros(0x08u8), 4);
    assert_eq!(ebm_trailing_ones(0x07u8), 3);
}

#[test]
fn arithmetic_matches_wrapping_arithmetic_on_bytes() {
    for a in 0..=255u8 {
        for b in 0..=255u8 {
            assert_eq!(ebm_add(a, b), a.wrapping_add(b));
            assert_eq!(ebm_sub(a, b), a.wrapping_sub(b));
            assert_eq!(ebm_mul(a, b), a.wrapping_mul(b));
            if b != 0 {
                assert_eq!(ebm_div(a, b), a / b);
                assert_eq!(ebm_mod(a, b), a % b);
            }
        }
    }
}

#[test]
fn arithmetic_on_wide_values() {
    for a in SAMPLES_U128 {
        for b in SAMPLES_U128 {
            assert_eq!(ebm_add(a, b), a.wrapping_add(b));
            assert_eq!(ebm_sub(a, b), a.wrapping_sub(b));
            assert_eq!(ebm_mul(a, b), a.wrapping_mul(b));
            if b != 0 {
                assert_eq!(ebm_div(a, b), a / b);
                assert_eq!(ebm_mod(a, b), a % b);
            }
        }
    }
    assert_eq!(ebm_mul(0xFFFF_FFFF_FFFF_FFFFu64, 0xFFFF_FFFF_FFFF_FFFFu64), 1);
    assert_eq!(ebm_mul(0x1_0000u32, 0x1_0000u32), 0);
    assert_eq!(ebm_div(1_000_000_007u64, 1000u64), 1_000_000);
    assert_eq!(ebm_mod(1_000_000_007u64, 1000u64), 7);
}

#[test]
fn signed_values_use_their_bit_patterns() {
    assert_eq!(ebm_add(-1i8, 1i8), 0);
    assert_eq!(ebm_add(i8::MAX, 1i8), i8::MIN);
    assert_eq!(ebm_sub(i64::MIN, 1i64), i64::MAX);
    assert_eq!(ebm_mul(-3i32, 7i32), -21);
    assert_eq!(ebm_mul(-1i128, -1i128), 1);
    // Division reads both bit patterns as unsigned numbers: 0xF8 / 2 == 0x7C.
    assert_eq!(ebm_div(-8i8, 2i8), 124);
    assert_eq!(ebm_mod(-1i8, 16i8), 15);
    // Right shifts bring in zeros at the top.
    assert_eq!(ebm_right_shift(-1i8, 1u8), 0x7F);
    assert_eq!(ebm_left_shift(1i16, 15u8), i16::MIN);
    assert_eq!(ebmnot(0i32), -1);
    assert_eq!(ebm_population_count(-1i64), 64);
    assert_eq!(ebm_leading_ones(-2i8), 7);
}

#[test]
fn logic_matches_native_operators() {
    for a in SAMPLES_U32 {
        for b in SAMPLES_U32 {
            assert_eq!(ebm_and(a, b), a & b);
            assert_eq!(ebmor(a, b), a | b);
            assert_eq!(ebmxor(a, b), a ^ b);
        }
        assert_eq!(ebmnot(a), !a);
    }
    assert_eq!(ebmxor(0x0123_4567_89AB_CDEFu64, u64::MAX), 0xFEDC_BA98_7654_3210);
}

#[test]
fn shifts_and_rotations_match_native_operators() {
    for a in 0..=255u8 {
        for n in 0..8u32 {
            assert_eq!(ebm_left_shift(a, n), a << n);
            assert_eq!(ebm_right_shift(a, n), a >> n);
            assert_eq!(ebm_left_rotate(a, n), a.rotate_left(n));
            assert_eq!(ebm_right_rotate(a, n), a.rotate_right(n));
        }
    }
    for a in SAMPLES_U128 {
        for n in [1u32, 7, 8, 9, 63, 64, 65, 120, 127] {
            assert_eq!(ebm_left_shift(a, n), a << n);
            assert_eq!(ebm_right_shift(a, n), a >> n);
            assert_eq!(ebm_left_rotate(a, n), a.rotate_left(n));
            assert_eq!(ebm_right_rotate(a, n), a.rotate_right(n));
        }
    }
}

#[test]
fn shift_amounts_of_full_width_or_more_clear_the_value() {
    assert_eq!(ebm_left_shift(0xFFu8, 8u8), 0);
    assert_eq!(ebm_right_shift(0xFFu8, 8u8), 0);
    assert_eq!(ebm_left_shift(u32::MAX, 32u64), 0);
    assert_eq!(ebm_right_shift(u128::MAX, 128u8), 0);
    assert_eq!(ebm_left_shift(1u8, u128::MAX), 0);
    // Negative amounts are read as their unsigned bit patterns.
    assert_eq!(ebm_left_shift(1u16, -1i8), 0);
}

#[test]
fn rotation_amounts_are_reduced_modulo_the_width() {
    assert_eq!(ebm_left_rotate(0x80u8, 9u8), 0x01);
    assert_eq!(ebm_right_rotate(0x01u8, 17u8), 0x80);
    assert_eq!(ebm_left_rotate(0x1234u16, 20u16), 0x2341);
    assert_eq!(ebm_left_rotate(1u64, u128::MAX), 1u64 << 63);
}

#[test]
fn counting_matches_native_counts() {
    for a in 0..=255u8 {
        assert_eq!(ebm_population_count(a), a.count_ones());
        assert_eq!(ebm_leading_zeros(a), a.leading_zeros());
        assert_eq!(ebm_leading_ones(a), a.leading_ones());
        assert_eq!(ebm_trailing_zeros(a), a.trailing_zeros());
        assert_eq!(ebm_trailing_ones(a), a.trailing_ones());
    }
    for a in SAMPLES_U128 {
        assert_eq!(ebm_population_count(a), a.count_ones());
        assert_eq!(ebm_leading_zeros(a), a.leading_zeros());
        assert_eq!(ebm_leading_ones(a), a.leading_ones());
        assert_eq!(ebm_trailing_zeros(a), a.trailing_zeros());
        assert_eq!(ebm_trailing_ones(a), a.trailing_ones());
    }
    assert_eq!(ebm_leading_zeros(0u128), 128);
    assert_eq!(ebm_trailing_ones(u64::MAX), 64);
}

#[test]
fn byte_kernel_works_at_any_width() {
    // Three-byte values: a width no native type has.
    assert_eq!(add_bytes(&[0xFF, 0xFF, 0xFF], &[1, 0, 0]), vec![0, 0, 0]);
    assert_eq!(add_bytes(&[0xFF, 0x00, 0x00], &[0x01, 0x00, 0x00]), vec![0x00, 0x01, 0x00]);
    assert_eq!(sub_bytes(&[0, 0, 0], &[1, 0, 0]), vec![0xFF, 0xFF, 0xFF]);
    assert_eq!(sub_bytes(&[0x00, 0x01, 0x00], &[0x01, 0x00, 0x00]), vec![0xFF, 0x00, 0x00]);
    // 0x010203 * 0x000100 == 0x01020300, truncated to 0x020300.
    assert_eq!(mul_bytes(&[0x03, 0x02, 0x01], &[0x00, 0x01, 0x00]), vec![0x00, 0x03, 0x02]);
    assert_eq!(mul_bytes(&[0xFF, 0xFF, 0xFF], &[0xFF, 0xFF, 0xFF]), vec![0x01, 0x00, 0x00]);
    assert_eq!(div_bytes(&[0x00, 0x00, 0x01], &[0x00, 0x01, 0x00]), vec![0x00, 0x01, 0x00]);
    assert_eq!(rem_bytes(&[0x05, 0x00, 0x01], &[0x00, 0x01, 0x00]), vec![0x05, 0x00, 0x00]);
    assert_eq!(div_bytes(&[0x05, 0x00, 0x01], &[0, 0, 0]), vec![0, 0, 0]);
    assert_eq!(rem_bytes(&[0x05, 0x00, 0x01], &[0, 0, 0]), vec![0, 0, 0]);
    assert_eq!(and_bytes(&[0xF0, 0x0F, 0xFF], &[0xFF, 0xFF, 0x00]), vec![0xF0, 0x0F, 0x00]);
    assert_eq!(or_bytes(&[0xF0, 0x0F, 0x00], &[0x0F, 0x00, 0x01]), vec![0xFF, 0x0F, 0x01]);
    assert_eq!(xor_bytes(&[0xFF, 0x0F, 0x00], &[0x0F, 0x0F, 0x01]), vec![0xF0, 0x00, 0x01]);
    assert_eq!(not_bytes(&[0xF0, 0x00, 0xFF]), vec![0x0F, 0xFF, 0x00]);
    // Bits that leave one byte enter its neighbour.
    assert_eq!(shift_left_bytes(&[0x80, 0x00, 0x01], 1), vec![0x00, 0x01, 0x02]);
    assert_eq!(shift_left_bytes(&[0x81, 0x42, 0x24], 12), vec![0x00, 0x10, 0x28]);
    assert_eq!(shift_right_bytes(&[0x00, 0x01, 0x02], 1), vec![0x80, 0x00, 0x01]);
    assert_eq!(shift_right_bytes(&[0x81, 0x42, 0x24], 12), vec![0x44, 0x02, 0x00]);
    assert_eq!(rotate_left_bytes(&[0x00, 0x00, 0x80], 1), vec![0x01, 0x00, 0x00]);
    assert_eq!(rotate_left_bytes(&[0x12, 0x34, 0x56], 28), vec![0x25, 0x41, 0x63]);
    assert_eq!(rotate_right_bytes(&[0x01, 0x00, 0x00], 1), vec![0x00, 0x00, 0x80]);
    assert_eq!(rotate_right_bytes(&[0x25, 0x41, 0x63], 28), vec![0x12, 0x34, 0x56]);
    assert_eq!(population_count_bytes(&[0xFF, 0x01, 0x80]), 10);
    assert_eq!(count_leading(&[0xFF, 0x01, 0x00], false), 15);
    assert_eq!(count_trailing(&[0xFF, 0x01, 0x00], true), 9);
}

#[test]
fn empty_buffers() {
    let empty: [u8; 0] = [];
    assert_eq!(add_bytes(&empty, &empty), Vec::<u8>::new());
    assert_eq!(mul_bytes(&empty, &empty), Vec::<u8>::new());
    assert_eq!(shift_left_bytes(&empty, 3), Vec::<u8>::new());
    assert_eq!(rotate_left_bytes(&empty, 3), Vec::<u8>::new());
    assert_eq!(rotate_right_bytes(&empty, 3), Vec::<u8>::new());
    assert_eq!(population_count_bytes(&empty), 0);
    assert_eq!(count_leading(&empty, false), 0);
    assert_eq!(count_trailing(&empty, true), 0);
}

#[test]
fn platform_native_widths() {
    let width = std::mem::size_of::<usize>();
    assert_eq!(value_to_bytes(1usize).len(), width);
    assert_eq!(bytes_to_value::<usize>(&value_to_bytes(usize::MAX)), usize::MAX);
    assert_eq!(ebm_add(usize::MAX, 2usize), 1);
    assert_eq!(ebm_mul(usize::MAX, usize::MAX), 1);
    assert_eq!(ebm_sub(0isize, 1isize), -1);
    assert_eq!(ebm_left_rotate(1usize, 8 * width as u32 + 3), 8);
    assert_eq!(ebm_leading_zeros(1usize), usize::BITS - 1);
    assert_eq!(ebm_population_count(-1isize), isize::BITS);
    assert_eq!(bytes_to_value::<isize>(&value_to_bytes(isize::MIN)), isize::MIN);
}
