use approx_int::SmallValue;

// Encoding the zero of every supported type stores bit length one and
// percentage one, and zero round-trips exactly: reconstruction and both
// bounds are zero.
#[test]
fn zero_is_exact_u32() {
    let sv = SmallValue::new(0u32);
    assert_eq!((sv.min_bits(), sv.percent(), sv.flag()), (1, 1, false));
    assert_eq!(sv.approximate(), 0);
    assert_eq!(sv.bounds(), (0, 0));
}

#[test]
fn zero_is_exact_i128() {
    let sv = SmallValue::new(0i128);
    assert_eq!((sv.min_bits(), sv.percent(), sv.flag()), (1, 1, false));
    assert_eq!(sv.approximate(), 0);
    assert_eq!(sv.bounds(), (0, 0));
}

// The bit length is the least number of bits bounding the magnitude: one more
// bit exactly at each power of two.
#[test]
fn bit_length_is_minimal() {
    assert_eq!(SmallValue::new(255u32).min_bits(), 8);
    assert_eq!(SmallValue::new(256u32).min_bits(), 9);
    assert_eq!(SmallValue::new(1u32).min_bits(), 1);
}

// Negative values measure through the complement, so minus one measures zero
// bits and minus two measures one.
#[test]
fn bit_length_of_small_negatives() {
    let minus_one = SmallValue::new(-1i32);
    assert_eq!(
        (minus_one.min_bits(), minus_one.percent(), minus_one.flag()),
        (0, 199, true)
    );
    assert_eq!(minus_one.approximate(), 0);
    let minus_two = SmallValue::new(-2i32);
    assert_eq!(
        (minus_two.min_bits(), minus_two.percent(), minus_two.flag()),
        (1, 199, true)
    );
    assert_eq!(minus_two.approximate(), -2);
}

// The full stored triple of a few concrete encodings, error bias included.
#[test]
fn stored_triples_of_negatives() {
    let a = SmallValue::new(-5i32);
    assert_eq!((a.min_bits(), a.percent(), a.flag()), (3, 91, true));
    assert_eq!(a.approximate(), -6);
    let b = SmallValue::new(-14403i32);
    assert_eq!((b.min_bits(), b.percent(), b.flag()), (14, 88, true));
    assert_eq!(b.approximate(), -14507);
    let c = SmallValue::new(-128i32);
    assert_eq!((c.min_bits(), c.percent(), c.flag()), (7, 121, true));
}

// Checked arithmetic agrees with the native operation where it succeeds...
#[test]
fn checked_add_reencodes_the_sum() {
    let a = SmallValue::new(1000u32);
    let b = SmallValue::new(2000u32);
    assert_eq!(a.approximate(), 990);
    assert_eq!(b.approximate(), 1980);
    let sum = a.checked_add(b).unwrap();
    assert_eq!((sum.min_bits(), sum.percent(), sum.flag()), (12, 74, false));
    assert_eq!(sum, SmallValue::new(990u32 + 1980u32));
}

// ...and returns no result exactly when the native operation would fail.
#[test]
fn checked_division_by_zero_has_no_result() {
    let a = SmallValue::new(5u32);
    let zero = SmallValue::new(0u32);
    assert!(a.checked_div(zero).is_none());
    assert!(a.checked_rem(zero).is_none());
    assert!(a.checked_div(a).is_some());
}

#[test]
fn checked_signed_overflow_has_no_result() {
    let low = SmallValue::new(i32::MIN);
    assert!(low.checked_add(low).is_none());
    assert!(low.checked_sub(SmallValue::new(i32::MAX)).is_none());
    // 3 reconstructs to 2, so the product leaves the type's range
    assert_eq!(SmallValue::new(3i32).approximate(), 2);
    assert!(low.checked_mul(SmallValue::new(3i32)).is_none());
}

// Signed division truncates toward zero and the remainder keeps the
// dividend's sign, as the native operators do.
#[test]
fn signed_division_truncates() {
    let a = SmallValue::new(1000i32);
    let b = SmallValue::new(-7i32);
    assert_eq!(a.approximate(), 990);
    assert_eq!(b.approximate(), -7);
    let q = a.div(b);
    assert_eq!((q.min_bits(), q.percent(), q.flag()), (8, 70, true));
    assert_eq!(q, SmallValue::new(990i32 / -7i32));
    let r = a.rem(b);
    assert_eq!((r.min_bits(), r.percent(), r.flag()), (2, 99, false));
    assert_eq!(r, SmallValue::new(990i32 % -7i32));
}

// Ordering follows reconstruction: distinct triples with equal
// reconstructions compare as ties while staying unequal as triples.
#[test]
fn order_follows_reconstruction() {
    let a: SmallValue<u32> = (9, 2, false).into();
    let b: SmallValue<u32> = (8, 5, false).into();
    assert_eq!(a.approximate(), 10);
    assert_eq!(b.approximate(), 10);
    assert_ne!(a, b);
    assert!(a <= b && a >= b);
    assert!(!(a < b) && !(b < a));
    let c: SmallValue<u32> = (8, 6, false).into();
    assert!(a < c && c > b);
}

// The literal triple format round-trips exactly, whatever the triple holds.
#[test]
fn triple_round_trip_is_exact() {
    let t = (20, 77, true);
    let sv: SmallValue<i64> = t.into();
    let back: (u8, u8, bool) = sv.into();
    assert_eq!(back, t);
    let extreme = (255, 255, true);
    let sv: SmallValue<i64> = extreme.into();
    let back: (u8, u8, bool) = sv.into();
    assert_eq!(back, extreme);
}

// The two-byte form drops the sign and stores the rest unchanged.
#[test]
fn pair_form_assumes_positive() {
    let sv: SmallValue<u64> = (12, 34).into();
    assert_eq!((sv.min_bits(), sv.percent(), sv.flag()), (12, 34, false));
    let back: (u8, u8) = sv.into();
    assert_eq!(back, (12, 34));
}

// A flagged triple of an unsigned type cannot be negated: its reconstruction
// clamps to the type's minimum, zero.
#[test]
fn unsigned_flagged_triple_clamps_to_zero() {
    let sv: SmallValue<u32> = (8, 50, true).into();
    assert_eq!(sv.approximate(), 0);
}

// A stored percentage at the top of its byte saturates instead of wrapping
// when the decoder steps it up.
#[test]
fn decoding_saturates_at_the_top_percentage() {
    let sv: SmallValue<i32> = (8, 255, true).into();
    assert_eq!(sv.approximate(), -510);
    assert_eq!(sv.bounds(), (-510, -508));
}

// Bounds are ordered, low at or below high, across signs and widths.
#[test]
fn bounds_are_ordered() {
    for n in [-100_000i64, -129, -5, -1, 0, 1, 7, 129, 100_000] {
        let (min, max) = SmallValue::new(n).bounds();
        assert!(min <= max);
    }
    let (min, max) = SmallValue::new(10_000u64).bounds();
    assert_eq!((min, max), (9943, 10106));
}

// The documented exception to ordered bounds: a negative value within the
// last whole percentage step of the type's minimum, where the upper sibling's
// reconstruction overflows and collapses to zero.
#[test]
fn bounds_collapse_just_above_the_minimum() {
    let (min, max) = SmallValue::new(i32::MIN + 1).bounds();
    assert_eq!(min, 0);
    assert_eq!(max, -2126008764);
    assert!(min > max);
}

// The default value is the encoding of zero.
#[test]
fn default_encodes_zero() {
    let sv: SmallValue<u32> = Default::default();
    assert_eq!((sv.min_bits(), sv.percent(), sv.flag()), (1, 1, false));
}

// The concrete scenarios of the format: 128 encodes as (8, 63, false) with a
// reconstruction at or below the original, and 64 as (7, 63, false).
#[test]
fn encoding_of_small_powers() {
    let sv = SmallValue::new(128u32);
    assert_eq!((sv.min_bits(), sv.percent(), sv.flag()), (8, 63, false));
    assert_eq!(sv.approximate(), 126);
    let sv = SmallValue::new(64u32);
    assert_eq!((sv.min_bits(), sv.percent(), sv.flag()), (7, 63, false));
}
