use fastfield_reader::codecs::{
    column_bounds, BitpackedReader, LINEAR_INTERPOLATION_SLACK, MAX_INTERPOLATED_VALUE,
};
use fastfield_reader::fast_value::{i64_to_u64, u64_to_i64, FastValue, FastValueU128};
use fastfield_reader::gcd::{compute_gcd, find_gcd, GCD_CODEC_ID, GCD_DEFAULT};
use fastfield_reader::le_bytes::{read_u64_le, write_u64_le};
use fastfield_reader::reader::{
    check_can_open, codec_accepts_values, is_non_decreasing, linear_interpolation_applies_to,
    multi_interpolation_applies_to, read_u8, to_u64_vec, values_to_store, DynamicFastFieldReader,
    FastFieldReader,
};

#[test]
fn i64_mapping_exact_values() {
    assert_eq!(i64_to_u64(0), 1 << 63);
    assert_eq!(i64_to_u64(-1), (1 << 63) - 1);
    assert_eq!(i64_to_u64(i64::MIN), 0);
    assert_eq!(i64_to_u64(i64::MAX), u64::MAX);
    assert_eq!(u64_to_i64(0), i64::MIN);
    assert_eq!(u64_to_i64(u64::MAX), i64::MAX);
    assert_eq!(u64_to_i64(1 << 63), 0);
}

#[test]
fn i64_mapping_keeps_order() {
    let vals = [i64::MIN, -1000, -1, 0, 1, 77, i64::MAX];
    for w in vals.windows(2) {
        assert!(i64_to_u64(w[0]) < i64_to_u64(w[1]));
        assert_eq!(u64_to_i64(i64_to_u64(w[0])), w[0]);
    }
}

#[test]
fn fast_value_conversions() {
    assert_eq!(<u64 as FastValue>::from_u64(17), 17);
    assert_eq!(17u64.to_u64(), 17);
    assert_eq!(<i64 as FastValue>::from_u64((1 << 63) + 5), 5);
    assert_eq!((-5i64).to_u64(), (1 << 63) - 5);
    assert_eq!(<bool as FastValue>::from_u64(0), false);
    assert_eq!(<bool as FastValue>::from_u64(9), true);
    assert_eq!(true.to_u64(), 1);
    assert_eq!(false.to_u64(), 0);
    assert_eq!(<u128 as FastValueU128>::from_u128(1 << 100), 1 << 100);
    assert_eq!((3u128).to_u128(), 3);
}

#[test]
fn little_endian_footer_numbers() {
    let mut out = vec![9u8];
    write_u64_le(0x0102_0304_0506_0708, &mut out);
    assert_eq!(out, vec![9, 8, 7, 6, 5, 4, 3, 2, 1]);
    assert_eq!(read_u64_le(&out, 1), 0x0102_0304_0506_0708);
    let bytes = u64::MAX.to_le_bytes();
    assert_eq!(read_u64_le(&bytes, 0), u64::MAX);
}

#[test]
fn gcd_computation() {
    assert_eq!(compute_gcd(12, 18), 6);
    assert_eq!(compute_gcd(0, 5), 5);
    assert_eq!(compute_gcd(5, 0), 5);
    assert_eq!(compute_gcd(0, 0), 0);
    assert_eq!(compute_gcd(17, 5), 1);
    assert_eq!(find_gcd(&[1000, 1100, 1500, 1300], 1000), Some(100));
    assert_eq!(find_gcd(&[7, 7, 7], 7), None);
    assert_eq!(find_gcd(&[], 0), None);
    assert_eq!(find_gcd(&[3, 5, 8], 3), Some(1));
    assert_eq!(GCD_CODEC_ID, 4);
    assert_eq!(GCD_DEFAULT, 1);
}

#[test]
fn bounds_and_stored_values() {
    assert_eq!(column_bounds(&[5, 50, 3, 13]), (3, 50));
    assert_eq!(column_bounds(&[]), (0, 0));
    assert_eq!(values_to_store(&[1000, 1100, 1500, 1300]), vec![0, 1, 5, 3]);
    assert_eq!(values_to_store(&[3, 5, 8]), vec![3, 5, 8]);
    assert_eq!(values_to_store(&[7, 7]), vec![7, 7]);
    assert_eq!(values_to_store(&[]), Vec::<u64>::new());
    assert_eq!(to_u64_vec(&[-1i64, 0]), vec![(1 << 63) - 1, 1 << 63]);
}

#[test]
fn interpolation_limits() {
    assert!(linear_interpolation_applies_to(&[1, 2, 3]));
    assert!(linear_interpolation_applies_to(&[5, 1, 9]));
    // i64 values around 0 are stored around 2^63.
    assert!(linear_interpolation_applies_to(&[(1 << 63) - 1, 1 << 63, (1 << 63) + 1]));
    assert!(linear_interpolation_applies_to(&[u64::MAX - LINEAR_INTERPOLATION_SLACK]));
    assert!(!linear_interpolation_applies_to(&[u64::MAX - LINEAR_INTERPOLATION_SLACK + 1]));
    assert!(!linear_interpolation_applies_to(&[1, 2, u64::MAX]));
    assert!(!linear_interpolation_applies_to(&[]));
    assert!(multi_interpolation_applies_to(&[1, 2, 3]));
    assert!(multi_interpolation_applies_to(&[MAX_INTERPOLATED_VALUE]));
    assert!(!multi_interpolation_applies_to(&[MAX_INTERPOLATED_VALUE + 1]));
    assert!(!multi_interpolation_applies_to(&[3, 2]));
    assert!(!multi_interpolation_applies_to(&[]));
}

#[test]
fn read_u8_takes_the_first_byte() {
    let mut bytes = vec![4u8, 1, 2];
    assert_eq!(read_u8(&mut bytes), 4);
    assert_eq!(bytes, vec![1, 2]);
}

#[test]
fn cloned_reader_reads_the_same_column() {
    let vals: Vec<u64> = vec![1000, 1100, 1500, 1300];
    let reader = DynamicFastFieldReader::<u64>::from_vals(&vals, 1).ok_or(()).unwrap();
    let copy = reader.clone();
    drop(reader);
    for (doc, val) in vals.iter().enumerate() {
        assert_eq!(copy.get(doc as u32), *val);
    }
    assert_eq!(copy.min_value(), 1000);
    assert_eq!(copy.max_value(), 1500);
}

#[test]
fn serialized_bitpacked_column_has_footer() {
    let bytes = BitpackedReader::serialize(&[10, 12, 11]);
    let n = bytes.len();
    assert!(n >= 16);
    // the footer stores the minimum and the amplitude
    assert_eq!(read_u64_le(&bytes, n - 16), 10);
    assert_eq!(read_u64_le(&bytes, n - 8), 2);
}

#[test]
fn footer_checks() {
    assert!(!check_can_open(1, &[0u8; 15]));
    assert!(check_can_open(1, &[0u8; 16]));
    let mut overflowing = vec![0u8; 8];
    overflowing.extend_from_slice(&1u64.to_le_bytes());
    overflowing.extend_from_slice(&u64::MAX.to_le_bytes());
    assert!(!check_can_open(1, &overflowing));
    assert!(!check_can_open(2, &[0u8; 55]));
    assert!(check_can_open(2, &[0u8; 56]));
    // A blockwise footer of length 0: too short for its numbers, an error.
    assert!(check_can_open(3, &[0u8; 56]));
    assert!(!check_can_open(3, &[0u8; 3]));
    // A footer length beyond the bytes.
    let mut long = vec![0u8; 8];
    long.extend_from_slice(&100u32.to_le_bytes());
    assert!(!check_can_open(3, &long));
    // A footer length that overflows when 4 is added.
    let mut huge = vec![0u8; 8];
    huge.extend_from_slice(&(u32::MAX - 2).to_le_bytes());
    assert!(!check_can_open(3, &huge));
    assert!(!check_can_open(4, &[]));
    assert!(!check_can_open(4, &[9u8; 40]));
    let mut gcd = vec![1u8];
    gcd.extend_from_slice(&[0u8; 32]);
    assert!(check_can_open(4, &gcd));
    assert!(!check_can_open(4, &[1u8; 20]));
    let mut blockwise = vec![3u8];
    blockwise.extend_from_slice(&[0u8; 16]);
    assert!(!check_can_open(4, &blockwise));
    assert!(!check_can_open(7, &[0u8; 64]));
}

#[test]
fn codec_acceptance() {
    assert!(codec_accepts_values(1, &[5, 1, 9]));
    assert!(codec_accepts_values(2, &[5, 1, 9]));
    assert!(!codec_accepts_values(3, &[5, 1, 9]));
    assert!(codec_accepts_values(3, &[1, 5, 9]));
    assert!(!codec_accepts_values(3, &[]));
    assert!(!codec_accepts_values(5, &[1]));
    assert!(is_non_decreasing(&[]));
    assert!(is_non_decreasing(&[2, 2, 3]));
    assert!(!is_non_decreasing(&[2, 1]));
}
