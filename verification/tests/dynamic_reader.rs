use fastfield_reader::codecs::{BitpackedReader, LinearInterpolReader, MultiLinearInterpolReader};
use fastfield_reader::gcd::GCDFastFieldCodec;
use fastfield_reader::reader::{
    check_can_open,
    DynamicFastFieldReader, FastFieldReader, FastFieldReaderCodecWrapper,
};

fn reader_u64(vals: &[u64], codec_id: u8) -> DynamicFastFieldReader<u64> {
    DynamicFastFieldReader::<u64>::from_vals(vals, codec_id).ok_or(()).unwrap()
}

fn check_reads_back(reader: &DynamicFastFieldReader<u64>, vals: &[u64]) {
    for (doc, val) in vals.iter().enumerate() {
        assert_eq!(reader.get(doc as u32), *val, "doc {}", doc);
    }
    let mut output = vec![0u64; vals.len()];
    reader.get_range(0, &mut output);
    assert_eq!(output, vals);
}

#[test]
fn bitpacked_values_read_back() {
    let vals: Vec<u64> = (10..=20).collect();
    let reader = reader_u64(&vals, 1);
    assert!(matches!(reader, DynamicFastFieldReader::Bitpacked(_)));
    check_reads_back(&reader, &vals);
    assert_eq!(reader.min_value(), 10);
    assert_eq!(reader.max_value(), 20);
}

#[test]
fn bitpacked_wide_values_read_back() {
    let vals = vec![u64::MAX, 0, 1 << 63, 12345, u64::MAX - 1];
    let reader = reader_u64(&vals, 1);
    check_reads_back(&reader, &vals);
    assert_eq!(reader.min_value(), 0);
    assert_eq!(reader.max_value(), u64::MAX);
}

#[test]
fn get_range_from_an_offset() {
    let vals = vec![5, 50, 3, 13, 1, 1000, 35];
    let reader = reader_u64(&vals, 1);
    let mut output = vec![0u64; 3];
    reader.get_range(2, &mut output);
    assert_eq!(output, vec![3, 13, 1]);
    let mut empty: Vec<u64> = vec![];
    reader.get_range(7, &mut empty);
    assert!(empty.is_empty());
}

#[test]
fn common_divisor_is_used() {
    let vals = vec![1000, 1100, 1500, 1300, 2000];
    let reader = reader_u64(&vals, 1);
    assert!(matches!(reader, DynamicFastFieldReader::BitpackedGCD(_)));
    check_reads_back(&reader, &vals);
    assert_eq!(reader.min_value(), 1000);
    assert_eq!(reader.max_value(), 2000);
}

#[test]
fn constant_column_has_no_divisor() {
    let vals = vec![7, 7, 7, 7];
    let reader = reader_u64(&vals, 1);
    assert!(matches!(reader, DynamicFastFieldReader::Bitpacked(_)));
    check_reads_back(&reader, &vals);
    assert_eq!(reader.min_value(), 7);
    assert_eq!(reader.max_value(), 7);
}

#[test]
fn divisor_one_is_not_used() {
    let vals = vec![3, 5, 8];
    let reader = reader_u64(&vals, 1);
    assert!(matches!(reader, DynamicFastFieldReader::Bitpacked(_)));
    check_reads_back(&reader, &vals);
}

#[test]
fn empty_column() {
    let reader = reader_u64(&[], 1);
    assert!(matches!(reader, DynamicFastFieldReader::Bitpacked(_)));
    assert_eq!(reader.min_value(), 0);
    assert_eq!(reader.max_value(), 0);
    let mut empty: Vec<u64> = vec![];
    reader.get_range(0, &mut empty);
    assert!(empty.is_empty());
}

#[test]
fn linear_interpolation_values_read_back() {
    let vals: Vec<u64> = (0..100u64).map(|i| 1000 + i * 7 + (i % 3)).collect();
    let reader = reader_u64(&vals, 2);
    assert!(matches!(reader, DynamicFastFieldReader::LinearInterpol(_)));
    check_reads_back(&reader, &vals);
    assert_eq!(reader.min_value(), 1000);
    assert_eq!(reader.max_value(), 1000 + 99 * 7);
}

#[test]
fn linear_interpolation_with_divisor() {
    let vals: Vec<u64> = (0..50u64).map(|i| 40 + i * 10).collect();
    let reader = reader_u64(&vals, 2);
    assert!(matches!(reader, DynamicFastFieldReader::LinearInterpolGCD(_)));
    check_reads_back(&reader, &vals);
}

#[test]
fn blockwise_interpolation_values_read_back() {
    let vals: Vec<u64> = (0..6000u64).map(|i| i * 3 + (i * i) / 1000).collect();
    let reader = reader_u64(&vals, 3);
    assert!(matches!(reader, DynamicFastFieldReader::MultiLinearInterpol(_)));
    check_reads_back(&reader, &vals);
    assert_eq!(reader.min_value(), *vals.iter().min().unwrap());
    assert_eq!(reader.max_value(), *vals.iter().max().unwrap());
}

#[test]
fn blockwise_interpolation_with_divisor() {
    let vals: Vec<u64> = (0..1200u64).map(|i| 6 * (i / 5) + 12).collect();
    let reader = reader_u64(&vals, 3);
    assert!(matches!(reader, DynamicFastFieldReader::MultiLinearInterpolGCD(_)));
    check_reads_back(&reader, &vals);
}

#[test]
fn codecs_refuse_what_they_cannot_write() {
    assert!(DynamicFastFieldReader::<u64>::from_vals(&[], 2).is_none());
    assert!(DynamicFastFieldReader::<u64>::from_vals(&[], 3).is_none());
    assert!(DynamicFastFieldReader::<u64>::from_vals(&[1, 2, 3], 9).is_none());
    assert!(DynamicFastFieldReader::<u64>::from_vals(&[1, 2, u64::MAX], 2).is_none());
    // With a common divisor the interpolating codec is given small values.
    assert!(DynamicFastFieldReader::<u64>::from_vals(&[1, u64::MAX], 2).is_some());
    assert!(DynamicFastFieldReader::<u64>::from_vals(&[1, 2], 0).is_none());
    assert!(DynamicFastFieldReader::<u64>::from_vals(&[1, 2], 4).is_none());
}

#[test]
fn linear_interpolation_of_i64_around_zero() {
    let vals = vec![-1i64, 0, 1];
    let reader = DynamicFastFieldReader::<i64>::from_vals(&vals, 2).ok_or(()).unwrap();
    assert!(matches!(reader, DynamicFastFieldReader::LinearInterpol(_)));
    for (doc, val) in vals.iter().enumerate() {
        assert_eq!(reader.get(doc as u32), *val);
    }
    assert_eq!(reader.min_value(), -1);
    assert_eq!(reader.max_value(), 1);
    let vals = vec![-7i64, 3, -2, 5, 0];
    let reader = DynamicFastFieldReader::<i64>::from_vals(&vals, 2).ok_or(()).unwrap();
    for (doc, val) in vals.iter().enumerate() {
        assert_eq!(reader.get(doc as u32), *val);
    }
}

#[test]
fn bitpacked_column_from_plain_bytes() {
    // One data byte packing 0, 1, 2, 3 in 2 bits each, then the footer:
    // minimum 10 and amplitude 3.
    let mut bytes = vec![0xE4u8];
    bytes.extend_from_slice(&10u64.to_le_bytes());
    bytes.extend_from_slice(&3u64.to_le_bytes());
    let reader = DynamicFastFieldReader::<u64>::open_from_id(bytes, 1).ok().unwrap();
    for doc in 0..4u64 {
        assert!(reader.can_read(doc));
        assert_eq!(reader.get(doc as u32), 10 + doc);
    }
    assert!(reader.can_read(39));
    assert!(!reader.can_read(40));
    assert!(!reader.can_read(u64::MAX));
    let mut output = vec![0u64; 3];
    reader.get_range(1, &mut output);
    assert_eq!(output, vec![11, 12, 13]);
    assert_eq!(reader.min_value(), 10);
    assert_eq!(reader.max_value(), 13);
}

#[test]
fn written_columns_can_be_read() {
    let vals: Vec<u64> = vec![4, 8, 15, 16, 23, 42];
    // A falling line stays at the first value, above the offset.
    let falling: Vec<u64> = vec![100, 8, 15, 16, 23, 42];
    let reader = reader_u64(&falling, 2);
    assert!(reader.can_read(0));
    assert!(reader.can_read(5));
    assert_eq!(reader.get(1), 8);
    // Here the offset exceeds the first value (4): the check, a bound
    // on the bytes alone, does not vouch for the reading.
    let reader = reader_u64(&vals, 2);
    assert!(!reader.can_read(0));
    let reader = reader_u64(&vals, 1);
    assert!(reader.can_read(0));
    assert!(reader.can_read(5));
    let sorted: Vec<u64> = vec![4, 8, 15, 16, 23, 42];
    let reader = reader_u64(&sorted, 3);
    assert!(!reader.can_read(0));
}

fn linear_footer(numbers: [u64; 7]) -> Vec<u8> {
    let mut footer = Vec::new();
    for n in numbers {
        footer.extend_from_slice(&n.to_le_bytes());
    }
    footer
}

#[test]
fn linear_column_from_plain_bytes() {
    // The line 100, 110, 120, 130; the packed differences 0, 1, 2, 3 in 2
    // bits each; the offset 1.
    let mut bytes = vec![0xE4u8];
    bytes.extend_from_slice(&linear_footer([3, 1, 100, 130, 4, 99, 132]));
    let reader = DynamicFastFieldReader::<u64>::open_from_id(bytes, 2).ok().unwrap();
    assert!(matches!(reader, DynamicFastFieldReader::LinearInterpol(_)));
    let expected = [99u64, 110, 121, 132];
    for (doc, val) in expected.iter().enumerate() {
        assert!(reader.can_read(doc as u64));
        assert_eq!(reader.get(doc as u32), *val);
    }
    // Past the stored number of values the line is not bounded.
    assert!(!reader.can_read(4));
    let mut output = vec![0u64; 2];
    reader.get_range(2, &mut output);
    assert_eq!(output, vec![121, 132]);
    assert_eq!(reader.min_value(), 99);
    assert_eq!(reader.max_value(), 132);
}

#[test]
fn linear_footers_not_read() {
    // An offset above the first value could wrap below zero.
    let mut bytes = vec![0u8; 8];
    bytes.extend_from_slice(&linear_footer([0, 5, 4, 4, 2, 0, 0]));
    let reader = DynamicFastFieldReader::<u64>::open_from_id(bytes, 2).ok().unwrap();
    assert!(!reader.can_read(0));
    // A rising line to the top of the range.
    let mut bytes = vec![0u8; 8];
    bytes.extend_from_slice(&linear_footer([0, 0, 0, u64::MAX, 2, 0, u64::MAX]));
    let reader = DynamicFastFieldReader::<u64>::open_from_id(bytes, 2).ok().unwrap();
    assert!(!reader.can_read(0));
    // A flat line of a single value reads any document.
    let mut bytes = vec![0u8; 8];
    bytes.extend_from_slice(&linear_footer([0, 0, 77, 77, 1, 77, 77]));
    let reader = DynamicFastFieldReader::<u64>::open_from_id(bytes, 2).ok().unwrap();
    assert!(reader.can_read(1000));
    assert_eq!(reader.get(1000), 77);
}

#[test]
fn i64_values_read_back() {
    let vals = vec![-5i64, 0, i64::MIN, i64::MAX, 42, -1];
    let reader = DynamicFastFieldReader::<i64>::from_vals(&vals, 1).ok_or(()).unwrap();
    for (doc, val) in vals.iter().enumerate() {
        assert_eq!(reader.get(doc as u32), *val);
    }
    assert_eq!(reader.min_value(), i64::MIN);
    assert_eq!(reader.max_value(), i64::MAX);
    let mut output = vec![0i64; 4];
    reader.get_range(2, &mut output);
    assert_eq!(output, vec![i64::MIN, i64::MAX, 42, -1]);
}

#[test]
fn bool_values_read_back() {
    let vals = vec![true, false, false, true];
    let reader = DynamicFastFieldReader::<bool>::from_vals(&vals, 1).ok_or(()).unwrap();
    for (doc, val) in vals.iter().enumerate() {
        assert_eq!(reader.get(doc as u32), *val);
    }
    assert_eq!(reader.min_value(), false);
    assert_eq!(reader.max_value(), true);
}

#[test]
fn open_from_id_picks_the_codec() {
    let vals: Vec<u64> = vec![3, 1, 4, 1, 5, 9, 2, 6];
    let bitpacked = BitpackedReader::serialize(&vals);
    let reader = DynamicFastFieldReader::<u64>::open_from_id(bitpacked, 1).ok().unwrap();
    assert!(matches!(reader, DynamicFastFieldReader::Bitpacked(_)));
    check_reads_back(&reader, &vals);

    let linear = LinearInterpolReader::serialize(&vals);
    let reader = DynamicFastFieldReader::<u64>::open_from_id(linear, 2).ok().unwrap();
    assert!(matches!(reader, DynamicFastFieldReader::LinearInterpol(_)));
    check_reads_back(&reader, &vals);

    let sorted: Vec<u64> = vec![1, 1, 2, 3, 4, 5, 6, 9];
    let blockwise = MultiLinearInterpolReader::serialize(&sorted);
    let reader = DynamicFastFieldReader::<u64>::open_from_id(blockwise, 3).ok().unwrap();
    assert!(matches!(reader, DynamicFastFieldReader::MultiLinearInterpol(_)));
    check_reads_back(&reader, &sorted);
}

#[test]
fn open_reads_the_codec_id_byte() {
    let vals: Vec<u64> = vec![8, 6, 7, 5, 3, 0, 9];
    let mut bytes = vec![1u8];
    bytes.extend_from_slice(&BitpackedReader::serialize(&vals));
    let reader = DynamicFastFieldReader::<u64>::open(bytes).ok().unwrap();
    check_reads_back(&reader, &vals);
}

#[test]
fn open_reads_a_divisor_column() {
    // codec ids, inner bitpacked column of (val - 10) / 5, then gcd and min.
    let inner: Vec<u64> = vec![0, 2, 1, 4];
    let mut bytes = vec![4u8, 1u8];
    bytes.extend_from_slice(&BitpackedReader::serialize(&inner));
    bytes.extend_from_slice(&5u64.to_le_bytes());
    bytes.extend_from_slice(&10u64.to_le_bytes());
    let reader = DynamicFastFieldReader::<u64>::open(bytes).ok().unwrap();
    assert!(matches!(reader, DynamicFastFieldReader::BitpackedGCD(_)));
    check_reads_back(&reader, &[10, 20, 15, 30]);
    assert_eq!(reader.min_value(), 10);
    assert_eq!(reader.max_value(), 30);
    for doc in 0..4u64 {
        assert!(reader.can_read(doc));
    }
}

#[test]
fn divisor_overflow_is_not_read() {
    // Inner values 0 and 1, divisor u64::MAX, minimum 5: the second value
    // overflows.
    let mut bytes = vec![4u8, 1u8];
    bytes.extend_from_slice(&BitpackedReader::serialize(&[0, 1]));
    bytes.extend_from_slice(&u64::MAX.to_le_bytes());
    bytes.extend_from_slice(&5u64.to_le_bytes());
    let reader = DynamicFastFieldReader::<u64>::open(bytes).ok().unwrap();
    assert!(matches!(reader, DynamicFastFieldReader::BitpackedGCD(_)));
    assert!(reader.can_read(0));
    assert_eq!(reader.get(0), 5);
    assert!(!reader.can_read(1));
}

#[test]
fn wrapper_open_checks_the_bitpacked_id() {
    let vals: Vec<u64> = vec![100, 200, 150];
    let mut bytes = vec![1u8];
    bytes.extend_from_slice(&BitpackedReader::serialize(&vals));
    let reader = FastFieldReaderCodecWrapper::<u64, BitpackedReader>::open(bytes).ok().unwrap();
    assert_eq!(reader.get(0), 100);
    assert_eq!(reader.get(1), 200);
    assert_eq!(reader.get(2), 150);
    assert_eq!(reader.get_u64(2), 150);
    let mut output = vec![0u64; 2];
    reader.get_range_u64(1, &mut output);
    assert_eq!(output, vec![200, 150]);
    assert_eq!(reader.min_value(), 100);
    assert_eq!(reader.max_value(), 200);
}

#[test]
fn wrapper_over_a_divisor_codec() {
    let inner: Vec<u64> = vec![3, 0, 1];
    let mut bytes = BitpackedReader::serialize(&inner);
    bytes.extend_from_slice(&7u64.to_le_bytes());
    bytes.extend_from_slice(&2u64.to_le_bytes());
    let reader =
        FastFieldReaderCodecWrapper::<u64, GCDFastFieldCodec<BitpackedReader>>::open_from_bytes(
            bytes,
        )
        .ok()
        .unwrap();
    assert_eq!(reader.get(0), 23);
    assert_eq!(reader.get(1), 2);
    assert_eq!(reader.get(2), 9);
    assert_eq!(reader.min_value(), 2);
    assert_eq!(reader.max_value(), 23);
}

#[test]
fn blockwise_codec_refuses_falling_values() {
    // A falling line in the first block would drive the interpolated value
    // below zero.
    let mut vals: Vec<u64> = vec![(1 << 62) - 1, 1 << 62];
    vals.extend(std::iter::repeat(0).take(511));
    assert!(DynamicFastFieldReader::<u64>::from_vals(&vals, 3).is_none());
    assert!(DynamicFastFieldReader::<u64>::from_vals(&[3, 2, 1], 3).is_none());
    let reader = reader_u64(&vals, 1);
    check_reads_back(&reader, &vals);
}

#[test]
fn any_footer_long_enough_opens() {
    let reader = DynamicFastFieldReader::<u64>::open_from_id(vec![0u8; 16], 1).ok().unwrap();
    assert!(matches!(reader, DynamicFastFieldReader::Bitpacked(_)));
    assert_eq!(reader.min_value(), 0);
    let reader = DynamicFastFieldReader::<u64>::open_from_id(vec![0u8; 56], 2).ok().unwrap();
    assert!(matches!(reader, DynamicFastFieldReader::LinearInterpol(_)));
    let mut bytes = vec![1u8];
    bytes.extend_from_slice(&[0u8; 32]);
    let reader = DynamicFastFieldReader::<u64>::open_from_id(bytes, 4).ok().unwrap();
    assert!(matches!(reader, DynamicFastFieldReader::BitpackedGCD(_)));
}

#[test]
fn empty_range_needs_no_documents() {
    let reader = reader_u64(&[1, 2, 3], 1);
    let mut empty: Vec<u64> = vec![];
    reader.get_range(u64::MAX, &mut empty);
    assert!(empty.is_empty());
}

fn blockwise_footer(num_vals: u64, min: u64, max: u64, count: &[u8], records: &[u8]) -> Vec<u8> {
    let mut footer = Vec::new();
    footer.extend_from_slice(&num_vals.to_le_bytes());
    footer.extend_from_slice(&min.to_le_bytes());
    footer.extend_from_slice(&max.to_le_bytes());
    footer.extend_from_slice(count);
    footer.extend_from_slice(records);
    let len = footer.len() as u32;
    footer.extend_from_slice(&len.to_le_bytes());
    footer
}

#[test]
fn blockwise_column_from_plain_bytes() {
    // No blocks: the count 0 is the single byte 0x80.
    let bytes = blockwise_footer(0, 7, 19, &[0x80], &[]);
    assert!(check_can_open(3, &bytes));
    let reader = DynamicFastFieldReader::<u64>::open_from_id(bytes, 3).ok().unwrap();
    assert!(matches!(reader, DynamicFastFieldReader::MultiLinearInterpol(_)));
    assert_eq!(reader.min_value(), 7);
    assert_eq!(reader.max_value(), 19);
    // One block whose record has a bit width of 3.
    let mut record = vec![0u8; 28];
    record.push(3);
    let mut bytes = vec![0u8; 8];
    bytes.extend_from_slice(&blockwise_footer(2, 1, 5, &[0x81], &record));
    assert!(check_can_open(3, &bytes));
    let reader = DynamicFastFieldReader::<u64>::open_from_id(bytes, 3).ok().unwrap();
    assert_eq!(reader.min_value(), 1);
    assert_eq!(reader.max_value(), 5);
}

#[test]
fn blockwise_footer_errors_are_returned() {
    // A footer too short for its three numbers.
    let mut bytes = vec![0u8; 30];
    bytes.extend_from_slice(&10u32.to_le_bytes());
    assert!(check_can_open(3, &bytes));
    assert!(DynamicFastFieldReader::<u64>::open_from_id(bytes.clone(), 3).is_err());
    let mut column = vec![3u8];
    column.extend_from_slice(&bytes);
    assert!(DynamicFastFieldReader::<u64>::open(column).is_err());
    // A count of blocks that runs out of bytes: it reads on into the
    // length, whose bytes have no high bit.
    let bytes = blockwise_footer(0, 0, 0, &[], &[]);
    assert!(check_can_open(3, &bytes));
    assert!(DynamicFastFieldReader::<u64>::open_from_id(bytes, 3).is_err());
}

#[test]
fn blockwise_footers_the_reader_would_panic_on() {
    // A bit width above 64.
    let mut record = vec![0u8; 28];
    record.push(65);
    let bytes = blockwise_footer(1, 0, 0, &[0x81], &record);
    assert!(!check_can_open(3, &bytes));
    // More blocks counted than records present.
    let bytes = blockwise_footer(1, 0, 0, &[0x82], &[0u8; 29]);
    assert!(!check_can_open(3, &bytes));
    // A count of more than ten bytes.
    let bytes = blockwise_footer(1, 0, 0, &[1u8; 11], &[]);
    assert!(!check_can_open(3, &bytes));
}
