use fastfield_reader::codec::FastFieldError;
use fastfield_reader::reader_u128::{FastFieldCodecReaderU128, FastFieldReaderCodecWrapperU128};
use std::ops::RangeInclusive;
use vstd::seq::Seq;

/// A plain column: per document a presence byte, then 16 little-endian bytes.
struct PlainColumn {
    num_docs: usize,
}

fn value_at(data: &[u8], doc: usize) -> Option<u128> {
    let start = doc * 17;
    if data[start] == 0 {
        return None;
    }
    let mut bytes = [0u8; 16];
    bytes.copy_from_slice(&data[start + 1..start + 17]);
    Some(u128::from_le_bytes(bytes))
}

impl FastFieldCodecReaderU128 for PlainColumn {
    // The following three describe the codec to the verifier; compiled code
    // never calls them.
    fn values_of(_data: Seq<u8>) -> Seq<Option<u128>> {
        panic!("a specification function is not run")
    }

    fn opens(_bytes: Seq<u8>) -> bool {
        panic!("a specification function is not run")
    }

    fn source(&self) -> Seq<u8> {
        panic!("a specification function is not run")
    }

    fn open_from_bytes(bytes: &[u8]) -> Result<Self, FastFieldError> {
        Ok(PlainColumn { num_docs: bytes.len() / 17 })
    }

    fn get(&self, doc: u64, data: &[u8]) -> Option<u128> {
        value_at(data, doc as usize)
    }

    fn iter(&self, data: &[u8]) -> Vec<Option<u128>> {
        (0..self.num_docs).map(|doc| value_at(data, doc)).collect()
    }

    fn get_range(&self, range: RangeInclusive<u128>, data: &[u8]) -> Vec<usize> {
        (0..self.num_docs)
            .filter(|doc| match value_at(data, *doc) {
                Some(v) => range.contains(&v),
                None => false,
            })
            .collect()
    }
}

fn plain_bytes(vals: &[Option<u128>]) -> Vec<u8> {
    let mut out = Vec::new();
    for v in vals {
        match v {
            Some(x) => {
                out.push(1);
                out.extend_from_slice(&x.to_le_bytes());
            }
            None => {
                out.push(0);
                out.extend_from_slice(&[0u8; 16]);
            }
        }
    }
    out
}

#[test]
fn u128_wrapper_get_iter_and_range() {
    let vals = vec![Some(5u128), None, Some(1u128 << 100), Some(7), Some(6)];
    let reader =
        FastFieldReaderCodecWrapperU128::<u128, PlainColumn>::open_from_bytes(plain_bytes(&vals))
            .ok()
            .unwrap();
    assert_eq!(reader.get(0), Some(5));
    assert_eq!(reader.get(1), None);
    assert_eq!(reader.get(2), Some(1u128 << 100));
    assert_eq!(reader.iter(), vals);
    assert_eq!(reader.get_range(5..=7), vec![0, 3, 4]);
    assert_eq!(reader.get_range(8..=u128::MAX), vec![2]);
    assert_eq!(reader.get_range(100..=99), Vec::<usize>::new());
}

#[test]
fn u128_iter_agrees_with_get() {
    let vals = vec![None, Some(u128::MAX), Some(0u128), None];
    let reader =
        FastFieldReaderCodecWrapperU128::<u128, PlainColumn>::open_from_bytes(plain_bytes(&vals))
            .ok()
            .unwrap();
    let items = reader.iter();
    assert_eq!(items.len(), 4);
    for (doc, item) in items.iter().enumerate() {
        assert_eq!(*item, reader.get(doc as u32));
    }
    assert_eq!(reader.get_range(0..=u128::MAX), vec![1, 2]);
    assert_eq!(reader.get_range(0..=0), vec![2]);
}
