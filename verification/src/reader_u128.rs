//! Fast fields of `u128` values, read through a codec for such columns.
use crate::codec::FastFieldError;
use crate::fast_value::FastValueU128;
use core::marker::PhantomData;
use core::ops::RangeInclusive;
use vstd::prelude::*;
use vstd::std_specs::range::RangeInclusiveView;

verus! {

/// `v` lies in the inclusive range `range` (an exhausted range leaves out
/// its end).
pub open spec fn range_contains(range: RangeInclusiveView<u128>, v: u128) -> bool {
    &&& range.start <= v
    &&& if range.exhausted {
        v < range.end
    } else {
        v <= range.end
    }
}

/// The documents of `values` whose value lies in `range`, in increasing
/// order.
pub open spec fn docs_in_range(values: Seq<Option<u128>>, range: RangeInclusiveView<u128>) -> Seq<
    usize,
>
    decreases values.len(),
{
    if values.len() == 0 {
        Seq::empty()
    } else {
        let before = docs_in_range(values.drop_last(), range);
        match values.last() {
            Some(v) => if range_contains(range, v) {
                before.push((values.len() - 1) as usize)
            } else {
                before
            },
            None => before,
        }
    }
}

/// The documents that a range query returns are exactly those whose value
/// lies in the range, each once, in increasing order.
pub proof fn law_docs_in_range_exact(values: Seq<Option<u128>>, range: RangeInclusiveView<u128>)
    requires
        values.len() <= usize::MAX,
    ensures
        forall|k: int| 0 <= k < docs_in_range(values, range).len() ==> {
            let doc = #[trigger] docs_in_range(values, range)[k] as int;
            &&& 0 <= doc < values.len()
            &&& values[doc] matches Some(v) && range_contains(range, v)
        },
        forall|doc: int| 0 <= doc < values.len() && (#[trigger] values[doc] matches Some(v) && range_contains(range, v))
            ==> docs_in_range(values, range).contains(doc as usize),
        forall|k1: int, k2: int| 0 <= k1 < k2 < docs_in_range(values, range).len()
            ==> docs_in_range(values, range)[k1] < docs_in_range(values, range)[k2],
    decreases values.len(),
{
    if values.len() > 0 {
        let init = values.drop_last();
        law_docs_in_range_exact(init, range);
        let before = docs_in_range(init, range);
        let last = (values.len() - 1) as int;
        assert forall|k: int| 0 <= k < before.len() implies #[trigger] before[k] < last by {
            assert(before[k] < init.len());
        }
        assert forall|doc: int| 0 <= doc < init.len() implies values[doc] == #[trigger] init[doc] by {}
        let r = docs_in_range(values, range);
        assert forall|doc: int| 0 <= doc < values.len() && (#[trigger] values[doc] matches Some(v) && range_contains(range, v))
            implies r.contains(doc as usize) by {
            if doc < last {
                assert(init[doc] == values[doc]);
                assert(before.contains(doc as usize));
                let k = choose|k: int| 0 <= k < before.len() && before[k] == doc as usize;
                assert(r[k] == before[k]);
            } else {
                assert(values.last() == values[doc]);
                assert(r[r.len() - 1] == doc as usize);
            }
        }
        assert forall|k: int| 0 <= k < r.len() implies {
            let doc = #[trigger] r[k] as int;
            &&& 0 <= doc < values.len()
            &&& values[doc] matches Some(v) && range_contains(range, v)
        } by {
            if k < before.len() {
                assert(r[k] == before[k]);
                assert(values[before[k] as int] == init[before[k] as int]);
            } else {
                assert(values.last() == values[last]);
            }
        }
    }
}

/// A codec's reader for one column of optional `u128` values.
///
/// The codec decides what a column's bytes hold: the values are a function
/// of the bytes alone. A reader is opened from the bytes of a column and
/// answers, given those bytes again, for that column.
pub trait FastFieldCodecReaderU128: Sized {
    /// The values, by document, of the column whose bytes are `data` (`None`
    /// for a document without a value).
    spec fn values_of(data: Seq<u8>) -> Seq<Option<u128>>;

    /// The codec reads a column from `bytes`: opening them succeeds.
    spec fn opens(bytes: Seq<u8>) -> bool;

    /// The bytes that this reader was opened from.
    spec fn source(&self) -> Seq<u8>;

    /// Reads the metadata of the column and returns its reader.
    fn open_from_bytes(bytes: &[u8]) -> (r: Result<Self, FastFieldError>)
        ensures
            r is Ok <==> Self::opens(bytes@),
            r matches Ok(reader) ==> reader.source() == bytes@,
    ;

    /// The value of document `doc`.
    fn get(&self, doc: u64, data: &[u8]) -> (r: Option<u128>)
        requires
            data@ == self.source(),
            doc < Self::values_of(data@).len(),
        ensures
            r == Self::values_of(data@)[doc as int],
    ;

    /// The values of all documents, in order.
    fn iter(&self, data: &[u8]) -> (r: Vec<Option<u128>>)
        requires
            data@ == self.source(),
        ensures
            r@ == Self::values_of(data@),
    ;

    /// The documents whose value lies in `range`, in increasing order.
    fn get_range(&self, range: RangeInclusive<u128>, data: &[u8]) -> (r: Vec<usize>)
        requires
            data@ == self.source(),
        ensures
            r@ == docs_in_range(Self::values_of(data@), range@),
    ;
}

/// The item that a stored optional `u128` stands for.
pub open spec fn item_of<Item: FastValueU128>(v: Option<u128>) -> Option<Item> {
    match v {
        Some(x) => Some(Item::spec_from_u128(x)),
        None => None,
    }
}

/// Every stored value is reported, mapped through `from_u128`: an item is
/// present exactly when the codec holds a value, whatever that value is (0
/// included), and it is that value mapped through `from_u128`; no value
/// gives no item.
pub proof fn law_item_of_reports_every_value<Item: FastValueU128>(v: Option<u128>)
    ensures
        item_of::<Item>(v) is Some <==> v is Some,
        v matches Some(x) ==> item_of::<Item>(v) == Some(Item::spec_from_u128(x)),
        v is None ==> item_of::<Item>(v) is None,
{
}

/// The items that `iter` lists are, document by document, what `get`
/// returns.
pub proof fn law_iter_agrees_with_get<Item: FastValueU128>(values: Seq<Option<u128>>, doc: int)
    requires
        0 <= doc < values.len(),
    ensures
        values.map_values(|v: Option<u128>| item_of::<Item>(v)).len() == values.len(),
        values.map_values(|v: Option<u128>| item_of::<Item>(v))[doc] == item_of::<Item>(values[doc]),
{
}

/// Wrapper for accessing a fast field of `u128` values: holds the bytes of
/// the column and the codec's reader opened from them.
pub struct FastFieldReaderCodecWrapperU128<Item: FastValueU128, CodecReader: FastFieldCodecReaderU128> {
    reader: CodecReader,
    bytes: Vec<u8>,
    _phantom: PhantomData<Item>,
}

impl<Item: FastValueU128, C: FastFieldCodecReaderU128> FastFieldReaderCodecWrapperU128<Item, C> {
    /// The codec's reader was opened from the bytes held.
    #[verifier::type_invariant]
    spec fn reader_matches_bytes(self) -> bool {
        self.reader.source() == self.bytes@
    }

    /// The bytes of the column.
    pub closed spec fn column_bytes(&self) -> Seq<u8> {
        self.bytes@
    }

    /// The values of the column, by document, as the codec reads them.
    pub closed spec fn values(&self) -> Seq<Option<u128>> {
        C::values_of(self.bytes@)
    }

    /// Opens a fast field given the bytes: it succeeds exactly when the codec
    /// reads a column from them.
    pub fn open_from_bytes(bytes: Vec<u8>) -> (r: Result<Self, FastFieldError>)
        ensures
            r is Ok <==> C::opens(bytes@),
            r matches Ok(reader) ==> reader.column_bytes() == bytes@ && reader.values() == C::values_of(
                bytes@,
            ),
    {
        let reader = match C::open_from_bytes(bytes.as_slice()) {
            Ok(reader) => reader,
            Err(e) => {
                return Err(e);
            },
        };
        Ok(FastFieldReaderCodecWrapperU128 { reader, bytes, _phantom: PhantomData })
    }

    /// Returns the item for the docid.
    pub fn get(&self, doc: u32) -> (r: Option<Item>)
        requires
            doc < self.values().len(),
        ensures
            r == item_of::<Item>(self.values()[doc as int]),
            r is Some <==> self.values()[doc as int] is Some,
            self.values()[doc as int] matches Some(x) ==> r == Some(Item::spec_from_u128(x)),
    {
        proof {
            use_type_invariant(self);
        }
        match self.reader.get(doc as u64, self.bytes.as_slice()) {
            Some(el) => Some(Item::from_u128(el)),
            None => None,
        }
    }

    /// The items of all documents, in order.
    pub fn iter(&self) -> (r: Vec<Option<Item>>)
        ensures
            r@ == self.values().map_values(|v: Option<u128>| item_of::<Item>(v)),
            r@.len() == self.values().len(),
            forall|doc: int|
                0 <= doc < r@.len() ==> (#[trigger] r@[doc] is Some <==> self.values()[doc] is Some),
            forall|doc: int|
                0 <= doc < r@.len() ==> (self.values()[doc] matches Some(x) ==> #[trigger] r@[doc]
                    == Some(Item::spec_from_u128(x))),
    {
        proof {
            use_type_invariant(self);
        }
        let raw = self.reader.iter(self.bytes.as_slice());
        let mut items: Vec<Option<Item>> = Vec::new();
        let mut i: usize = 0;
        while i < raw.len()
            invariant
                raw@ == self.values(),
                i <= raw@.len(),
                items@ == raw@.subrange(0, i as int).map_values(
                    |v: Option<u128>| item_of::<Item>(v),
                ),
            decreases raw@.len() - i,
        {
            let item = match raw[i] {
                Some(el) => Some(Item::from_u128(el)),
                None => None,
            };
            items.push(item);
            i = i + 1;
            assert(items@ =~= raw@.subrange(0, i as int).map_values(
                |v: Option<u128>| item_of::<Item>(v),
            ));
        }
        assert(raw@.subrange(0, raw@.len() as int) =~= raw@);
        items
    }

    /// Returns all docids which are in the provided range.
    pub fn get_range(&self, range: RangeInclusive<u128>) -> (r: Vec<usize>)
        ensures
            r@ == docs_in_range(self.values(), range@),
    {
        proof {
            use_type_invariant(self);
        }
        self.reader.get_range(range, self.bytes.as_slice())
    }
}

} // verus!
