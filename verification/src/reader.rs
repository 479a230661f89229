//! Readers of fast fields: a codec's reader together with the bytes of the
//! column, and the reader that picks the codec from the column's codec id.
use crate::codec::{seq_max, seq_min, FastFieldCodecReader, FastFieldError};
use crate::blockwise_footer::multi_check_can_open;
use crate::codecs::{
    bitpacked_check_reads, bitpacked_id, bitpacked_reads_within, column_bounds, linear_check_reads,
    linear_interpol_id, linear_reads_within,
    linear_interpolation_applies, multi_interpolation_applies, multi_linear_interpol_id,
    non_decreasing, BitpackedReader, LinearInterpolReader, MultiLinearInterpolReader,
    LINEAR_INTERPOLATION_SLACK, MAX_BLOCKWISE_NUM_VALS, MAX_INTERPOLATED_VALUE, MAX_NUM_VALS,
};
use crate::fast_value::FastValue;
use crate::gcd::{
    distances, divides, find_gcd, gcd_body, gcd_footer_gcd, gcd_footer_min, lemma_seq_gcd_divides,
    scaled_by, seq_gcd, GCDFastFieldCodec, GCD_CODEC_ID, GCD_DEFAULT,
};
use crate::le_bytes::{lemma_u64_le_roundtrip, read_u64_le, u64_to_le_bytes_spec, write_u64_le};
use core::marker::PhantomData;
use vstd::arithmetic::div_mod::lemma_fundamental_div_mod;
use vstd::pervasive::unreached;
use vstd::prelude::*;

verus! {

/// Access to the values of a fast field.
///
/// What a reader returns is a function of the column it reads: the value
/// that the column decodes for each document, and the bounds that it
/// stores. On a column that its codec wrote for some values, these are the
/// values and their bounds.
pub trait FastFieldReader<Item: FastValue>: Sized + Clone {
    /// The column that this reader reads is one that its codec wrote for
    /// `vals`.
    spec fn holds(&self, vals: Seq<u64>) -> bool;

    /// Reading document `doc` returns: the codec's reader does not panic on it.
    spec fn reads(&self, doc: u64) -> bool;

    /// The `u64` that the column decodes for document `doc`.
    spec fn value_at(&self, doc: u64) -> u64;

    /// Reading the bounds of the column returns.
    spec fn bounds_read(&self) -> bool;

    /// The minimum that the column stores.
    spec fn min_of(&self) -> u64;

    /// The maximum that the column stores.
    spec fn max_of(&self) -> u64;

    /// On a column written for `vals`, every document reads back its value,
    /// and the bounds read are those of `vals`.
    proof fn lemma_holds_reads(&self, vals: Seq<u64>)
        requires
            self.holds(vals),
        ensures
            self.bounds_read(),
            self.min_of() == seq_min(vals),
            self.max_of() == seq_max(vals),
            forall|doc: u64|
                doc < vals.len() ==> #[trigger] self.reads(doc) && self.value_at(doc)
                    == vals[doc as int],
    ;

    /// Returns the value associated to the given document.
    fn get(&self, doc: u32) -> (r: Item)
        requires
            self.reads(doc as u64),
        ensures
            r == Item::spec_from_u64(self.value_at(doc as u64)),
    ;

    /// Fills `output` with the values of the documents from `start` to
    /// `start + output.len()`.
    fn get_range(&self, start: u64, output: &mut [Item])
        requires
            start + old(output)@.len() <= u64::MAX + 1,
            forall|i: int|
                0 <= i < old(output)@.len() ==> #[trigger] self.reads((start + i) as u64),
        ensures
            final(output)@.len() == old(output)@.len(),
            forall|i: int|
                0 <= i < old(output)@.len() ==> #[trigger] final(output)@[i] == Item::spec_from_u64(
                    self.value_at((start + i) as u64),
                ),
    ;

    /// Returns the minimum value of the fast field: on a column written for
    /// some values, their smallest (0 when there are none), so a lower bound
    /// of every value.
    fn min_value(&self) -> (r: Item)
        requires
            self.bounds_read(),
        ensures
            r == Item::spec_from_u64(self.min_of()),
    ;

    /// Returns the maximum value of the fast field: on a column written for
    /// some values, their largest (0 when there are none), so an upper bound
    /// of every value.
    fn max_value(&self) -> (r: Item)
        requires
            self.bounds_read(),
        ensures
            r == Item::spec_from_u64(self.max_of()),
    ;
}

/// Removes the first byte of `bytes` and returns it.
pub fn read_u8(bytes: &mut Vec<u8>) -> (r: u8)
    requires
        old(bytes)@.len() > 0,
    ensures
        r == old(bytes)@[0],
        final(bytes)@ == old(bytes)@.drop_first(),
{
    let r = bytes.remove(0);
    assert(bytes@ =~= old(bytes)@.drop_first());
    r
}

/// Wrapper for accessing a fast field: holds the bytes of the column and the
/// codec's reader opened from them.
pub struct FastFieldReaderCodecWrapper<Item: FastValue, CodecReader: FastFieldCodecReader> {
    reader: CodecReader,
    bytes: Vec<u8>,
    _phantom: PhantomData<Item>,
}

impl<Item: FastValue, C: FastFieldCodecReader> FastFieldReaderCodecWrapper<Item, C> {
    /// The codec's reader was opened from the bytes held.
    #[verifier::type_invariant]
    spec fn reader_matches_bytes(self) -> bool {
        self.reader.source() == self.bytes@
    }

    /// The bytes of the column.
    pub closed spec fn column_bytes(&self) -> Seq<u8> {
        self.bytes@
    }

    /// Opens a fast field whose bytes start with the id of the bitpacking
    /// codec.
    pub fn open(bytes: Vec<u8>) -> (r: Result<Self, FastFieldError>)
        requires
            bytes@.len() > 0,
            bytes@[0] == 1,
            C::can_open(bytes@.drop_first()),
        ensures
            r is Ok <==> C::opens(bytes@.drop_first()),
            r matches Ok(reader) ==> reader.column_bytes() == bytes@.drop_first(),
    {
        let mut bytes = bytes;
        let codec_id = read_u8(&mut bytes);
        let bitpacked = bitpacked_id();
        if bitpacked != codec_id {
            // The requirement on `bytes` leaves no other id.
            assert(false);
        }
        Self::open_from_bytes(bytes)
    }

    /// Opens a fast field given the bytes.
    pub fn open_from_bytes(bytes: Vec<u8>) -> (r: Result<Self, FastFieldError>)
        requires
            C::can_open(bytes@),
        ensures
            r is Ok <==> C::opens(bytes@),
            r matches Ok(reader) ==> reader.column_bytes() == bytes@,
    {
        let reader = match C::open_from_bytes(bytes.as_slice()) {
            Ok(reader) => reader,
            Err(e) => {
                return Err(e);
            },
        };
        Ok(FastFieldReaderCodecWrapper { reader, bytes, _phantom: PhantomData })
    }

    /// The value of the document at position `doc` (a `u64`).
    pub fn get_u64(&self, doc: u64) -> (r: Item)
        requires
            C::reads(self.column_bytes(), doc),
        ensures
            r == Item::spec_from_u64(C::decode(self.column_bytes(), doc)),
    {
        proof {
            use_type_invariant(self);
            assert(self.reader.source().is_prefix_of(self.bytes@));
        }
        let data = self.reader.get_u64(doc, self.bytes.as_slice());
        Item::from_u64(data)
    }

    /// Fills `output` with the values at the positions `start` to
    /// `start + output.len()`.
    pub fn get_range_u64(&self, start: u64, output: &mut [Item])
        requires
            start + old(output)@.len() <= u64::MAX + 1,
            forall|i: int|
                0 <= i < old(output)@.len() ==> #[trigger] C::reads(
                    self.column_bytes(),
                    (start + i) as u64,
                ),
        ensures
            final(output)@.len() == old(output)@.len(),
            forall|i: int|
                0 <= i < old(output)@.len() ==> #[trigger] final(output)@[i] == Item::spec_from_u64(
                    C::decode(self.column_bytes(), (start + i) as u64),
                ),
    {
        let len = output.len();
        let mut i: usize = 0;
        while i < len
            invariant
                len == old(output)@.len(),
                output@.len() == len,
                i <= len,
                start + len <= u64::MAX + 1,
                forall|j: int|
                    0 <= j < len ==> #[trigger] C::reads(self.column_bytes(), (start + j) as u64),
                forall|j: int|
                    0 <= j < i ==> #[trigger] output@[j] == Item::spec_from_u64(
                        C::decode(self.column_bytes(), (start + j) as u64),
                    ),
            decreases len - i,
        {
            assert(C::reads(self.column_bytes(), (start + i as int) as u64));
            let value = self.get_u64(start + (i as u64));
            output[i] = value;
            i = i + 1;
        }
    }
}

impl<Item: FastValue> FastFieldReaderCodecWrapper<Item, BitpackedReader> {
    /// Whether reading document `doc` stays within the bytes of the column
    /// and does not overflow, so that `get_u64` can read it.
    pub fn can_read(&self, doc: u64) -> (r: bool)
        ensures
            r == bitpacked_reads_within(self.column_bytes(), doc),
    {
        bitpacked_check_reads(self.bytes.as_slice(), doc)
    }
}

impl<Item: FastValue> FastFieldReaderCodecWrapper<Item, LinearInterpolReader> {
    /// Whether reading document `doc` stays within the bytes of the column
    /// and does not overflow, so that `get_u64` can read it.
    pub fn can_read(&self, doc: u64) -> (r: bool)
        ensures
            r == linear_reads_within(self.column_bytes(), doc),
    {
        linear_check_reads(self.bytes.as_slice(), doc)
    }
}

/// Reading document `doc` of the column `bytes`, written with a common
/// divisor over an inner column of `C`, does not overflow, where
/// `inner_within` says that the inner column is read within its bytes: the
/// inner value times the divisor plus the minimum fits in a `u64`.
pub open spec fn gcd_reads_within<C: FastFieldCodecReader>(
    bytes: Seq<u8>,
    doc: u64,
    inner_within: bool,
) -> bool {
    &&& bytes.len() >= 16
    &&& inner_within
    &&& C::decode(gcd_body(bytes), doc) * gcd_footer_gcd(bytes) + gcd_footer_min(bytes) <= u64::MAX
}

impl<Item: FastValue, C: FastFieldCodecReader> FastFieldReaderCodecWrapper<
    Item,
    GCDFastFieldCodec<C>,
> {
    /// The bytes of the inner column: those before the footer of 16 bytes.
    fn body(&self) -> (r: &[u8])
        requires
            self.column_bytes().len() >= 16,
        ensures
            r@ == gcd_body(self.column_bytes()),
    {
        let (body, _footer) = self.bytes.as_slice().split_at(self.bytes.len() - 16);
        body
    }

    /// Whether the inner value of `doc` times the divisor plus the minimum
    /// fits in a `u64`, where the inner codec reads `doc`.
    fn value_fits(&self, doc: u64) -> (r: bool)
        requires
            self.column_bytes().len() >= 16,
            C::reads(gcd_body(self.column_bytes()), doc),
        ensures
            r == (C::decode(gcd_body(self.column_bytes()), doc) * gcd_footer_gcd(self.column_bytes())
                + gcd_footer_min(self.column_bytes()) <= u64::MAX),
    {
        proof {
            use_type_invariant(self);
            assert(self.reader.source().is_prefix_of(self.bytes@));
        }
        let (value, g, m) = self.reader.inner_value(doc, self.bytes.as_slice());
        if g == 0 {
            return true;
        }
        let top = u64::MAX - m;
        let room = top / g;
        proof {
            if value <= room {
                assert(value * g <= u64::MAX - m) by (nonlinear_arith)
                    requires
                        value <= room,
                        room == top / g,
                        top == u64::MAX - m,
                        g > 0,
                ;
            } else {
                assert(value * g > u64::MAX - m) by (nonlinear_arith)
                    requires
                        value > room,
                        room == top / g,
                        top == u64::MAX - m,
                        g > 0,
                ;
            }
        }
        value <= room
    }
}

impl<Item: FastValue> FastFieldReaderCodecWrapper<Item, GCDFastFieldCodec<BitpackedReader>> {
    /// Whether reading document `doc` stays within the bytes of the inner
    /// column and does not overflow, so that `get_u64` can read it.
    pub fn can_read(&self, doc: u64) -> (r: bool)
        ensures
            r == gcd_reads_within::<BitpackedReader>(
                self.column_bytes(),
                doc,
                bitpacked_reads_within(gcd_body(self.column_bytes()), doc),
            ),
    {
        if self.bytes.len() < 16 {
            return false;
        }
        if !bitpacked_check_reads(self.body(), doc) {
            return false;
        }
        self.value_fits(doc)
    }
}

impl<Item: FastValue> FastFieldReaderCodecWrapper<Item, GCDFastFieldCodec<LinearInterpolReader>> {
    /// Whether reading document `doc` stays within the bytes of the inner
    /// column and does not overflow, so that `get_u64` can read it.
    pub fn can_read(&self, doc: u64) -> (r: bool)
        ensures
            r == gcd_reads_within::<LinearInterpolReader>(
                self.column_bytes(),
                doc,
                linear_reads_within(gcd_body(self.column_bytes()), doc),
            ),
    {
        if self.bytes.len() < 16 {
            return false;
        }
        if !linear_check_reads(self.body(), doc) {
            return false;
        }
        self.value_fits(doc)
    }
}

impl<Item: FastValue, C: FastFieldCodecReader> Clone for FastFieldReaderCodecWrapper<Item, C> {
    /// A copy of the reader, over a copy of the bytes.
    fn clone(&self) -> (r: Self)
        ensures
            r.column_bytes() == self.column_bytes(),
    {
        proof {
            use_type_invariant(self);
        }
        let bytes = self.bytes.clone();
        assert(bytes@ =~= self.bytes@);
        FastFieldReaderCodecWrapper { reader: self.reader.clone_reader(), bytes, _phantom: PhantomData }
    }
}

impl<Item: FastValue, C: FastFieldCodecReader> FastFieldReader<Item> for FastFieldReaderCodecWrapper<
    Item,
    C,
> {
    open spec fn holds(&self, vals: Seq<u64>) -> bool {
        C::encodes(self.column_bytes(), vals)
    }

    open spec fn reads(&self, doc: u64) -> bool {
        C::reads(self.column_bytes(), doc)
    }

    open spec fn value_at(&self, doc: u64) -> u64 {
        C::decode(self.column_bytes(), doc)
    }

    open spec fn bounds_read(&self) -> bool {
        C::bounds_read(self.column_bytes())
    }

    open spec fn min_of(&self) -> u64 {
        C::min_of(self.column_bytes())
    }

    open spec fn max_of(&self) -> u64 {
        C::max_of(self.column_bytes())
    }

    proof fn lemma_holds_reads(&self, vals: Seq<u64>) {
        C::lemma_column_reads(self.column_bytes(), vals);
    }

    /// Returns the value associated to the given document.
    fn get(&self, doc: u32) -> (r: Item) {
        self.get_u64(doc as u64)
    }

    /// Fills `output` with the values of the documents from `start` to
    /// `start + output.len()`.
    fn get_range(&self, start: u64, output: &mut [Item]) {
        assert forall|i: int| 0 <= i < output@.len() implies #[trigger] C::reads(
            self.column_bytes(),
            (start + i) as u64,
        ) by {
            assert(self.reads((start + i) as u64));
        }
        self.get_range_u64(start, output);
    }

    /// Returns the minimum value of the fast field.
    fn min_value(&self) -> (r: Item) {
        proof {
            use_type_invariant(self);
        }
        Item::from_u64(self.reader.min_value())
    }

    /// Returns the maximum value of the fast field.
    fn max_value(&self) -> (r: Item) {
        proof {
            use_type_invariant(self);
        }
        Item::from_u64(self.reader.max_value())
    }
}

/// `bytes` are a column of `vals` that the codec with id `codec_id` wrote.
/// Under the id of the common-divisor codec, the bytes start with the id of
/// the inner codec.
pub open spec fn codec_encodes(codec_id: u8, bytes: Seq<u8>, vals: Seq<u64>) -> bool {
    if codec_id == 1 {
        BitpackedReader::encodes(bytes, vals)
    } else if codec_id == 2 {
        LinearInterpolReader::encodes(bytes, vals)
    } else if codec_id == 3 {
        MultiLinearInterpolReader::encodes(bytes, vals)
    } else if codec_id == GCD_CODEC_ID && bytes.len() > 0 {
        let rest = bytes.drop_first();
        if bytes[0] == 1 {
            GCDFastFieldCodec::<BitpackedReader>::encodes(rest, vals)
        } else if bytes[0] == 2 {
            GCDFastFieldCodec::<LinearInterpolReader>::encodes(rest, vals)
        } else if bytes[0] == 3 {
            GCDFastFieldCodec::<MultiLinearInterpolReader>::encodes(rest, vals)
        } else {
            false
        }
    } else {
        false
    }
}

/// The codec with id `codec_id` can open `bytes` (after the inner codec id,
/// under the common-divisor id).
pub open spec fn codec_can_open(codec_id: u8, bytes: Seq<u8>) -> bool {
    if codec_id == 1 {
        BitpackedReader::can_open(bytes)
    } else if codec_id == 2 {
        LinearInterpolReader::can_open(bytes)
    } else if codec_id == 3 {
        MultiLinearInterpolReader::can_open(bytes)
    } else if codec_id == GCD_CODEC_ID && bytes.len() > 0 {
        let rest = bytes.drop_first();
        if bytes[0] == 1 {
            GCDFastFieldCodec::<BitpackedReader>::can_open(rest)
        } else if bytes[0] == 2 {
            GCDFastFieldCodec::<LinearInterpolReader>::can_open(rest)
        } else if bytes[0] == 3 {
            GCDFastFieldCodec::<MultiLinearInterpolReader>::can_open(rest)
        } else {
            false
        }
    } else {
        false
    }
}

/// Opening `bytes` with the codec with id `codec_id` (after the inner codec
/// id, under the common-divisor id) returns a reader.
pub open spec fn codec_opens(codec_id: u8, bytes: Seq<u8>) -> bool {
    if codec_id == 1 {
        BitpackedReader::opens(bytes)
    } else if codec_id == 2 {
        LinearInterpolReader::opens(bytes)
    } else if codec_id == 3 {
        MultiLinearInterpolReader::opens(bytes)
    } else if codec_id == GCD_CODEC_ID && bytes.len() > 0 {
        let rest = bytes.drop_first();
        if bytes[0] == 1 {
            GCDFastFieldCodec::<BitpackedReader>::opens(rest)
        } else if bytes[0] == 2 {
            GCDFastFieldCodec::<LinearInterpolReader>::opens(rest)
        } else if bytes[0] == 3 {
            GCDFastFieldCodec::<MultiLinearInterpolReader>::opens(rest)
        } else {
            false
        }
    } else {
        false
    }
}

/// The bytes that the codec with id `codec_id` is given: all of them, or,
/// under the common-divisor id, those after the inner codec id.
pub open spec fn codec_payload(codec_id: u8, bytes: Seq<u8>) -> Seq<u8> {
    if codec_id == GCD_CODEC_ID {
        bytes.drop_first()
    } else {
        bytes
    }
}

/// The codec named by the first byte of `bytes` can open the rest.
pub open spec fn column_can_open(bytes: Seq<u8>) -> bool {
    bytes.len() > 0 && codec_can_open(bytes[0], bytes.drop_first())
}

/// Opening the rest of `bytes` with the codec named by their first byte
/// returns a reader.
pub open spec fn column_opens(bytes: Seq<u8>) -> bool {
    bytes.len() > 0 && codec_opens(bytes[0], bytes.drop_first())
}

/// Whether the codec with id `codec_id` (one of the three outside codecs)
/// can open `bytes`.
fn check_codec_can_open(codec_id: u8, bytes: &[u8]) -> (r: bool)
    requires
        1 <= codec_id <= 3,
    ensures
        r == codec_can_open(codec_id, bytes@),
{
    if codec_id == bitpacked_id() {
        if bytes.len() < 16 {
            return false;
        }
        let min_value = read_u64_le(bytes, bytes.len() - 16);
        let amplitude = read_u64_le(bytes, bytes.len() - 8);
        min_value <= u64::MAX - amplitude
    } else if codec_id == linear_interpol_id() {
        bytes.len() >= 56
    } else {
        multi_check_can_open(bytes)
    }
}

/// Whether the codec with id `codec_id` can open `bytes` (after the inner
/// codec id, under the common-divisor id): whether `open_from_id` may be
/// called on them.
pub fn check_can_open(codec_id: u8, bytes: &[u8]) -> (r: bool)
    ensures
        r == codec_can_open(codec_id, bytes@),
{
    if 1 <= codec_id && codec_id <= 3 {
        check_codec_can_open(codec_id, bytes)
    } else if codec_id == GCD_CODEC_ID {
        if bytes.len() == 0 {
            return false;
        }
        let inner_id = bytes[0];
        if inner_id < 1 || inner_id > 3 {
            return false;
        }
        let rest = slice_after_first(bytes);
        if rest.len() < 16 {
            return false;
        }
        let (body, _footer) = rest.split_at(rest.len() - 16);
        assert(body@ == gcd_body(rest@));
        check_codec_can_open(inner_id, body)
    } else {
        false
    }
}

/// The bytes of `bytes` after the first.
fn slice_after_first(bytes: &[u8]) -> (r: &[u8])
    requires
        bytes@.len() > 0,
    ensures
        r@ == bytes@.drop_first(),
{
    let (_first, rest) = bytes.split_at(1);
    assert(rest@ =~= bytes@.drop_first());
    rest
}

/// `bytes` are a column of `vals` that starts with the id of its codec.
pub open spec fn column_encodes(bytes: Seq<u8>, vals: Seq<u64>) -> bool {
    bytes.len() > 0 && codec_encodes(bytes[0], bytes.drop_first(), vals)
}

/// The reader of a fast field, for each of the codecs that can have written
/// it.
pub enum DynamicFastFieldReader<Item: FastValue> {
    /// Bitpacked compressed fastfield data.
    Bitpacked(FastFieldReaderCodecWrapper<Item, BitpackedReader>),
    /// Linear interpolated values + bitpacked
    LinearInterpol(FastFieldReaderCodecWrapper<Item, LinearInterpolReader>),
    /// Blockwise linear interpolated values + bitpacked
    MultiLinearInterpol(FastFieldReaderCodecWrapper<Item, MultiLinearInterpolReader>),
    /// GCD and Bitpacked compressed fastfield data.
    BitpackedGCD(FastFieldReaderCodecWrapper<Item, GCDFastFieldCodec<BitpackedReader>>),
    /// GCD and Linear interpolated values + bitpacked
    LinearInterpolGCD(FastFieldReaderCodecWrapper<Item, GCDFastFieldCodec<LinearInterpolReader>>),
    /// GCD and Blockwise linear interpolated values + bitpacked
    MultiLinearInterpolGCD(
        FastFieldReaderCodecWrapper<Item, GCDFastFieldCodec<MultiLinearInterpolReader>>,
    ),
}

impl<Item: FastValue> DynamicFastFieldReader<Item> {
    /// The bytes of the column (after its codec ids).
    pub open spec fn column_bytes(&self) -> Seq<u8> {
        match self {
            DynamicFastFieldReader::Bitpacked(r) => r.column_bytes(),
            DynamicFastFieldReader::LinearInterpol(r) => r.column_bytes(),
            DynamicFastFieldReader::MultiLinearInterpol(r) => r.column_bytes(),
            DynamicFastFieldReader::BitpackedGCD(r) => r.column_bytes(),
            DynamicFastFieldReader::LinearInterpolGCD(r) => r.column_bytes(),
            DynamicFastFieldReader::MultiLinearInterpolGCD(r) => r.column_bytes(),
        }
    }

    /// The reader that the codec id `codec_id` calls for: a variant of its
    /// own for each of the three codecs, alone or under a common divisor.
    pub open spec fn is_reader_for(&self, codec_id: u8, bytes: Seq<u8>) -> bool {
        if codec_id == 1 {
            self is Bitpacked
        } else if codec_id == 2 {
            self is LinearInterpol
        } else if codec_id == 3 {
            self is MultiLinearInterpol
        } else if codec_id == GCD_CODEC_ID && bytes.len() > 0 {
            if bytes[0] == 1 {
                self is BitpackedGCD
            } else if bytes[0] == 2 {
                self is LinearInterpolGCD
            } else if bytes[0] == 3 {
                self is MultiLinearInterpolGCD
            } else {
                false
            }
        } else {
            false
        }
    }

    /// Returns the reader for the codec with id `codec_id`, over the data.
    pub fn open_from_id(bytes: Vec<u8>, codec_id: u8) -> (r: Result<DynamicFastFieldReader<Item>, FastFieldError>)
        requires
            codec_can_open(codec_id, bytes@),
        ensures
            r is Ok <==> codec_opens(codec_id, bytes@),
            r matches Ok(reader) ==> {
                &&& reader.is_reader_for(codec_id, bytes@)
                &&& reader.column_bytes() == codec_payload(codec_id, bytes@)
                &&& forall|vals: Seq<u64>|
                    #[trigger] reader.holds(vals) <==> codec_encodes(codec_id, bytes@, vals)
            },
    {
        let mut bytes = bytes;
        let bitpacked = bitpacked_id();
        let linear_interpol = linear_interpol_id();
        let multi_linear_interpol = multi_linear_interpol_id();
        let reader = if codec_id == bitpacked {
            match FastFieldReaderCodecWrapper::<Item, BitpackedReader>::open_from_bytes(bytes) {
                Ok(r) => DynamicFastFieldReader::Bitpacked(r),
                Err(e) => {
                    return Err(e);
                },
            }
        } else if codec_id == linear_interpol {
            match FastFieldReaderCodecWrapper::<Item, LinearInterpolReader>::open_from_bytes(bytes) {
                Ok(r) => DynamicFastFieldReader::LinearInterpol(r),
                Err(e) => {
                    return Err(e);
                },
            }
        } else if codec_id == multi_linear_interpol {
            match FastFieldReaderCodecWrapper::<Item, MultiLinearInterpolReader>::open_from_bytes(
                bytes,
            ) {
                Ok(r) => DynamicFastFieldReader::MultiLinearInterpol(r),
                Err(e) => {
                    return Err(e);
                },
            }
        } else if codec_id == GCD_CODEC_ID {
            let ghost whole = bytes@;
            let inner_id = read_u8(&mut bytes);
            assert(bytes@ == whole.drop_first());
            if inner_id == bitpacked {
                match FastFieldReaderCodecWrapper::<
                    Item,
                    GCDFastFieldCodec<BitpackedReader>,
                >::open_from_bytes(bytes) {
                    Ok(r) => DynamicFastFieldReader::BitpackedGCD(r),
                    Err(e) => {
                        return Err(e);
                    },
                }
            } else if inner_id == linear_interpol {
                match FastFieldReaderCodecWrapper::<
                    Item,
                    GCDFastFieldCodec<LinearInterpolReader>,
                >::open_from_bytes(bytes) {
                    Ok(r) => DynamicFastFieldReader::LinearInterpolGCD(r),
                    Err(e) => {
                        return Err(e);
                    },
                }
            } else if inner_id == multi_linear_interpol {
                match FastFieldReaderCodecWrapper::<
                    Item,
                    GCDFastFieldCodec<MultiLinearInterpolReader>,
                >::open_from_bytes(bytes) {
                    Ok(r) => DynamicFastFieldReader::MultiLinearInterpolGCD(r),
                    Err(e) => {
                        return Err(e);
                    },
                }
            } else {
                // An unknown inner codec id: the requirement on `bytes` rules it out.
                return unreached();
            }
        } else {
            // An unknown codec id: the requirement on `bytes` rules it out.
            return unreached();
        };
        Ok(reader)
    }

    /// Returns the reader for the data, whose first byte is the codec id.
    pub fn open(bytes: Vec<u8>) -> (r: Result<DynamicFastFieldReader<Item>, FastFieldError>)
        requires
            column_can_open(bytes@),
        ensures
            r is Ok <==> column_opens(bytes@),
            r matches Ok(reader) ==> {
                &&& reader.is_reader_for(bytes@[0], bytes@.drop_first())
                &&& reader.column_bytes() == codec_payload(bytes@[0], bytes@.drop_first())
                &&& forall|vals: Seq<u64>| #[trigger] reader.holds(vals) <==> column_encodes(bytes@, vals)
            },
    {
        let mut bytes = bytes;
        let codec_id = read_u8(&mut bytes);
        Self::open_from_id(bytes, codec_id)
    }
}

impl<Item: FastValue> DynamicFastFieldReader<Item> {
    /// Reading document `doc` stays within the bytes and does not overflow,
    /// as the bytes alone show it: for bitpacked and linearly interpolated
    /// columns, alone or under a common divisor. Blockwise columns are read
    /// only as their serializer wrote them, so never here.
    pub open spec fn reads_within(&self, doc: u64) -> bool {
        match self {
            DynamicFastFieldReader::Bitpacked(r) => bitpacked_reads_within(r.column_bytes(), doc),
            DynamicFastFieldReader::LinearInterpol(r) => linear_reads_within(r.column_bytes(), doc),
            DynamicFastFieldReader::MultiLinearInterpol(_) => false,
            DynamicFastFieldReader::BitpackedGCD(r) => gcd_reads_within::<BitpackedReader>(
                r.column_bytes(),
                doc,
                bitpacked_reads_within(gcd_body(r.column_bytes()), doc),
            ),
            DynamicFastFieldReader::LinearInterpolGCD(r) => gcd_reads_within::<LinearInterpolReader>(
                r.column_bytes(),
                doc,
                linear_reads_within(gcd_body(r.column_bytes()), doc),
            ),
            DynamicFastFieldReader::MultiLinearInterpolGCD(_) => false,
        }
    }

    /// Whether `get` can read document `doc`, as the bytes alone show it.
    pub fn can_read(&self, doc: u64) -> (r: bool)
        ensures
            r == self.reads_within(doc),
            r ==> self.reads(doc),
    {
        match self {
            DynamicFastFieldReader::Bitpacked(reader) => reader.can_read(doc),
            DynamicFastFieldReader::LinearInterpol(reader) => reader.can_read(doc),
            DynamicFastFieldReader::BitpackedGCD(reader) => reader.can_read(doc),
            DynamicFastFieldReader::LinearInterpolGCD(reader) => reader.can_read(doc),
            _ => false,
        }
    }
}

impl<Item: FastValue> Clone for DynamicFastFieldReader<Item> {
    /// A copy of the reader: the same codec, over a copy of the bytes.
    fn clone(&self) -> (r: Self)
        ensures
            r.column_bytes() == self.column_bytes(),
            forall|codec_id: u8, bytes: Seq<u8>|
                r.is_reader_for(codec_id, bytes) == self.is_reader_for(codec_id, bytes),
            forall|doc: u64|
                #![trigger r.reads(doc)]
                #![trigger r.value_at(doc)]
                r.reads(doc) == self.reads(doc) && r.value_at(doc) == self.value_at(doc),
            r.bounds_read() == self.bounds_read(),
            r.min_of() == self.min_of(),
            r.max_of() == self.max_of(),
            forall|vals: Seq<u64>| #[trigger] r.holds(vals) == self.holds(vals),
    {
        match self {
            DynamicFastFieldReader::Bitpacked(reader) => DynamicFastFieldReader::Bitpacked(
                reader.clone(),
            ),
            DynamicFastFieldReader::LinearInterpol(reader) => DynamicFastFieldReader::LinearInterpol(
                reader.clone(),
            ),
            DynamicFastFieldReader::MultiLinearInterpol(
                reader,
            ) => DynamicFastFieldReader::MultiLinearInterpol(reader.clone()),
            DynamicFastFieldReader::BitpackedGCD(reader) => DynamicFastFieldReader::BitpackedGCD(
                reader.clone(),
            ),
            DynamicFastFieldReader::LinearInterpolGCD(
                reader,
            ) => DynamicFastFieldReader::LinearInterpolGCD(reader.clone()),
            DynamicFastFieldReader::MultiLinearInterpolGCD(
                reader,
            ) => DynamicFastFieldReader::MultiLinearInterpolGCD(reader.clone()),
        }
    }
}

impl<Item: FastValue> FastFieldReader<Item> for DynamicFastFieldReader<Item> {
    open spec fn holds(&self, vals: Seq<u64>) -> bool {
        match self {
            DynamicFastFieldReader::Bitpacked(r) => r.holds(vals),
            DynamicFastFieldReader::LinearInterpol(r) => r.holds(vals),
            DynamicFastFieldReader::MultiLinearInterpol(r) => r.holds(vals),
            DynamicFastFieldReader::BitpackedGCD(r) => r.holds(vals),
            DynamicFastFieldReader::LinearInterpolGCD(r) => r.holds(vals),
            DynamicFastFieldReader::MultiLinearInterpolGCD(r) => r.holds(vals),
        }
    }

    open spec fn reads(&self, doc: u64) -> bool {
        match self {
            DynamicFastFieldReader::Bitpacked(r) => r.reads(doc),
            DynamicFastFieldReader::LinearInterpol(r) => r.reads(doc),
            DynamicFastFieldReader::MultiLinearInterpol(r) => r.reads(doc),
            DynamicFastFieldReader::BitpackedGCD(r) => r.reads(doc),
            DynamicFastFieldReader::LinearInterpolGCD(r) => r.reads(doc),
            DynamicFastFieldReader::MultiLinearInterpolGCD(r) => r.reads(doc),
        }
    }

    open spec fn value_at(&self, doc: u64) -> u64 {
        match self {
            DynamicFastFieldReader::Bitpacked(r) => r.value_at(doc),
            DynamicFastFieldReader::LinearInterpol(r) => r.value_at(doc),
            DynamicFastFieldReader::MultiLinearInterpol(r) => r.value_at(doc),
            DynamicFastFieldReader::BitpackedGCD(r) => r.value_at(doc),
            DynamicFastFieldReader::LinearInterpolGCD(r) => r.value_at(doc),
            DynamicFastFieldReader::MultiLinearInterpolGCD(r) => r.value_at(doc),
        }
    }

    open spec fn bounds_read(&self) -> bool {
        match self {
            DynamicFastFieldReader::Bitpacked(r) => r.bounds_read(),
            DynamicFastFieldReader::LinearInterpol(r) => r.bounds_read(),
            DynamicFastFieldReader::MultiLinearInterpol(r) => r.bounds_read(),
            DynamicFastFieldReader::BitpackedGCD(r) => r.bounds_read(),
            DynamicFastFieldReader::LinearInterpolGCD(r) => r.bounds_read(),
            DynamicFastFieldReader::MultiLinearInterpolGCD(r) => r.bounds_read(),
        }
    }

    open spec fn min_of(&self) -> u64 {
        match self {
            DynamicFastFieldReader::Bitpacked(r) => r.min_of(),
            DynamicFastFieldReader::LinearInterpol(r) => r.min_of(),
            DynamicFastFieldReader::MultiLinearInterpol(r) => r.min_of(),
            DynamicFastFieldReader::BitpackedGCD(r) => r.min_of(),
            DynamicFastFieldReader::LinearInterpolGCD(r) => r.min_of(),
            DynamicFastFieldReader::MultiLinearInterpolGCD(r) => r.min_of(),
        }
    }

    open spec fn max_of(&self) -> u64 {
        match self {
            DynamicFastFieldReader::Bitpacked(r) => r.max_of(),
            DynamicFastFieldReader::LinearInterpol(r) => r.max_of(),
            DynamicFastFieldReader::MultiLinearInterpol(r) => r.max_of(),
            DynamicFastFieldReader::BitpackedGCD(r) => r.max_of(),
            DynamicFastFieldReader::LinearInterpolGCD(r) => r.max_of(),
            DynamicFastFieldReader::MultiLinearInterpolGCD(r) => r.max_of(),
        }
    }

    proof fn lemma_holds_reads(&self, vals: Seq<u64>) {
        match self {
            DynamicFastFieldReader::Bitpacked(r) => r.lemma_holds_reads(vals),
            DynamicFastFieldReader::LinearInterpol(r) => r.lemma_holds_reads(vals),
            DynamicFastFieldReader::MultiLinearInterpol(r) => r.lemma_holds_reads(vals),
            DynamicFastFieldReader::BitpackedGCD(r) => r.lemma_holds_reads(vals),
            DynamicFastFieldReader::LinearInterpolGCD(r) => r.lemma_holds_reads(vals),
            DynamicFastFieldReader::MultiLinearInterpolGCD(r) => r.lemma_holds_reads(vals),
        }
    }

    fn get(&self, doc: u32) -> (r: Item) {
        match self {
            DynamicFastFieldReader::Bitpacked(reader) => reader.get(doc),
            DynamicFastFieldReader::LinearInterpol(reader) => reader.get(doc),
            DynamicFastFieldReader::MultiLinearInterpol(reader) => reader.get(doc),
            DynamicFastFieldReader::BitpackedGCD(reader) => reader.get(doc),
            DynamicFastFieldReader::LinearInterpolGCD(reader) => reader.get(doc),
            DynamicFastFieldReader::MultiLinearInterpolGCD(reader) => reader.get(doc),
        }
    }

    fn get_range(&self, start: u64, output: &mut [Item]) {
        match self {
            DynamicFastFieldReader::Bitpacked(reader) => {
                assert forall|i: int| 0 <= i < output@.len() implies #[trigger] reader.reads(
                    (start + i) as u64,
                ) by {
                    assert(self.reads((start + i) as u64));
                }
                reader.get_range(start, output)
            },
            DynamicFastFieldReader::LinearInterpol(reader) => {
                assert forall|i: int| 0 <= i < output@.len() implies #[trigger] reader.reads(
                    (start + i) as u64,
                ) by {
                    assert(self.reads((start + i) as u64));
                }
                reader.get_range(start, output)
            },
            DynamicFastFieldReader::MultiLinearInterpol(reader) => {
                assert forall|i: int| 0 <= i < output@.len() implies #[trigger] reader.reads(
                    (start + i) as u64,
                ) by {
                    assert(self.reads((start + i) as u64));
                }
                reader.get_range(start, output)
            },
            DynamicFastFieldReader::BitpackedGCD(reader) => {
                assert forall|i: int| 0 <= i < output@.len() implies #[trigger] reader.reads(
                    (start + i) as u64,
                ) by {
                    assert(self.reads((start + i) as u64));
                }
                reader.get_range(start, output)
            },
            DynamicFastFieldReader::LinearInterpolGCD(reader) => {
                assert forall|i: int| 0 <= i < output@.len() implies #[trigger] reader.reads(
                    (start + i) as u64,
                ) by {
                    assert(self.reads((start + i) as u64));
                }
                reader.get_range(start, output)
            },
            DynamicFastFieldReader::MultiLinearInterpolGCD(reader) => {
                assert forall|i: int| 0 <= i < output@.len() implies #[trigger] reader.reads(
                    (start + i) as u64,
                ) by {
                    assert(self.reads((start + i) as u64));
                }
                reader.get_range(start, output)
            },
        }
    }

    fn min_value(&self) -> (r: Item) {
        match self {
            DynamicFastFieldReader::Bitpacked(reader) => reader.min_value(),
            DynamicFastFieldReader::LinearInterpol(reader) => reader.min_value(),
            DynamicFastFieldReader::MultiLinearInterpol(reader) => reader.min_value(),
            DynamicFastFieldReader::BitpackedGCD(reader) => reader.min_value(),
            DynamicFastFieldReader::LinearInterpolGCD(reader) => reader.min_value(),
            DynamicFastFieldReader::MultiLinearInterpolGCD(reader) => reader.min_value(),
        }
    }

    fn max_value(&self) -> (r: Item) {
        match self {
            DynamicFastFieldReader::Bitpacked(reader) => reader.max_value(),
            DynamicFastFieldReader::LinearInterpol(reader) => reader.max_value(),
            DynamicFastFieldReader::MultiLinearInterpol(reader) => reader.max_value(),
            DynamicFastFieldReader::BitpackedGCD(reader) => reader.max_value(),
            DynamicFastFieldReader::LinearInterpolGCD(reader) => reader.max_value(),
            DynamicFastFieldReader::MultiLinearInterpolGCD(reader) => reader.max_value(),
        }
    }
}

// ---------------------------------------------------------------------------
// Writing a column and opening its reader
// ---------------------------------------------------------------------------

/// The `u64` under which each of `vals` is stored.
pub open spec fn to_u64s<Item: FastValue>(vals: Seq<Item>) -> Seq<u64> {
    Seq::new(vals.len(), |i: int| vals[i].spec_to_u64())
}

/// The greatest common divisor of the distances of `u` above its minimum.
pub open spec fn column_gcd(u: Seq<u64>) -> nat {
    seq_gcd(distances(u, seq_min(u)))
}

/// The distances of `u` above its minimum, divided by `g`.
pub open spec fn divided(u: Seq<u64>, g: nat) -> Seq<u64> {
    Seq::new(u.len(), |i: int| ((u[i] - seq_min(u)) / (g as int)) as u64)
}

/// The values that the chosen codec is given for the column `u`: the
/// divided distances when they share a divisor above 1, else `u` itself.
pub open spec fn stored_values(u: Seq<u64>) -> Seq<u64> {
    if column_gcd(u) > 1 {
        divided(u, column_gcd(u))
    } else {
        u
    }
}

/// The codec with id `codec_id` can write the values `stored`: bitpacking
/// any values, linear interpolation those of
/// [`linear_interpolation_applies`], the blockwise codec those of
/// [`multi_interpolation_applies`].
pub open spec fn codec_accepts(codec_id: u8, stored: Seq<u64>) -> bool {
    ||| codec_id == 1
    ||| codec_id == 2 && linear_interpolation_applies(stored)
    ||| codec_id == 3 && multi_interpolation_applies(stored)
}

/// The `u64` values under which `vals` are stored.
pub fn to_u64_vec<Item: FastValue>(vals: &[Item]) -> (r: Vec<u64>)
    ensures
        r@ == to_u64s(vals@),
{
    let mut r: Vec<u64> = Vec::new();
    let mut i: usize = 0;
    while i < vals.len()
        invariant
            i <= vals@.len(),
            r@ == to_u64s(vals@.subrange(0, i as int)),
        decreases vals@.len() - i,
    {
        r.push(vals[i].to_u64());
        i = i + 1;
        assert(r@ =~= to_u64s(vals@.subrange(0, i as int)));
    }
    assert(vals@.subrange(0, vals@.len() as int) =~= vals@);
    r
}

/// Whether the linear interpolation codec can write `vals`.
pub fn linear_interpolation_applies_to(vals: &[u64]) -> (r: bool)
    ensures
        r == linear_interpolation_applies(vals@),
{
    if vals.len() == 0 || vals.len() as u64 >= MAX_NUM_VALS {
        return false;
    }
    let (min_value, max_value) = column_bounds(vals);
    proof {
        crate::codec::lemma_seq_min_max(vals@);
        assert(min_value <= vals@[0] <= max_value);
    }
    let room = u64::MAX - LINEAR_INTERPOLATION_SLACK;
    max_value <= room && max_value - min_value <= room - max_value
}

/// Whether the blockwise codec can write `vals`.
pub fn multi_interpolation_applies_to(vals: &[u64]) -> (r: bool)
    ensures
        r == multi_interpolation_applies(vals@),
{
    if vals.len() == 0 || vals.len() as u64 >= MAX_BLOCKWISE_NUM_VALS {
        return false;
    }
    let mut i: usize = 0;
    while i < vals.len()
        invariant
            i <= vals@.len(),
            forall|j: int| 0 <= j < i ==> #[trigger] vals@[j] <= MAX_INTERPOLATED_VALUE,
        decreases vals@.len() - i,
    {
        if vals[i] > MAX_INTERPOLATED_VALUE {
            return false;
        }
        i = i + 1;
    }
    is_non_decreasing(vals)
}

/// Whether `vals` never decrease.
pub fn is_non_decreasing(vals: &[u64]) -> (r: bool)
    ensures
        r == non_decreasing(vals@),
{
    let mut i: usize = 1;
    while i < vals.len()
        invariant
            1 <= i,
            forall|a: int, b: int| 0 <= a <= b < i && b < vals@.len() ==> vals@[a] <= vals@[b],
        decreases vals@.len() - i,
    {
        if vals[i - 1] > vals[i] {
            return false;
        }
        i = i + 1;
    }
    true
}

/// Whether the codec with id `codec_id` can write `vals`.
pub fn codec_accepts_values(codec_id: u8, vals: &[u64]) -> (r: bool)
    ensures
        r == codec_accepts(codec_id, vals@),
{
    if codec_id == bitpacked_id() {
        true
    } else if codec_id == linear_interpol_id() {
        linear_interpolation_applies_to(vals)
    } else if codec_id == multi_linear_interpol_id() {
        multi_interpolation_applies_to(vals)
    } else {
        false
    }
}

/// The distances of `vals` above `min`, divided by `g`.
fn divide_distances(vals: &[u64], min: u64, g: u64) -> (r: Vec<u64>)
    requires
        g > 0,
        min == seq_min(vals@),
    ensures
        r@ == divided(vals@, g as nat),
{
    proof {
        if vals@.len() > 0 {
            crate::codec::lemma_seq_min_max(vals@);
        }
    }
    let mut r: Vec<u64> = Vec::new();
    let mut i: usize = 0;
    while i < vals.len()
        invariant
            i <= vals@.len(),
            g > 0,
            min == seq_min(vals@),
            vals@.len() > 0 ==> forall|j: int| 0 <= j < vals@.len() ==> min <= #[trigger] vals@[j],
            r@ == divided(vals@, g as nat).subrange(0, i as int),
        decreases vals@.len() - i,
    {
        assert(min <= vals@[i as int]);
        r.push((vals[i] - min) / g);
        i = i + 1;
        assert(r@ =~= divided(vals@, g as nat).subrange(0, i as int));
    }
    assert(r@ =~= divided(vals@, g as nat));
    r
}

/// The values that a codec is given for the column `vals`: their distances
/// above the minimum divided by the common divisor when it is above 1, else
/// the values themselves.
pub fn values_to_store(vals: &[u64]) -> (r: Vec<u64>)
    ensures
        r@ == stored_values(vals@),
{
    let (min_value, _max_value) = column_bounds(vals);
    proof {
        if vals@.len() > 0 {
            crate::codec::lemma_seq_min_max(vals@);
        }
    }
    let gcd = match find_gcd(vals, min_value) {
        None => GCD_DEFAULT,
        Some(g) => g,
    };
    if gcd > 1 {
        divide_distances(vals, min_value, gcd)
    } else {
        let mut r: Vec<u64> = Vec::new();
        let mut i: usize = 0;
        while i < vals.len()
            invariant
                i <= vals@.len(),
                r@ == vals@.subrange(0, i as int),
            decreases vals@.len() - i,
        {
            r.push(vals[i]);
            i = i + 1;
            assert(r@ =~= vals@.subrange(0, i as int));
        }
        assert(vals@.subrange(0, vals@.len() as int) =~= vals@);
        r
    }
}

/// Writes the column of `vals` with the codec whose id is `codec_id`.
fn serialize_with_codec(codec_id: u8, vals: &[u64]) -> (r: Vec<u8>)
    requires
        codec_accepts(codec_id, vals@),
        vals@.len() < MAX_NUM_VALS,
    ensures
        codec_encodes(codec_id, r@, vals@),
        codec_can_open(codec_id, r@),
        codec_opens(codec_id, r@),
{
    if codec_id == bitpacked_id() {
        let r = BitpackedReader::serialize(vals);
        proof {
            BitpackedReader::lemma_column_reads(r@, vals@);
        }
        r
    } else if codec_id == linear_interpol_id() {
        let r = LinearInterpolReader::serialize(vals);
        proof {
            LinearInterpolReader::lemma_column_reads(r@, vals@);
        }
        r
    } else {
        assert(codec_id == 3);
        let r = MultiLinearInterpolReader::serialize(vals);
        proof {
            MultiLinearInterpolReader::lemma_column_reads(r@, vals@);
        }
        r
    }
}

/// The footer values of a column written with a common divisor are read back.
proof fn lemma_gcd_footer(body: Seq<u8>, g: u64, min: u64)
    ensures
        ({
            let bytes = body + u64_to_le_bytes_spec(g) + u64_to_le_bytes_spec(min);
            &&& bytes.len() == body.len() + 16
            &&& gcd_body(bytes) == body
            &&& gcd_footer_gcd(bytes) == g
            &&& gcd_footer_min(bytes) == min
        }),
{
    lemma_u64_le_roundtrip(g);
    lemma_u64_le_roundtrip(min);
    let bytes = body + u64_to_le_bytes_spec(g) + u64_to_le_bytes_spec(min);
    let n = body.len() as int;
    assert(gcd_body(bytes) =~= body);
    assert(bytes.subrange(n, n + 8) =~= u64_to_le_bytes_spec(g));
    assert(bytes.subrange(n + 8, n + 16) =~= u64_to_le_bytes_spec(min));
}

/// With a common divisor `g` of the distances above the minimum, each value
/// is its divided distance times `g` plus the minimum.
pub proof fn lemma_divided_scales_back(u: Seq<u64>, g: nat)
    requires
        g > 0,
        g <= u64::MAX,
        u.len() > 0,
        forall|i: int| 0 <= i < u.len() ==> divides(g, #[trigger] distances(u, seq_min(u))[i]),
    ensures
        scaled_by(u, divided(u, g), g as u64, seq_min(u)),
{
    crate::codec::lemma_seq_min_max(u);
    let min = seq_min(u);
    let inner = divided(u, g);
    assert forall|i: int| 0 <= i < u.len() implies #[trigger] u[i] == inner[i] * (g as u64) + min by {
        let d = distances(u, min)[i];
        assert(d == u[i] - min);
        lemma_fundamental_div_mod(d as int, g as int);
        assert(d % g == 0);
        assert(d / g <= d) by (nonlinear_arith)
            requires
                g > 0,
        ;
        assert(inner[i] == d / g);
        assert(d == g * (d / g) + 0);
        let gu = g as u64;
        assert(gu == g);
        assert(inner[i] * gu == g * (d / g)) by (nonlinear_arith)
            requires
                inner[i] == d / g,
                gu == g,
        ;
    }
}

impl<Item: FastValue> DynamicFastFieldReader<Item> {
    /// Writes the column of `vals` and opens its reader. The values are
    /// written with the codec whose id is `codec_id`; when their distances
    /// above their minimum share a divisor above 1, the codec is given the
    /// distances divided by it, under the common-divisor codec. Returns
    /// `None` when the codec cannot write the values it would be given.
    pub fn from_vals(vals: &[Item], codec_id: u8) -> (r: Option<DynamicFastFieldReader<Item>>)
        requires
            vals@.len() < MAX_NUM_VALS,
        ensures
            r is Some <==> codec_accepts(codec_id, stored_values(to_u64s(vals@))),
            r matches Some(reader) ==> {
                &&& reader.holds(to_u64s(vals@))
                &&& if column_gcd(to_u64s(vals@)) > 1 {
                    reader.is_reader_for(GCD_CODEC_ID, seq![codec_id])
                } else {
                    reader.is_reader_for(codec_id, seq![])
                }
            },
    {
        let u = to_u64_vec(vals);
        let ghost us = u@;
        let (min_value, _max_value) = column_bounds(u.as_slice());
        proof {
            if us.len() > 0 {
                crate::codec::lemma_seq_min_max(us);
            }
            lemma_seq_gcd_divides(distances(us, min_value));
        }
        let gcd = match find_gcd(u.as_slice(), min_value) {
            None => GCD_DEFAULT,
            Some(g) => g,
        };
        assert(gcd > 1 <==> column_gcd(us) > 1);
        if gcd > 1 {
            let inner = divide_distances(u.as_slice(), min_value, gcd);
            assert(inner@ == stored_values(us));
            if !codec_accepts_values(codec_id, inner.as_slice()) {
                return None;
            }
            let mut body = serialize_with_codec(codec_id, inner.as_slice());
            let ghost body_bytes = body@;
            let mut bytes: Vec<u8> = Vec::new();
            bytes.push(GCD_CODEC_ID);
            bytes.push(codec_id);
            bytes.append(&mut body);
            write_u64_le(gcd, &mut bytes);
            write_u64_le(min_value, &mut bytes);
            proof {
                assert(us.len() > 0) by {
                    if us.len() == 0 {
                        assert(distances(us, min_value) =~= Seq::<nat>::empty());
                    }
                }
                lemma_gcd_footer(body_bytes, gcd, min_value);
                lemma_divided_scales_back(us, gcd as nat);
                let rest = bytes@.drop_first();
                let column = body_bytes + u64_to_le_bytes_spec(gcd) + u64_to_le_bytes_spec(
                    min_value,
                );
                assert(rest.drop_first() =~= column);
                assert(rest[0] == codec_id);
                assert(bytes@[0] == GCD_CODEC_ID);
                assert(codec_encodes(codec_id, gcd_body(column), inner@));
                assert(column_encodes(bytes@, us));
                assert(column_can_open(bytes@));
                assert(column_opens(bytes@));
            }
            match Self::open(bytes) {
                Ok(reader) => Some(reader),
                Err(_) => None,
            }
        } else {
            assert(stored_values(us) == us);
            if !codec_accepts_values(codec_id, u.as_slice()) {
                return None;
            }
            let mut body = serialize_with_codec(codec_id, u.as_slice());
            let ghost body_bytes = body@;
            let mut bytes: Vec<u8> = Vec::new();
            bytes.push(codec_id);
            bytes.append(&mut body);
            proof {
                assert(bytes@.drop_first() =~= body_bytes);
                assert(column_encodes(bytes@, us));
                assert(column_can_open(bytes@));
                assert(column_opens(bytes@));
            }
            match Self::open(bytes) {
                Ok(reader) => Some(reader),
                Err(_) => None,
            }
        }
    }
}

} // verus!
