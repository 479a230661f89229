//! The codecs of the `fastfield_codecs` crate, seen through
//! [`FastFieldCodecReader`]: bitpacking, linear interpolation and blockwise
//! linear interpolation.
//!
//! Each reader type here holds the outside reader together with the bytes it
//! was opened from (as a ghost value). Only the trusted `open` and `clone`
//! functions of this module build these types, so the bytes recorded are
//! always those that the outside reader was opened from.
use crate::bits::{bit_len, bit_width, low_bits_mask};
use crate::blockwise_footer::{multi_can_open, multi_footer_start, multi_opens};
use crate::codec::{lemma_seq_min_max, seq_max, seq_min, FastFieldCodecReader, FastFieldError};
use crate::le_bytes::{read_u64_le, u64_at};
use fastfield_codecs::bitpacked::{BitpackedFastFieldReader, BitpackedFastFieldSerializer};
use fastfield_codecs::linearinterpol::{
    LinearInterpolFastFieldReader, LinearInterpolFastFieldSerializer,
};
use fastfield_codecs::multilinearinterpol::{
    MultiLinearInterpolFastFieldReader, MultiLinearInterpolFastFieldSerializer,
};
use fastfield_codecs::FastFieldCodecSerializer;
use fastfield_codecs::FastFieldStats;
use vstd::arithmetic::power2::pow2;
use vstd::prelude::*;

verus! {

#[verifier::external_type_specification]
#[verifier::external_body]
pub struct ExIoError(std::io::Error);

#[verifier::external_type_specification]
#[verifier::external_body]
pub struct ExBitpackedFastFieldReader(BitpackedFastFieldReader);

#[verifier::external_type_specification]
#[verifier::external_body]
pub struct ExLinearInterpolFastFieldReader(LinearInterpolFastFieldReader);

#[verifier::external_type_specification]
#[verifier::external_body]
pub struct ExMultiLinearInterpolFastFieldReader(MultiLinearInterpolFastFieldReader);

/// A column holds fewer values than this; the codecs compute bit addresses
/// as `doc * num_bits` in a `u64`, with `num_bits <= 64`.
pub const MAX_NUM_VALS: u64 = 0x0100_0000_0000_0000;

/// The blockwise codec writes the length of its footer as a `u32`; columns
/// of fewer values than this keep the footer far below that limit.
pub const MAX_BLOCKWISE_NUM_VALS: u64 = 0x1_0000_0000;

/// The blockwise codec computes its interpolated values in `i64`; values up
/// to this bound keep them, and the offsets added to them, in range.
pub const MAX_INTERPOLATED_VALUE: u64 = 0x4000_0000_0000_0000;

/// The room that the linear interpolation codec needs above
/// `max + (max - min)`: its `f32` slope can overshoot the line between the
/// first and the last value by less than this.
pub const LINEAR_INTERPOLATION_SLACK: u64 = 0x0800_0000_0000;

// ---------------------------------------------------------------------------
// Names of what the outside codecs compute
// ---------------------------------------------------------------------------

/// The bytes that the bitpacking serializer writes for `vals` with the
/// statistics `min_value` and `max_value`.
pub uninterp spec fn bitpacked_encoding(vals: Seq<u64>, min_value: u64, max_value: u64) -> Seq<u8>;

/// The bytes that the linear interpolation serializer writes for `vals` with
/// the statistics `min_value` and `max_value`.
pub uninterp spec fn linear_interpol_encoding(vals: Seq<u64>, min_value: u64, max_value: u64) -> Seq<u8>;

/// The bytes that the blockwise linear interpolation serializer writes for
/// `vals` with the statistics `min_value` and `max_value`.
pub uninterp spec fn multi_linear_interpol_encoding(vals: Seq<u64>, min_value: u64, max_value: u64) -> Seq<u8>;

/// The value that the bitpacked reader opened from `bytes` decodes for
/// document `doc`.
pub uninterp spec fn bitpacked_decode(bytes: Seq<u8>, doc: u64) -> u64;

/// The value that the linear interpolation reader opened from `bytes`
/// decodes for document `doc`.
pub uninterp spec fn linear_interpol_decode(bytes: Seq<u8>, doc: u64) -> u64;

/// The value that the blockwise reader opened from `bytes` decodes for
/// document `doc`.
pub uninterp spec fn multi_linear_interpol_decode(bytes: Seq<u8>, doc: u64) -> u64;

// ---------------------------------------------------------------------------
// Bitpacking: footer, reading and written columns
// ---------------------------------------------------------------------------

/// The minimum that a bitpacked column's footer stores.
pub open spec fn bitpacked_footer_min(bytes: Seq<u8>) -> u64 {
    u64_at(bytes, bytes.len() - 16)
}

/// The amplitude `max - min` that a bitpacked column's footer stores.
pub open spec fn bitpacked_footer_amplitude(bytes: Seq<u8>) -> u64 {
    u64_at(bytes, bytes.len() - 8)
}

/// The bitpacked reader can open `bytes`: the footer of 16 bytes is there,
/// and the minimum plus the amplitude fit in a `u64`.
pub open spec fn bitpacked_can_open(bytes: Seq<u8>) -> bool {
    &&& bytes.len() >= 16
    &&& bitpacked_footer_min(bytes) + bitpacked_footer_amplitude(bytes) <= u64::MAX
}

/// The number of bits per value that a bit unpacker is given for values up
/// to `max_diff` (the crate's `compute_num_bits`): the bit width of
/// `max_diff`, or 64 above 56 bits.
pub open spec fn packed_num_bits(max_diff: u64) -> nat {
    let width = bit_len(max_diff as nat);
    if width <= 56 {
        width
    } else {
        64
    }
}

/// Unpacking value `doc`, of `nb` bits each, from `len` bytes stays within
/// them: the bit address `doc * nb` fits in a `u64`, and the 8 bytes read
/// from its byte address are there.
pub open spec fn unpacks_within(len: nat, doc: u64, nb: nat) -> bool {
    nb > 0 ==> doc * nb <= u64::MAX && (doc * nb) / 8 + 8 <= len
}

/// The number of bits per value that the bitpacked reader takes from the
/// footer.
pub open spec fn bitpacked_num_bits(bytes: Seq<u8>) -> nat {
    packed_num_bits(bitpacked_footer_amplitude(bytes))
}

/// Reading document `doc` of the bitpacked column `bytes` stays within the
/// bytes and does not overflow: its packed bits are within the bytes, and
/// the minimum plus the largest value of `num_bits` bits fits in a `u64`.
pub open spec fn bitpacked_reads_within(bytes: Seq<u8>, doc: u64) -> bool {
    let nb = bitpacked_num_bits(bytes);
    &&& bitpacked_can_open(bytes)
    &&& unpacks_within(bytes.len(), doc, nb)
    &&& bitpacked_footer_min(bytes) + (pow2(nb) - 1) <= u64::MAX
}

/// `bytes` are the bitpacked column of `vals`, written with their true
/// bounds: the footer holds the minimum and the amplitude, and every
/// document decodes to its value.
pub open spec fn bitpacked_holds(bytes: Seq<u8>, vals: Seq<u64>) -> bool {
    &&& vals.len() < MAX_NUM_VALS
    &&& bytes == bitpacked_encoding(vals, seq_min(vals), seq_max(vals))
    &&& bytes.len() >= 16
    &&& bitpacked_footer_min(bytes) == seq_min(vals)
    &&& bitpacked_footer_amplitude(bytes) == seq_max(vals) - seq_min(vals)
    &&& forall|doc: u64| doc < vals.len() ==> #[trigger] bitpacked_decode(bytes, doc) == vals[doc as int]
}

/// The bitpacked reader reads document `doc` of `bytes` without panicking:
/// within the bytes, or within a column that the serializer wrote.
pub open spec fn bitpacked_reads(bytes: Seq<u8>, doc: u64) -> bool {
    ||| bitpacked_reads_within(bytes, doc)
    ||| exists|vals: Seq<u64>| #[trigger] bitpacked_holds(bytes, vals) && doc < vals.len()
}

// ---------------------------------------------------------------------------
// Linear interpolation: footer, reading and written columns
// ---------------------------------------------------------------------------

/// The linear interpolation reader can open `bytes`: its footer of 56 bytes
/// is there.
pub open spec fn linear_interpol_can_open(bytes: Seq<u8>) -> bool {
    bytes.len() >= 56
}

/// Number `i` of the linear interpolation footer: 0 the largest packed
/// value, 1 the offset, 2 the first value, 3 the last value, 4 the number of
/// values, 5 the minimum, 6 the maximum.
pub open spec fn linear_footer(bytes: Seq<u8>, i: int) -> u64 {
    u64_at(bytes, bytes.len() - 56 + 8 * i)
}

/// The highest value that the interpolated line of the column `bytes`
/// reaches below its number of values: the first value when the line does
/// not rise, else the last value plus [`LINEAR_INTERPOLATION_SLACK`].
pub open spec fn linear_line_top(bytes: Seq<u8>) -> int {
    let first = linear_footer(bytes, 2);
    let last = linear_footer(bytes, 3);
    if last > first {
        last + LINEAR_INTERPOLATION_SLACK
    } else {
        first as int
    }
}

/// Reading document `doc` of the linearly interpolated column `bytes`
/// stays within the bytes and does not overflow: its packed bits are within
/// the bytes, `doc` is below the stored number of values (or that number is
/// at most 1, for a flat line), the offset is at most the first value, and
/// the top of the line plus the largest value of `num_bits` bits fits in a
/// `u64`.
pub open spec fn linear_reads_within(bytes: Seq<u8>, doc: u64) -> bool {
    let nb = packed_num_bits(linear_footer(bytes, 0));
    let num_vals = linear_footer(bytes, 4);
    &&& linear_interpol_can_open(bytes)
    &&& unpacks_within(bytes.len(), doc, nb)
    &&& (doc < num_vals || num_vals <= 1)
    &&& linear_footer(bytes, 1) <= linear_footer(bytes, 2)
    &&& linear_line_top(bytes) + (pow2(nb) - 1) <= u64::MAX
}

/// The values that the linear interpolation codec is given here: at least
/// one, and `max + (max - min)` (the codec's own applicability bound) with
/// room of [`LINEAR_INTERPOLATION_SLACK`] to spare in a `u64`.
pub open spec fn linear_interpolation_applies(vals: Seq<u64>) -> bool {
    &&& 0 < vals.len() < MAX_NUM_VALS
    &&& seq_max(vals) + (seq_max(vals) - seq_min(vals)) + LINEAR_INTERPOLATION_SLACK <= u64::MAX
}

/// The linear interpolation reader reads document `doc` of `bytes` without
/// panicking: within the bytes, or within a column that the serializer
/// wrote.
pub open spec fn linear_interpol_reads(bytes: Seq<u8>, doc: u64) -> bool {
    ||| linear_reads_within(bytes, doc)
    ||| exists|vals: Seq<u64>| #[trigger] linear_interpol_holds(bytes, vals) && doc < vals.len()
}

/// `bytes` are the linearly interpolated column of `vals`, written with their
/// true bounds: the footer ends with the minimum and the maximum, and every
/// document decodes to its value.
pub open spec fn linear_interpol_holds(bytes: Seq<u8>, vals: Seq<u64>) -> bool {
    &&& linear_interpolation_applies(vals)
    &&& bytes == linear_interpol_encoding(vals, seq_min(vals), seq_max(vals))
    &&& bytes.len() >= 56
    &&& u64_at(bytes, bytes.len() - 16) == seq_min(vals)
    &&& u64_at(bytes, bytes.len() - 8) == seq_max(vals)
    &&& forall|doc: u64|
        doc < vals.len() ==> #[trigger] linear_interpol_decode(bytes, doc) == vals[doc as int]
}

// ---------------------------------------------------------------------------
// Blockwise linear interpolation: footer, reading and written columns
// ---------------------------------------------------------------------------

/// `vals` never decrease.
pub open spec fn non_decreasing(vals: Seq<u64>) -> bool {
    forall|i: int, j: int| 0 <= i <= j < vals.len() ==> vals[i] <= vals[j]
}

/// The values that the blockwise codec is given here: at least one and fewer
/// than [`MAX_BLOCKWISE_NUM_VALS`], none above [`MAX_INTERPOLATED_VALUE`],
/// in non-decreasing order, so that no block's interpolated line falls below
/// zero or leaves the range of an `i64`.
pub open spec fn multi_interpolation_applies(vals: Seq<u64>) -> bool {
    &&& 0 < vals.len() < MAX_BLOCKWISE_NUM_VALS
    &&& forall|i: int| 0 <= i < vals.len() ==> #[trigger] vals[i] <= MAX_INTERPOLATED_VALUE
    &&& non_decreasing(vals)
}

/// `bytes` are the blockwise linearly interpolated column of `vals`, written
/// with their true bounds: the reader opens them, the footer starts with the
/// number of values, the minimum and the maximum, and every document decodes
/// to its value.
pub open spec fn multi_linear_interpol_holds(bytes: Seq<u8>, vals: Seq<u64>) -> bool {
    &&& multi_interpolation_applies(vals)
    &&& bytes == multi_linear_interpol_encoding(vals, seq_min(vals), seq_max(vals))
    &&& multi_opens(bytes)
    &&& u64_at(bytes, multi_footer_start(bytes) + 8) == seq_min(vals)
    &&& u64_at(bytes, multi_footer_start(bytes) + 16) == seq_max(vals)
    &&& forall|doc: u64| doc < vals.len() ==> #[trigger] multi_linear_interpol_decode(bytes, doc)
        == vals[doc as int]
}

// ---------------------------------------------------------------------------
// Codec ids
// ---------------------------------------------------------------------------

/// `BitpackedFastFieldSerializer::ID`, the id under which a bitpacked column
/// is stored; the crate's source sets it to 1.
#[verifier::external_body]
pub(crate) fn bitpacked_id() -> (r: u8)
    ensures
        r == 1,
{
    BitpackedFastFieldSerializer::ID
}

/// `LinearInterpolFastFieldSerializer::ID`, the id under which a linearly
/// interpolated column is stored; the crate's source sets it to 2.
#[verifier::external_body]
pub(crate) fn linear_interpol_id() -> (r: u8)
    ensures
        r == 2,
{
    LinearInterpolFastFieldSerializer::ID
}

/// `MultiLinearInterpolFastFieldSerializer::ID`, the id under which a
/// blockwise linearly interpolated column is stored; the crate's source sets
/// it to 3.
#[verifier::external_body]
pub(crate) fn multi_linear_interpol_id() -> (r: u8)
    ensures
        r == 3,
{
    MultiLinearInterpolFastFieldSerializer::ID
}

// ---------------------------------------------------------------------------
// Bitpacking
// ---------------------------------------------------------------------------

/// The reader of a bitpacked column.
pub struct BitpackedReader {
    reader: BitpackedFastFieldReader,
    source: Ghost<Seq<u8>>,
}

/// `BitpackedFastFieldSerializer::serialize` into a `Vec`, with the statistics
/// of `vals`. Claims: the bytes written are the named encoding of its
/// arguments; writing into a `Vec` does not fail; the last 16 bytes are the
/// footer that `close_field` writes, the minimum and then the amplitude
/// `max_value - min_value`, little-endian; and the reader opened from the
/// bytes decodes every document to its value (each value minus the minimum
/// is packed in as many bits as the amplitude needs, and 7 bytes of padding
/// follow the packed bits, so every read of 8 bytes stays within the
/// column). The serializer subtracts `min_value` from each value, so
/// `min_value` must bound them all from below.
#[verifier::external_body]
fn bitpacked_serialize(vals: &[u64], min_value: u64, max_value: u64) -> (r: Result<
    Vec<u8>,
    std::io::Error,
>)
    requires
        vals@.len() < MAX_NUM_VALS,
        min_value == seq_min(vals@),
        max_value == seq_max(vals@),
    ensures
        r is Ok,
        r->Ok_0@ == bitpacked_encoding(vals@, min_value, max_value),
        r->Ok_0@.len() >= 16,
        bitpacked_footer_min(r->Ok_0@) == min_value,
        bitpacked_footer_amplitude(r->Ok_0@) == max_value - min_value,
        forall|doc: u64| doc < vals@.len() ==> #[trigger] bitpacked_decode(r->Ok_0@, doc) == vals@[doc as int],
{
    let stats = FastFieldStats { min_value, max_value, num_vals: vals.len() as u64 };
    let mut out = Vec::new();
    BitpackedFastFieldSerializer::serialize(
        &mut out,
        &vals,
        stats,
        vals.iter().cloned(),
        vals.iter().cloned(),
    )?;
    Ok(out)
}

/// `BitpackedFastFieldReader::open_from_bytes`. Claims: when the footer of
/// 16 bytes is there and `min + amplitude` does not overflow, it returns a
/// reader (reading two `u64` from a 16-byte slice cannot fail).
#[verifier::external_body]
fn bitpacked_open(bytes: &[u8]) -> (r: Result<BitpackedReader, std::io::Error>)
    requires
        bitpacked_can_open(bytes@),
    ensures
        r is Ok,
        r->Ok_0.source@ == bytes@,
{
    let reader = <BitpackedFastFieldReader as fastfield_codecs::FastFieldCodecReader>::open_from_bytes(bytes)?;
    Ok(BitpackedReader { reader, source: Ghost(bytes@) })
}

/// `BitpackedFastFieldReader::get_u64`. Claims: it returns without panicking
/// when reading `doc` stays within the bytes it was opened from (or within a
/// column that the serializer wrote, for a document of it), and its result
/// is the named decoded value, which depends on those bytes and `doc` alone:
/// the minimum plus the `num_bits` bits at bit `doc * num_bits`. Bytes of
/// `data` after the column are not read.
#[verifier::external_body]
fn bitpacked_get_u64(reader: &BitpackedReader, doc: u64, data: &[u8]) -> (r: u64)
    requires
        bitpacked_reads(reader.source@, doc),
        reader.source@.is_prefix_of(data@),
    ensures
        r == bitpacked_decode(reader.source@, doc),
{
    <BitpackedFastFieldReader as fastfield_codecs::FastFieldCodecReader>::get_u64(&reader.reader, doc, data)
}

/// `BitpackedFastFieldReader::min_value`. Claims: it returns the minimum
/// that the footer stores.
#[verifier::external_body]
fn bitpacked_min_value(reader: &BitpackedReader) -> (r: u64)
    requires
        bitpacked_can_open(reader.source@),
    ensures
        r == bitpacked_footer_min(reader.source@),
{
    <BitpackedFastFieldReader as fastfield_codecs::FastFieldCodecReader>::min_value(&reader.reader)
}

/// `BitpackedFastFieldReader::max_value`. Claims: it returns the minimum plus
/// the amplitude that the footer stores, as the open computed it.
#[verifier::external_body]
fn bitpacked_max_value(reader: &BitpackedReader) -> (r: u64)
    requires
        bitpacked_can_open(reader.source@),
    ensures
        r == bitpacked_footer_min(reader.source@) + bitpacked_footer_amplitude(reader.source@),
{
    <BitpackedFastFieldReader as fastfield_codecs::FastFieldCodecReader>::max_value(&reader.reader)
}

/// The derived `Clone` of `BitpackedFastFieldReader`. Claims: the copy has
/// the fields of the original, so it reads the same column.
#[verifier::external_body]
fn bitpacked_clone(reader: &BitpackedReader) -> (r: BitpackedReader)
    ensures
        r.source@ == reader.source@,
{
    BitpackedReader { reader: reader.reader.clone(), source: Ghost(reader.source@) }
}

/// The number of bits per value for values up to `max_diff`.
fn packed_bits(max_diff: u64) -> (r: u64)
    ensures
        r == packed_num_bits(max_diff),
        r <= 64,
{
    let width = bit_width(max_diff);
    if width <= 56 {
        width
    } else {
        64
    }
}

/// Whether unpacking value `doc`, of `nb` bits each, from `len` bytes stays
/// within them.
fn check_unpacks_within(len: usize, doc: u64, nb: u64) -> (r: bool)
    ensures
        r == unpacks_within(len as nat, doc, nb as nat),
{
    if nb == 0 {
        return true;
    }
    if doc > u64::MAX / nb {
        assert(doc * nb > u64::MAX) by (nonlinear_arith)
            requires
                doc > u64::MAX / nb,
                nb > 0,
        ;
        return false;
    }
    assert(doc * nb <= u64::MAX) by (nonlinear_arith)
        requires
            doc <= u64::MAX / nb,
            nb > 0,
    ;
    let bit_address = doc * nb;
    bit_address / 8 + 8 <= len as u64
}

/// Whether reading document `doc` of the bitpacked column `bytes` stays
/// within the bytes and does not overflow.
pub fn bitpacked_check_reads(bytes: &[u8], doc: u64) -> (r: bool)
    ensures
        r == bitpacked_reads_within(bytes@, doc),
{
    if bytes.len() < 16 {
        return false;
    }
    let min_value = read_u64_le(bytes, bytes.len() - 16);
    let amplitude = read_u64_le(bytes, bytes.len() - 8);
    if min_value > u64::MAX - amplitude {
        return false;
    }
    let nb = packed_bits(amplitude);
    if !check_unpacks_within(bytes.len(), doc, nb) {
        return false;
    }
    let mask = low_bits_mask(nb);
    min_value <= u64::MAX - mask
}

impl BitpackedReader {
    /// Writes the bitpacked column of `vals`, with their bounds.
    pub fn serialize(vals: &[u64]) -> (r: Vec<u8>)
        requires
            vals@.len() < MAX_NUM_VALS,
        ensures
            bitpacked_holds(r@, vals@),
            bitpacked_can_open(r@),
    {
        let (min_value, max_value) = column_bounds(vals);
        proof {
            if vals@.len() > 0 {
                lemma_seq_min_max(vals@);
                assert(min_value <= vals@[0] <= max_value);
            }
        }
        match bitpacked_serialize(vals, min_value, max_value) {
            Ok(out) => out,
            Err(_) => Vec::new(),
        }
    }
}

impl FastFieldCodecReader for BitpackedReader {
    open spec fn encodes(bytes: Seq<u8>, vals: Seq<u64>) -> bool {
        bitpacked_holds(bytes, vals)
    }

    open spec fn can_open(bytes: Seq<u8>) -> bool {
        bitpacked_can_open(bytes)
    }

    open spec fn opens(bytes: Seq<u8>) -> bool {
        bitpacked_can_open(bytes)
    }

    open spec fn reads(bytes: Seq<u8>, doc: u64) -> bool {
        bitpacked_reads(bytes, doc)
    }

    open spec fn decode(bytes: Seq<u8>, doc: u64) -> u64 {
        bitpacked_decode(bytes, doc)
    }

    open spec fn bounds_read(bytes: Seq<u8>) -> bool {
        bitpacked_can_open(bytes)
    }

    open spec fn min_of(bytes: Seq<u8>) -> u64 {
        bitpacked_footer_min(bytes)
    }

    open spec fn max_of(bytes: Seq<u8>) -> u64 {
        (bitpacked_footer_min(bytes) + bitpacked_footer_amplitude(bytes)) as u64
    }

    closed spec fn source(&self) -> Seq<u8> {
        self.source@
    }

    proof fn lemma_column_reads(bytes: Seq<u8>, vals: Seq<u64>) {
        if vals.len() > 0 {
            lemma_seq_min_max(vals);
            assert(seq_min(vals) <= vals[0] <= seq_max(vals));
        }
        assert forall|doc: u64| doc < vals.len() implies #[trigger] Self::reads(bytes, doc)
            && Self::decode(bytes, doc) == vals[doc as int] by {
            assert(bitpacked_holds(bytes, vals) && doc < vals.len());
        }
    }

    fn open_from_bytes(bytes: &[u8]) -> (r: Result<Self, FastFieldError>) {
        match bitpacked_open(bytes) {
            Ok(reader) => Ok(reader),
            Err(e) => Err(FastFieldError::Io(e)),
        }
    }

    fn clone_reader(&self) -> (r: Self) {
        bitpacked_clone(self)
    }

    fn get_u64(&self, doc: u64, data: &[u8]) -> (r: u64) {
        bitpacked_get_u64(self, doc, data)
    }

    fn min_value(&self) -> (r: u64) {
        bitpacked_min_value(self)
    }

    fn max_value(&self) -> (r: u64) {
        bitpacked_max_value(self)
    }
}

// ---------------------------------------------------------------------------
// Linear interpolation
// ---------------------------------------------------------------------------

/// The reader of a linearly interpolated column.
pub struct LinearInterpolReader {
    reader: LinearInterpolFastFieldReader,
    source: Ghost<Seq<u8>>,
}

/// `LinearInterpolFastFieldSerializer::serialize` into a `Vec`, with the
/// statistics of `vals`. Claims: the bytes written are the named encoding of
/// its arguments; writing into a `Vec` does not fail; they end with the
/// footer of 56 bytes, whose last two numbers are the minimum and the
/// maximum; and the reader opened from them decodes every document to its
/// value. The serializer reads `vals[0]` and `vals[num_vals - 1]`, so `vals`
/// is not empty. Its interpolated value `first + (pos * slope) as u64` is at
/// least the smaller of the first and the last value (a falling line
/// saturates to `first`) and overshoots the larger by less than
/// [`LINEAR_INTERPOLATION_SLACK`]; so the offset it adds to each value is at
/// most `max - min` plus that slack, and every sum stays within
/// `max + (max - min)` plus the slack. The reader recomputes the same line
/// from the footer, adds the stored difference and subtracts the offset.
#[verifier::external_body]
fn linear_interpol_serialize(vals: &[u64], min_value: u64, max_value: u64) -> (r: Result<
    Vec<u8>,
    std::io::Error,
>)
    requires
        linear_interpolation_applies(vals@),
        min_value == seq_min(vals@),
        max_value == seq_max(vals@),
    ensures
        r is Ok,
        r->Ok_0@ == linear_interpol_encoding(vals@, min_value, max_value),
        r->Ok_0@.len() >= 56,
        u64_at(r->Ok_0@, r->Ok_0@.len() - 16) == min_value,
        u64_at(r->Ok_0@, r->Ok_0@.len() - 8) == max_value,
        forall|doc: u64| doc < vals@.len() ==> #[trigger] linear_interpol_decode(r->Ok_0@, doc)
            == vals@[doc as int],
{
    let stats = FastFieldStats { min_value, max_value, num_vals: vals.len() as u64 };
    let mut out = Vec::new();
    LinearInterpolFastFieldSerializer::serialize(
        &mut out,
        &vals,
        stats,
        vals.iter().cloned(),
        vals.iter().cloned(),
    )?;
    Ok(out)
}

/// `LinearInterpolFastFieldReader::open_from_bytes`. Claims: when the footer
/// of 56 bytes is there, it returns a reader: reading seven `u64` from a
/// 56-byte slice cannot fail, and the slope and bit width it derives from
/// them cannot panic.
#[verifier::external_body]
fn linear_interpol_open(bytes: &[u8]) -> (r: Result<LinearInterpolReader, std::io::Error>)
    requires
        linear_interpol_can_open(bytes@),
    ensures
        r is Ok,
        r->Ok_0.source@ == bytes@,
{
    let reader = <LinearInterpolFastFieldReader as fastfield_codecs::FastFieldCodecReader>::open_from_bytes(bytes)?;
    Ok(LinearInterpolReader { reader, source: Ghost(bytes@) })
}

/// `LinearInterpolFastFieldReader::get_u64`. Claims: its result is the
/// named decoded value of the bytes it was opened from and `doc` (bytes of
/// `data` after the column are not read), and it returns without panicking
/// for a document of a column that the serializer wrote, or when reading
/// `doc` stays within the bytes as [`linear_reads_within`] states. There the
/// value is `first + (doc as f32 * slope) as u64`, plus the packed bits,
/// minus the offset. A line that does not rise has a slope of at most zero,
/// so the cast gives 0. A rising line's slope is `(last - first) /
/// (num_vals - 1)`, computed in `f64` and rounded to `f32`; with the rounding
/// of `doc` and of the product, the relative error stays below 2^-21, so
/// for `doc` below the number of values the cast is at most `last - first`
/// plus [`LINEAR_INTERPOLATION_SLACK`] (with the footer bounds, `last - first`
/// is below 2^64 - 2^43). The sum then stays within a `u64`, and it is at
/// least `first`, so subtracting an offset of at most `first` does not wrap.
#[verifier::external_body]
fn linear_interpol_get_u64(reader: &LinearInterpolReader, doc: u64, data: &[u8]) -> (r: u64)
    requires
        linear_interpol_reads(reader.source@, doc),
        reader.source@.is_prefix_of(data@),
    ensures
        r == linear_interpol_decode(reader.source@, doc),
{
    <LinearInterpolFastFieldReader as fastfield_codecs::FastFieldCodecReader>::get_u64(&reader.reader, doc, data)
}

/// Whether reading document `doc` of the linearly interpolated column
/// `bytes` stays within the bytes and does not overflow.
pub fn linear_check_reads(bytes: &[u8], doc: u64) -> (r: bool)
    ensures
        r == linear_reads_within(bytes@, doc),
{
    if bytes.len() < 56 {
        return false;
    }
    let base = bytes.len() - 56;
    let max_diff = read_u64_le(bytes, base);
    let offset = read_u64_le(bytes, base + 8);
    let first = read_u64_le(bytes, base + 16);
    let last = read_u64_le(bytes, base + 24);
    let num_vals = read_u64_le(bytes, base + 32);
    let nb = packed_bits(max_diff);
    if !check_unpacks_within(bytes.len(), doc, nb) {
        return false;
    }
    if !(doc < num_vals || num_vals <= 1) {
        return false;
    }
    if offset > first {
        return false;
    }
    let top = if last > first {
        if last > u64::MAX - LINEAR_INTERPOLATION_SLACK {
            proof {
                vstd::arithmetic::power2::lemma_pow2_pos(nb as nat);
            }
            return false;
        }
        last + LINEAR_INTERPOLATION_SLACK
    } else {
        first
    };
    let mask = low_bits_mask(nb);
    top <= u64::MAX - mask
}

/// `LinearInterpolFastFieldReader::min_value`. Claims: it returns the
/// minimum that the footer stores, its sixth number.
#[verifier::external_body]
fn linear_interpol_min_value(reader: &LinearInterpolReader) -> (r: u64)
    requires
        linear_interpol_can_open(reader.source@),
    ensures
        r == u64_at(reader.source@, reader.source@.len() - 16),
{
    <LinearInterpolFastFieldReader as fastfield_codecs::FastFieldCodecReader>::min_value(&reader.reader)
}

/// `LinearInterpolFastFieldReader::max_value`. Claims: it returns the
/// maximum that the footer stores, its last number.
#[verifier::external_body]
fn linear_interpol_max_value(reader: &LinearInterpolReader) -> (r: u64)
    requires
        linear_interpol_can_open(reader.source@),
    ensures
        r == u64_at(reader.source@, reader.source@.len() - 8),
{
    <LinearInterpolFastFieldReader as fastfield_codecs::FastFieldCodecReader>::max_value(&reader.reader)
}

/// The derived `Clone` of `LinearInterpolFastFieldReader`. Claims: the copy
/// has the fields of the original, so it reads the same column.
#[verifier::external_body]
fn linear_interpol_clone(reader: &LinearInterpolReader) -> (r: LinearInterpolReader)
    ensures
        r.source@ == reader.source@,
{
    LinearInterpolReader { reader: reader.reader.clone(), source: Ghost(reader.source@) }
}

impl LinearInterpolReader {
    /// Writes the linearly interpolated column of `vals`, with their bounds.
    pub fn serialize(vals: &[u64]) -> (r: Vec<u8>)
        requires
            linear_interpolation_applies(vals@),
        ensures
            linear_interpol_holds(r@, vals@),
            linear_interpol_can_open(r@),
    {
        let (min_value, max_value) = column_bounds(vals);
        match linear_interpol_serialize(vals, min_value, max_value) {
            Ok(out) => out,
            Err(_) => Vec::new(),
        }
    }
}

impl FastFieldCodecReader for LinearInterpolReader {
    open spec fn encodes(bytes: Seq<u8>, vals: Seq<u64>) -> bool {
        linear_interpol_holds(bytes, vals)
    }

    open spec fn can_open(bytes: Seq<u8>) -> bool {
        linear_interpol_can_open(bytes)
    }

    open spec fn opens(bytes: Seq<u8>) -> bool {
        linear_interpol_can_open(bytes)
    }

    open spec fn reads(bytes: Seq<u8>, doc: u64) -> bool {
        linear_interpol_reads(bytes, doc)
    }

    open spec fn decode(bytes: Seq<u8>, doc: u64) -> u64 {
        linear_interpol_decode(bytes, doc)
    }

    open spec fn bounds_read(bytes: Seq<u8>) -> bool {
        linear_interpol_can_open(bytes)
    }

    open spec fn min_of(bytes: Seq<u8>) -> u64 {
        u64_at(bytes, bytes.len() - 16)
    }

    open spec fn max_of(bytes: Seq<u8>) -> u64 {
        u64_at(bytes, bytes.len() - 8)
    }

    closed spec fn source(&self) -> Seq<u8> {
        self.source@
    }

    proof fn lemma_column_reads(bytes: Seq<u8>, vals: Seq<u64>) {
        assert forall|doc: u64| doc < vals.len() implies #[trigger] Self::reads(bytes, doc)
            && Self::decode(bytes, doc) == vals[doc as int] by {
            assert(linear_interpol_holds(bytes, vals) && doc < vals.len());
        }
    }

    fn open_from_bytes(bytes: &[u8]) -> (r: Result<Self, FastFieldError>) {
        match linear_interpol_open(bytes) {
            Ok(reader) => Ok(reader),
            Err(e) => Err(FastFieldError::Io(e)),
        }
    }

    fn clone_reader(&self) -> (r: Self) {
        linear_interpol_clone(self)
    }

    fn get_u64(&self, doc: u64, data: &[u8]) -> (r: u64) {
        linear_interpol_get_u64(self, doc, data)
    }

    fn min_value(&self) -> (r: u64) {
        linear_interpol_min_value(self)
    }

    fn max_value(&self) -> (r: u64) {
        linear_interpol_max_value(self)
    }
}

// ---------------------------------------------------------------------------
// Blockwise linear interpolation
// ---------------------------------------------------------------------------

/// The reader of a blockwise linearly interpolated column.
pub struct MultiLinearInterpolReader {
    reader: MultiLinearInterpolFastFieldReader,
    source: Ghost<Seq<u8>>,
}

/// `MultiLinearInterpolFastFieldSerializer::serialize` into a `Vec`, with
/// the statistics of `vals`. Claims: the bytes written are the named encoding
/// of its arguments; writing into a `Vec` does not fail; they end with the
/// footer followed by its length as a `u32`: the number of values, the
/// minimum, the maximum, the number of blocks as a variable-length integer
/// (at most ten bytes for a `u64`) and one record of 29 bytes per block, whose
/// last byte is the block's bit width (at most 64). One block starts every
/// 512 values, so fewer than [`MAX_BLOCKWISE_NUM_VALS`] values keep the
/// footer far below 2^32 bytes and its length exact, and the reader opens
/// the bytes; and the reader opened from them decodes every document to its
/// value. The serializer reads `vals[0]` and `vals[num_vals - 1]`, so `vals`
/// is not empty. Each block's line runs from the block's first value to the first
/// value of the next block (or the last value), and its interpolated value is
/// `(start as i64 + (pos * slope) as i64) as u64`, which would wrap below zero
/// for a falling line; with non-decreasing values every slope is at least
/// zero, so the value is at least the block's first value, and with values up
/// to [`MAX_INTERPOLATED_VALUE`] it stays below 2^63. The offset added to each
/// value, at most the largest distance of a value below its line, then keeps
/// every sum within a `u64`.
#[verifier::external_body]
fn multi_linear_interpol_serialize(vals: &[u64], min_value: u64, max_value: u64) -> (r: Result<
    Vec<u8>,
    std::io::Error,
>)
    requires
        multi_interpolation_applies(vals@),
        min_value == seq_min(vals@),
        max_value == seq_max(vals@),
    ensures
        r is Ok,
        r->Ok_0@ == multi_linear_interpol_encoding(vals@, min_value, max_value),
        multi_opens(r->Ok_0@),
        u64_at(r->Ok_0@, multi_footer_start(r->Ok_0@) + 8) == min_value,
        u64_at(r->Ok_0@, multi_footer_start(r->Ok_0@) + 16) == max_value,
        forall|doc: u64| doc < vals@.len() ==> #[trigger] multi_linear_interpol_decode(r->Ok_0@, doc)
            == vals@[doc as int],
{
    let stats = FastFieldStats { min_value, max_value, num_vals: vals.len() as u64 };
    let mut out = Vec::new();
    MultiLinearInterpolFastFieldSerializer::serialize(
        &mut out,
        &vals,
        stats,
        vals.iter().cloned(),
        vals.iter().cloned(),
    )?;
    Ok(out)
}

/// `MultiLinearInterpolFastFieldReader::open_from_bytes`. Claims: when the
/// stored footer length fits (no `u32` overflow in adding 4 to it, and the
/// bytes hold it), it returns: a reader when the footer holds its three
/// numbers, a count of blocks ending within ten bytes and the records of all
/// those blocks with bit widths of at most 64 (reading them cannot fail, and
/// the bit unpackers accept those widths); an error when the footer is too
/// short for its three numbers or the count runs out of bytes. Other bytes
/// (a count over ten bytes shifts past 64 bits; a count larger than the
/// records present reserves room for it before failing; a bit width above
/// 64 overflows a shift) are left out.
#[verifier::external_body]
fn multi_linear_interpol_open(bytes: &[u8]) -> (r: Result<MultiLinearInterpolReader, std::io::Error>)
    requires
        multi_can_open(bytes@),
    ensures
        r is Ok <==> multi_opens(bytes@),
        r matches Ok(reader) ==> reader.source@ == bytes@,
{
    let reader = <MultiLinearInterpolFastFieldReader as fastfield_codecs::FastFieldCodecReader>::open_from_bytes(bytes)?;
    Ok(MultiLinearInterpolReader { reader, source: Ghost(bytes@) })
}

/// `MultiLinearInterpolFastFieldReader::get_u64`. Claims: for a document of
/// a column that the serializer wrote, it returns without panicking, and its
/// result is the named decoded value of the bytes it was opened from and
/// `doc`: it finds the document's block, recomputes its line and adds the
/// stored difference minus the offset. Bytes of `data` after the column are
/// not read. On other bytes the block's line comes from an `f32` slope read
/// from the footer, in `i64` sums that can overflow, and a document past the
/// blocks indexes out of them; no condition on the bytes is claimed there.
#[verifier::external_body]
fn multi_linear_interpol_get_u64(reader: &MultiLinearInterpolReader, doc: u64, data: &[u8]) -> (r: u64)
    requires
        exists|vals: Seq<u64>| #[trigger] multi_linear_interpol_holds(reader.source@, vals) && doc < vals.len(),
        reader.source@.is_prefix_of(data@),
    ensures
        r == multi_linear_interpol_decode(reader.source@, doc),
{
    <MultiLinearInterpolFastFieldReader as fastfield_codecs::FastFieldCodecReader>::get_u64(&reader.reader, doc, data)
}

/// `MultiLinearInterpolFastFieldReader::min_value`. Claims: it returns the
/// minimum that the footer stores, its second number.
#[verifier::external_body]
fn multi_linear_interpol_min_value(reader: &MultiLinearInterpolReader) -> (r: u64)
    requires
        multi_opens(reader.source@),
    ensures
        r == u64_at(reader.source@, multi_footer_start(reader.source@) + 8),
{
    <MultiLinearInterpolFastFieldReader as fastfield_codecs::FastFieldCodecReader>::min_value(&reader.reader)
}

/// `MultiLinearInterpolFastFieldReader::max_value`. Claims: it returns the
/// maximum that the footer stores, its third number.
#[verifier::external_body]
fn multi_linear_interpol_max_value(reader: &MultiLinearInterpolReader) -> (r: u64)
    requires
        multi_opens(reader.source@),
    ensures
        r == u64_at(reader.source@, multi_footer_start(reader.source@) + 16),
{
    <MultiLinearInterpolFastFieldReader as fastfield_codecs::FastFieldCodecReader>::max_value(&reader.reader)
}

/// The derived `Clone` of `MultiLinearInterpolFastFieldReader`. Claims: the
/// copy has the fields of the original, so it reads the same column.
#[verifier::external_body]
fn multi_linear_interpol_clone(reader: &MultiLinearInterpolReader) -> (r: MultiLinearInterpolReader)
    ensures
        r.source@ == reader.source@,
{
    MultiLinearInterpolReader { reader: reader.reader.clone(), source: Ghost(reader.source@) }
}

impl MultiLinearInterpolReader {
    /// Writes the blockwise linearly interpolated column of `vals`, with their
    /// bounds.
    pub fn serialize(vals: &[u64]) -> (r: Vec<u8>)
        requires
            multi_interpolation_applies(vals@),
        ensures
            multi_linear_interpol_holds(r@, vals@),
            multi_opens(r@),
    {
        let (min_value, max_value) = column_bounds(vals);
        let out = match multi_linear_interpol_serialize(vals, min_value, max_value) {
            Ok(out) => out,
            Err(_) => Vec::new(),
        };
        assert(multi_linear_interpol_holds(out@, vals@));
        out
    }
}

impl FastFieldCodecReader for MultiLinearInterpolReader {
    open spec fn encodes(bytes: Seq<u8>, vals: Seq<u64>) -> bool {
        multi_linear_interpol_holds(bytes, vals)
    }

    open spec fn can_open(bytes: Seq<u8>) -> bool {
        multi_can_open(bytes)
    }

    open spec fn opens(bytes: Seq<u8>) -> bool {
        multi_opens(bytes)
    }

    open spec fn reads(bytes: Seq<u8>, doc: u64) -> bool {
        exists|vals: Seq<u64>| #[trigger] multi_linear_interpol_holds(bytes, vals) && doc < vals.len()
    }

    open spec fn decode(bytes: Seq<u8>, doc: u64) -> u64 {
        multi_linear_interpol_decode(bytes, doc)
    }

    open spec fn bounds_read(bytes: Seq<u8>) -> bool {
        multi_opens(bytes)
    }

    open spec fn min_of(bytes: Seq<u8>) -> u64 {
        u64_at(bytes, multi_footer_start(bytes) + 8)
    }

    open spec fn max_of(bytes: Seq<u8>) -> u64 {
        u64_at(bytes, multi_footer_start(bytes) + 16)
    }

    closed spec fn source(&self) -> Seq<u8> {
        self.source@
    }

    proof fn lemma_column_reads(bytes: Seq<u8>, vals: Seq<u64>) {
        assert forall|doc: u64| doc < vals.len() implies #[trigger] Self::reads(bytes, doc)
            && Self::decode(bytes, doc) == vals[doc as int] by {
            assert(multi_linear_interpol_holds(bytes, vals) && doc < vals.len());
        }
    }

    fn open_from_bytes(bytes: &[u8]) -> (r: Result<Self, FastFieldError>) {
        match multi_linear_interpol_open(bytes) {
            Ok(reader) => Ok(reader),
            Err(e) => Err(FastFieldError::Io(e)),
        }
    }

    fn clone_reader(&self) -> (r: Self) {
        multi_linear_interpol_clone(self)
    }

    fn get_u64(&self, doc: u64, data: &[u8]) -> (r: u64) {
        multi_linear_interpol_get_u64(self, doc, data)
    }

    fn min_value(&self) -> (r: u64) {
        multi_linear_interpol_min_value(self)
    }

    fn max_value(&self) -> (r: u64) {
        multi_linear_interpol_max_value(self)
    }
}

// ---------------------------------------------------------------------------
// Bounds of a column
// ---------------------------------------------------------------------------

/// The smallest and largest of `vals` (0 and 0 for no values): the statistics
/// that the serializers are given.
pub fn column_bounds(vals: &[u64]) -> (r: (u64, u64))
    ensures
        r.0 == seq_min(vals@),
        r.1 == seq_max(vals@),
{
    if vals.len() == 0 {
        return (0, 0);
    }
    let mut min_value = vals[0];
    let mut max_value = vals[0];
    let mut i: usize = 1;
    while i < vals.len()
        invariant
            1 <= i <= vals@.len(),
            min_value == seq_min(vals@.subrange(0, i as int)),
            max_value == seq_max(vals@.subrange(0, i as int)),
        decreases vals@.len() - i,
    {
        let v = vals[i];
        proof {
            let next = vals@.subrange(0, i as int + 1);
            assert(next.drop_last() =~= vals@.subrange(0, i as int));
            assert(next.last() == v);
        }
        if v < min_value {
            min_value = v;
        }
        if v > max_value {
            max_value = v;
        }
        i = i + 1;
    }
    assert(vals@.subrange(0, vals@.len() as int) =~= vals@);
    (min_value, max_value)
}

} // verus!
