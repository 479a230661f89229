//! What holds of the readers across their functions.
use crate::codec::{lemma_seq_min_max, seq_max, seq_min, FastFieldCodecReader};
use crate::codecs::{BitpackedReader, LinearInterpolReader, MultiLinearInterpolReader};
use crate::fast_value::FastValue;
use crate::gcd::{
    distances, divides, lemma_scaled_bounds, lemma_seq_gcd_divides, scaled_by, GCDFastFieldCodec,
};
use crate::reader::{
    codec_can_open, codec_encodes, codec_opens, column_can_open, column_encodes, column_gcd,
    column_opens, lemma_divided_scales_back, stored_values, to_u64s, FastFieldReader,
};
use vstd::prelude::*;

verus! {

/// A reader over a column written for `vals` (as `from_vals` returns it,
/// or as `open` returns it for such bytes) can be asked for any of its
/// documents, and gives back the value written for it.
pub proof fn law_written_values_read_back<Item: FastValue, R: FastFieldReader<Item>>(
    reader: R,
    vals: Seq<Item>,
    doc: u64,
)
    requires
        reader.holds(to_u64s(vals)),
        doc < vals.len(),
    ensures
        reader.reads(doc),
        Item::spec_from_u64(reader.value_at(doc)) == vals[doc as int],
{
    reader.lemma_holds_reads(to_u64s(vals));
    assert(reader.reads(doc));
    Item::lemma_from_to_u64(vals[doc as int]);
}

/// The bytes of a column written for `vals` by the codec with id
/// `codec_id` can be given to `open_from_id`, and it returns a reader (whose
/// `holds(vals)` its contract then states).
pub proof fn law_written_column_opens(codec_id: u8, bytes: Seq<u8>, vals: Seq<u64>)
    requires
        codec_encodes(codec_id, bytes, vals),
    ensures
        codec_can_open(codec_id, bytes),
        codec_opens(codec_id, bytes),
{
    if codec_id == 1 {
        BitpackedReader::lemma_column_reads(bytes, vals);
    } else if codec_id == 2 {
        LinearInterpolReader::lemma_column_reads(bytes, vals);
    } else if codec_id == 3 {
        MultiLinearInterpolReader::lemma_column_reads(bytes, vals);
    } else {
        let rest = bytes.drop_first();
        if bytes[0] == 1 {
            GCDFastFieldCodec::<BitpackedReader>::lemma_column_reads(rest, vals);
        } else if bytes[0] == 2 {
            GCDFastFieldCodec::<LinearInterpolReader>::lemma_column_reads(rest, vals);
        } else {
            GCDFastFieldCodec::<MultiLinearInterpolReader>::lemma_column_reads(rest, vals);
        }
    }
}

/// The bytes of a column written for `vals`, starting with the id of their
/// codec, can be given to `open`, and it returns a reader.
pub proof fn law_written_bytes_open(bytes: Seq<u8>, vals: Seq<u64>)
    requires
        column_encodes(bytes, vals),
    ensures
        column_can_open(bytes),
        column_opens(bytes),
{
    law_written_column_opens(bytes[0], bytes.drop_first(), vals);
}

/// Every range of documents of a column written for `vals` can be filled,
/// and it is filled with the values written for those documents.
pub proof fn law_range_reads_written_values<Item: FastValue, R: FastFieldReader<Item>>(
    reader: R,
    vals: Seq<u64>,
    start: u64,
    len: nat,
)
    requires
        reader.holds(vals),
        start + len <= vals.len(),
        start + len <= u64::MAX + 1,
    ensures
        forall|i: int|
            0 <= i < len ==> #[trigger] reader.reads((start + i) as u64) && Item::spec_from_u64(
                reader.value_at((start + i) as u64),
            ) == Item::spec_from_u64(vals[start + i]),
{
    reader.lemma_holds_reads(vals);
    assert forall|i: int| 0 <= i < len implies #[trigger] reader.reads((start + i) as u64)
        && Item::spec_from_u64(reader.value_at((start + i) as u64)) == Item::spec_from_u64(
        vals[start + i],
    ) by {
        let d = (start + i) as u64;
        assert(d < vals.len());
        assert(reader.reads(d) && reader.value_at(d) == vals[d as int]);
    }
}

/// The minimum and the maximum of a column bound the value of every
/// document, and both are values of some document.
pub proof fn law_min_max_bound_values(stored: Seq<u64>)
    requires
        stored.len() > 0,
    ensures
        forall|doc: int| 0 <= doc < stored.len() ==> seq_min(stored) <= #[trigger] stored[doc] <= seq_max(stored),
        exists|doc: int| 0 <= doc < stored.len() && stored[doc] == seq_min(stored),
        exists|doc: int| 0 <= doc < stored.len() && stored[doc] == seq_max(stored),
{
    lemma_seq_min_max(stored);
}

/// On a column written for `vals`, the minimum and the maximum that the
/// reader returns bound, in the stored `u64` form, the value that it returns
/// for every document, whatever the type of the values, and the minimum is
/// at most the maximum.
pub proof fn law_min_max_bound_items<Item: FastValue, R: FastFieldReader<Item>>(
    reader: R,
    vals: Seq<u64>,
    doc: u64,
)
    requires
        reader.holds(vals),
        doc < vals.len(),
    ensures
        reader.bounds_read(),
        reader.reads(doc),
        Item::spec_from_u64(reader.min_of()).spec_to_u64() <= Item::spec_from_u64(
            reader.value_at(doc),
        ).spec_to_u64(),
        Item::spec_from_u64(reader.value_at(doc)).spec_to_u64() <= Item::spec_from_u64(
            reader.max_of(),
        ).spec_to_u64(),
        Item::spec_from_u64(reader.min_of()).spec_to_u64() <= Item::spec_from_u64(
            reader.max_of(),
        ).spec_to_u64(),
{
    reader.lemma_holds_reads(vals);
    assert(reader.reads(doc));
    lemma_seq_min_max(vals);
    assert(seq_min(vals) <= vals[doc as int] <= seq_max(vals));
    Item::lemma_from_u64_monotonic(seq_min(vals), vals[doc as int]);
    Item::lemma_from_u64_monotonic(vals[doc as int], seq_max(vals));
    Item::lemma_from_u64_monotonic(seq_min(vals), seq_max(vals));
}

/// The common divisor of a column divides the distance of every value above
/// the minimum, and is 0 exactly when all values are equal.
pub proof fn law_common_divisor_divides(stored: Seq<u64>)
    ensures
        forall|doc: int| 0 <= doc < stored.len() ==>
            divides(column_gcd(stored), #[trigger] distances(stored, seq_min(stored))[doc]),
        column_gcd(stored) == 0 <==> (forall|doc: int| 0 <= doc < stored.len() ==> #[trigger] stored[doc] == seq_min(stored)),
{
    let ds = distances(stored, seq_min(stored));
    lemma_seq_gcd_divides(ds);
    if stored.len() > 0 {
        lemma_seq_min_max(stored);
    }
    if column_gcd(stored) == 0 {
        assert forall|doc: int| 0 <= doc < stored.len() implies #[trigger] stored[doc] == seq_min(stored) by {
            assert(ds[doc] == 0);
        }
    }
    if forall|doc: int| 0 <= doc < stored.len() ==> #[trigger] stored[doc] == seq_min(stored) {
        assert forall|i: int| 0 <= i < ds.len() implies #[trigger] ds[i] == 0 by {
            assert(stored[i] == seq_min(stored));
        }
    }
}

/// When a column is written with a common divisor `g > 1`, each value is the
/// stored value times `g` plus the minimum, and the bounds of the column are
/// the bounds of the stored values mapped the same way.
pub proof fn law_divided_values_scale_back(vals: Seq<u64>)
    requires
        column_gcd(vals) > 1,
    ensures
        scaled_by(vals, stored_values(vals), column_gcd(vals) as u64, seq_min(vals)),
        seq_min(vals) == seq_min(stored_values(vals)) * (column_gcd(vals) as u64) + seq_min(vals),
        seq_max(vals) == seq_max(stored_values(vals)) * (column_gcd(vals) as u64) + seq_min(vals),
{
    let ds = distances(vals, seq_min(vals));
    lemma_seq_gcd_divides(ds);
    let g = column_gcd(vals);
    assert(vals.len() > 0) by {
        if vals.len() == 0 {
            assert(ds =~= Seq::<nat>::empty());
        }
    }
    lemma_seq_min_max(vals);
    let i = choose|i: int| 0 <= i < vals.len() && vals[i] != seq_min(vals);
    assert(ds[i] == vals[i] - seq_min(vals));
    assert(divides(g, ds[i]));
    assert(g <= ds[i]) by {
        vstd::arithmetic::div_mod::lemma_mod_is_mod_recursive(ds[i] as int, g as int);
        if g > ds[i] {
            vstd::arithmetic::div_mod::lemma_small_mod(ds[i], g);
        }
    }
    lemma_divided_scales_back(vals, g);
    lemma_scaled_bounds(vals, stored_values(vals), g as u64, seq_min(vals));
}

} // verus!
