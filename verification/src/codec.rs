//! The interface of a codec that decodes a column of `u64` values from its
//! bytes, and facts about the bounds of a column.
use vstd::prelude::*;

verus! {

/// The smallest of `vals`, or 0 for an empty column.
pub open spec fn seq_min(vals: Seq<u64>) -> u64
    decreases vals.len(),
{
    if vals.len() == 0 {
        0
    } else if vals.len() == 1 {
        vals[0]
    } else {
        let m = seq_min(vals.drop_last());
        if vals.last() < m {
            vals.last()
        } else {
            m
        }
    }
}

/// The largest of `vals`, or 0 for an empty column.
pub open spec fn seq_max(vals: Seq<u64>) -> u64
    decreases vals.len(),
{
    if vals.len() == 0 {
        0
    } else if vals.len() == 1 {
        vals[0]
    } else {
        let m = seq_max(vals.drop_last());
        if vals.last() > m {
            vals.last()
        } else {
            m
        }
    }
}

/// The minimum and maximum of a non-empty column are among its values and
/// bound all of them.
pub proof fn lemma_seq_min_max(vals: Seq<u64>)
    requires
        vals.len() > 0,
    ensures
        forall|i: int| 0 <= i < vals.len() ==> seq_min(vals) <= #[trigger] vals[i] <= seq_max(vals),
        exists|i: int| 0 <= i < vals.len() && vals[i] == seq_min(vals),
        exists|i: int| 0 <= i < vals.len() && vals[i] == seq_max(vals),
    decreases vals.len(),
{
    if vals.len() == 1 {
        assert(vals[0] == seq_min(vals));
        assert(vals[0] == seq_max(vals));
    } else {
        let init = vals.drop_last();
        lemma_seq_min_max(init);
        assert forall|i: int| 0 <= i < vals.len() implies seq_min(vals) <= #[trigger] vals[i]
            <= seq_max(vals) by {
            if i < vals.len() - 1 {
                assert(vals[i] == init[i]);
            }
        }
        let i0 = choose|i: int| 0 <= i < init.len() && init[i] == seq_min(init);
        let i1 = choose|i: int| 0 <= i < init.len() && init[i] == seq_max(init);
        assert(vals[i0] == init[i0]);
        assert(vals[i1] == init[i1]);
        assert(vals[vals.len() - 1] == vals.last());
    }
}

/// The error of opening a column: what reading its bytes reported.
#[derive(Debug)]
pub enum FastFieldError {
    /// Reading the bytes of the column failed.
    Io(std::io::Error),
}

/// A codec's reader for one column of `u64` values.
///
/// The reader is opened from the bytes of the column; reading a value takes
/// those bytes again (or bytes that start with them). What a reader returns
/// is a function of those bytes: the decoded value of each document and the
/// bounds that the footer stores. On a column that the codec wrote for some
/// values, these are the values and their bounds.
pub trait FastFieldCodecReader: Sized {
    /// `bytes` are a column that this codec's serializer wrote for `vals`,
    /// with their bounds, where `vals` are values on which the serializer's
    /// contract here states what it writes.
    spec fn encodes(bytes: Seq<u8>, vals: Seq<u64>) -> bool;

    /// Opening `bytes` reads only what is there and does not overflow: the
    /// inputs on which the codec's `open_from_bytes` returns, a reader or an
    /// error.
    spec fn can_open(bytes: Seq<u8>) -> bool;

    /// Opening `bytes` returns a reader (not an error).
    spec fn opens(bytes: Seq<u8>) -> bool;

    /// Reading document `doc` from the column `bytes` returns (it does not
    /// panic).
    spec fn reads(bytes: Seq<u8>, doc: u64) -> bool;

    /// The value that the reader of the column `bytes` decodes for `doc`.
    spec fn decode(bytes: Seq<u8>, doc: u64) -> u64;

    /// Reading the bounds of the column `bytes` returns.
    spec fn bounds_read(bytes: Seq<u8>) -> bool;

    /// The minimum that the reader of the column `bytes` returns.
    spec fn min_of(bytes: Seq<u8>) -> u64;

    /// The maximum that the reader of the column `bytes` returns.
    spec fn max_of(bytes: Seq<u8>) -> u64;

    /// The bytes that this reader was opened from.
    spec fn source(&self) -> Seq<u8>;

    /// A column written for `vals` opens, every one of its documents reads
    /// back its value, and its bounds are those of `vals`.
    proof fn lemma_column_reads(bytes: Seq<u8>, vals: Seq<u64>)
        requires
            Self::encodes(bytes, vals),
        ensures
            Self::can_open(bytes),
            Self::opens(bytes),
            Self::bounds_read(bytes),
            Self::min_of(bytes) == seq_min(vals),
            Self::max_of(bytes) == seq_max(vals),
            forall|doc: u64|
                doc < vals.len() ==> #[trigger] Self::reads(bytes, doc) && Self::decode(bytes, doc)
                    == vals[doc as int],
    ;

    /// Reads the metadata of the column and returns its reader, or the error
    /// that reading it reported.
    fn open_from_bytes(bytes: &[u8]) -> (r: Result<Self, FastFieldError>)
        requires
            Self::can_open(bytes@),
        ensures
            r is Ok <==> Self::opens(bytes@),
            r matches Ok(reader) ==> reader.source() == bytes@,
    ;

    /// A copy of this reader, reading the same column.
    fn clone_reader(&self) -> (r: Self)
        ensures
            r.source() == self.source(),
    ;

    /// The value of document `doc`, read from `data`.
    fn get_u64(&self, doc: u64, data: &[u8]) -> (r: u64)
        requires
            Self::reads(self.source(), doc),
            self.source().is_prefix_of(data@),
        ensures
            r == Self::decode(self.source(), doc),
    ;

    /// The smallest value of the column.
    fn min_value(&self) -> (r: u64)
        requires
            Self::bounds_read(self.source()),
        ensures
            r == Self::min_of(self.source()),
    ;

    /// The largest value of the column.
    fn max_value(&self) -> (r: u64)
        requires
            Self::bounds_read(self.source()),
        ensures
            r == Self::max_of(self.source()),
    ;
}

} // verus!
