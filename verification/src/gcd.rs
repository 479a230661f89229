//! Columns whose values share a common divisor once their minimum is taken
//! away: the values are stored as `(val - min) / gcd` by an inner codec, and
//! the footer keeps `gcd` and `min`.
use crate::codec::{seq_max, seq_min, FastFieldCodecReader, FastFieldError};
use crate::le_bytes::{read_u64_le, u64_at};
use vstd::arithmetic::div_mod::{
    lemma_fundamental_div_mod, lemma_mod_multiples_basic, lemma_mod_self_0,
};
use vstd::prelude::*;

verus! {

/// The codec id that marks a column written with a common divisor; the id of
/// the inner codec follows it.
pub const GCD_CODEC_ID: u8 = 4;

/// The divisor of a column whose values share none.
pub const GCD_DEFAULT: u64 = 1;

// ---------------------------------------------------------------------------
// Divisibility and greatest common divisors
// ---------------------------------------------------------------------------

/// `d` divides `x` (0 divides only 0).
pub open spec fn divides(d: nat, x: nat) -> bool {
    if d == 0 {
        x == 0
    } else {
        x % d == 0
    }
}

/// The greatest common divisor, by Euclid's algorithm.
pub open spec fn gcd(a: nat, b: nat) -> nat
    decreases b,
{
    if b == 0 {
        a
    } else {
        gcd(b, a % b)
    }
}

/// The greatest common divisor of all of `ds` (0 when they are all 0).
pub open spec fn seq_gcd(ds: Seq<nat>) -> nat
    decreases ds.len(),
{
    if ds.len() == 0 {
        0
    } else {
        gcd(seq_gcd(ds.drop_last()), ds.last())
    }
}

proof fn lemma_divides_multiple(d: nat, k: nat)
    ensures
        divides(d, d * k),
{
    if d > 0 {
        lemma_mod_multiples_basic(k as int, d as int);
        assert(k * d == d * k) by (nonlinear_arith);
    }
}

proof fn lemma_divides_combination(g: nat, b: nat, r: nat, q: nat)
    requires
        divides(g, b),
        divides(g, r),
    ensures
        divides(g, b * q + r),
{
    if g > 0 {
        lemma_fundamental_div_mod(b as int, g as int);
        lemma_fundamental_div_mod(r as int, g as int);
        let kb = b / g;
        let kr = r / g;
        assert(b * q + r == g * (kb * q + kr)) by (nonlinear_arith)
            requires
                b == g * kb,
                r == g * kr,
        ;
        lemma_divides_multiple(g, kb * q + kr);
    } else {
        assert(b * q == 0) by (nonlinear_arith)
            requires
                b == 0,
        ;
    }
}

proof fn lemma_divides_transitive(g: nat, h: nat, x: nat)
    requires
        divides(g, h),
        divides(h, x),
    ensures
        divides(g, x),
{
    if h == 0 {
    } else if g == 0 {
    } else {
        lemma_fundamental_div_mod(x as int, h as int);
        let k = x / h;
        assert(x == h * k + 0);
        lemma_divides_combination(g, h, 0, k);
    }
}

/// The gcd of two numbers divides both, and is 0 only when both are.
pub proof fn lemma_gcd_divides(a: nat, b: nat)
    ensures
        divides(gcd(a, b), a),
        divides(gcd(a, b), b),
        gcd(a, b) == 0 <==> (a == 0 && b == 0),
    decreases b,
{
    if b == 0 {
        if a > 0 {
            lemma_mod_self_0(a as int);
        }
    } else {
        let r = a % b;
        lemma_gcd_divides(b, r);
        lemma_fundamental_div_mod(a as int, b as int);
        let q = a / b;
        lemma_divides_combination(gcd(b, r), b, r, q);
    }
}

/// The gcd of a sequence divides each of its numbers, and is 0 only when
/// they are all 0.
pub proof fn lemma_seq_gcd_divides(ds: Seq<nat>)
    ensures
        forall|i: int| 0 <= i < ds.len() ==> divides(seq_gcd(ds), #[trigger] ds[i]),
        seq_gcd(ds) == 0 <==> (forall|i: int| 0 <= i < ds.len() ==> #[trigger] ds[i] == 0),
    decreases ds.len(),
{
    if ds.len() > 0 {
        let init = ds.drop_last();
        lemma_seq_gcd_divides(init);
        let g0 = seq_gcd(init);
        lemma_gcd_divides(g0, ds.last());
        assert forall|i: int| 0 <= i < ds.len() implies divides(seq_gcd(ds), #[trigger] ds[i]) by {
            if i < ds.len() - 1 {
                assert(ds[i] == init[i]);
                lemma_divides_transitive(seq_gcd(ds), g0, ds[i]);
            }
        }
        if seq_gcd(ds) == 0 {
            assert forall|i: int| 0 <= i < ds.len() implies #[trigger] ds[i] == 0 by {
                if i < ds.len() - 1 {
                    assert(ds[i] == init[i]);
                }
            }
        }
        if forall|i: int| 0 <= i < ds.len() ==> #[trigger] ds[i] == 0 {
            assert forall|i: int| 0 <= i < init.len() implies #[trigger] init[i] == 0 by {
                assert(init[i] == ds[i]);
            }
            assert(ds[ds.len() - 1] == 0);
        }
    }
}

/// The greatest common divisor of two `u64`, by Euclid's algorithm.
pub fn compute_gcd(a: u64, b: u64) -> (r: u64)
    ensures
        r == gcd(a as nat, b as nat),
{
    let mut x = a;
    let mut y = b;
    while y != 0
        invariant
            gcd(x as nat, y as nat) == gcd(a as nat, b as nat),
        decreases y,
    {
        let t = x % y;
        x = y;
        y = t;
    }
    x
}

/// The distances of `vals` above `min`.
pub open spec fn distances(vals: Seq<u64>, min: u64) -> Seq<nat> {
    Seq::new(vals.len(), |i: int| (vals[i] - min) as nat)
}

/// The greatest common divisor of the distances of `vals` above `min`, or
/// `None` when they are all 0.
pub fn find_gcd(vals: &[u64], min: u64) -> (r: Option<u64>)
    requires
        forall|i: int| 0 <= i < vals@.len() ==> min <= #[trigger] vals@[i],
    ensures
        r is None <==> seq_gcd(distances(vals@, min)) == 0,
        r matches Some(g) ==> g == seq_gcd(distances(vals@, min)),
{
    let mut g: u64 = 0;
    let mut i: usize = 0;
    while i < vals.len()
        invariant
            i <= vals@.len(),
            forall|j: int| 0 <= j < vals@.len() ==> min <= #[trigger] vals@[j],
            g == seq_gcd(distances(vals@.subrange(0, i as int), min)),
        decreases vals@.len() - i,
    {
        let d = vals[i] - min;
        proof {
            let prev = distances(vals@.subrange(0, i as int), min);
            let next = distances(vals@.subrange(0, i as int + 1), min);
            assert(next.drop_last() =~= prev);
            assert(next.last() == d);
        }
        g = compute_gcd(g, d);
        i = i + 1;
    }
    assert(vals@.subrange(0, vals@.len() as int) =~= vals@);
    if g == 0 {
        None
    } else {
        Some(g)
    }
}


// ---------------------------------------------------------------------------
// Reading a column written with a common divisor
// ---------------------------------------------------------------------------

/// `vals[i] == inner[i] * gcd + min` for every document.
pub open spec fn scaled_by(vals: Seq<u64>, inner: Seq<u64>, gcd: u64, min: u64) -> bool {
    &&& vals.len() == inner.len()
    &&& forall|i: int| 0 <= i < vals.len() ==> #[trigger] vals[i] == inner[i] * gcd + min
}

/// The inner column: the bytes of `bytes` before the footer of 16 bytes.
pub open spec fn gcd_body(bytes: Seq<u8>) -> Seq<u8> {
    bytes.subrange(0, bytes.len() - 16)
}

/// The divisor that the footer of `bytes` stores.
pub open spec fn gcd_footer_gcd(bytes: Seq<u8>) -> u64 {
    u64_at(bytes, bytes.len() - 16)
}

/// The minimum that the footer of `bytes` stores.
pub open spec fn gcd_footer_min(bytes: Seq<u8>) -> u64 {
    u64_at(bytes, bytes.len() - 8)
}

/// `bytes` are a non-empty column of `vals` written with a common divisor:
/// an inner column of `C` for some `inner` values, then the divisor and the
/// minimum, with `vals[i] == inner[i] * gcd + min`.
pub open spec fn gcd_holds<C: FastFieldCodecReader>(bytes: Seq<u8>, vals: Seq<u64>) -> bool {
    &&& bytes.len() >= 16
    &&& vals.len() > 0
    &&& exists|inner: Seq<u64>| #[trigger]
        C::encodes(gcd_body(bytes), inner) && scaled_by(
            vals,
            inner,
            gcd_footer_gcd(bytes),
            gcd_footer_min(bytes),
        )
}

/// A monotone map `x * gcd + min` carries the bounds of a column to the
/// bounds of its image.
pub proof fn lemma_scaled_bounds(vals: Seq<u64>, inner: Seq<u64>, gcd: u64, min: u64)
    requires
        scaled_by(vals, inner, gcd, min),
        vals.len() > 0,
    ensures
        seq_min(vals) == seq_min(inner) * gcd + min,
        seq_max(vals) == seq_max(inner) * gcd + min,
    decreases vals.len(),
{
    if vals.len() > 1 {
        let v0 = vals.drop_last();
        let i0 = inner.drop_last();
        assert(scaled_by(v0, i0, gcd, min)) by {
            assert forall|i: int| 0 <= i < v0.len() implies #[trigger] v0[i] == i0[i] * gcd + min by {
                assert(v0[i] == vals[i]);
                assert(i0[i] == inner[i]);
            }
        }
        lemma_scaled_bounds(v0, i0, gcd, min);
        let a = inner.last();
        let mi = seq_min(i0);
        let ma = seq_max(i0);
        assert(vals.last() == vals[vals.len() - 1]);
        assert(vals[vals.len() - 1] == inner[vals.len() - 1] * gcd + min);
        assert(a < mi ==> a * gcd <= mi * gcd) by (nonlinear_arith);
        assert(a >= mi ==> a * gcd >= mi * gcd) by (nonlinear_arith);
        assert(a > ma ==> a * gcd >= ma * gcd) by (nonlinear_arith);
        assert(a <= ma ==> a * gcd <= ma * gcd) by (nonlinear_arith);
    } else {
        assert(vals[0] == inner[0] * gcd + min);
    }
}

/// The reader of a column written with a common divisor, over the reader of
/// its inner column.
pub struct GCDFastFieldCodec<C: FastFieldCodecReader> {
    gcd: u64,
    min_value: u64,
    reader: C,
    source: Ghost<Seq<u8>>,
}

impl<C: FastFieldCodecReader> GCDFastFieldCodec<C> {
    /// The footer values are those of the bytes that the reader was opened
    /// from, and the inner reader was opened from the bytes before the footer.
    #[verifier::type_invariant]
    spec fn footer_read(self) -> bool {
        &&& self.source@.len() >= 16
        &&& self.gcd == gcd_footer_gcd(self.source@)
        &&& self.min_value == gcd_footer_min(self.source@)
        &&& self.reader.source() == gcd_body(self.source@)
    }
}

impl<C: FastFieldCodecReader> GCDFastFieldCodec<C> {
    /// The value that the inner codec decodes for `doc`, and the divisor and
    /// the minimum of the footer: the parts of the value of `doc`.
    pub fn inner_value(&self, doc: u64, data: &[u8]) -> (r: (u64, u64, u64))
        requires
            C::reads(gcd_body(self.source()), doc),
            self.source().is_prefix_of(data@),
        ensures
            r.0 == C::decode(gcd_body(self.source()), doc),
            r.1 == gcd_footer_gcd(self.source()),
            r.2 == gcd_footer_min(self.source()),
    {
        proof {
            use_type_invariant(self);
        }
        let ghost src = self.source@;
        assert(self.reader.source().is_prefix_of(data@)) by {
            assert forall|i: int| 0 <= i < gcd_body(src).len() implies gcd_body(src)[i]
                == data@[i] by {
                assert(gcd_body(src)[i] == src[i]);
            }
        }
        let value = self.reader.get_u64(doc, data);
        (value, self.gcd, self.min_value)
    }
}

impl<C: FastFieldCodecReader> FastFieldCodecReader for GCDFastFieldCodec<C> {
    open spec fn encodes(bytes: Seq<u8>, vals: Seq<u64>) -> bool {
        gcd_holds::<C>(bytes, vals)
    }

    /// The footer of 16 bytes is there, and the inner codec can open the
    /// bytes before it.
    open spec fn can_open(bytes: Seq<u8>) -> bool {
        &&& bytes.len() >= 16
        &&& C::can_open(gcd_body(bytes))
    }

    /// The footer of 16 bytes is there, and the inner codec opens the bytes
    /// before it.
    open spec fn opens(bytes: Seq<u8>) -> bool {
        &&& bytes.len() >= 16
        &&& C::opens(gcd_body(bytes))
    }

    /// The inner codec reads `doc`, and its value times the divisor plus the
    /// minimum fits in a `u64`.
    open spec fn reads(bytes: Seq<u8>, doc: u64) -> bool {
        &&& bytes.len() >= 16
        &&& C::reads(gcd_body(bytes), doc)
        &&& C::decode(gcd_body(bytes), doc) * gcd_footer_gcd(bytes) + gcd_footer_min(bytes)
            <= u64::MAX
    }

    /// The inner value times the divisor plus the minimum.
    open spec fn decode(bytes: Seq<u8>, doc: u64) -> u64 {
        (C::decode(gcd_body(bytes), doc) * gcd_footer_gcd(bytes) + gcd_footer_min(bytes)) as u64
    }

    /// The inner codec reads its bounds, and each times the divisor plus the
    /// minimum fits in a `u64`.
    open spec fn bounds_read(bytes: Seq<u8>) -> bool {
        &&& bytes.len() >= 16
        &&& C::bounds_read(gcd_body(bytes))
        &&& C::min_of(gcd_body(bytes)) * gcd_footer_gcd(bytes) + gcd_footer_min(bytes) <= u64::MAX
        &&& C::max_of(gcd_body(bytes)) * gcd_footer_gcd(bytes) + gcd_footer_min(bytes) <= u64::MAX
    }

    open spec fn min_of(bytes: Seq<u8>) -> u64 {
        (C::min_of(gcd_body(bytes)) * gcd_footer_gcd(bytes) + gcd_footer_min(bytes)) as u64
    }

    open spec fn max_of(bytes: Seq<u8>) -> u64 {
        (C::max_of(gcd_body(bytes)) * gcd_footer_gcd(bytes) + gcd_footer_min(bytes)) as u64
    }

    closed spec fn source(&self) -> Seq<u8> {
        self.source@
    }

    proof fn lemma_column_reads(bytes: Seq<u8>, vals: Seq<u64>) {
        let body = gcd_body(bytes);
        let g = gcd_footer_gcd(bytes);
        let m = gcd_footer_min(bytes);
        let inner = choose|inner: Seq<u64>| #[trigger]
            C::encodes(body, inner) && scaled_by(vals, inner, g, m);
        assert(C::encodes(body, inner) && scaled_by(vals, inner, g, m));
        C::lemma_column_reads(body, inner);
        lemma_scaled_bounds(vals, inner, g, m);
        assert forall|doc: u64| doc < vals.len() implies #[trigger] Self::reads(bytes, doc)
            && Self::decode(bytes, doc) == vals[doc as int] by {
            assert(doc < inner.len());
            assert(C::reads(body, doc));
            assert(C::decode(body, doc) == inner[doc as int]);
            assert(vals[doc as int] == inner[doc as int] * g + m);
        }
    }

    fn open_from_bytes(bytes: &[u8]) -> (r: Result<Self, FastFieldError>) {
        let footer_offset = bytes.len() - 16;
        let (body, footer) = bytes.split_at(footer_offset);
        assert(footer@.subrange(0, 8) =~= bytes@.subrange(footer_offset as int, footer_offset + 8));
        assert(footer@.subrange(8, 16) =~= bytes@.subrange(
            footer_offset + 8,
            footer_offset + 16,
        ));
        let gcd = read_u64_le(footer, 0);
        let min_value = read_u64_le(footer, 8);
        let reader = match C::open_from_bytes(body) {
            Ok(reader) => reader,
            Err(e) => {
                return Err(e);
            },
        };
        Ok(GCDFastFieldCodec { gcd, min_value, reader, source: Ghost(bytes@) })
    }

    fn clone_reader(&self) -> (r: Self) {
        proof {
            use_type_invariant(self);
        }
        GCDFastFieldCodec {
            gcd: self.gcd,
            min_value: self.min_value,
            reader: self.reader.clone_reader(),
            source: Ghost(self.source@),
        }
    }

    fn get_u64(&self, doc: u64, data: &[u8]) -> (r: u64) {
        proof {
            use_type_invariant(self);
        }
        let ghost src = self.source@;
        assert(self.reader.source().is_prefix_of(data@)) by {
            assert(src.is_prefix_of(data@));
            assert forall|i: int| 0 <= i < gcd_body(src).len() implies gcd_body(src)[i]
                == data@[i] by {
                assert(gcd_body(src)[i] == src[i]);
            }
        }
        let value = self.reader.get_u64(doc, data);
        assert(value * self.gcd <= u64::MAX) by (nonlinear_arith)
            requires
                value * self.gcd + self.min_value <= u64::MAX,
                self.min_value >= 0,
        ;
        let mut data_value = value;
        data_value = data_value * self.gcd;
        data_value = data_value + self.min_value;
        data_value
    }

    fn min_value(&self) -> (r: u64) {
        proof {
            use_type_invariant(self);
        }
        let inner_min = self.reader.min_value();
        assert(inner_min * self.gcd <= u64::MAX) by (nonlinear_arith)
            requires
                inner_min * self.gcd + self.min_value <= u64::MAX,
                self.min_value >= 0,
        ;
        self.min_value + inner_min * self.gcd
    }

    fn max_value(&self) -> (r: u64) {
        proof {
            use_type_invariant(self);
        }
        let inner_max = self.reader.max_value();
        assert(inner_max * self.gcd <= u64::MAX) by (nonlinear_arith)
            requires
                inner_max * self.gcd + self.min_value <= u64::MAX,
                self.min_value >= 0,
        ;
        self.min_value + inner_max * self.gcd
    }
}

} // verus!
