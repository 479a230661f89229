# fastfield_reader

Verified readers for the "fast field" columns of a search index: one `u64`
per document, compressed by a codec of the `fastfield_codecs` crate
(bitpacking, linear interpolation, blockwise linear interpolation), possibly
under a common divisor of the values' distances above their minimum.

Layout:

- `src/fast_value.rs`: the values a column can hold (`u64`, `i64`, `bool`,
  `u128`) and their order-keeping mapping to the stored integers.
- `src/le_bytes.rs`: little-endian `u64` and `u32` in footers.
- `src/bits.rs`: bit widths and masks, as the bitpacked reader derives them.
- `src/blockwise_footer.rs`: the footer of a blockwise interpolated column,
  and the check of the inputs on which its reader returns.
- `src/codec.rs`: the codec reader interface, over the values a column holds.
- `src/codecs.rs`: the outside codecs behind that interface (the trusted part).
- `src/gcd.rs`: greatest common divisors and the common-divisor codec.
- `src/reader.rs`: the readers of a column, the dispatch on codec ids, and
  writing a column of values and opening its reader.
- `src/reader_u128.rs`: the reader of `u128` columns over a codec for them.
- `src/laws.rs`: what holds across the readers' functions.
- `app/lib.rs`: reading a column from a file, and choosing a codec by the
  codecs' (floating point) compression estimates.
