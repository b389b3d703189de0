# http_date

Parsing and formatting of HTTP date values (RFC 9110 § 5.6.7), verified with
Verus.

- `src/types.rs` – `Date`, `Time`, `DateTime`, `HttpDate`, `DecodeError` and
  their models; constructors keep every value in range.
- `src/names.rs` – day and month names and the lookups from names to values.
- `src/grammar.rs` – the grammar as spec functions over bytes: how each
  reading step ends, and the text of each format.
- `src/decoder.rs` – the byte reader and `decode`, each step proved equal to
  its grammar function.
- `src/encoder.rs` – `encode`, proved to write the grammar's text.
- `src/laws.rs`, `src/strictness.rs` – decoding what was encoded gives the
  date back; decoding is stable; a text decodes to a date exactly when it is
  one of that date's texts.
- `src/chrono.rs` – conversions to and from UTC date-times, using chrono's
  calendar.
- `src/text.rs` – ASCII text and decimal digits.
- `app/lib.rs` – conversions between the library's UTC date-times and
  chrono's `DateTime<Utc>`.
