//! Parsing and formatting of HTTP date values as defined in RFC 9110
//! § 5.6.7: IMF-fixdate (`Sun, 06 Nov 1994 08:49:37 GMT`), RFC 850
//! (`Sunday, 06-Nov-94 08:49:37 GMT`) and asctime (`Sun Nov  6 08:49:37 1994`).
//!
//! [`decode`] reads a date strictly (case-sensitive names, fixed-width
//! fields, no trailing data) and keeps the format it was read in;
//! [`encode`] writes a date back in that format.  The grammar both follow
//! is stated in [`grammar`], and [`laws`] proves that decoding what was
//! encoded gives the date back.
pub mod types;
pub mod names;
pub mod grammar;
pub mod text;
pub mod decoder;
pub mod encoder;
pub mod laws;
pub mod strictness;
pub mod steps;
pub mod layout;
pub mod chrono;

pub use decoder::{decode, Decoder};
pub use encoder::encode;
pub use types::{
    Date, DateModel, DateTime, DateTimeModel, DayName, DayNameTok, DecodeError, DecodeErrorModel,
    ErrorKind, Format, HttpDate, HttpDateModel, PunctuationTok, Time, TimeModel,
};
