//! Typed values out of the capture groups of a regular-expression match.
//!
//! The caller gives a pattern with named or numbered capture groups, a text, and the shape of
//! the value wanted: which fields or positions it has and what each of them holds. [`decode`]
//! matches the pattern against the text, walks over the shape, takes the capture group that
//! belongs to each part and converts its text.
//!
//! The conversions and the walk are verified; what the pattern matches is the work of the
//! `regex` crate, which [`matcher`] calls.
//!
//! ```
//! use regex::Regex;
//! use regex_decode::{decode, Field, Member, Shape, Value};
//!
//! let pattern = Regex::new(r"'(?P<title>[^']+)'\s+\((?P<year>\d{4})\)").unwrap();
//! let shape = Shape::Struct(vec![
//!     Field::new("title", Shape::Text),
//!     Field::new("year", Shape::U32),
//! ]);
//! let movie = decode(&pattern, "Not my favorite movie: 'Citizen Kane' (1941).", &shape);
//! assert_eq!(
//!     movie,
//!     Ok(Value::Struct(vec![
//!         Member { name: "title".to_string(), value: Value::Text("Citizen Kane".to_string()) },
//!         Member { name: "year".to_string(), value: Value::U32(1941) },
//!     ]))
//! );
//! ```

pub mod captures;
pub mod decoder;
pub mod errors;
pub mod laws;
pub mod matcher;
pub mod number;
pub mod shape;
pub mod walker;

pub use crate::captures::{CaptureSet, Group};
pub use crate::decoder::{decode, decode_captures, Decoder};
pub use crate::errors::DecodeError;
pub use crate::matcher::capture;
pub use crate::number::ParseFailure;
pub use crate::shape::{Field, Member, Shape, Value};
