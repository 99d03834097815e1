//! A parser for the date and time layouts that turn up in practice: ISO 8601, slashed
//! and dashed numeric dates, dates with a month name, and the HTTP form with a weekday
//! in front.
//!
//! `parse` reads one text, `parse_many` a list of them in parallel. What a text is read
//! as is `parser::parse_text`, over the tokens of the text; `layout::law_layouts` says
//! what that comes to for the supported layouts, `shape::law_only_layouts` that nothing else
//! is parsed, and `writing` what texts spelled out from numbers are read back as.
pub mod batch;
pub mod calendar;
pub mod clock;
pub mod date;
pub mod debug;
pub mod invariance;
pub mod laws;
pub mod layout;
pub mod names;
pub mod offset;
pub mod parser;
pub mod read;
pub mod reasons;
pub mod shape;
pub mod text;
pub mod token;
pub mod writing;

pub use crate::batch::{Batch, parse_many};
pub use crate::parser::{Parsed, Zone, parse, parse_inner};
