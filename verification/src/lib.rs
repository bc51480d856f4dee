//! Verified cores of a family of small text utilities.
//!
//! The central piece is a `tail`-style engine: parsing a signed count
//! specification, resolving it against a file's totals to a window start,
//! and extracting that window by lines or by bytes. Around it stand the
//! verified cores of the sibling tools: word counting, fortune-file
//! parsing, column extraction, month parsing, line matching and friends.

pub mod calendar;
pub mod cat;
pub mod chunks;
pub mod comm;
pub mod echo;
pub mod extract;
pub mod files;
pub mod fortunes;
pub mod head;
pub mod pattern;
pub mod tail;
pub mod take_value;
pub mod text;
pub mod uniq;
pub mod wc;

pub use take_value::ParseError;
pub use take_value::TakeValue;
