//! Borrow JSON strings from segmented arena storage without an intermediate DOM.
//!
//! A [`JsonReader`] holds the input, a brz_io reader or a view of one. A
//! [`Cursor`] walks it: whitespace, literals, numbers, strings with their
//! escapes, and the steps through arrays, objects and enums that a Serde
//! deserializer takes. Every step states, over the input bytes, what it
//! consumes, what it returns and which error it reports where.

mod access;
mod error;
mod grammar;
mod input;
mod key;
mod reader;
mod text;
mod unescape;

pub use access::{kind_of, MapState, SeqState, ValueKind};
pub use error::{Error, Fault};
pub use input::view_bytes;
pub use key::check_numeric_key;
pub use reader::{Cursor, JsonReader, DEFAULT_RECURSION_LIMIT};
pub mod laws;
pub mod token_laws;
