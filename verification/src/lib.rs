//! Runtime support for packet-processing pipelines: bit-precise field views
//! over packet bytes, header extraction, and match-action tables.

pub mod bit;
pub mod error;
pub mod ethernet;
pub mod field;
pub mod header;
pub mod key;
pub mod table;
pub mod table_laws;
pub mod text;

pub use bit::Bit;
pub use error::{TableError, TryFromSliceError};
pub use ethernet::ethernet_t;
pub use field::FieldValue;
pub use header::{packet_in, packet_out, Header};
pub use key::{MatchKey, MatchKind, Ternary};
pub use table::{Entry, MatchTable, MatchedAction};
