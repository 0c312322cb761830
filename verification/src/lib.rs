//! A binary codec for the input side of the Bitcoin transaction wire format.
//!
//! Every wire structure has a mathematical model (its view), a spec function
//! giving its encoding as a byte sequence, and a spec function giving the
//! decoding of a byte sequence. The executable `to_bytes` / `from_bytes`
//! functions are proved to compute exactly those spec functions, and the
//! module `laws` relates encoding and decoding to each other.

pub mod compact_size;
pub mod error;
pub mod hex_text;
pub mod input;
pub mod laws;
pub mod little_endian;
pub mod outpoint;
pub mod render;
pub mod script;
pub mod transaction;
pub mod txid;

pub use crate::compact_size::CompactSize;
pub use crate::error::BitcoinError;
pub use crate::input::TransactionInput;
pub use crate::outpoint::OutPoint;
pub use crate::script::Script;
pub use crate::transaction::BitcoinTransaction;
pub use crate::txid::Txid;
