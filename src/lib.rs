//! Wire-facing contract-class model: field-element hex codec, ABI entries,
//! canonical JSON, entry-point grouping and the two contract-class schemas.
pub mod felt;
pub mod json;
pub mod error;
pub mod entry_points;
pub mod rng;
pub mod abi;
pub mod codec;
pub mod contract_class;
