//! Conversion between Arrow column arrays and the dynamic values of a
//! row-at-a-time host, and evaluation of per-row functions over whole
//! batches.
//!
//! A column is described by a [`types::DataType`]. The decoder
//! ([`decode::get_pyobject`]) reads one row of a column as a
//! [`value::Value`]; the encoder ([`encode::build_array`]) builds a column
//! from one value per row. Both are stated over [`column::ColumnView`], the
//! mathematical contents of an array, and [`laws`] holds what follows for
//! the two together. A [`signature::FunctionSignature`] names a per-row
//! computation and its types, a [`registry::Registry`] resolves calls to
//! signatures, and [`eval`] runs a signature over a [`batch::RecordBatch`].
//!
//! The arrays themselves are Arrow's. What this library takes for granted
//! of Arrow is gathered in [`arrow`].

pub mod arrow;
pub mod batch;
pub mod column;
pub mod decode;
pub mod encode;
pub mod error;
pub mod eval;
pub mod laws;
pub mod registry;
pub mod search;
pub mod signature;
pub mod types;
pub mod value;
