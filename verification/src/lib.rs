//! A verified binary serialization library in the bincode wire format.
//!
//! Values are written through [`SchemaWrite`] and read back through [`SchemaRead`]; both
//! traits state their wire format as a byte sequence in their contracts, and
//! [`SchemaRoundtrip`] ties the two directions together. The laws that hold across the
//! library's functions are in [`laws`].
pub mod config;
pub mod decode;
pub mod derive_plan;
pub mod encode;
pub mod error;
pub mod format;
pub mod io;
pub mod laws;
pub mod len;
pub mod schema;

pub use error::{ReadError, ReadResult, WriteError, WriteResult};
pub use schema::{SchemaRead, SchemaReadContext, SchemaRoundtrip, SchemaWrite, TypeMeta};
pub use vstd::view::DeepView;
