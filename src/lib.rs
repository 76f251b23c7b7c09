//! Columnar values shared with a host runtime.
//!
//! - [`js_type`], [`js_data`], [`js_batch`]: host-side descriptors of types,
//!   arrays, schemas, record batches and tables, and their import into native
//!   values; [`js_export`] turns native types and arrays back into descriptors.
//! - [`buffer`]: little-endian decoding of host bytes into native buffers, and
//!   the encoding back.
//! - [`array_data`]: array data validated against the layout of its type.
//! - [`datatype`], [`schema`], [`record_batch`], [`table`], [`data`],
//!   [`vector`], [`typed_array`]: the native values.
//! - [`ffi`]: how many C Data Interface structs an export makes, from what,
//!   and who owns them; the decisions of a C Stream Interface pull.
pub mod array_data;
pub mod buffer;
pub mod data;
pub mod datatype;
pub mod error;
pub mod ffi;
pub mod js_batch;
pub mod js_data;
pub mod js_export;
pub mod js_type;
pub mod record_batch;
pub mod schema;
pub mod table;
pub mod typed_array;
pub mod vector;
