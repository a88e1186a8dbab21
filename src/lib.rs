//! A codec between structured values and the flat field-element calling
//! convention of a field-arithmetic virtual machine.
//!
//! - [`felt`]: field elements, and how they are shown.
//! - [`args`]: encoding call arguments into a flat stream.
//! - [`decode`], [`types`], [`list_text`]: typed decoding of returned
//!   streams, including lists read from their displayed text.
//! - [`format`], [`byte_array`]: the display of a returned stream, with its
//!   embedded byte arrays.
//! - [`catalog`], [`codegen`]: reading a program's type catalog and
//!   generating type definitions from it.
//! - [`entry`], [`gas`], [`summary`]: choosing the function to run, its gas
//!   limit, and the report of a run.
pub mod text;
pub mod felt;
pub mod args;
pub mod decode;
pub mod types;
pub mod format;
pub mod byte_array;
pub mod catalog;
pub mod codegen;
pub mod entry;
pub mod gas;
pub mod summary;
pub mod list_text;
