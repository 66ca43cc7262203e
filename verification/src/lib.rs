//! Session helpers for Paimon tables: consumer progress, blob streams and
//! what the bindings register.
//!
//! - [`consumer_manager`] and [`consumer_list`]: where consumer files lie,
//!   how one is read while it may be overwritten, and how all are listed.
//! - [`blob_reader`], [`blob_descriptor`] and [`blob_stream`]: which handle
//!   serves a blob, and the blob as a seekable stream.
//! - [`video_snapshot`] and [`vindex_build`]: the built-in SQL function and
//!   the arguments of the index build.
//! - [`consumer_laws`] and [`blob_laws`]: what holds of all of these, told
//!   from what goes in and what comes out.
//! - [`text`] and [`byte_order`]: the text functions that these rest on.
//!
//! No function here does I/O: where files are needed, a function tells what
//! to read and takes what came of it.

pub mod blob_descriptor;
pub mod blob_laws;
pub mod blob_reader;
pub mod blob_stream;
pub mod byte_order;
pub mod consumer_laws;
pub mod consumer_list;
pub mod consumer_manager;
pub mod text;
pub mod video_snapshot;
pub mod vindex_build;
