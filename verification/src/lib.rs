//! A live dashboard for structured debug events.
//!
//! Another program sends its events to a local socket, one JSON document per
//! connection, ended by a NUL byte. The dashboard keeps them newest first, lets
//! the operator move a selection through them, and shows the payload of the
//! selected event as indented lines beside its backtrace.
//!
//! - [`table`] holds the events and the selection.
//! - [`ingest`] turns the bytes of one connection into an event of the store,
//!   with [`document`] for the JSON text and [`schema`] for the shape of an
//!   event.
//! - [`json`], [`members`], [`keys`] and [`canonical`] are the JSON values that
//!   a payload is made of, with every object in ascending key order.
//! - [`flatten`] makes the display lines of a payload.
//! - [`render`] copies out what one tick of the screen shows, and [`input`]
//!   reads the operator's keys.

pub mod canonical;
pub mod document;
pub mod flatten;
pub mod ingest;
pub mod input;
pub mod json;
pub mod keys;
pub mod members;
pub mod render;
pub mod schema;
pub mod table;
