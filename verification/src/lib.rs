//! Typed, entity-tagged component tables and the append-only time series
//! that stores them.
//!
//! A table is a pile of arrays packed into a byte payload that says
//! nothing of itself. A [`table::VTable`] describes it: where each array
//! lies, its shape, the type of its elements, and which component of which
//! entity it is a value of. [`table::VTableBuilder`] lays payloads out and
//! builds their descriptors; [`table::VTable::parse_table`] decodes a
//! payload against its descriptor and hands every value to a sink, a
//! [`com_de::Decomponentize`]. [`registry::VTableRegistry`] keeps the
//! descriptors a receiver has been sent.
//!
//! A [`time_series::TimeSeries`] keeps values in two append-only logs, an
//! index of timestamps and the elements themselves, and answers point,
//! nearest and range queries by binary search. [`series_sink::SeriesSink`]
//! is the sink that stores what a parser decodes.
//!
//! [`round_trip`] holds what is proved of every built descriptor.

pub mod append_log;
pub mod buf;
pub mod cast;
pub mod com_de;
pub mod error;
pub mod msgs;
pub mod registry;
pub mod round_trip;
pub mod schema;
pub mod series_sink;
pub mod table;
pub mod time_series;
pub mod types;
