//! Moving averages of sensor readings over several time windows at once.
//!
//! A [`tbuf::Tbuf`] keeps the recent readings of one sensor and one cached
//! average per configured window; a [`sensordata::MyData`] keeps one such
//! buffer per sensor identifier, and an output selector that says which
//! sensors may answer for the output.  [`expire::ExpireTask`] decides when
//! the store is swept for old readings, [`influxdb`] when its averages are
//! sent on, and [`url::UrlMap`] which handler answers a request.
//!
//! Nothing here reads a clock, takes a lock or talks to the network: the
//! caller hands in the instant at which a thing happens, and keeps the
//! store behind a lock of its own where several threads use it.
//!
//! Readings are integers in a unit of the caller's choosing (thousandths of
//! a degree, say), and instants and window lengths are counted in one unit
//! of time, also of the caller's choosing.  An average is kept exactly, as
//! the sum of its members and their number.

pub mod config;
pub mod expire;
pub mod influxdb;
pub mod outsensor;
pub mod sensordata;
pub mod tbuf;
pub mod url;
