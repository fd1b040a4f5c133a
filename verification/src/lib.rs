//! Scrapes data documents out of a MongoDB collection and turns them into
//! InfluxDB line protocol, with a health-probe protocol on the side.
//!
//! This crate holds the logic of the service: the line protocol encoding,
//! the conversion of documents into data points, the shaping of InfluxDB
//! write requests and the health messages. The I/O around it lives in the
//! application crate.

use vstd::prelude::*;

pub mod health;
pub mod influxdb;
pub mod line_protocol;
pub mod mongodb;
pub mod sorted_map;
pub mod text;

verus! {

/// Abstract UNIX domain socket on which the health messages are exchanged.
pub const HEALTH_SOCKET_PATH: &'static str = "\0mongodb-influxdb-health";

} // verus!
