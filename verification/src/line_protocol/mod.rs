//! InfluxDB line protocol: escaping, field values and data points.

pub mod data_point;
pub mod field_value;
pub mod parse;
pub mod replacer;
