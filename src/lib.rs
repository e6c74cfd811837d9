//! Acquisition and decoding of weather-observation products: time intervals,
//! the RADOLAN grid format, nested archive unwrapping and the stitching of
//! record series from several remote buckets.

pub mod datetime;
pub mod interval;
pub mod text;
pub mod header;
pub mod point;
pub mod grid;
pub mod source;
pub mod archive;
pub mod timefmt;
pub mod links;
pub mod climate;
pub mod precipitation;
pub mod reproc;
