//! Verified core of a Prometheus exporter for power distribution units.
//!
//! The library turns the raw `/status.cgi` field list of a unit into
//! Prometheus text, groups units into racks, parses the exporter's
//! configuration and decides HTTP basic authentication requests.
pub mod auth;
pub mod config;
pub mod exporter;
pub mod pdu;
pub mod sort;
pub mod string_map;
pub mod text;
