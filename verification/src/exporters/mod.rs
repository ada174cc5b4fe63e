//! Renderings of a registry's contents for collectors.

pub mod json_exporter;
pub mod prometheus;
pub mod pushgateway;
