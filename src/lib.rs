//! Fleet telemetry: parsing of GPU tool output, the host registry with expiry,
//! and the dashboard that renders it.
pub mod text;
pub mod gpu;
pub mod host;
pub mod snapshot;
pub mod registry;
pub mod dashboard;
pub mod render;
pub mod keyed;
