//! Width-agnostic fixed-size integer arithmetic on little-endian byte buffers.
pub mod model;
pub mod fixed_width;
pub mod arithmetic;
pub mod logic;
pub mod shifting;
pub mod counting;
