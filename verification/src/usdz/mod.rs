//! Model export entry points.

pub mod export;
