//! Intermediate 3-D model representation shared by all exporters.

pub mod model;
