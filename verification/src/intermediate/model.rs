//! Data structures for the intermediate 3D model representation.
//!
//! Lengths use the same fixed-point convention as the Gerber layer: an `i64`
//! counts billionths (10^-9) of the board unit.  Normal vectors are unit
//! vectors in the same scale, so a component of `NANO_PER_UNIT` means 1.0.

use vstd::prelude::*;

use crate::gerber::types::Point;

verus! {

/// A 3D point with x, y, and z coordinates, in fixed-point billionths of a
/// unit.
#[derive(Clone, Copy, Debug, PartialEq, Eq, Structural)]
pub struct Point3D {
    /// X coordinate
    pub x: i64,
    /// Y coordinate
    pub y: i64,
    /// Z coordinate (height)
    pub z: i64,
}

/// A vertex in 3D space with position and normal.
#[derive(Clone, Copy, Debug, PartialEq, Eq, Structural)]
pub struct Vertex {
    /// Position of the vertex in 3D space
    pub position: Point3D,
    /// Normal vector at this vertex, in the fixed-point scale
    pub normal: Point3D,
}

/// A face (polygon) in a 3D mesh, defined by indices into a vertex list.
#[derive(Clone, Debug)]
pub struct Face {
    /// Indices into a vertex list that form this face
    pub vertices: Vec<usize>,
}

/// A 3D mesh representing a PCB layer, composed of vertices and faces.
#[derive(Clone, Debug)]
pub struct Mesh {
    /// List of vertices in the mesh
    pub vertices: Vec<Vertex>,
    /// List of faces in the mesh
    pub faces: Vec<Face>,
    /// Type of PCB layer this mesh represents
    pub layer_type: LayerType,
}

/// Enumeration of PCB layer types.
#[derive(Clone, Copy, Debug, PartialEq, Eq, Structural)]
pub enum LayerType {
    /// Copper layer (traces and pads)
    Copper,
    /// Silkscreen layer (text and symbols)
    Silkscreen,
    /// Soldermask layer (coating)
    Soldermask,
    /// Solder paste layer (for SMD components)
    Paste,
    /// Board outline (edge cuts)
    EdgeCuts,
    /// Drill holes layer
    Drill,
}

/// A complete PCB model composed of multiple layer meshes.
#[derive(Clone, Debug)]
pub struct PCBModel {
    /// List of layer meshes that make up the PCB
    pub meshes: Vec<Mesh>,
    /// Units used for coordinates (mm or inches)
    pub units: Units,
}

/// Units of measurement for PCB coordinates.
#[derive(Clone, Copy, Debug, PartialEq, Eq, Structural)]
pub enum Units {
    /// Millimeters (most common)
    Millimeters,
    /// Inches (used in some older designs)
    Inches,
}

/// Convert from Gerber 2D coordinates to 3D space.
///
/// The Z coordinate defaults to 0 and is adjusted later based on the layer.
impl core::convert::From<Point> for Point3D {
    fn from(point: Point) -> (r: Self) {
        Point3D { x: point.x, y: point.y, z: 0 }
    }
}

impl vstd::std_specs::convert::FromSpecImpl<Point> for Point3D {
    open spec fn obeys_from_spec() -> bool {
        true
    }

    open spec fn from_spec(point: Point) -> Self {
        Point3D { x: point.x, y: point.y, z: 0 }
    }
}

} // verus!
