//! Data structures for Gerber file representation.
//!
//! All board-plane lengths in this crate are fixed-point values: an `i64`
//! counts billionths (10^-9) of the board unit (millimeters or inches,
//! selected by a units command).  A coordinate token decoded under a format
//! with `d` decimal digits denotes an integer multiple of 10^-d units, so for
//! `d <= 9` the fixed-point value is exact.

use vstd::prelude::*;

verus! {

/// Number of fixed-point steps per board unit: positions are stored in
/// billionths of a unit.
pub const NANO_PER_UNIT: i64 = 1_000_000_000;

/// A 2D point in Gerber coordinates, in fixed-point billionths of a unit.
#[derive(Clone, Copy, Debug, PartialEq, Eq, Structural)]
pub struct Point {
    /// X coordinate
    pub x: i64,
    /// Y coordinate
    pub y: i64,
}

/// Aperture definitions for Gerber files.
///
/// Apertures define shapes used for drawing; their dimensions are fixed-point
/// billionths of a unit, like all other lengths.
#[derive(Clone, Copy, Debug, PartialEq, Eq, Structural)]
pub enum Aperture {
    /// Circular aperture with diameter
    Circle { diameter: i64 },
    /// Rectangular aperture with width and height
    Rectangle { width: i64, height: i64 },
}

/// Interpolation modes for drawing operations.
#[derive(Clone, Copy, Debug, PartialEq, Eq, Structural)]
pub enum InterpolationMode {
    /// Straight line segments (G01)
    Linear,
    /// Clockwise arc segments (G02)
    ClockwiseCircular,
    /// Counter-clockwise arc segments (G03)
    CounterClockwiseCircular,
}

/// Gerber commands, one per recognized line of a Gerber file.
#[derive(Clone, Copy, Debug, PartialEq, Eq, Structural)]
pub enum Command {
    /// Format specification (e.g. %FSLAX46Y46*%)
    FormatSpecification {
        /// Number of digits before the implied decimal point
        integer_digits: u8,
        /// Number of digits after the implied decimal point
        decimal_digits: u8,
    },
    /// Set units to millimeters (%MOMM*%)
    SetUnitsMM,
    /// Set units to inches (%MOIN*%)
    SetUnitsInch,
    /// Set interpolation mode (G01, G02, G03)
    SetInterpolationMode(InterpolationMode),
    /// Move to a point without drawing (D02)
    Move { point: Point },
    /// Draw to a point (D01)
    Draw { point: Point },
    /// Flash aperture at a point (D03)
    Flash { point: Point },
    /// Draw an arc to a point (D01 while an arc mode is active)
    ArcDraw {
        /// End point of the arc
        end_point: Point,
        /// Center offset from the current point (I and J values)
        center_offset: Point,
    },
    /// Select an aperture (D10, D11, ...)
    SelectAperture { code: u32 },
    /// Define an aperture (%ADD10C,0.1*%)
    DefineAperture { code: u32, aperture: Aperture },
    /// Begin a region (G36)
    BeginRegion,
    /// End a region (G37)
    EndRegion,
    /// End of file (M02)
    EndOfFile,
}

/// Complete Gerber file representation: all commands parsed from one file.
#[derive(Clone, Debug)]
pub struct GerberFile {
    /// List of commands in the Gerber file
    pub commands: Vec<Command>,
}

/// Failure of decoding a single numeric token.
///
/// A malformed token is fatal only to its own field: the surrounding line
/// treats the field as absent and parsing continues.
#[derive(Clone, Copy, Debug, PartialEq, Eq, Structural)]
pub enum DecodeError {
    /// The token is not a plain decimal numeral, or its value does not fit
    /// the fixed-point range.
    InvalidNumber,
}

/// Failure of obtaining the source text of a Gerber file.
///
/// Parsing itself never fails: unrecognized lines are skipped.  This error
/// is reserved for the I/O boundary that loads the text.
#[derive(Clone, Copy, Debug, PartialEq, Eq, Structural)]
pub enum ParseError {
    /// The source text could not be obtained.
    SourceUnavailable,
}

} // verus!
