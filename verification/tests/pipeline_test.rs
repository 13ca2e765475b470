//! End-to-end and property scenarios for the Gerber pipeline.
//!
//! All lengths are fixed-point: an `i64` counts billionths of a board unit,
//! so 1.0 unit is 1_000_000_000.

use pcbgen::gerber::parse::parse_gerber;
use pcbgen::gerber::types::{Command, InterpolationMode, Point};
use pcbgen::intermediate::model::LayerType;
use pcbgen::{build_edge_cuts_mesh, build_outline, extrude};
use pcbgen::gerber::types::NANO_PER_UNIT;

use pcbgen::fixmath::{atan2_fix, cos_fix, isqrt_u128, sin_fix};

const UNIT: i64 = 1_000_000_000;

#[test]
fn end_to_end_pipeline() {
    let content = "%FSLAX46Y46*%\n%MOMM*%\nG01*\nD10*\nX1000000Y1000000D02*\nX2000000Y1000000D01*\nM02*";
    let commands = parse_gerber(content).expect("parse");
    assert_eq!(
        commands,
        vec![
            Command::FormatSpecification { integer_digits: 4, decimal_digits: 6 },
            Command::SetUnitsMM,
            Command::SetInterpolationMode(InterpolationMode::Linear),
            Command::SelectAperture { code: 10 },
            Command::Move { point: Point { x: UNIT, y: UNIT } },
            Command::Draw { point: Point { x: 2 * UNIT, y: UNIT } },
            Command::EndOfFile,
        ]
    );

    // The Move/Draw pair closes back to the Move point: a 3-point polygon.
    let outline = build_outline(&commands).expect("outline");
    assert_eq!(
        outline,
        vec![
            Point { x: UNIT, y: UNIT },
            Point { x: 2 * UNIT, y: UNIT },
            Point { x: UNIT, y: UNIT },
        ]
    );

    // Extruding with thickness 1.6 yields 6 vertices and 5 faces.
    let mesh = build_edge_cuts_mesh(&commands, Some(1_600_000_000)).expect("mesh");
    assert_eq!(mesh.vertices.len(), 6);
    assert_eq!(mesh.faces.len(), 5);
    assert_eq!(mesh.layer_type, LayerType::EdgeCuts);
}

#[test]
fn outline_too_few_points() {
    // A single Move gives a single point: no polygon.
    let commands = vec![Command::Move { point: Point { x: UNIT, y: UNIT } }];
    let err = build_outline(&commands).unwrap_err();
    assert_eq!(format!("{:?}", err), "TooFewPoints");

    // Two distinct points still close into only 3 entries, which passes;
    // but a Move and a Draw onto the same point stay below 3.
    let commands = vec![
        Command::Move { point: Point { x: UNIT, y: UNIT } },
        Command::Draw { point: Point { x: UNIT, y: UNIT } },
    ];
    assert!(build_outline(&commands).is_err());
}

#[test]
fn outline_point_count_without_arcs() {
    // Four moves/draws plus the closing point.
    let commands = vec![
        Command::Move { point: Point { x: 0, y: 0 } },
        Command::Draw { point: Point { x: UNIT, y: 0 } },
        Command::Draw { point: Point { x: UNIT, y: UNIT } },
        Command::Draw { point: Point { x: 0, y: UNIT } },
    ];
    let outline = build_outline(&commands).expect("outline");
    assert_eq!(outline.len(), 5);
    assert_eq!(outline[4], Point { x: 0, y: 0 });

    // A traversal that already ends on the anchor adds no closing point.
    let commands = vec![
        Command::Move { point: Point { x: 0, y: 0 } },
        Command::Draw { point: Point { x: UNIT, y: 0 } },
        Command::Draw { point: Point { x: UNIT, y: UNIT } },
        Command::Draw { point: Point { x: 0, y: 0 } },
    ];
    let outline = build_outline(&commands).expect("outline");
    assert_eq!(outline.len(), 4);
}

#[test]
fn outline_closes_onto_the_anchor() {
    // The closing point is the anchor (the first Move), so a stray Draw
    // before any Move leaves the polygon open at the front.
    let commands = vec![
        Command::Draw { point: Point { x: 5 * UNIT, y: 5 * UNIT } },
        Command::Move { point: Point { x: 0, y: 0 } },
        Command::Draw { point: Point { x: UNIT, y: 0 } },
    ];
    let outline = build_outline(&commands).unwrap();
    assert_eq!(outline.len(), 4);
    assert_eq!(outline[3], Point { x: 0, y: 0 });
    assert_ne!(outline[0], outline[3]);
}

#[test]
fn extrude_counts_and_winding() {
    let square = vec![
        Point { x: 0, y: 0 },
        Point { x: UNIT, y: 0 },
        Point { x: UNIT, y: UNIT },
        Point { x: 0, y: UNIT },
    ];
    let t = 1_600_000_000;
    let mesh = extrude(&square, t);
    assert_eq!(mesh.vertices.len(), 8);
    assert_eq!(mesh.faces.len(), 6);

    // Point k occupies vertex 2k (top) and 2k + 1 (bottom).
    for (k, p) in square.iter().enumerate() {
        let top = &mesh.vertices[2 * k];
        let bottom = &mesh.vertices[2 * k + 1];
        assert_eq!((top.position.x, top.position.y, top.position.z), (p.x, p.y, t));
        assert_eq!((top.normal.x, top.normal.y, top.normal.z), (0, 0, NANO_PER_UNIT));
        assert_eq!((bottom.position.x, bottom.position.y, bottom.position.z), (p.x, p.y, 0));
        assert_eq!((bottom.normal.x, bottom.normal.y, bottom.normal.z), (0, 0, -NANO_PER_UNIT));
    }

    // Top face in point order, bottom face reversed, side quads per edge.
    assert_eq!(mesh.faces[0].vertices, vec![0, 2, 4, 6]);
    assert_eq!(mesh.faces[1].vertices, vec![7, 5, 3, 1]);
    assert_eq!(mesh.faces[2].vertices, vec![0, 1, 3, 2]);
    assert_eq!(mesh.faces[3].vertices, vec![2, 3, 5, 4]);
    assert_eq!(mesh.faces[4].vertices, vec![4, 5, 7, 6]);
    assert_eq!(mesh.faces[5].vertices, vec![6, 7, 1, 0]);
}

#[test]
fn arc_quarter_circle_endpoints() {
    // A counter-clockwise quarter circle of radius 10 around the origin,
    // from (10, 0) to (0, 10).
    let r: i64 = 10 * UNIT;
    let commands = vec![
        Command::SetInterpolationMode(InterpolationMode::CounterClockwiseCircular),
        Command::Move { point: Point { x: r, y: 0 } },
        Command::ArcDraw {
            end_point: Point { x: 0, y: r },
            center_offset: Point { x: -r, y: 0 },
        },
    ];
    let outline = build_outline(&commands).expect("outline");
    // One moved point, sixteen arc samples, and the closing point.
    assert_eq!(outline.len(), 18);

    let radius = 10.0f64;
    let quarter = std::f64::consts::PI / 2.0;
    // The first generated point sits one sixteenth into the sweep ...
    let a1 = quarter / 16.0;
    let (ex, ey) = (radius * a1.cos(), radius * a1.sin());
    let p1 = &outline[1];
    assert!((p1.x as f64 / 1e9 - ex).abs() < 1e-3);
    assert!((p1.y as f64 / 1e9 - ey).abs() < 1e-3);
    // ... and the last lands on the analytic end of the quarter circle.
    let p16 = &outline[16];
    assert!((p16.x as f64 / 1e9 - 0.0).abs() < 1e-3);
    assert!((p16.y as f64 / 1e9 - radius).abs() < 1e-3);
}

#[test]
fn arc_clockwise_direction() {
    // The same quarter circle traversed clockwise the long way round:
    // the sweep is normalized to be non-positive, three quarters of a turn.
    let r: i64 = 10 * UNIT;
    let commands = vec![
        Command::SetInterpolationMode(InterpolationMode::ClockwiseCircular),
        Command::Move { point: Point { x: r, y: 0 } },
        Command::ArcDraw {
            end_point: Point { x: 0, y: r },
            center_offset: Point { x: -r, y: 0 },
        },
    ];
    let outline = build_outline(&commands).expect("outline");
    assert_eq!(outline.len(), 18);
    // A quarter of the way through the clockwise 3/4 turn, the fourth
    // sample sits at -3/8 pi on the circle.
    let a4 = -(1.5 * std::f64::consts::PI) * (4.0 / 16.0);
    let (ex, ey) = (10.0 * a4.cos(), 10.0 * a4.sin());
    let p4 = &outline[4];
    assert!((p4.x as f64 / 1e9 - ex).abs() < 1e-3);
    assert!((p4.y as f64 / 1e9 - ey).abs() < 1e-3);
}

#[test]
fn fixed_point_trig_matches_float() {
    // One radian.
    let s = sin_fix(UNIT) as f64 / 1e9;
    assert!((s - 1.0f64.sin()).abs() < 1e-6);
    let c = cos_fix(UNIT) as f64 / 1e9;
    assert!((c - 1.0f64.cos()).abs() < 1e-6);
    // A negative angle in the third quadrant.
    let a: i64 = -2_500_000_000;
    let s = sin_fix(a) as f64 / 1e9;
    assert!((s - (-2.5f64).sin()).abs() < 1e-6);
    // The diagonal.
    let at = atan2_fix(UNIT, UNIT) as f64 / 1e9;
    assert!((at - std::f64::consts::FRAC_PI_4).abs() < 1e-6);
    // A direction in the second quadrant.
    let at = atan2_fix(UNIT, -3 * UNIT) as f64 / 1e9;
    assert!((at - 1.0f64.atan2(-3.0)).abs() < 1e-6);
    // Square roots are exact.
    assert_eq!(isqrt_u128(10), 3);
    assert_eq!(isqrt_u128(144), 12);
    assert_eq!(isqrt_u128(0), 0);
}
