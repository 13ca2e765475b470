//! # Gerber to 3-D model conversion
//!
//! This library turns the contents of Gerber files (the standard line-oriented
//! command language for PCB manufacturing) into 3-D surface meshes.
//!
//! ## Module structure
//!
//! - `gerber`: parsing Gerber text into typed commands
//!   - `types`: Gerber command and point structures
//!   - `parse`: the line-by-line command parser
//! - `intermediate`: the 3-D mesh representation (vertices, faces, layers)
//! - `fixmath`: fixed-point square root and trigonometry for arc tessellation
//! - `usdz`: export entry points
//!
//! ## Workflow
//!
//! 1. Parse each Gerber file into structured commands ([`gerber::parse::parse_gerber`]).
//! 2. Build the board outline and extrude it into a solid ([`build_edge_cuts_mesh`]).
//! 3. Build placeholder meshes for the other layers.
//! 4. Hand the meshes to an exporter.
//!
//! All board-plane lengths are fixed-point `i64` values counting billionths
//! (10^-9) of the board unit; see [`gerber::types`].

use vstd::prelude::*;

pub mod fixmath;
pub mod gerber;
pub mod intermediate;
pub mod usdz;

use crate::fixmath::{
    spec_atan2, spec_cos, spec_isqrt, spec_sin, atan2_fix, cos_fix, isqrt_u128, sin_fix, TAU_FIX,
};
use crate::gerber::types::{Command, InterpolationMode, Point, NANO_PER_UNIT};
use crate::intermediate::model::{Face, LayerType, Mesh, Point3D, Vertex};
use vstd::arithmetic::mul::lemma_mul_upper_bound;
use vstd::string::StringSliceAdditionalSpecFns;

verus! {

/// Number of `Move` commands in a sequence.
pub open spec fn spec_count_moves(s: Seq<Command>) -> int
    decreases s.len(),
{
    if s.len() == 0 {
        0
    } else {
        spec_count_moves(s.drop_last()) + if s.last() is Move {
            1int
        } else {
            0int
        }
    }
}

/// Number of `Draw` commands in a sequence.
pub open spec fn spec_count_draws(s: Seq<Command>) -> int
    decreases s.len(),
{
    if s.len() == 0 {
        0
    } else {
        spec_count_draws(s.drop_last()) + if s.last() is Draw {
            1int
        } else {
            0int
        }
    }
}

/// Number of `ArcDraw` commands in a sequence.
pub open spec fn spec_count_arcs(s: Seq<Command>) -> int
    decreases s.len(),
{
    if s.len() == 0 {
        0
    } else {
        spec_count_arcs(s.drop_last()) + if s.last() is ArcDraw {
            1int
        } else {
            0int
        }
    }
}

/// Number of commands that are neither `Move`, `Draw` nor `ArcDraw`.
pub open spec fn spec_count_others(s: Seq<Command>) -> int
    decreases s.len(),
{
    if s.len() == 0 {
        0
    } else {
        spec_count_others(s.drop_last()) + if s.last() is Move || s.last() is Draw
            || s.last() is ArcDraw {
            0int
        } else {
            1int
        }
    }
}

/// Helper function to analyze Gerber commands and return statistics:
/// the numbers of move, draw, arc and other commands, in that order.
pub fn analyze_gerber_commands(commands: &[Command]) -> (r: (usize, usize, usize, usize))
    ensures
        r.0 == spec_count_moves(commands@),
        r.1 == spec_count_draws(commands@),
        r.2 == spec_count_arcs(commands@),
        r.3 == spec_count_others(commands@),
{
    let mut move_count: usize = 0;
    let mut draw_count: usize = 0;
    let mut arc_count: usize = 0;
    let mut other_count: usize = 0;

    let n = commands.len();
    let mut i: usize = 0;
    while i < n
        invariant
            i <= n,
            n == commands@.len(),
            move_count == spec_count_moves(commands@.take(i as int)),
            draw_count == spec_count_draws(commands@.take(i as int)),
            arc_count == spec_count_arcs(commands@.take(i as int)),
            other_count == spec_count_others(commands@.take(i as int)),
            move_count + draw_count + arc_count + other_count == i,
        decreases n - i,
    {
        proof {
            assert(commands@.take(i + 1).drop_last() =~= commands@.take(i as int));
            assert(commands@.take(i + 1).last() == commands@[i as int]);
        }
        match commands[i] {
            Command::Move { .. } => move_count += 1,
            Command::Draw { .. } => draw_count += 1,
            Command::ArcDraw { .. } => arc_count += 1,
            _ => other_count += 1,
        }
        i += 1;
    }
    proof {
        assert(commands@.take(n as int) =~= commands@);
    }
    (move_count, draw_count, arc_count, other_count)
}

// ------------------------------------------------------------------
// Layer identification
// ------------------------------------------------------------------

/// A byte with any ASCII capital letter lowered.
pub open spec fn spec_lower_byte(b: u8) -> u8 {
    if 65 <= b <= 90 {
        (b + 32) as u8
    } else {
        b
    }
}

/// The bytes of a name with ASCII capitals lowered.
pub open spec fn spec_lower(s: Seq<u8>) -> Seq<u8> {
    s.map_values(|b: u8| spec_lower_byte(b))
}

/// Whether `nd` occurs as a contiguous run in `h`.
pub open spec fn spec_contains_seq(h: Seq<u8>, nd: Seq<u8>) -> bool {
    exists|i: int| 0 <= i && i + nd.len() <= h.len() && #[trigger] h.subrange(i, i + nd.len())
        == nd
}

/// The layer type suggested by a file name: its lowered bytes are probed
/// for the common naming conventions of edge-cut, copper and silkscreen
/// layers, with edge cuts as the default.
pub open spec fn spec_identify_layer(s: Seq<u8>) -> LayerType {
    let low = spec_lower(s);
    if spec_contains_seq(low, seq![101u8, 100, 103, 101]) || spec_contains_seq(
        low,
        seq![111u8, 117, 116, 108, 105, 110, 101],
    ) || spec_contains_seq(low, seq![99u8, 117, 116, 115]) {
        LayerType::EdgeCuts
    } else if spec_contains_seq(low, seq![102u8, 46, 99, 117]) || spec_contains_seq(
        low,
        seq![102u8, 95, 99, 117],
    ) || spec_contains_seq(low, seq![116u8, 111, 112, 46, 99, 117]) {
        LayerType::Copper
    } else if spec_contains_seq(low, seq![98u8, 46, 99, 117]) || spec_contains_seq(
        low,
        seq![98u8, 95, 99, 117],
    ) || spec_contains_seq(low, seq![98u8, 111, 116, 116, 111, 109, 46, 99, 117]) {
        LayerType::Copper
    } else if spec_contains_seq(low, seq![102u8, 46, 115, 105, 108, 107]) || spec_contains_seq(
        low,
        seq![102u8, 95, 115, 105, 108, 107],
    ) || spec_contains_seq(low, seq![116u8, 111, 112, 46, 115, 105, 108, 107]) {
        LayerType::Silkscreen
    } else if spec_contains_seq(low, seq![98u8, 46, 115, 105, 108, 107]) || spec_contains_seq(
        low,
        seq![98u8, 95, 115, 105, 108, 107],
    ) || spec_contains_seq(low, seq![98u8, 111, 116, 116, 111, 109, 46, 115, 105, 108, 107]) {
        LayerType::Silkscreen
    } else {
        LayerType::EdgeCuts
    }
}

/// The name's bytes with ASCII capitals lowered.
fn to_lower_bytes(s: &[u8]) -> (r: Vec<u8>)
    ensures
        r@ == spec_lower(s@),
{
    let n = s.len();
    let mut out: Vec<u8> = Vec::new();
    let mut i: usize = 0;
    while i < n
        invariant
            i <= n,
            n == s@.len(),
            out@ == spec_lower(s@.take(i as int)),
        decreases n - i,
    {
        let b = s[i];
        let lb = if b >= 65 && b <= 90 {
            b + 32
        } else {
            b
        };
        out.push(lb);
        proof {
            assert(spec_lower(s@.take(i + 1)) =~= spec_lower(s@.take(i as int)).push(
                spec_lower_byte(s@[i as int]),
            ));
        }
        i += 1;
    }
    proof {
        assert(s@.take(n as int) =~= s@);
    }
    out
}

/// Whether the needle matches the haystack at offset `i`.
fn eq_at(h: &[u8], i: usize, nd: &[u8]) -> (r: bool)
    requires
        i + nd@.len() <= h@.len(),
    ensures
        r == (h@.subrange(i as int, i + nd@.len()) == nd@),
{
    let hn = h.len();
    let m = nd.len();
    let mut k: usize = 0;
    while k < m
        invariant
            k <= m,
            m == nd@.len(),
            hn == h@.len(),
            i + m <= hn,
            forall|j: int| 0 <= j < k ==> h@[i + j] == nd@[j],
        decreases m - k,
    {
        if h[i + k] != nd[k] {
            proof {
                assert(h@.subrange(i as int, i + nd@.len())[k as int] != nd@[k as int]);
            }
            return false;
        }
        k += 1;
    }
    proof {
        assert(h@.subrange(i as int, i + nd@.len()) =~= nd@);
    }
    true
}

/// Whether the needle occurs anywhere in the haystack.
fn contains_bytes(h: &[u8], nd: &[u8]) -> (r: bool)
    ensures
        r == spec_contains_seq(h@, nd@),
{
    let hn = h.len();
    let m = nd.len();
    if m > hn {
        return false;
    }
    if m == 0 {
        proof {
            assert(spec_contains_seq(h@, nd@)) by {
                assert(h@.subrange(0, 0 + nd@.len() as int) =~= nd@);
            }
        }
        return true;
    }
    let mut i: usize = 0;
    while i <= hn - m
        invariant
            1 <= m <= hn,
            hn == h@.len(),
            m == nd@.len(),
            i <= hn - m + 1,
            forall|j: int| 0 <= j < i ==> #[trigger] h@.subrange(j, j + m) != nd@,
        decreases hn - m - i + 1,
    {
        if eq_at(h, i, nd) {
            return true;
        }
        i += 1;
    }
    false
}

/// Helper function to identify the likely layer type based on the file
/// name; names that fit no convention count as edge cuts.
pub fn identify_layer_type(file_name: &str) -> (r: LayerType)
    ensures
        r == spec_identify_layer(file_name.spec_bytes()),
{
    let low_vec = to_lower_bytes(file_name.as_bytes());
    let low = low_vec.as_slice();
    let p_edge: [u8; 4] = [101, 100, 103, 101];
    let p_outline: [u8; 7] = [111, 117, 116, 108, 105, 110, 101];
    let p_cuts: [u8; 4] = [99, 117, 116, 115];
    if contains_bytes(low, &p_edge) || contains_bytes(low, &p_outline) || contains_bytes(
        low,
        &p_cuts,
    ) {
        return LayerType::EdgeCuts;
    }
    let p_f_dot_cu: [u8; 4] = [102, 46, 99, 117];
    let p_f_us_cu: [u8; 4] = [102, 95, 99, 117];
    let p_top_cu: [u8; 6] = [116, 111, 112, 46, 99, 117];
    if contains_bytes(low, &p_f_dot_cu) || contains_bytes(low, &p_f_us_cu) || contains_bytes(
        low,
        &p_top_cu,
    ) {
        return LayerType::Copper;
    }
    let p_b_dot_cu: [u8; 4] = [98, 46, 99, 117];
    let p_b_us_cu: [u8; 4] = [98, 95, 99, 117];
    let p_bottom_cu: [u8; 9] = [98, 111, 116, 116, 111, 109, 46, 99, 117];
    if contains_bytes(low, &p_b_dot_cu) || contains_bytes(low, &p_b_us_cu) || contains_bytes(
        low,
        &p_bottom_cu,
    ) {
        return LayerType::Copper;
    }
    let p_f_dot_silk: [u8; 6] = [102, 46, 115, 105, 108, 107];
    let p_f_us_silk: [u8; 6] = [102, 95, 115, 105, 108, 107];
    let p_top_silk: [u8; 8] = [116, 111, 112, 46, 115, 105, 108, 107];
    if contains_bytes(low, &p_f_dot_silk) || contains_bytes(low, &p_f_us_silk) || contains_bytes(
        low,
        &p_top_silk,
    ) {
        return LayerType::Silkscreen;
    }
    let p_b_dot_silk: [u8; 6] = [98, 46, 115, 105, 108, 107];
    let p_b_us_silk: [u8; 6] = [98, 95, 115, 105, 108, 107];
    let p_bottom_silk: [u8; 11] = [98, 111, 116, 116, 111, 109, 46, 115, 105, 108, 107];
    if contains_bytes(low, &p_b_dot_silk) || contains_bytes(low, &p_b_us_silk) || contains_bytes(
        low,
        &p_bottom_silk,
    ) {
        return LayerType::Silkscreen;
    }
    LayerType::EdgeCuts
}

// ------------------------------------------------------------------
// Outline building
// ------------------------------------------------------------------

/// The largest coordinate magnitude (in billionths of a unit) the outline
/// builder accepts: one million board units, far beyond any board, but
/// small enough that every arc computation fits the machine integers.
pub const COORD_LIMIT: i64 = 1_000_000_000_000_000;

/// Number of points used to approximate each arc.
pub const POINTS_PER_ARC: usize = 16;

/// The board thickness assumed when none is given: 1.6 units.
pub const DEFAULT_THICKNESS: i64 = 1_600_000_000;

/// Failure of building a closed outline polygon.
#[derive(Clone, Copy, Debug, PartialEq, Eq, Structural)]
pub enum OutlineError {
    /// The closed outline has fewer than 3 points, which cannot bound an
    /// area.
    TooFewPoints,
}

/// Whether a point lies within the coordinate range of the outline
/// builder.
pub open spec fn spec_point_bounded(p: Point) -> bool {
    -COORD_LIMIT <= p.x <= COORD_LIMIT && -COORD_LIMIT <= p.y <= COORD_LIMIT
}

/// Whether a command's coordinates lie within the outline builder's range.
pub open spec fn spec_cmd_bounded(cmd: Command) -> bool {
    match cmd {
        Command::Move { point } => spec_point_bounded(point),
        Command::Draw { point } => spec_point_bounded(point),
        Command::Flash { point } => spec_point_bounded(point),
        Command::ArcDraw { end_point, center_offset } => spec_point_bounded(end_point)
            && spec_point_bounded(center_offset),
        _ => true,
    }
}

/// The angular sweep of an arc: the raw angle difference, normalized so a
/// clockwise sweep is never positive and a counter-clockwise sweep never
/// negative.
pub open spec fn spec_arc_delta(raw: int, mode: InterpolationMode) -> int {
    match mode {
        InterpolationMode::ClockwiseCircular => if raw > 0 {
            raw - TAU_FIX
        } else {
            raw
        },
        InterpolationMode::CounterClockwiseCircular => if raw < 0 {
            raw + TAU_FIX
        } else {
            raw
        },
        InterpolationMode::Linear => raw,
    }
}

/// The angle of the `k`-th sample of an arc: the start angle plus `k`
/// sixteenths of the sweep, evaluated in truncating fixed-point steps.
pub open spec fn spec_arc_sample_angle(start_angle: int, delta: int, k: int) -> int {
    if delta >= 0 {
        start_angle + (delta * k) / 16
    } else {
        start_angle - (((-delta) * k) / 16)
    }
}

/// The `k`-th sample point of an arc: the center displaced by the radius
/// along the sample angle, in truncating fixed-point arithmetic.
pub open spec fn spec_arc_sample(cx: int, cy: int, radius: int, start_angle: int, delta: int, k: int) -> Point {
    let angle = spec_arc_sample_angle(start_angle, delta, k);
    let c = spec_cos(angle);
    let s = spec_sin(angle);
    let dx = if c >= 0 {
        (radius * c) / 1_000_000_000
    } else {
        -((radius * (-c)) / 1_000_000_000)
    };
    let dy = if s >= 0 {
        (radius * s) / 1_000_000_000
    } else {
        -((radius * (-s)) / 1_000_000_000)
    };
    Point { x: (cx + dx) as i64, y: (cy + dy) as i64 }
}

/// The sixteen points tessellating one arc from the current point to its
/// end point around the offset center.
pub open spec fn spec_arc_points(cur: Point, end: Point, off: Point, mode: InterpolationMode) -> Seq<Point> {
    let cx = cur.x as int + off.x as int;
    let cy = cur.y as int + off.y as int;
    let radius = spec_isqrt(off.x as int * off.x as int + off.y as int * off.y as int);
    let start_angle = spec_atan2(cur.y as int - cy, cur.x as int - cx);
    let end_angle = spec_atan2(end.y as int - cy, end.x as int - cx);
    let delta = spec_arc_delta(end_angle - start_angle, mode);
    Seq::new(16, |k: int| spec_arc_sample(cx, cy, radius, start_angle, delta, k + 1))
}

/// Tessellate one arc, appending its sixteen sample points.
fn arc_points_into(cur: Point, end: Point, off: Point, mode: InterpolationMode, out: &mut Vec<Point>)
    requires
        spec_point_bounded(cur),
        spec_point_bounded(end),
        spec_point_bounded(off),
    ensures
        final(out)@ == old(out)@ + spec_arc_points(cur, end, off, mode),
        forall|j: int|
            old(out)@.len() <= j < final(out)@.len() ==> -4_000_000_000_000_000 <= (
            #[trigger] final(out)@[j]).x <= 4_000_000_000_000_000 && -4_000_000_000_000_000
                <= final(out)@[j].y <= 4_000_000_000_000_000,
{
    let cx: i64 = cur.x + off.x;
    let cy: i64 = cur.y + off.y;
    proof {
        assert(off.x as int * off.x as int <= 1_000_000_000_000_000_000_000_000_000_000
            && off.x as int * off.x as int >= 0) by (nonlinear_arith)
            requires
                -1_000_000_000_000_000 <= off.x as int <= 1_000_000_000_000_000,
        ;
        assert(off.y as int * off.y as int <= 1_000_000_000_000_000_000_000_000_000_000
            && off.y as int * off.y as int >= 0) by (nonlinear_arith)
            requires
                -1_000_000_000_000_000 <= off.y as int <= 1_000_000_000_000_000,
        ;
    }
    let r2x: i128 = (off.x as i128) * (off.x as i128);
    let r2y: i128 = (off.y as i128) * (off.y as i128);
    let r2: u128 = (r2x + r2y) as u128;
    let radius: u64 = isqrt_u128(r2);
    proof {
        assert(radius <= 1_500_000_000_000_000) by {
            if radius > 1_500_000_000_000_000 {
                assert(radius as int * radius as int
                    > 2_000_000_000_000_000_000_000_000_000_000) by (nonlinear_arith)
                    requires
                        radius as int > 1_500_000_000_000_000,
                ;
            }
        }
    }
    let sa: i64 = atan2_fix(cur.y - cy, cur.x - cx);
    let ea: i64 = atan2_fix(end.y - cy, end.x - cx);
    let raw: i64 = ea - sa;
    let delta: i64 = match mode {
        InterpolationMode::ClockwiseCircular => {
            if raw > 0 {
                raw - TAU_FIX
            } else {
                raw
            }
        },
        InterpolationMode::CounterClockwiseCircular => {
            if raw < 0 {
                raw + TAU_FIX
            } else {
                raw
            }
        },
        InterpolationMode::Linear => raw,
    };
    let delta_abs: u64 = if delta < 0 {
        (-delta) as u64
    } else {
        delta as u64
    };
    let ghost base = out@;
    let mut k: usize = 1;
    while k <= 16
        invariant
            1 <= k <= 17,
            spec_point_bounded(cur),
            spec_point_bounded(end),
            spec_point_bounded(off),
            cx == cur.x + off.x,
            cy == cur.y + off.y,
            radius as int == spec_isqrt(off.x as int * off.x as int + off.y as int * off.y as int),
            radius <= 1_500_000_000_000_000,
            sa as int == spec_atan2(cur.y as int - cy as int, cur.x as int - cx as int),
            ea as int == spec_atan2(end.y as int - cy as int, end.x as int - cx as int),
            -3_141_592_654 <= sa <= 3_141_592_654,
            delta as int == spec_arc_delta(ea as int - sa as int, mode),
            -6_283_185_308 <= delta <= 6_283_185_308,
            delta_abs == (if delta < 0 {
                -(delta as int)
            } else {
                delta as int
            }),
            out@ == base + Seq::new(
                (k - 1) as nat,
                |j: int|
                    spec_arc_sample(
                        cx as int,
                        cy as int,
                        radius as int,
                        sa as int,
                        delta as int,
                        j + 1,
                    ),
            ),
            forall|j: int|
                base.len() <= j < out@.len() ==> -4_000_000_000_000_000 <= (
                #[trigger] out@[j]).x <= 4_000_000_000_000_000 && -4_000_000_000_000_000
                    <= out@[j].y <= 4_000_000_000_000_000,
        decreases 17 - k,
    {
        proof {
            lemma_mul_upper_bound(delta_abs as int, 6_283_185_308, k as int, 16);
            vstd::arithmetic::div_mod::lemma_div_is_ordered(
                delta_abs as int * k as int,
                100_530_964_928,
                16,
            );
            vstd::arithmetic::div_mod::lemma_div_pos_is_pos(delta_abs as int * k as int, 16);
        }
        let step_u: u64 = delta_abs * (k as u64) / 16;
        let angle: i64 = if delta >= 0 {
            sa + (step_u as i64)
        } else {
            sa - (step_u as i64)
        };
        let c = cos_fix(angle);
        let s = sin_fix(angle);
        proof {
            lemma_mul_upper_bound(radius as int, 1_500_000_000_000_000, 1_100_000_000, 1_100_000_000);
            if c >= 0 {
                lemma_mul_upper_bound(radius as int, 1_500_000_000_000_000, c as int, 1_100_000_000);
                vstd::arithmetic::div_mod::lemma_div_is_ordered(
                    radius as int * c as int,
                    1_650_000_000_000_000_000_000_000,
                    1_000_000_000,
                );
                vstd::arithmetic::div_mod::lemma_div_pos_is_pos(radius as int * c as int, 1_000_000_000);
            } else {
                lemma_mul_upper_bound(radius as int, 1_500_000_000_000_000, -(c as int), 1_100_000_000);
                vstd::arithmetic::div_mod::lemma_div_is_ordered(
                    radius as int * -(c as int),
                    1_650_000_000_000_000_000_000_000,
                    1_000_000_000,
                );
                vstd::arithmetic::div_mod::lemma_div_pos_is_pos(
                    radius as int * -(c as int),
                    1_000_000_000,
                );
            }
            if s >= 0 {
                lemma_mul_upper_bound(radius as int, 1_500_000_000_000_000, s as int, 1_100_000_000);
                vstd::arithmetic::div_mod::lemma_div_is_ordered(
                    radius as int * s as int,
                    1_650_000_000_000_000_000_000_000,
                    1_000_000_000,
                );
                vstd::arithmetic::div_mod::lemma_div_pos_is_pos(radius as int * s as int, 1_000_000_000);
            } else {
                lemma_mul_upper_bound(radius as int, 1_500_000_000_000_000, -(s as int), 1_100_000_000);
                vstd::arithmetic::div_mod::lemma_div_is_ordered(
                    radius as int * -(s as int),
                    1_650_000_000_000_000_000_000_000,
                    1_000_000_000,
                );
                vstd::arithmetic::div_mod::lemma_div_pos_is_pos(
                    radius as int * -(s as int),
                    1_000_000_000,
                );
            }
        }
        let dx: i64 = if c >= 0 {
            (((radius as u128) * (c as u128)) / 1_000_000_000) as i64
        } else {
            -((((radius as u128) * ((-c) as u128)) / 1_000_000_000) as i64)
        };
        let dy: i64 = if s >= 0 {
            (((radius as u128) * (s as u128)) / 1_000_000_000) as i64
        } else {
            -((((radius as u128) * ((-s) as u128)) / 1_000_000_000) as i64)
        };
        let px: i64 = cx + dx;
        let py: i64 = cy + dy;
        out.push(Point { x: px, y: py });
        proof {
            assert(Point { x: px, y: py } == spec_arc_sample(
                cx as int,
                cy as int,
                radius as int,
                sa as int,
                delta as int,
                k as int,
            ));
            assert(out@ =~= base + Seq::new(
                k as nat,
                |j: int|
                    spec_arc_sample(
                        cx as int,
                        cy as int,
                        radius as int,
                        sa as int,
                        delta as int,
                        j + 1,
                    ),
            ));
        }
        k += 1;
    }
    proof {
        assert(out@ =~= base + spec_arc_points(cur, end, off, mode));
    }
}

/// The running state of an outline traversal: the current point, the
/// active mode, the captured anchor, and the points emitted so far.
pub ghost struct OutlineTrace {
    /// Current position
    pub cur: Point,
    /// Active interpolation mode
    pub mode: InterpolationMode,
    /// The first `Move` point, the outline's anchor
    pub start: Option<Point>,
    /// Points collected so far
    pub pts: Seq<Point>,
}

/// The traversal state every outline starts from.
pub open spec fn spec_outline_init() -> OutlineTrace {
    OutlineTrace {
        cur: Point { x: 0, y: 0 },
        mode: InterpolationMode::Linear,
        start: None,
        pts: Seq::empty(),
    }
}

/// The effect of one command on an outline traversal: moves and draws
/// append their point, arcs append sixteen tessellated points, mode
/// commands switch the arc direction, everything else is ignored.
pub open spec fn spec_outline_step(tr: OutlineTrace, cmd: Command) -> OutlineTrace {
    match cmd {
        Command::Move { point } => OutlineTrace {
            cur: point,
            mode: tr.mode,
            start: if tr.start is None {
                Some(point)
            } else {
                tr.start
            },
            pts: tr.pts.push(point),
        },
        Command::Draw { point } => OutlineTrace {
            cur: point,
            mode: tr.mode,
            start: tr.start,
            pts: tr.pts.push(point),
        },
        Command::ArcDraw { end_point, center_offset } => OutlineTrace {
            cur: end_point,
            mode: tr.mode,
            start: tr.start,
            pts: tr.pts + spec_arc_points(tr.cur, end_point, center_offset, tr.mode),
        },
        Command::SetInterpolationMode(m) => OutlineTrace {
            cur: tr.cur,
            mode: m,
            start: tr.start,
            pts: tr.pts,
        },
        _ => tr,
    }
}

/// The outline traversal over a whole command sequence.
pub open spec fn spec_outline_fold(cmds: Seq<Command>) -> OutlineTrace
    decreases cmds.len(),
{
    if cmds.len() == 0 {
        spec_outline_init()
    } else {
        spec_outline_step(spec_outline_fold(cmds.drop_last()), cmds.last())
    }
}

/// The points of the outline, closed by appending the anchor when the
/// traversal did not end on it.
pub open spec fn spec_outline_points(cmds: Seq<Command>) -> Seq<Point> {
    let tr = spec_outline_fold(cmds);
    match tr.start {
        Some(start) => if tr.pts.len() > 0 && (start.x != tr.pts.last().x || start.y
            != tr.pts.last().y) {
            tr.pts.push(start)
        } else {
            tr.pts
        },
        None => tr.pts,
    }
}

/// Extract the closed outline polygon from a command sequence: `Move` and
/// `Draw` points in order, arcs tessellated into sixteen points each, the
/// anchor appended when needed for closure.  Fails with
/// [`OutlineError::TooFewPoints`] exactly when the closed outline has
/// fewer than three points.
pub fn build_outline(commands: &[Command]) -> (r: Result<Vec<Point>, OutlineError>)
    requires
        forall|i: int| 0 <= i < commands@.len() ==> spec_cmd_bounded(#[trigger] commands@[i]),
    ensures
        match r {
            Ok(poly) => spec_outline_points(commands@).len() >= 3 && poly@ == spec_outline_points(
                commands@,
            ),
            Err(e) => spec_outline_points(commands@).len() < 3 && e == OutlineError::TooFewPoints,
        },
{
    let mut outline: Vec<Point> = Vec::new();
    let mut current_x: i64 = 0;
    let mut current_y: i64 = 0;
    let mut current_mode = InterpolationMode::Linear;
    let mut start_point: Option<Point> = None;
    let n = commands.len();
    let mut i: usize = 0;
    while i < n
        invariant
            i <= n,
            n == commands@.len(),
            forall|j: int| 0 <= j < commands@.len() ==> spec_cmd_bounded(#[trigger] commands@[j]),
            current_x == spec_outline_fold(commands@.take(i as int)).cur.x,
            current_y == spec_outline_fold(commands@.take(i as int)).cur.y,
            current_mode == spec_outline_fold(commands@.take(i as int)).mode,
            start_point == spec_outline_fold(commands@.take(i as int)).start,
            outline@ == spec_outline_fold(commands@.take(i as int)).pts,
            -COORD_LIMIT <= current_x <= COORD_LIMIT,
            -COORD_LIMIT <= current_y <= COORD_LIMIT,
        decreases n - i,
    {
        proof {
            assert(commands@.take(i + 1).drop_last() =~= commands@.take(i as int));
            assert(commands@.take(i + 1).last() == commands@[i as int]);
        }
        match commands[i] {
            Command::Move { point } => {
                current_x = point.x;
                current_y = point.y;
                if start_point.is_none() {
                    start_point = Some(Point { x: current_x, y: current_y });
                }
                outline.push(Point { x: current_x, y: current_y });
            },
            Command::Draw { point } => {
                current_x = point.x;
                current_y = point.y;
                outline.push(Point { x: current_x, y: current_y });
            },
            Command::ArcDraw { end_point, center_offset } => {
                arc_points_into(
                    Point { x: current_x, y: current_y },
                    end_point,
                    center_offset,
                    current_mode,
                    &mut outline,
                );
                current_x = end_point.x;
                current_y = end_point.y;
            },
            Command::SetInterpolationMode(mode) => {
                current_mode = mode;
            },
            _ => {},
        }
        i += 1;
    }
    proof {
        assert(commands@.take(n as int) =~= commands@);
    }
    // Make sure the outline is closed.
    if let Some(start) = start_point {
        if outline.len() > 0 {
            let last = outline[outline.len() - 1];
            if start.x != last.x || start.y != last.y {
                outline.push(start);
            }
        }
    }
    proof {
        assert(outline@ == spec_outline_points(commands@));
    }
    if outline.len() < 3 {
        return Err(OutlineError::TooFewPoints);
    }
    Ok(outline)
}

// ------------------------------------------------------------------
// Extrusion
// ------------------------------------------------------------------

/// The top-side copy of an outline point: lifted to the board thickness,
/// with an upward unit normal.
pub open spec fn spec_top_vertex(p: Point, thickness: i64) -> Vertex {
    Vertex {
        position: Point3D { x: p.x, y: p.y, z: thickness },
        normal: Point3D { x: 0, y: 0, z: NANO_PER_UNIT },
    }
}

/// The bottom-side copy of an outline point: at height zero, with a
/// downward unit normal.
pub open spec fn spec_bottom_vertex(p: Point) -> Vertex {
    Vertex {
        position: Point3D { x: p.x, y: p.y, z: 0 },
        normal: Point3D { x: 0, y: 0, z: (-NANO_PER_UNIT) as i64 },
    }
}

/// The interleaved vertex list of an extrusion: point `k` occupies index
/// `2k` (top) and `2k + 1` (bottom).
pub open spec fn spec_extrude_vertices(poly: Seq<Point>, thickness: i64) -> Seq<Vertex> {
    Seq::new(
        (2 * poly.len()) as nat,
        |i: int|
            if i % 2 == 0 {
                spec_top_vertex(poly[i / 2], thickness)
            } else {
                spec_bottom_vertex(poly[i / 2])
            },
    )
}

/// The top face: all even vertex indices in point order.
pub open spec fn spec_top_face(n: int) -> Seq<usize> {
    Seq::new(n as nat, |k: int| (2 * k) as usize)
}

/// The bottom face: all odd vertex indices in reverse point order.
pub open spec fn spec_bottom_face(n: int) -> Seq<usize> {
    Seq::new(n as nat, |k: int| (2 * (n - 1 - k) + 1) as usize)
}

/// The side quad for the edge from point `k` to its successor.
pub open spec fn spec_side_face(n: int, k: int) -> Seq<usize> {
    seq![
        (2 * k) as usize,
        (2 * k + 1) as usize,
        (2 * ((k + 1) % n) + 1) as usize,
        (2 * ((k + 1) % n)) as usize,
    ]
}

/// Extrude a closed polygon into a watertight solid: one top and one
/// bottom copy of each point, a top face over the even indices, a bottom
/// face over the odd indices in reverse, and one side quad per edge.
/// For `N` points the mesh always has `2N` vertices and `N + 2` faces.
pub fn extrude(polygon: &[Point], thickness: i64) -> (m: Mesh)
    requires
        3 <= polygon@.len() <= 1_000_000_000,
    ensures
        m.layer_type == LayerType::EdgeCuts,
        m.vertices@ == spec_extrude_vertices(polygon@, thickness),
        m.vertices@.len() == 2 * polygon@.len(),
        m.faces@.len() == polygon@.len() + 2,
        m.faces@[0].vertices@ == spec_top_face(polygon@.len() as int),
        m.faces@[1].vertices@ == spec_bottom_face(polygon@.len() as int),
        forall|k: int|
            0 <= k < polygon@.len() ==> (#[trigger] m.faces@[2 + k]).vertices@ == spec_side_face(
                polygon@.len() as int,
                k,
            ),
{
    let n = polygon.len();
    // Top and bottom vertices, interleaved.
    let mut vertices: Vec<Vertex> = Vec::new();
    let mut i: usize = 0;
    while i < n
        invariant
            i <= n,
            n == polygon@.len(),
            n <= 1_000_000_000,
            vertices@ == spec_extrude_vertices(polygon@.take(i as int), thickness),
        decreases n - i,
    {
        let point = polygon[i];
        vertices.push(
            Vertex {
                position: Point3D { x: point.x, y: point.y, z: thickness },
                normal: Point3D { x: 0, y: 0, z: NANO_PER_UNIT },
            },
        );
        vertices.push(
            Vertex {
                position: Point3D { x: point.x, y: point.y, z: 0 },
                normal: Point3D { x: 0, y: 0, z: -NANO_PER_UNIT },
            },
        );
        proof {
            assert(vertices@ =~= spec_extrude_vertices(polygon@.take(i + 1), thickness));
        }
        i += 1;
    }
    proof {
        assert(polygon@.take(n as int) =~= polygon@);
    }
    let mut faces: Vec<Face> = Vec::new();
    // Top face over the even indices.
    let mut top_face: Vec<usize> = Vec::new();
    let mut k: usize = 0;
    while k < n
        invariant
            k <= n,
            n == polygon@.len(),
            n <= 1_000_000_000,
            top_face@ == Seq::new(k as nat, |j: int| (2 * j) as usize),
        decreases n - k,
    {
        top_face.push(k * 2);
        proof {
            assert(top_face@ =~= Seq::new((k + 1) as nat, |j: int| (2 * j) as usize));
        }
        k += 1;
    }
    faces.push(Face { vertices: top_face });
    // Bottom face over the odd indices, reversed.
    let mut bottom_face: Vec<usize> = Vec::new();
    let mut k2: usize = 0;
    while k2 < n
        invariant
            k2 <= n,
            n == polygon@.len(),
            n <= 1_000_000_000,
            bottom_face@ == Seq::new(
                k2 as nat,
                |j: int| (2 * (n as int - 1 - j) + 1) as usize,
            ),
        decreases n - k2,
    {
        bottom_face.push((n - 1 - k2) * 2 + 1);
        proof {
            assert(bottom_face@ =~= Seq::new(
                (k2 + 1) as nat,
                |j: int| (2 * (n as int - 1 - j) + 1) as usize,
            ));
        }
        k2 += 1;
    }
    faces.push(Face { vertices: bottom_face });
    // Side quads connecting top and bottom.
    let mut k3: usize = 0;
    while k3 < n
        invariant
            k3 <= n,
            n == polygon@.len(),
            3 <= n <= 1_000_000_000,
            faces@.len() == 2 + k3,
            faces@[0].vertices@ == spec_top_face(n as int),
            faces@[1].vertices@ == spec_bottom_face(n as int),
            forall|j: int|
                0 <= j < k3 ==> (#[trigger] faces@[2 + j]).vertices@ == spec_side_face(
                    n as int,
                    j,
                ),
        decreases n - k3,
    {
        let next: usize = (k3 + 1) % n;
        let quad: Vec<usize> = vec![k3 * 2, k3 * 2 + 1, next * 2 + 1, next * 2];
        proof {
            assert(quad@ =~= spec_side_face(n as int, k3 as int));
        }
        faces.push(Face { vertices: quad });
        k3 += 1;
    }
    Mesh { vertices, faces, layer_type: LayerType::EdgeCuts }
}

// ------------------------------------------------------------------
// Layer meshes
// ------------------------------------------------------------------

/// The thickness to use: the given one, or the 1.6-unit default.
pub open spec fn spec_thickness(thickness: Option<i64>) -> i64 {
    match thickness {
        Some(t) => t,
        None => DEFAULT_THICKNESS,
    }
}

/// The four corners of an axis-aligned placeholder square at height `z`
/// with a vertical unit normal of sign `nz`.
pub open spec fn spec_rect_vertices(cx: int, cy: int, size: int, z: int, nz: int) -> Seq<Vertex> {
    seq![
        Vertex {
            position: Point3D { x: (cx - size) as i64, y: (cy - size) as i64, z: z as i64 },
            normal: Point3D { x: 0, y: 0, z: nz as i64 },
        },
        Vertex {
            position: Point3D { x: (cx + size) as i64, y: (cy - size) as i64, z: z as i64 },
            normal: Point3D { x: 0, y: 0, z: nz as i64 },
        },
        Vertex {
            position: Point3D { x: (cx + size) as i64, y: (cy + size) as i64, z: z as i64 },
            normal: Point3D { x: 0, y: 0, z: nz as i64 },
        },
        Vertex {
            position: Point3D { x: (cx - size) as i64, y: (cy + size) as i64, z: z as i64 },
            normal: Point3D { x: 0, y: 0, z: nz as i64 },
        },
    ]
}

/// The vertical unit normal of a one-sided layer: up for the top side,
/// down for the bottom.
pub open spec fn spec_side_normal(is_top: bool) -> int {
    if is_top {
        NANO_PER_UNIT as int
    } else {
        -NANO_PER_UNIT as int
    }
}

/// Build a placeholder square and its single face at height `z`.
fn build_square_mesh(cx: i64, cy: i64, size: i64, z: i64, is_top: bool, layer: LayerType) -> (m:
    Mesh)
    requires
        0 <= size,
        -1_000_000_000_000_000_000 <= cx - size,
        cx + size <= 1_000_000_000_000_000_000,
        -1_000_000_000_000_000_000 <= cy - size,
        cy + size <= 1_000_000_000_000_000_000,
    ensures
        m.layer_type == layer,
        m.vertices@ == spec_rect_vertices(
            cx as int,
            cy as int,
            size as int,
            z as int,
            spec_side_normal(is_top),
        ),
        m.faces@.len() == 1,
        m.faces@[0].vertices@ == seq![0usize, 1usize, 2usize, 3usize],
{
    let nz: i64 = if is_top {
        NANO_PER_UNIT
    } else {
        -NANO_PER_UNIT
    };
    let mut vertices: Vec<Vertex> = Vec::new();
    vertices.push(
        Vertex {
            position: Point3D { x: cx - size, y: cy - size, z },
            normal: Point3D { x: 0, y: 0, z: nz },
        },
    );
    vertices.push(
        Vertex {
            position: Point3D { x: cx + size, y: cy - size, z },
            normal: Point3D { x: 0, y: 0, z: nz },
        },
    );
    vertices.push(
        Vertex {
            position: Point3D { x: cx + size, y: cy + size, z },
            normal: Point3D { x: 0, y: 0, z: nz },
        },
    );
    vertices.push(
        Vertex {
            position: Point3D { x: cx - size, y: cy + size, z },
            normal: Point3D { x: 0, y: 0, z: nz },
        },
    );
    proof {
        assert(vertices@ =~= spec_rect_vertices(
            cx as int,
            cy as int,
            size as int,
            z as int,
            spec_side_normal(is_top),
        ));
    }
    let mut faces: Vec<Face> = Vec::new();
    let face_indices: Vec<usize> = vec![0, 1, 2, 3];
    proof {
        assert(face_indices@ =~= seq![0usize, 1usize, 2usize, 3usize]);
    }
    faces.push(Face { vertices: face_indices });
    Mesh { vertices, faces, layer_type: layer }
}

/// Creates a 3D mesh representing a copper layer (top or bottom).
///
/// This is a placeholder visualization: a fixed square at the layer's
/// height, not a trace of the copper commands.
pub fn build_copper_mesh(_commands: &[Command], is_top: bool, thickness: Option<i64>) -> (r:
    Result<Mesh, OutlineError>)
    requires
        thickness matches Some(t) ==> -1_000_000_000_000_000 <= t <= 1_000_000_000_000_000,
    ensures
        r matches Ok(m) && m.layer_type == LayerType::Copper && m.vertices@ == spec_rect_vertices(
            150_000_000_000,
            -90_000_000_000,
            10_000_000_000,
            if is_top {
                spec_thickness(thickness) as int
            } else {
                0
            },
            spec_side_normal(is_top),
        ) && m.faces@.len() == 1 && m.faces@[0].vertices@ == seq![0usize, 1usize, 2usize, 3usize],
{
    let pcb_thickness = match thickness {
        Some(t) => t,
        None => DEFAULT_THICKNESS,
    };
    let z_position: i64 = if is_top {
        pcb_thickness
    } else {
        0
    };
    Ok(
        build_square_mesh(
            150_000_000_000,
            -90_000_000_000,
            10_000_000_000,
            z_position,
            is_top,
            LayerType::Copper,
        ),
    )
}

/// The extra height of the silkscreen coat above or below the board.
pub const SILKSCREEN_THICKNESS: i64 = 10_000_000;

/// Creates a 3D mesh representing a silkscreen layer (top or bottom).
///
/// This is a placeholder visualization: a fixed square floating one coat
/// above the top or below the bottom of the board.
pub fn build_silkscreen_mesh(_commands: &[Command], is_top: bool, thickness: Option<i64>) -> (r:
    Result<Mesh, OutlineError>)
    requires
        thickness matches Some(t) ==> -1_000_000_000_000_000 <= t <= 1_000_000_000_000_000,
    ensures
        r matches Ok(m) && m.layer_type == LayerType::Silkscreen && m.vertices@
            == spec_rect_vertices(
            200_000_000_000,
            -90_000_000_000,
            5_000_000_000,
            if is_top {
                spec_thickness(thickness) + SILKSCREEN_THICKNESS
            } else {
                -SILKSCREEN_THICKNESS as int
            },
            spec_side_normal(is_top),
        ) && m.faces@.len() == 1 && m.faces@[0].vertices@ == seq![0usize, 1usize, 2usize, 3usize],
{
    let pcb_thickness = match thickness {
        Some(t) => t,
        None => DEFAULT_THICKNESS,
    };
    let z_position: i64 = if is_top {
        pcb_thickness + SILKSCREEN_THICKNESS
    } else {
        -SILKSCREEN_THICKNESS
    };
    Ok(
        build_square_mesh(
            200_000_000_000,
            -90_000_000_000,
            5_000_000_000,
            z_position,
            is_top,
            LayerType::Silkscreen,
        ),
    )
}

/// Creates a 3D mesh representing the PCB outline from the edge-cuts
/// commands: the closed outline polygon extruded to the board thickness.
pub fn build_edge_cuts_mesh(commands: &[Command], thickness: Option<i64>) -> (r: Result<
    Mesh,
    OutlineError,
>)
    requires
        forall|i: int| 0 <= i < commands@.len() ==> spec_cmd_bounded(#[trigger] commands@[i]),
        commands@.len() <= 50_000_000,
    ensures
        match r {
            Ok(m) => {
                &&& spec_outline_points(commands@).len() >= 3
                &&& m.layer_type == LayerType::EdgeCuts
                &&& m.vertices@ == spec_extrude_vertices(
                    spec_outline_points(commands@),
                    spec_thickness(thickness),
                )
                &&& m.vertices@.len() == 2 * spec_outline_points(commands@).len()
                &&& m.faces@.len() == spec_outline_points(commands@).len() + 2
                &&& m.faces@[0].vertices@ == spec_top_face(
                    spec_outline_points(commands@).len() as int,
                )
                &&& m.faces@[1].vertices@ == spec_bottom_face(
                    spec_outline_points(commands@).len() as int,
                )
                &&& forall|k: int|
                    0 <= k < spec_outline_points(commands@).len() ==> (
                    #[trigger] m.faces@[2 + k]).vertices@ == spec_side_face(
                        spec_outline_points(commands@).len() as int,
                        k,
                    )
            },
            Err(e) => spec_outline_points(commands@).len() < 3 && e
                == OutlineError::TooFewPoints,
        },
{
    let pcb_thickness = match thickness {
        Some(t) => t,
        None => DEFAULT_THICKNESS,
    };
    let outline = match build_outline(commands) {
        Ok(points) => points,
        Err(e) => {
            return Err(e);
        },
    };
    proof {
        lemma_outline_points_len(commands@);
    }
    let mesh = extrude(outline.as_slice(), pcb_thickness);
    Ok(mesh)
}

/// The outline has at most seventeen points per command, plus the closing
/// point.
proof fn lemma_outline_points_len(cmds: Seq<Command>)
    ensures
        spec_outline_points(cmds).len() <= 17 * cmds.len() + 1,
{
    lemma_outline_fold_len(cmds);
}

proof fn lemma_outline_fold_len(cmds: Seq<Command>)
    ensures
        spec_outline_fold(cmds).pts.len() <= 17 * cmds.len(),
    decreases cmds.len(),
{
    if cmds.len() > 0 {
        lemma_outline_fold_len(cmds.drop_last());
    }
}

// ------------------------------------------------------------------
// Laws of the outline and the arc sweep
// ------------------------------------------------------------------

/// An arc-free traversal emits exactly one point per `Move` or `Draw`
/// command, and captures an anchor exactly when a `Move` occurred.
pub proof fn lemma_outline_fold_count(cmds: Seq<Command>)
    requires
        spec_count_arcs(cmds) == 0,
    ensures
        spec_outline_fold(cmds).pts.len() == spec_count_moves(cmds) + spec_count_draws(cmds),
        spec_outline_fold(cmds).start is Some <==> spec_count_moves(cmds) >= 1,
    decreases cmds.len(),
{
    if cmds.len() > 0 {
        lemma_count_arcs_nonneg(cmds.drop_last());
        lemma_count_moves_nonneg(cmds.drop_last());
        lemma_count_draws_nonneg(cmds.drop_last());
        lemma_outline_fold_count(cmds.drop_last());
    }
}

proof fn lemma_count_arcs_nonneg(cmds: Seq<Command>)
    ensures
        spec_count_arcs(cmds) >= 0,
    decreases cmds.len(),
{
    if cmds.len() > 0 {
        lemma_count_arcs_nonneg(cmds.drop_last());
    }
}

/// For a command sequence with at least one `Move` and no `ArcDraw`, the
/// outline's point count is the number of `Move` and `Draw` commands,
/// plus one closing point exactly when the anchor differs from the last
/// traversed point.
pub proof fn lemma_outline_point_count(cmds: Seq<Command>)
    requires
        spec_count_moves(cmds) >= 1,
        spec_count_arcs(cmds) == 0,
    ensures
        spec_outline_fold(cmds).start is Some,
        spec_outline_fold(cmds).pts.len() == spec_count_moves(cmds) + spec_count_draws(cmds),
        spec_outline_points(cmds).len() == spec_count_moves(cmds) + spec_count_draws(cmds) + (
        if spec_outline_fold(cmds).start != Some(spec_outline_fold(cmds).pts.last()) {
            1int
        } else {
            0int
        }),
{
    lemma_outline_fold_count(cmds);
    lemma_count_moves_nonneg(cmds);
    lemma_count_draws_nonneg(cmds);
    let tr = spec_outline_fold(cmds);
    let start = tr.start.unwrap();
    let last = tr.pts.last();
    assert((start.x != last.x || start.y != last.y) <==> start != last);
    assert((tr.start != Some(last)) <==> start != last);
}

proof fn lemma_count_moves_nonneg(cmds: Seq<Command>)
    ensures
        spec_count_moves(cmds) >= 0,
    decreases cmds.len(),
{
    if cmds.len() > 0 {
        lemma_count_moves_nonneg(cmds.drop_last());
    }
}

proof fn lemma_count_draws_nonneg(cmds: Seq<Command>)
    ensures
        spec_count_draws(cmds) >= 0,
    decreases cmds.len(),
{
    if cmds.len() > 0 {
        lemma_count_draws_nonneg(cmds.drop_last());
    }
}

/// Whether every `Draw` or `ArcDraw` is preceded by some `Move`: the
/// well-formedness every outline layer file has in practice.
pub open spec fn spec_moves_first(cmds: Seq<Command>) -> bool {
    forall|j: int|
        0 <= j < cmds.len() && ((#[trigger] cmds[j]) is Draw || cmds[j] is ArcDraw) ==> exists|
            i: int,
        | 0 <= i < j && (#[trigger] cmds[i]) is Move
}

/// A traversal that captured an anchor has emitted at least one point,
/// and it captured one exactly when a `Move` occurred.
proof fn lemma_outline_anchor(cmds: Seq<Command>)
    ensures
        spec_outline_fold(cmds).start is Some <==> exists|i: int|
            0 <= i < cmds.len() && (#[trigger] cmds[i]) is Move,
        spec_outline_fold(cmds).start is Some ==> spec_outline_fold(cmds).pts.len() >= 1,
    decreases cmds.len(),
{
    if cmds.len() > 0 {
        let dl = cmds.drop_last();
        lemma_outline_anchor(dl);
        if cmds.last() is Move {
            assert(cmds[cmds.len() - 1] is Move);
        } else {
            if spec_outline_fold(dl).start is Some {
                let i = choose|i: int| 0 <= i < dl.len() && (#[trigger] dl[i]) is Move;
                assert(cmds[i] is Move);
            }
            if exists|i: int| 0 <= i < cmds.len() && (#[trigger] cmds[i]) is Move {
                let i = choose|i: int| 0 <= i < cmds.len() && (#[trigger] cmds[i]) is Move;
                assert(dl[i] is Move);
            }
        }
    }
}

/// When no draw precedes the first move, the first emitted point is the
/// anchor itself.
proof fn lemma_outline_first_point(cmds: Seq<Command>)
    requires
        spec_moves_first(cmds),
    ensures
        spec_outline_fold(cmds).pts.len() > 0 ==> spec_outline_fold(cmds).start is Some
            && spec_outline_fold(cmds).pts[0] == spec_outline_fold(cmds).start.unwrap(),
    decreases cmds.len(),
{
    if cmds.len() > 0 {
        let dl = cmds.drop_last();
        assert(spec_moves_first(dl)) by {
            assert forall|j: int|
                0 <= j < dl.len() && ((#[trigger] dl[j]) is Draw || dl[j] is ArcDraw) implies exists|
                i: int,
            | 0 <= i < j && (#[trigger] dl[i]) is Move by {
                assert(cmds[j] is Draw || cmds[j] is ArcDraw);
                let i = choose|i: int| 0 <= i < j && (#[trigger] cmds[i]) is Move;
                assert(dl[i] is Move);
            }
        }
        lemma_outline_first_point(dl);
        lemma_outline_anchor(dl);
        let last = cmds.last();
        if last is Draw || last is ArcDraw {
            assert(cmds[cmds.len() - 1] is Draw || cmds[cmds.len() - 1] is ArcDraw);
            let i = choose|i: int| 0 <= i < cmds.len() - 1 && (#[trigger] cmds[i]) is Move;
            assert(dl[i] is Move);
            assert(spec_outline_fold(dl).start is Some);
        }
    }
}

/// The outline polygon is closed: when no draw precedes the first move
/// and anything was traversed at all, the polygon's first point is the
/// anchor and its last point closes back onto it.
pub proof fn lemma_outline_closed(cmds: Seq<Command>)
    requires
        spec_moves_first(cmds),
        spec_outline_fold(cmds).pts.len() > 0,
    ensures
        spec_outline_points(cmds).len() > 0,
        spec_outline_points(cmds).first() == spec_outline_points(cmds).last(),
{
    lemma_outline_first_point(cmds);
    lemma_outline_anchor(cmds);
    let tr = spec_outline_fold(cmds);
    let anchor = tr.start.unwrap();
    let pts = spec_outline_points(cmds);
    if anchor.x != tr.pts.last().x || anchor.y != tr.pts.last().y {
        assert(pts == tr.pts.push(anchor));
        assert(pts.first() == tr.pts[0]);
        assert(pts.last() == anchor);
    } else {
        assert(anchor == tr.pts.last());
    }
}

/// The sixteenth sample of an arc lands exactly on the start angle plus
/// the normalized sweep, and the normalization never lets a sweep run
/// against the arc's direction: a clockwise sweep is never positive, a
/// counter-clockwise sweep never negative.  Every difference of two
/// arctangents lies within one turn, so the bound covers every arc.
pub proof fn lemma_arc_sweep(start_angle: int, raw: int, mode: InterpolationMode)
    requires
        -TAU_FIX <= raw <= TAU_FIX,
    ensures
        spec_arc_sample_angle(start_angle, spec_arc_delta(raw, mode), 16) == start_angle
            + spec_arc_delta(raw, mode),
        mode is ClockwiseCircular ==> spec_arc_delta(raw, mode) <= 0,
        mode is CounterClockwiseCircular ==> spec_arc_delta(raw, mode) >= 0,
{
    let d = spec_arc_delta(raw, mode);
    if d >= 0 {
        assert((d * 16) / 16 == d) by {
            vstd::arithmetic::div_mod::lemma_div_multiples_vanish(d, 16);
            assert(d * 16 == 16 * d);
        }
    } else {
        assert(((-d) * 16) / 16 == -d) by {
            vstd::arithmetic::div_mod::lemma_div_multiples_vanish(-d, 16);
            assert((-d) * 16 == 16 * (-d));
        }
    }
}

} // verus!
