//! Scenarios for the coordinate decoder and the line recognizers.

use pcbgen::gerber::parse::{find_next_letter, parse_coordinate, parse_gerber};
use pcbgen::gerber::types::{Aperture, Command, DecodeError, InterpolationMode};

#[test]
fn decode_fixed_point_tokens() {
    // 4.6 format: the last six digits are the fraction.
    assert_eq!(parse_coordinate(b"1000000", 4, 6), Ok(1_000_000_000));
    assert_eq!(parse_coordinate(b"2000000", 4, 6), Ok(2_000_000_000));
    // 2.4 format.
    assert_eq!(parse_coordinate(b"2500", 2, 4), Ok(250_000_000));
    // Signs.
    assert_eq!(parse_coordinate(b"-5", 2, 4), Ok(-500_000));
    assert_eq!(parse_coordinate(b"+5", 2, 4), Ok(500_000));
    // Leading zeros never change the value.
    assert_eq!(parse_coordinate(b"002500", 2, 4), parse_coordinate(b"2500", 2, 4));
    // An empty numeral denotes zero, mirroring full zero padding.
    assert_eq!(parse_coordinate(b"", 2, 4), Ok(0));
}

#[test]
fn decode_round_trip_reencodes_digits() {
    // Decoding a token and re-encoding its digit value at the format's
    // width reproduces the zero-padded digit string.
    let token = b"2500";
    let value = parse_coordinate(token, 2, 4).unwrap();
    // The fixed-point value counts billionths; the 2.4 format counts
    // ten-thousandths, a factor of 100_000.
    let digits = value / 100_000;
    assert_eq!(format!("{:06}", digits), "002500");
}

#[test]
fn decode_decimal_point_tokens() {
    assert_eq!(parse_coordinate(b"12.5", 2, 4), Ok(12_500_000_000));
    assert_eq!(parse_coordinate(b"-0.25", 2, 4), Ok(-250_000_000));
    assert_eq!(parse_coordinate(b".5", 2, 4), Ok(500_000_000));
    assert_eq!(parse_coordinate(b"5.", 2, 4), Ok(5_000_000_000));
}

#[test]
fn decode_rejects_malformed_tokens() {
    assert_eq!(parse_coordinate(b"12a4", 2, 4), Err(DecodeError::InvalidNumber));
    assert_eq!(parse_coordinate(b"1.2.3", 2, 4), Err(DecodeError::InvalidNumber));
    assert_eq!(parse_coordinate(b".", 2, 4), Err(DecodeError::InvalidNumber));
    // Too large for the fixed-point range.
    assert_eq!(parse_coordinate(b"99999999999999999999", 2, 0), Err(DecodeError::InvalidNumber));
}

#[test]
fn find_next_letter_stops_at_fields() {
    let line = b"X100Y200D01*";
    assert_eq!(find_next_letter(line, 1), 4); // the Y
    assert_eq!(find_next_letter(line, 5), 8); // the D
    assert_eq!(find_next_letter(b"123", 0), 3); // none: end of line
}

#[test]
fn parse_aperture_definitions() {
    let commands = parse_gerber("%ADD10C,0.1*%\n%ADD11R,0.1X0.2*%").unwrap();
    assert_eq!(
        commands,
        vec![
            Command::DefineAperture { code: 10, aperture: Aperture::Circle { diameter: 100_000_000 } },
            Command::DefineAperture {
                code: 11,
                aperture: Aperture::Rectangle { width: 100_000_000, height: 200_000_000 },
            },
        ]
    );
}

#[test]
fn parse_arc_draw_needs_arc_mode_and_offsets() {
    // In clockwise mode with I and J present, D01 is an arc.
    let commands = parse_gerber("G02*\nX0Y100000D01I-50000J0*").unwrap();
    assert_eq!(commands.len(), 2);
    match &commands[1] {
        Command::ArcDraw { end_point, center_offset } => {
            assert_eq!((end_point.x, end_point.y), (0, 10_000_000_000));
            assert_eq!((center_offset.x, center_offset.y), (-5_000_000_000, 0));
        }
        other => panic!("expected an arc, got {:?}", other),
    }

    // Without offsets the same D01 stays a straight draw.
    let commands = parse_gerber("G02*\nX0Y100000D01*").unwrap();
    assert!(matches!(commands[1], Command::Draw { .. }));

    // In linear mode offsets do not make an arc either.
    let commands = parse_gerber("G01*\nX0Y100000D01I-50000J0*").unwrap();
    assert!(matches!(commands[1], Command::Draw { .. }));
}

#[test]
fn parser_state_threads_between_lines() {
    // A line that updates only X keeps the Y of the previous position.
    let commands = parse_gerber("X100000Y200000D02*\nX300000D01*").unwrap();
    assert_eq!(commands.len(), 2);
    match (&commands[0], &commands[1]) {
        (Command::Move { point: a }, Command::Draw { point: b }) => {
            assert_eq!((a.x, a.y), (10_000_000_000, 20_000_000_000));
            assert_eq!((b.x, b.y), (30_000_000_000, 20_000_000_000));
        }
        other => panic!("unexpected commands {:?}", other),
    }

    // A format specification rescales all later coordinates.
    let commands = parse_gerber("%FSLAX24Y24*%\nX2500Y0D02*").unwrap();
    match &commands[1] {
        Command::Move { point } => assert_eq!(point.x, 250_000_000),
        other => panic!("expected a move, got {:?}", other),
    }
}

#[test]
fn parser_recognizer_priority_and_skips() {
    let commands = parse_gerber(
        "G04 a comment that is skipped*\n%MOIN*%\nG36*\nG37*\nD07*\nsomething unknown\nM02*",
    )
    .unwrap();
    assert_eq!(
        commands,
        vec![
            Command::SetUnitsInch,
            Command::BeginRegion,
            Command::EndRegion,
            // D07 is below the aperture range and matches no D code, so the
            // line is skipped, as is the unknown text.
            Command::EndOfFile,
        ]
    );

    // A G01 line is a mode command even when it carries more text.
    let commands = parse_gerber("G01X100Y100D02*").unwrap();
    assert_eq!(commands, vec![Command::SetInterpolationMode(InterpolationMode::Linear)]);
}

#[test]
fn parser_flash_command() {
    let commands = parse_gerber("X100000Y100000D03*").unwrap();
    assert!(matches!(commands[0], Command::Flash { .. }));
}
