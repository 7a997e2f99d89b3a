use spice_raw::parse;
use spice_raw::parse_and_get_csv;
use spice_raw::Flags;
use spice_raw::SpiceParseError;

#[test]
fn end_to_end_real_document() {
    let raw = "Title: t\nDate: d\nPlotname: p\nFlags: real\nNo. Variables: 2\nNo. Points: 2\nVariables:\n0\ttime\ttime\n1\tv1\tvoltage\nValues:\n0\t0.0\n1.0\n1\t1.0\n2.0\n";
    let plot = parse(raw).unwrap();
    assert_eq!(plot.title, "t");
    assert_eq!(plot.date, "d");
    assert_eq!(plot.plotname, "p");
    assert!(matches!(plot.flags, Flags::Real));
    assert_eq!(plot.no_of_variables, 2);
    assert_eq!(plot.no_of_points, 2);
    assert_eq!(plot.data.len(), 2);
    assert_eq!(plot.data[0].name, "time");
    assert_eq!(plot.data[0].typee, "time");
    assert_eq!(plot.data[1].name, "v1");
    assert_eq!(plot.data[1].typee, "voltage");
    assert_eq!(plot.data[0].values, vec!["0".to_string(), "1".to_string()]);
    assert_eq!(plot.data[1].values, vec!["1".to_string(), "2".to_string()]);
    assert!(plot.data[0].angles.is_none());
    assert!(plot.data[1].angles.is_none());
    let csv = parse_and_get_csv(raw).unwrap();
    assert_eq!(csv, "time - time,v1 - voltage\n0,1\n1,2\n");
}

#[test]
fn empty_variable_export() {
    let csv = parse_and_get_csv("").unwrap();
    assert_eq!(csv, "\n");
}

#[test]
fn unknown_flag() {
    let raw = "Flags: weird\n";
    assert!(matches!(parse(raw), Err(SpiceParseError::UnknownFlag)));
    assert!(matches!(parse_and_get_csv(raw), Err(SpiceParseError::UnknownFlag)));
}

#[test]
fn value_count_mismatch() {
    let raw = "No. Variables: 2\nNo. Points: 1\nVariables:\n0\ta\tb\n1\tc\td\nValues:\n0\t1.0\n2.0\n3.0\n";
    assert!(matches!(parse(raw), Err(SpiceParseError::NoOfValMismatch)));
}

#[test]
fn variable_count_exceeded() {
    let raw = "No. Variables: 0\nVariables:\n0\ta\tb\n";
    assert!(matches!(parse(raw), Err(SpiceParseError::NoOfVarMismatch)));
}

#[test]
fn surplus_variable_line_fails() {
    let raw = "No. Variables: 2\nVariables:\n0\ta\tx\n1\tb\ty\n2\tc\tz\nValues:";
    assert!(matches!(parse(raw), Err(SpiceParseError::NoOfVarMismatch)));
}

#[test]
fn redeclared_section_mismatch() {
    let raw = "No. Variables: 1\nNo. Points: 1\nVariables:\n0\ta\tb\nVariables:\n0\tc\td\nValues:\n0\t1.0\n";
    assert!(matches!(parse(raw), Err(SpiceParseError::NoOfVarMismatch)));
}

#[test]
fn missing_variable_lines() {
    let raw = "No. Variables: 2\nVariables:\n0\ta\tb\n";
    assert!(matches!(parse(raw), Err(SpiceParseError::NoOfVarMismatch)));
}

#[test]
fn complex_magnitude_three_four_is_five() {
    let raw = "Flags: complex\nNo. Variables: 1\nNo. Points: 1\nVariables:\n0\tv\tvoltage\nValues:\n0\t3,4\n";
    let plot = parse(raw).unwrap();
    assert_eq!(plot.data[0].values, vec!["5".to_string()]);
    let csv = parse_and_get_csv(raw).unwrap();
    let lines: Vec<&str> = csv.lines().collect();
    assert_eq!(lines[0], "v - voltage,voltage(phase)");
    assert!(lines[1].starts_with("5,"));
    assert!(lines[1].ends_with("\u{b0}"));
}

#[test]
fn complex_zero_phase() {
    let raw = "Flags: complex\nNo. Variables: 1\nNo. Points: 1\nVariables:\n0\tv\tvoltage\nValues:\n0\t1,0\n";
    let csv = parse_and_get_csv(raw).unwrap();
    let lines: Vec<&str> = csv.lines().collect();
    assert_eq!(lines[1], "1,0\u{b0}");
}

#[test]
fn complex_unit_phase_is_in_degrees() {
    let raw = "Flags: complex\nNo. Variables: 1\nNo. Points: 1\nVariables:\n0\tv\tvoltage\nValues:\n0\t1,1\n";
    let csv = parse_and_get_csv(raw).unwrap();
    let lines: Vec<&str> = csv.lines().collect();
    // magnitude sqrt(2), phase atan(1) = pi/4 rad, printed as 45 degrees
    assert!(lines[1].starts_with("1.414213562373095"));
    assert!(lines[1].ends_with("\u{b0}"));
    let phase = lines[1].split(',').nth(1).unwrap();
    assert!(!phase.starts_with("0.785"));
    assert!(phase.starts_with("45") || phase.starts_with("44.9"));
}

#[test]
fn integer_format_error() {
    let raw = "No. Variables: abc\n";
    assert!(matches!(parse(raw), Err(SpiceParseError::ParseInt)));
}

#[test]
fn float_format_error() {
    let raw = "No. Variables: 1\nNo. Points: 1\nVariables:\n0\ta\tb\nValues:\n0\tabc\n";
    assert!(matches!(parse(raw), Err(SpiceParseError::ParseFloat)));
}

#[test]
fn complex_missing_imaginary_part() {
    let raw = "Flags: complex\nNo. Variables: 1\nNo. Points: 1\nVariables:\n0\ta\tb\nValues:\n0\t3\n";
    assert!(matches!(parse(raw), Err(SpiceParseError::ParseFloat)));
}

#[test]
fn trailing_garbage_rejected() {
    let raw = "No. Variables: 1\nNo. Points: 1\nVariables:\n0\ta\tb\nValues:\n0\t1.2abc\n";
    assert!(matches!(parse(raw), Err(SpiceParseError::ParseFloat)));
}

#[test]
fn second_dot_rejected() {
    let raw = "No. Variables: 1\nNo. Points: 1\nVariables:\n0\ta\tb\nValues:\n0\t1.2.3\n";
    assert!(matches!(parse(raw), Err(SpiceParseError::ParseFloat)));
}

#[test]
fn comma_sample_rejected_on_real_document() {
    let raw = "Flags: real\nNo. Variables: 1\nNo. Points: 1\nVariables:\n0\ta\tb\nValues:\n0\t3,4\n";
    assert!(matches!(parse(raw), Err(SpiceParseError::ParseFloat)));
}

#[test]
fn oversized_exponent_rejected() {
    let raw = "No. Variables: 1\nNo. Points: 1\nVariables:\n0\ta\tb\nValues:\n0\t1e1234567890\n";
    assert!(matches!(parse(raw), Err(SpiceParseError::ParseFloat)));
}

#[test]
fn infinite_sample_is_kept() {
    let raw = "No. Variables: 1\nNo. Points: 1\nVariables:\n0\ta\tb\nValues:\n0\tinf\n";
    let plot = parse(raw).unwrap();
    assert_eq!(plot.data[0].values, vec!["Inf".to_string()]);
}

#[test]
fn scientific_sample_is_normalized() {
    let raw = "No. Variables: 1\nNo. Points: 1\nVariables:\n0\ta\tb\nValues:\n0\t2.5e1\n";
    let plot = parse(raw).unwrap();
    assert_eq!(plot.data[0].values, vec!["25".to_string()]);
}

#[test]
fn unicode_whitespace_is_trimmed() {
    let raw = "Title:\u{a0}t\u{a0}\n";
    let plot = parse(raw).unwrap();
    assert_eq!(plot.title, "t");
}

#[test]
fn point_count_validated() {
    let raw = "No. Variables: 1\nNo. Points: 2\nVariables:\n0\ta\tb\nValues:\n0\t1.0\n";
    assert!(matches!(parse(raw), Err(SpiceParseError::NoOfValMismatch)));
}

#[test]
fn date_colons_are_joined() {
    let raw = "Date: Mon 12:30:00\n";
    let plot = parse(raw).unwrap();
    assert_eq!(plot.date, "Mon 123000");
}

#[test]
fn blank_lines_are_skipped() {
    let raw = "\n\nTitle: t\n\nNo. Variables: 1\nNo. Points: 1\n\nVariables:\n0\ta\tb\n\nValues:\n\n0\t2.5\n\n";
    let plot = parse(raw).unwrap();
    assert_eq!(plot.title, "t");
    assert_eq!(plot.data[0].values, vec!["2.5".to_string()]);
}

#[test]
fn complex_series_carry_angles() {
    let raw = "Flags: complex\nNo. Variables: 2\nNo. Points: 2\nVariables:\n0\ta\tb\n1\tc\td\nValues:\n0\t3,4\n0,1\n1\t6,8\n1,0\n";
    let plot = parse(raw).unwrap();
    assert_eq!(plot.no_of_variables, 2);
    for series in plot.data.iter() {
        let angles = series.angles.as_ref().unwrap();
        assert_eq!(angles.len(), series.values.len());
        assert_eq!(series.values.len(), 2);
    }
    assert_eq!(plot.data[0].values, vec!["5".to_string(), "10".to_string()]);
}

#[test]
fn unknown_header_keys_are_ignored() {
    let raw = "Command: version 29\nTitle: t\n";
    let plot = parse(raw).unwrap();
    assert_eq!(plot.title, "t");
}
