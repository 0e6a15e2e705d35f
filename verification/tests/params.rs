use game_debug::params::{
    can_regenerate, cell_count_hint, parse_subdivisions, subdiv_warning, validate_fields,
    ParamsError, RadiusError, SubdivError, MAX_SUBDIVISIONS, MIN_SUBDIVISIONS, WARN_SUBDIVISIONS,
};

#[test]
fn subdivisions_accept_range_edges() {
    assert_eq!(parse_subdivisions("0"), Ok(0));
    assert_eq!(parse_subdivisions("6"), Ok(6));
    assert_eq!(parse_subdivisions("8"), Ok(8));
    assert_eq!(parse_subdivisions("  4  "), Ok(4));
}

#[test]
fn subdivisions_reject_invalid() {
    assert_eq!(parse_subdivisions(""), Err(SubdivError::Empty));
    assert_eq!(parse_subdivisions("   "), Err(SubdivError::Empty));
    assert_eq!(parse_subdivisions("abc"), Err(SubdivError::NotInteger));
    assert_eq!(parse_subdivisions("6.5"), Err(SubdivError::NotInteger));
    assert_eq!(parse_subdivisions("-1"), Err(SubdivError::NotInteger));
    assert_eq!(parse_subdivisions("9"), Err(SubdivError::OutOfRange));
    assert_eq!(parse_subdivisions("100"), Err(SubdivError::OutOfRange));
}

#[test]
fn subdivisions_follow_integer_parse_rules() {
    // A leading plus is accepted, as by `str::parse::<u32>`.
    assert_eq!(parse_subdivisions("+5"), Ok(5));
    assert_eq!(parse_subdivisions("+"), Err(SubdivError::NotInteger));
    assert_eq!(parse_subdivisions("++5"), Err(SubdivError::NotInteger));
    assert_eq!(parse_subdivisions("007"), Ok(7));
    // Integers of any size outside 0–8 are out of range.
    assert_eq!(parse_subdivisions("4294967295"), Err(SubdivError::OutOfRange));
    assert_eq!(parse_subdivisions("4294967296"), Err(SubdivError::OutOfRange));
    assert_eq!(parse_subdivisions("99999999999"), Err(SubdivError::OutOfRange));
    assert_eq!(parse_subdivisions("99999999999999999999999"), Err(SubdivError::OutOfRange));
    assert_eq!(parse_subdivisions(" +99999999999 "), Err(SubdivError::OutOfRange));
    assert_eq!(parse_subdivisions("99999999999x"), Err(SubdivError::NotInteger));
    // Inner whitespace is not trimmed.
    assert_eq!(parse_subdivisions("4 4"), Err(SubdivError::NotInteger));
    // Unicode digits are not decimal digits.
    assert_eq!(parse_subdivisions("٣"), Err(SubdivError::NotInteger));
}

#[test]
fn subdivisions_trim_unicode_whitespace() {
    assert_eq!(parse_subdivisions("\t3\n"), Ok(3));
    assert_eq!(parse_subdivisions("\u{a0}2\u{3000}"), Ok(2));
    assert_eq!(parse_subdivisions("\u{2028}\u{85}1\r"), Ok(1));
    assert_eq!(parse_subdivisions("\u{200b}1"), Err(SubdivError::NotInteger));
    assert_eq!(parse_subdivisions("\u{2009}\u{205f}"), Err(SubdivError::Empty));
}

#[test]
fn cost_hint_matches_mesh_formula() {
    let expected = [12, 42, 162, 642, 2562, 10242, 40962, 163842, 655362];
    for (n, cells) in expected.iter().enumerate() {
        assert_eq!(cell_count_hint(n as u32), *cells, "N={n}");
    }
}

#[test]
fn cost_hint_large_levels() {
    assert_eq!(cell_count_hint(10), 10 * 1_048_576 + 2);
    assert_eq!(cell_count_hint(15), 10 * 1_073_741_824 + 2);
}

#[test]
fn warning_only_above_default() {
    assert!(!subdiv_warning(6));
    assert!(subdiv_warning(7));
    assert!(subdiv_warning(8));
}

#[test]
fn warning_threshold_constants() {
    assert_eq!(MIN_SUBDIVISIONS, 0);
    assert_eq!(MAX_SUBDIVISIONS, 8);
    assert_eq!(WARN_SUBDIVISIONS, 6);
    assert!(!subdiv_warning(0));
}

#[test]
fn validate_gates_regenerate() {
    assert!(can_regenerate("6", Ok::<f32, RadiusError>(1.0)));
    assert!(!can_regenerate("9", Ok::<f32, RadiusError>(1.0)));
    assert!(!can_regenerate("6", Err::<f32, RadiusError>(RadiusError::NotPositive)));
    assert!(!can_regenerate("", Err::<f32, RadiusError>(RadiusError::Empty)));
    assert_eq!(validate_fields("6", Ok::<f32, RadiusError>(1.0)), Ok((6, 1.0)));
    assert_eq!(
        validate_fields("9", Ok::<f32, RadiusError>(1.0)),
        Err(ParamsError::Subdiv(SubdivError::OutOfRange))
    );
    assert_eq!(
        validate_fields("6", Err::<f32, RadiusError>(RadiusError::NotPositive)),
        Err(ParamsError::Radius(RadiusError::NotPositive))
    );
}

#[test]
fn validate_reports_subdivisions_first() {
    assert_eq!(
        validate_fields("", Err::<f32, RadiusError>(RadiusError::NotFinite)),
        Err(ParamsError::Subdiv(SubdivError::Empty))
    );
    assert_eq!(
        validate_fields(" 2 ", Err::<f32, RadiusError>(RadiusError::NotANumber)),
        Err(ParamsError::Radius(RadiusError::NotANumber))
    );
}

#[test]
fn hints_are_nonempty() {
    for hint in [
        SubdivError::Empty.hint(),
        SubdivError::NotInteger.hint(),
        SubdivError::OutOfRange.hint(),
        RadiusError::Empty.hint(),
        RadiusError::NotANumber.hint(),
        RadiusError::NotPositive.hint(),
        RadiusError::NotFinite.hint(),
    ] {
        assert!(!hint.is_empty());
    }
}

#[test]
fn hints_read_as_documented() {
    assert_eq!(SubdivError::Empty.hint(), "enter subdivisions 0–8");
    assert_eq!(SubdivError::NotInteger.hint(), "not an integer (0–8)");
    assert_eq!(SubdivError::OutOfRange.hint(), "out of range (0–8)");
    assert_eq!(RadiusError::Empty.hint(), "enter a radius > 0");
    assert_eq!(RadiusError::NotANumber.hint(), "not a number");
    assert_eq!(RadiusError::NotPositive.hint(), "must be > 0");
    assert_eq!(RadiusError::NotFinite.hint(), "must be finite");
}
