use tabular::{parse_row_spec, row_spec_to_string, Alignment, ColumnSpec, Error};

fn lit(s: &str) -> ColumnSpec {
    ColumnSpec::Literal(s.to_string())
}

#[test]
fn literal_runs_are_coalesced_around_a_column() {
    let (specs, count) = parse_row_spec("ab{:<}cd").unwrap();
    assert_eq!(specs, vec![lit("ab"), ColumnSpec::Align(Alignment::Left), lit("cd")]);
    assert_eq!(count, 1);
}

#[test]
fn doubled_braces_are_literal_braces() {
    let (specs, count) = parse_row_spec("{{x}}").unwrap();
    assert_eq!(specs, vec![lit("{x}")]);
    assert_eq!(count, 0);
}

#[test]
fn empty_input_parses_to_nothing() {
    let (specs, count) = parse_row_spec("").unwrap();
    assert!(specs.is_empty());
    assert_eq!(count, 0);
}

#[test]
fn lone_left_brace_is_unclosed() {
    assert_eq!(parse_row_spec("{"), Err(Error::UnclosedColumnSpec(String::new())));
}

#[test]
fn brace_colon_is_unclosed() {
    assert_eq!(parse_row_spec("{:"), Err(Error::UnclosedColumnSpec(":".to_string())));
}

#[test]
fn brace_colon_left_is_unclosed() {
    assert_eq!(parse_row_spec("{:<"), Err(Error::UnclosedColumnSpec(":<".to_string())));
}

#[test]
fn brace_colon_right_is_unclosed() {
    assert_eq!(parse_row_spec("ab{:>"), Err(Error::UnclosedColumnSpec(":>".to_string())));
}

#[test]
fn unknown_marker_is_a_bad_column_spec() {
    assert_eq!(parse_row_spec("{:q}"), Err(Error::BadColumnSpec(":q".to_string())));
}

#[test]
fn lone_right_brace_is_rejected() {
    assert_eq!(parse_row_spec("}"), Err(Error::UnexpectedRightBrace));
    assert_eq!(parse_row_spec("a}b"), Err(Error::UnexpectedRightBrace));
}

#[test]
fn other_character_after_brace_is_unexpected() {
    assert_eq!(parse_row_spec("{x"), Err(Error::UnexpectedCharacter('x')));
}

#[test]
fn missing_close_after_marker_is_unexpected() {
    assert_eq!(parse_row_spec("{:<x}"), Err(Error::UnexpectedCharacter('x')));
    assert_eq!(parse_row_spec("{:>>}"), Err(Error::UnexpectedCharacter('>')));
}

#[test]
fn first_error_wins() {
    assert_eq!(parse_row_spec("a}{"), Err(Error::UnexpectedRightBrace));
    assert_eq!(parse_row_spec("{:<}{x}"), Err(Error::UnexpectedCharacter('x')));
}

#[test]
fn escape_at_end_of_input_is_complete() {
    let (specs, count) = parse_row_spec("a{{").unwrap();
    assert_eq!(specs, vec![lit("a{")]);
    assert_eq!(count, 0);
}

#[test]
fn columns_are_counted_apart_from_literals() {
    let (specs, count) = parse_row_spec("{:<}{:>}x{:<}y").unwrap();
    assert_eq!(
        specs,
        vec![
            ColumnSpec::Align(Alignment::Left),
            ColumnSpec::Align(Alignment::Right),
            lit("x"),
            ColumnSpec::Align(Alignment::Left),
            lit("y"),
        ]
    );
    assert_eq!(count, 3);
}

#[test]
fn non_ascii_text_is_kept() {
    let (specs, count) = parse_row_spec("é{:>}ü").unwrap();
    assert_eq!(specs, vec![lit("é"), ColumnSpec::Align(Alignment::Right), lit("ü")]);
    assert_eq!(count, 1);
}

#[test]
fn serializer_writes_placeholders_and_escapes() {
    let specs = vec![
        lit("a{b}"),
        ColumnSpec::Align(Alignment::Left),
        lit(" | "),
        ColumnSpec::Align(Alignment::Right),
    ];
    assert_eq!(row_spec_to_string(&specs), "a{{b}}{:<} | {:>}");
}

#[test]
fn serializer_of_nothing_is_empty() {
    assert_eq!(row_spec_to_string(&[]), "");
}

#[test]
fn serializer_keeps_plain_characters() {
    assert_eq!(row_spec_to_string(&[lit("xyz")]), "xyz");
}

#[test]
fn serialized_spec_parses_back() {
    let specs = vec![
        lit("{"),
        ColumnSpec::Align(Alignment::Right),
        lit("}}x{"),
        ColumnSpec::Align(Alignment::Left),
        ColumnSpec::Align(Alignment::Left),
    ];
    let text = row_spec_to_string(&specs);
    assert_eq!(parse_row_spec(&text), Ok((specs, 3)));
}

#[test]
fn serialized_literal_with_braces_parses_back() {
    for text in ["{", "}", "{}", "}{", "a{{b}}c"] {
        let specs = vec![lit(text)];
        let serialized = row_spec_to_string(&specs);
        assert_eq!(parse_row_spec(&serialized), Ok((specs, 0)));
    }
}
