use capnls::{parse_diag, parse_diags, Diagnostic, Position, Severity, Span};

fn diag(
    line: u32,
    start_col: u32,
    end_col: u32,
    severity: Severity,
    message: &str,
) -> Diagnostic {
    Diagnostic {
        span: Span {
            start: Position { line, character: start_col },
            end: Position { line, character: end_col },
        },
        severity,
        source: String::from("capnls"),
        message: String::from(message),
    }
}

#[test]
fn test_parse_diag() {
    assert_eq!(
        parse_diag("foo.capnp:32:9: error: Parse error."),
        Some(Diagnostic {
            span: Span {
                start: Position {
                    line: 31,
                    character: 8,
                },
                end: Position {
                    line: 31,
                    character: 8,
                },
            },
            severity: Severity::Error,
            source: String::from("capnls"),
            message: String::from("Parse error"),
        })
    )
}

#[test]
fn single_column_line() {
    assert_eq!(
        parse_diag("schema.capnp:7:3: error: Something is off."),
        Some(diag(6, 2, 2, Severity::Error, "Something is off"))
    );
}

#[test]
fn ranged_line() {
    assert_eq!(
        parse_diag("foo.capnp:3:4-10: error: Oops."),
        Some(diag(2, 3, 9, Severity::Error, "Oops"))
    );
}

#[test]
fn saturation_at_one() {
    assert_eq!(
        parse_diag("f:1:1: error: m."),
        Some(diag(0, 0, 0, Severity::Error, "m"))
    );
}

#[test]
fn saturation_at_zero() {
    assert_eq!(
        parse_diag("f:0:0-0: error: m."),
        Some(diag(0, 0, 0, Severity::Error, "m"))
    );
}

#[test]
fn hint_classification() {
    assert_eq!(
        parse_diag("foo.capnp:3:4-5: error: Ordinal @0 originally used here."),
        Some(diag(2, 3, 4, Severity::Hint, "Ordinal @0 originally used here"))
    );
}

#[test]
fn error_classification_for_other_messages() {
    assert_eq!(
        parse_diag("foo.capnp:3:4: error: Duplicate ordinal number."),
        Some(diag(2, 3, 3, Severity::Error, "Duplicate ordinal number"))
    );
}

#[test]
fn different_severity_word_is_skipped() {
    assert_eq!(parse_diag("foo.capnp:2:1: warning: Import is never used."), None);
}

#[test]
fn missing_severity_word_is_skipped() {
    assert_eq!(parse_diag("foo.capnp:2:1: something happened."), None);
}

#[test]
fn too_few_colons_is_skipped() {
    assert_eq!(parse_diag("no colons here"), None);
    assert_eq!(parse_diag("one:colon"), None);
    assert_eq!(parse_diag("two:colons: here"), None);
    assert_eq!(parse_diag(""), None);
}

#[test]
fn non_numeric_fields_are_skipped() {
    assert_eq!(parse_diag("f:x:1: error: m."), None);
    assert_eq!(parse_diag("f:1:y: error: m."), None);
    assert_eq!(parse_diag("f::1: error: m."), None);
    assert_eq!(parse_diag("f:1:2-z: error: m."), None);
}

#[test]
fn out_of_range_numbers_are_skipped() {
    assert_eq!(parse_diag("f:4294967296:1: error: m."), None);
    assert_eq!(parse_diag("f:12:99999999999: error: m."), None);
    assert_eq!(parse_diag("f:12:1-99999999999: error: m."), None);
}

#[test]
fn largest_positions_are_kept() {
    assert_eq!(
        parse_diag("f:4294967295:4294967295: error: m."),
        Some(diag(4294967294, 4294967294, 4294967294, Severity::Error, "m"))
    );
}

#[test]
fn message_keeps_inner_colons() {
    assert_eq!(
        parse_diag("foo.capnp:6:13-20: error: Not defined: Unknown."),
        Some(diag(5, 12, 19, Severity::Error, "Not defined: Unknown"))
    );
}

#[test]
fn only_one_trailing_period_is_stripped() {
    assert_eq!(
        parse_diag("f:1:1: error: Ends with two periods.."),
        Some(diag(0, 0, 0, Severity::Error, "Ends with two periods."))
    );
}

#[test]
fn message_whitespace_is_trimmed() {
    assert_eq!(
        parse_diag("f:1:1: error:   spaced  ."),
        Some(diag(0, 0, 0, Severity::Error, "spaced  "))
    );
    assert_eq!(
        parse_diag("f:1:1: error: plain  \t"),
        Some(diag(0, 0, 0, Severity::Error, "plain"))
    );
}

#[test]
fn batch_keeps_line_order_and_skips_garbage() {
    let text = "foo.capnp:1:1: error: First.\n\
                some summary line without the marker\n\
                \n\
                foo.capnp:2:3: error: Second.\n";
    assert_eq!(
        parse_diags(text),
        vec![
            diag(0, 0, 0, Severity::Error, "First"),
            diag(1, 2, 2, Severity::Error, "Second"),
        ]
    );
}

#[test]
fn batch_handles_carriage_returns_and_no_final_newline() {
    let text = "foo.capnp:1:1: error: First.\r\nfoo.capnp:2:3: error: Second.";
    assert_eq!(
        parse_diags(text),
        vec![
            diag(0, 0, 0, Severity::Error, "First"),
            diag(1, 2, 2, Severity::Error, "Second"),
        ]
    );
}

#[test]
fn empty_report_yields_no_records() {
    assert_eq!(parse_diags(""), Vec::<Diagnostic>::new());
    assert_eq!(parse_diags("\n\n"), Vec::<Diagnostic>::new());
}

#[test]
fn scenario_duplicate_field_number() {
    // The compiler's report for a schema that assigns the same field number
    // twice: one error for the duplicate, then one hint pointing at the
    // original declaration, in that order.
    let text = "foo.capnp:4:4-5: error: Duplicate ordinal number.\n\
                foo.capnp:3:4-5: error: Ordinal @0 originally used here.\n";
    assert_eq!(
        parse_diags(text),
        vec![
            diag(3, 3, 4, Severity::Error, "Duplicate ordinal number"),
            diag(2, 3, 4, Severity::Hint, "Ordinal @0 originally used here"),
        ]
    );
}

#[test]
fn scenario_unused_import() {
    // A document importing another document without using any of its
    // declarations: exactly one record with an import-unused message.
    let text = "foo.capnp:2:1-21: error: Import \"bar.capnp\" is never used.\n";
    assert_eq!(
        parse_diags(text),
        vec![diag(1, 0, 20, Severity::Error, "Import \"bar.capnp\" is never used")]
    );
}

#[test]
fn scenario_undefined_type_name() {
    // A document referencing an undeclared type name: exactly one error
    // whose range spans the offending identifier's character span.
    let text = "foo.capnp:6:13-20: error: Not defined: Unknown.\n";
    assert_eq!(
        parse_diags(text),
        vec![diag(5, 12, 19, Severity::Error, "Not defined: Unknown")]
    );
}

#[test]
fn scenario_full_report() {
    // A report with several primary errors and one hint, as the compiler
    // emits it for a schema with a misnamed field, a duplicate field
    // number, and an undefined type.
    let text = "foo.capnp:5:1-8: error: Cap'n Proto declaration names should use camelCase and must not contain underscores. (Code generators may convert names to the appropriate style for the target language.)\n\
                foo.capnp:4:4-5: error: Duplicate ordinal number.\n\
                foo.capnp:3:4-5: error: Ordinal @0 originally used here.\n\
                foo.capnp:6:13-20: error: Not defined: Unknown.\n";
    assert_eq!(
        parse_diags(text),
        vec![
            diag(4, 0, 7, Severity::Error, "Cap'n Proto declaration names should use camelCase and must not contain underscores. (Code generators may convert names to the appropriate style for the target language.)"),
            diag(3, 3, 4, Severity::Error, "Duplicate ordinal number"),
            diag(2, 3, 4, Severity::Hint, "Ordinal @0 originally used here"),
            diag(5, 12, 19, Severity::Error, "Not defined: Unknown"),
        ]
    );
}
