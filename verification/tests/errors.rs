use best::error::{BestError, Loc};

#[test]
fn error_without_position_reads_error_colon_message() {
    let e = BestError::new("evaluation limit reached");
    assert_eq!(e.message, "evaluation limit reached");
    assert_eq!(e.loc, None);
    assert_eq!(e.describe(), "error: evaluation limit reached");
}

#[test]
fn error_with_position_names_line_and_column() {
    let loc = Loc { line: 12, col: 5 };
    let e = BestError::at("division by zero", &loc);
    assert_eq!(e.loc, Some(Loc { line: 12, col: 5 }));
    assert_eq!(e.describe(), "error at line 12, column 5: division by zero");
}

#[test]
fn position_text_handles_zero_and_negative_numbers() {
    assert_eq!(Loc { line: 0, col: 0 }.describe(), "line 0, column 0");
    assert_eq!(Loc { line: -3, col: 2147483647 }.describe(), "line -3, column 2147483647");
    assert_eq!(Loc { line: i32::MIN, col: 1 }.describe(), "line -2147483648, column 1");
}
