use best::error::Loc;
use best::types::Type;

#[test]
fn from_name_reads_every_type_name() {
    let loc = Loc { line: 1, col: 2 };
    for t in [Type::Int, Type::Float, Type::Bool, Type::Str, Type::Void] {
        assert_eq!(Type::from_name(t.name(), &loc).unwrap(), t);
    }
}

#[test]
fn type_names_are_the_language_keywords() {
    assert_eq!(Type::Int.name(), "int");
    assert_eq!(Type::Float.name(), "float");
    assert_eq!(Type::Bool.name(), "bool");
    assert_eq!(Type::Str.name(), "str");
    assert_eq!(Type::Void.name(), "void");
}

#[test]
fn unknown_type_name_is_an_error_at_its_position() {
    let loc = Loc { line: 3, col: 9 };
    let e = Type::from_name("integer", &loc).unwrap_err();
    assert_eq!(e.message, "unknown type 'integer'");
    assert_eq!(e.loc, Some(loc));
    assert_eq!(e.describe(), "error at line 3, column 9: unknown type 'integer'");
}
