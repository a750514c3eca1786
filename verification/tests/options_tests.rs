use shuttle_codegen::options::{parse_options, BuilderOptions, OptionValue, SyntaxErrorKind};

fn is_lit(v: &OptionValue, expected: &str) -> bool {
    match v {
        OptionValue::Lit(s) => s == expected,
        OptionValue::Expr(_) => false,
    }
}

fn is_expr(v: &OptionValue, expected: &str) -> bool {
    match v {
        OptionValue::Expr(s) => s == expected,
        OptionValue::Lit(_) => false,
    }
}

#[test]
fn parse_builder_options() {
    let input = "(\
        string = \"string_val\",\
        boolean = true,\
        integer = 5,\
        float = 2.65,\
        enum_variant = SomeEnum::Variant1,\
        sensitive = \"user:{secrets.password}\"\
    )";

    let opts = parse_options(input).unwrap();
    assert_eq!(opts.options.len(), 6);
    assert_eq!(opts.options[0].name, "string");
    assert!(is_lit(&opts.options[0].value, "string_val"));
    assert_eq!(opts.options[1].name, "boolean");
    assert!(is_expr(&opts.options[1].value, "true"));
    assert_eq!(opts.options[2].name, "integer");
    assert!(is_expr(&opts.options[2].value, "5"));
    assert_eq!(opts.options[3].name, "float");
    assert!(is_expr(&opts.options[3].value, "2.65"));
    assert_eq!(opts.options[4].name, "enum_variant");
    assert!(is_expr(&opts.options[4].value, "SomeEnum::Variant1"));
    assert_eq!(opts.options[5].name, "sensitive");
    assert!(is_lit(&opts.options[5].value, "user:{secrets.password}"));
}

#[test]
fn parse_empty_group() {
    let opts = parse_options("()").unwrap();
    assert_eq!(opts.options.len(), 0);
    let opts = parse_options("(   )").unwrap();
    assert_eq!(opts.options.len(), 0);
}

#[test]
fn parse_trailing_comma() {
    let opts = parse_options("(a = 1,)").unwrap();
    assert_eq!(opts.options.len(), 1);
    assert_eq!(opts.options[0].name, "a");
    assert!(is_expr(&opts.options[0].value, "1"));
}

#[test]
fn parse_nested_delimiters() {
    let opts = parse_options("(f = foo(1, [2, 3]), g = {4})").unwrap();
    assert_eq!(opts.options.len(), 2);
    assert!(is_expr(&opts.options[0].value, "foo(1, [2, 3])"));
    assert!(is_expr(&opts.options[1].value, "{4}"));
}

#[test]
fn parse_missing_equals() {
    let err = parse_options("(a true)").unwrap_err();
    assert_eq!(err.kind, SyntaxErrorKind::ExpectedEq);
}

#[test]
fn parse_missing_name() {
    let err = parse_options("(= 5)").unwrap_err();
    assert_eq!(err.kind, SyntaxErrorKind::ExpectedName);
}

#[test]
fn parse_digit_leading_name() {
    let err = parse_options("(1a = 5)").unwrap_err();
    assert_eq!(err.kind, SyntaxErrorKind::ExpectedName);
}

#[test]
fn parse_missing_value() {
    let err = parse_options("(a = )").unwrap_err();
    assert_eq!(err.kind, SyntaxErrorKind::BadValue);
}

#[test]
fn parse_unterminated_group() {
    let err = parse_options("(a = 1").unwrap_err();
    assert_eq!(err.kind, SyntaxErrorKind::BadValue);
}

#[test]
fn parse_trailing_tokens() {
    let err = parse_options("(a = 1) x").unwrap_err();
    assert_eq!(err.kind, SyntaxErrorKind::TrailingTokens);
}

#[test]
fn parse_no_group() {
    let err = parse_options("a = 1").unwrap_err();
    assert_eq!(err.kind, SyntaxErrorKind::ExpectedGroup);
}

#[test]
fn serialize_round_trip() {
    let src = "( size = \"10Gb\" ,  public = false, f = foo(1, 2) )";
    let opts = parse_options(src).unwrap();
    let canonical = opts.to_source();
    assert_eq!(canonical, "(size = \"10Gb\", public = false, f = foo(1, 2))");
    let again = parse_options(&canonical).unwrap();
    assert_eq!(again.options.len(), opts.options.len());
    for (a, b) in again.options.iter().zip(opts.options.iter()) {
        assert_eq!(a.name, b.name);
        match (&a.value, &b.value) {
            (OptionValue::Lit(x), OptionValue::Lit(y)) => assert_eq!(x, y),
            (OptionValue::Expr(x), OptionValue::Expr(y)) => assert_eq!(x, y),
            _ => panic!("value classification changed across the round trip"),
        }
    }
}

#[test]
fn serialize_empty_group() {
    let opts = BuilderOptions { options: Vec::new() };
    assert_eq!(opts.to_source(), "()");
}
