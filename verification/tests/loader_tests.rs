use shuttle_codegen::decl::{
    Annotation, ErrorKind, FnDecl, Param, ParamPattern, ReturnDecl,
};
use shuttle_codegen::model::Loader;
use shuttle_codegen::options::OptionValue;

fn simple_decl(ident: &str, params: Vec<Param>, ret: ReturnDecl) -> FnDecl {
    FnDecl { ident: ident.to_string(), params, ret }
}

fn named_param(ident: &str, annotations: Vec<Annotation>) -> Param {
    Param { pattern: ParamPattern::Name(ident.to_string()), annotations }
}

#[test]
fn from_with_return() {
    let mut input = simple_decl("simple", Vec::new(), ReturnDecl::Named("ShuttleAxum".to_string()));

    let (actual, diags) = Loader::from_item_fn(&mut input, "DEBUG");
    let actual = actual.unwrap();

    assert_eq!(actual.fn_ident, "simple");
    assert_eq!(actual.fn_inputs.len(), 0);
    assert!(diags.is_empty());
}

#[test]
fn from_with_inputs() {
    let mut input = simple_decl(
        "complex",
        vec![named_param(
            "pool",
            vec![Annotation { path: "shuttle_shared_db::Postgres".to_string(), args: None }],
        )],
        ReturnDecl::Named("ShuttleTide".to_string()),
    );

    let (actual, diags) = Loader::from_item_fn(&mut input, "DEBUG");
    let actual = actual.unwrap();

    assert_eq!(actual.fn_ident, "complex");
    assert_eq!(actual.fn_inputs.len(), 1);
    assert_eq!(actual.fn_inputs[0].ident, "pool");
    assert_eq!(actual.fn_inputs[0].builder.path, "shuttle_shared_db::Postgres");
    assert_eq!(actual.fn_inputs[0].builder.options.options.len(), 0);
    assert!(diags.is_empty());

    // Make sure annotations were removed from the input declaration.
    assert!(
        input.params[0].annotations.is_empty(),
        "some annotations were not removed: {:?}",
        input.params[0].annotations
    );
}

#[test]
fn from_with_input_options() {
    let mut input = simple_decl(
        "complex",
        vec![named_param(
            "pool",
            vec![Annotation {
                path: "shared::Postgres".to_string(),
                args: Some("(size = \"10Gb\", public = false)".to_string()),
            }],
        )],
        ReturnDecl::Named("ShuttlePoem".to_string()),
    );

    let (actual, diags) = Loader::from_item_fn(&mut input, "DEBUG");
    let actual = actual.unwrap();

    assert_eq!(actual.fn_ident, "complex");
    assert_eq!(actual.fn_inputs.len(), 1);
    assert_eq!(actual.fn_inputs[0].ident, "pool");
    assert_eq!(actual.fn_inputs[0].builder.path, "shared::Postgres");
    let opts = &actual.fn_inputs[0].builder.options.options;
    assert_eq!(opts.len(), 2);
    assert_eq!(opts[0].name, "size");
    assert!(matches!(&opts[0].value, OptionValue::Lit(s) if s == "10Gb"));
    assert_eq!(opts[1].name, "public");
    assert!(matches!(&opts[1].value, OptionValue::Expr(s) if s == "false"));
    assert!(diags.is_empty());
}

#[test]
fn reserved_entry_point_name_rejected() {
    let mut input = simple_decl("main", Vec::new(), ReturnDecl::Named("ShuttleAxum".to_string()));

    let (actual, diags) = Loader::from_item_fn(&mut input, "DEBUG");
    assert!(actual.is_none());
    assert_eq!(diags.len(), 1);
    assert_eq!(diags[0].kind, ErrorKind::ReservedName);
    assert_eq!(diags[0].subject, "main");
}

#[test]
fn missing_return_type_rejected() {
    let mut input = simple_decl("simple", Vec::new(), ReturnDecl::Missing);

    let (actual, diags) = Loader::from_item_fn(&mut input, "DEBUG");
    assert!(actual.is_none());
    assert_eq!(diags.len(), 1);
    assert_eq!(diags[0].kind, ErrorKind::MissingReturnType);
}

#[test]
fn unsupported_return_type_rejected() {
    let mut input = simple_decl(
        "simple",
        Vec::new(),
        ReturnDecl::Other("(u32, u32)".to_string()),
    );

    let (actual, diags) = Loader::from_item_fn(&mut input, "DEBUG");
    assert!(actual.is_none());
    assert_eq!(diags.len(), 1);
    assert_eq!(diags[0].kind, ErrorKind::UnsupportedReturnType);
    assert_eq!(diags[0].subject, "(u32, u32)");
}

#[test]
fn missing_annotation_is_reported_and_parameter_omitted() {
    let mut input = simple_decl(
        "complex",
        vec![
            named_param("bare", Vec::new()),
            named_param(
                "pool",
                vec![Annotation { path: "shared::Postgres".to_string(), args: None }],
            ),
        ],
        ReturnDecl::Named("ShuttleAxum".to_string()),
    );

    let (actual, diags) = Loader::from_item_fn(&mut input, "DEBUG");
    let actual = actual.unwrap();
    assert_eq!(actual.fn_inputs.len(), 1);
    assert_eq!(actual.fn_inputs[0].ident, "pool");
    assert_eq!(diags.len(), 1);
    assert_eq!(diags[0].kind, ErrorKind::MissingResourceAnnotation);
    assert_eq!(diags[0].subject, "bare");
    assert_eq!(
        diags[0].hint(),
        Some("Try adding a config like `#[shuttle_shared_db::Postgres]`")
    );
}

#[test]
fn malformed_option_list_is_reported_per_parameter() {
    let mut input = simple_decl(
        "complex",
        vec![named_param(
            "pool",
            vec![Annotation {
                path: "shared::Postgres".to_string(),
                args: Some("(size 10)".to_string()),
            }],
        )],
        ReturnDecl::Named("ShuttleAxum".to_string()),
    );

    let (actual, diags) = Loader::from_item_fn(&mut input, "DEBUG");
    let actual = actual.unwrap();
    assert_eq!(actual.fn_inputs.len(), 0);
    assert_eq!(diags.len(), 1);
    assert_eq!(diags[0].kind, ErrorKind::Syntax);
    assert_eq!(diags[0].subject, "pool");
}

#[test]
fn invalid_log_level_is_fatal() {
    let mut input = simple_decl("simple", Vec::new(), ReturnDecl::Named("ShuttleAxum".to_string()));

    let (actual, diags) = Loader::from_item_fn(&mut input, "verbose");
    assert!(actual.is_none());
    assert_eq!(diags.len(), 1);
    assert_eq!(diags[0].kind, ErrorKind::InvalidLogLevel);
    assert_eq!(diags[0].subject, "verbose");
}

#[test]
fn receiver_and_non_name_patterns_are_skipped() {
    let mut input = simple_decl(
        "complex",
        vec![
            Param { pattern: ParamPattern::Receiver, annotations: Vec::new() },
            Param { pattern: ParamPattern::Other, annotations: Vec::new() },
        ],
        ReturnDecl::Named("ShuttleAxum".to_string()),
    );

    let (actual, diags) = Loader::from_item_fn(&mut input, "DEBUG");
    let actual = actual.unwrap();
    assert_eq!(actual.fn_inputs.len(), 0);
    assert!(diags.is_empty());
}
