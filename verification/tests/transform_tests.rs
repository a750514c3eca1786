use shuttle_codegen::decl::{
    Annotation, ErrorKind, FnDecl, Param, ParamPattern, ReturnDecl,
};
use shuttle_codegen::model::Loader;
use shuttle_codegen::transform::{transform, ArgValue, MacroArg};
use shuttle_codegen::LogLevel;

fn decl(ident: &str, params: Vec<Param>, ret: ReturnDecl) -> FnDecl {
    FnDecl { ident: ident.to_string(), params, ret }
}

#[test]
fn simple_declaration_without_log_level() {
    // `fn simple() -> ShuttleAxum` with no log-level option.
    let mut input = decl("simple", Vec::new(), ReturnDecl::Named("ShuttleAxum".to_string()));

    let (model, diags) = Loader::from_item_fn(&mut input, "DEBUG");
    let model = model.unwrap();
    assert_eq!(model.fn_ident, "simple");
    assert_eq!(model.fn_inputs.len(), 0);
    assert_eq!(model.fn_return, "ShuttleAxum");
    assert_eq!(model.log_level, LogLevel::Debug);
    assert!(diags.is_empty());

    let code = model.render_loader();
    assert_eq!(code.matches("let vars").count(), 0);
    assert_eq!(code.matches("get_resource").count(), 0);
    assert!(code.ends_with("    simple().await\n}\n"));
}

#[test]
fn transform_defaults_the_log_level() {
    let mut input = decl("simple", Vec::new(), ReturnDecl::Named("ShuttleAxum".to_string()));
    let out = transform(&mut input, &Vec::new());
    let code = out.code.unwrap();
    assert!(out.diagnostics.is_empty());
    assert!(code.starts_with("#[tokio::main]\nasync fn main() {\n"));
    assert!(code.contains("match shuttle_runtime::tracing::Level::DEBUG {"));
}

#[test]
fn transform_honors_the_log_level_override() {
    let mut input = decl("simple", Vec::new(), ReturnDecl::Named("ShuttleAxum".to_string()));
    let args = vec![MacroArg {
        name: "log_level".to_string(),
        value: ArgValue::Str("warn".to_string()),
    }];
    let out = transform(&mut input, &args);
    let code = out.code.unwrap();
    assert!(code.contains("match shuttle_runtime::tracing::Level::WARN {"));
}

#[test]
fn transform_ignores_other_options() {
    let mut input = decl("simple", Vec::new(), ReturnDecl::Named("ShuttleAxum".to_string()));
    let args = vec![MacroArg { name: "something".to_string(), value: ArgValue::Other }];
    let out = transform(&mut input, &args);
    assert!(out.code.is_some());
    assert!(out.diagnostics.is_empty());
}

#[test]
fn secrets_statement_emitted_once_before_provisioning() {
    // One string-literal option value forces exactly one secrets-map
    // statement, placed before every provisioning call.
    let mut input = decl(
        "complex",
        vec![Param {
            pattern: ParamPattern::Name("pool".to_string()),
            annotations: vec![Annotation {
                path: "Postgres".to_string(),
                args: Some("(size = \"10Gb\", public = false)".to_string()),
            }],
        }],
        ReturnDecl::Named("ShuttlePoem".to_string()),
    );

    let (model, _) = Loader::from_item_fn(&mut input, "DEBUG");
    let code = model.unwrap().render_loader();

    assert_eq!(code.matches("let vars").count(), 1);
    let vars_at = code.find("let vars").unwrap();
    let provision_at = code.find("get_resource").unwrap();
    assert!(vars_at < provision_at);
    assert!(code.contains(".size(&shuttle_runtime::strfmt(\"10Gb\", &vars)?).public(false)"));
}

#[test]
fn no_string_literal_means_no_secrets_statement() {
    let mut input = decl(
        "complex",
        vec![Param {
            pattern: ParamPattern::Name("pool".to_string()),
            annotations: vec![Annotation {
                path: "Postgres".to_string(),
                args: Some("(public = false)".to_string()),
            }],
        }],
        ReturnDecl::Named("ShuttlePoem".to_string()),
    );

    let (model, _) = Loader::from_item_fn(&mut input, "DEBUG");
    let code = model.unwrap().render_loader();

    assert_eq!(code.matches("let vars").count(), 0);
    assert!(code.contains(".public(false)"));
}

#[test]
fn provisioning_follows_declaration_order() {
    let mut input = decl(
        "complex",
        vec![
            Param {
                pattern: ParamPattern::Name("pool".to_string()),
                annotations: vec![Annotation { path: "Postgres".to_string(), args: None }],
            },
            Param {
                pattern: ParamPattern::Name("cache".to_string()),
                annotations: vec![Annotation { path: "Redis".to_string(), args: None }],
            },
        ],
        ReturnDecl::Named("ShuttleAxum".to_string()),
    );

    let (model, _) = Loader::from_item_fn(&mut input, "DEBUG");
    let code = model.unwrap().render_loader();

    let pool_at = code.find("let pool = shuttle_runtime::get_resource").unwrap();
    let cache_at = code.find("let cache = shuttle_runtime::get_resource").unwrap();
    assert!(pool_at < cache_at);
    assert!(code.ends_with("    complex(pool, cache).await\n}\n"));
}

#[test]
fn missing_return_type_yields_no_code() {
    // A declaration with no declared return type fails and generates
    // nothing.
    let mut input = decl("simple", Vec::new(), ReturnDecl::Missing);
    let out = transform(&mut input, &Vec::new());
    assert!(out.code.is_none());
    assert_eq!(out.diagnostics.len(), 1);
    assert_eq!(out.diagnostics[0].kind, ErrorKind::MissingReturnType);
}

#[test]
fn reserved_name_yields_no_code() {
    let mut input = decl("main", Vec::new(), ReturnDecl::Named("ShuttleAxum".to_string()));
    let out = transform(&mut input, &Vec::new());
    assert!(out.code.is_none());
    assert_eq!(out.diagnostics.len(), 1);
    assert_eq!(out.diagnostics[0].kind, ErrorKind::ReservedName);
}

#[test]
fn invalid_log_level_fails_the_transformation() {
    let mut input = decl("simple", Vec::new(), ReturnDecl::Named("ShuttleAxum".to_string()));
    let args = vec![MacroArg {
        name: "log_level".to_string(),
        value: ArgValue::Str("chatty".to_string()),
    }];
    let out = transform(&mut input, &args);
    assert!(out.code.is_none());
    assert_eq!(out.diagnostics.len(), 1);
    assert_eq!(out.diagnostics[0].kind, ErrorKind::InvalidLogLevel);
}
