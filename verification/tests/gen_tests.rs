use shuttle_codegen::gen::render_wrapper;
use shuttle_codegen::model::{Builder, Input, Loader};
use shuttle_codegen::options::{BuilderOption, BuilderOptions, OptionValue};
use shuttle_codegen::LogLevel;

fn builder(path: &str, options: Vec<BuilderOption>) -> Builder {
    Builder { path: path.to_string(), options: BuilderOptions { options } }
}

#[test]
fn output_with_return() {
    let input = Loader {
        fn_ident: "simple".to_string(),
        fn_inputs: Vec::new(),
        fn_return: "ShuttleSimple".to_string(),
        log_level: LogLevel::Trace,
    };

    let actual = input.render_loader();
    let expected = "async fn loader(
    mut _factory: shuttle_runtime::ProvisionerFactory,
    mut _resource_tracker: shuttle_runtime::ResourceTracker,
    logger: shuttle_runtime::Logger,
) -> ShuttleSimple {
    use shuttle_runtime::Context;
    use shuttle_runtime::tracing_subscriber::prelude::*;
    let log_level: shuttle_runtime::tracing::Level = match shuttle_runtime::tracing::Level::TRACE {
        level if level < shuttle_runtime::tracing::Level::DEBUG => shuttle_runtime::tracing::Level::DEBUG,
        level => level,
    };
    let filter_layer = shuttle_runtime::tracing_subscriber::EnvFilter::from_default_env().add_directive(log_level.into());
    shuttle_runtime::tracing_subscriber::registry().with(filter_layer).with(logger).init();
    simple().await
}
";

    assert_eq!(actual, expected);
}

#[test]
fn output_with_inputs() {
    let input = Loader {
        fn_ident: "complex".to_string(),
        fn_inputs: vec![
            Input {
                ident: "pool".to_string(),
                builder: builder("shuttle_shared_db::Postgres", Vec::new()),
            },
            Input {
                ident: "redis".to_string(),
                builder: builder("shuttle_shared_db::Redis", Vec::new()),
            },
        ],
        fn_return: "ShuttleComplex".to_string(),
        log_level: LogLevel::Info,
    };

    let actual = input.render_loader();
    let expected = "async fn loader(
    mut factory: shuttle_runtime::ProvisionerFactory,
    mut resource_tracker: shuttle_runtime::ResourceTracker,
    logger: shuttle_runtime::Logger,
) -> ShuttleComplex {
    use shuttle_runtime::Context;
    use shuttle_runtime::tracing_subscriber::prelude::*;
    use shuttle_runtime::{Factory, ResourceBuilder};
    let log_level: shuttle_runtime::tracing::Level = match shuttle_runtime::tracing::Level::INFO {
        level if level < shuttle_runtime::tracing::Level::DEBUG => shuttle_runtime::tracing::Level::DEBUG,
        level => level,
    };
    let filter_layer = shuttle_runtime::tracing_subscriber::EnvFilter::from_default_env().add_directive(log_level.into());
    shuttle_runtime::tracing_subscriber::registry().with(filter_layer).with(logger).init();
    let pool = shuttle_runtime::get_resource(
        shuttle_shared_db::Postgres::new(),
        &mut factory,
        &mut resource_tracker,
    ).await.context(format!(\"failed to provision {}\", stringify!(shuttle_shared_db::Postgres)))?;
    let redis = shuttle_runtime::get_resource(
        shuttle_shared_db::Redis::new(),
        &mut factory,
        &mut resource_tracker,
    ).await.context(format!(\"failed to provision {}\", stringify!(shuttle_shared_db::Redis)))?;
    complex(pool, redis).await
}
";

    assert_eq!(actual, expected);
}

#[test]
fn output_with_input_options() {
    let input = Loader {
        fn_ident: "complex".to_string(),
        fn_inputs: vec![Input {
            ident: "pool".to_string(),
            builder: builder(
                "shuttle_shared_db::Postgres",
                vec![
                    BuilderOption {
                        name: "size".to_string(),
                        value: OptionValue::Lit("10Gb".to_string()),
                    },
                    BuilderOption {
                        name: "public".to_string(),
                        value: OptionValue::Expr("false".to_string()),
                    },
                ],
            ),
        }],
        fn_return: "ShuttleComplex".to_string(),
        log_level: LogLevel::Error,
    };

    let actual = input.render_loader();
    let expected = "async fn loader(
    mut factory: shuttle_runtime::ProvisionerFactory,
    mut resource_tracker: shuttle_runtime::ResourceTracker,
    logger: shuttle_runtime::Logger,
) -> ShuttleComplex {
    use shuttle_runtime::Context;
    use shuttle_runtime::tracing_subscriber::prelude::*;
    use shuttle_runtime::{Factory, ResourceBuilder};
    let log_level: shuttle_runtime::tracing::Level = match shuttle_runtime::tracing::Level::ERROR {
        level if level < shuttle_runtime::tracing::Level::DEBUG => shuttle_runtime::tracing::Level::DEBUG,
        level => level,
    };
    let filter_layer = shuttle_runtime::tracing_subscriber::EnvFilter::from_default_env().add_directive(log_level.into());
    shuttle_runtime::tracing_subscriber::registry().with(filter_layer).with(logger).init();
    let vars = std::collections::HashMap::from_iter(factory.get_secrets().await?.into_iter().map(|(key, value)| (format!(\"secrets.{}\", key), value)));
    let pool = shuttle_runtime::get_resource(
        shuttle_shared_db::Postgres::new().size(&shuttle_runtime::strfmt(\"10Gb\", &vars)?).public(false),
        &mut factory,
        &mut resource_tracker,
    ).await.context(format!(\"failed to provision {}\", stringify!(shuttle_shared_db::Postgres)))?;
    complex(pool).await
}
";

    assert_eq!(actual, expected);
}

#[test]
fn wrapper_starts_the_loader() {
    let wrapper = render_wrapper();
    assert_eq!(
        wrapper,
        "#[tokio::main]\nasync fn main() {\n    shuttle_runtime::start(loader).await;\n}\n\n"
    );
}
