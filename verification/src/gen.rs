//! The code generator: renders the model into the text of the bootstrap
//! routine, deterministically. Generation order: logging setup, optional
//! secrets-map construction, per-resource provisioning calls in declaration
//! order, and the final call into the entry point.

use vstd::prelude::*;
use crate::model::{Input, InputV, Loader, LoaderV};
use crate::options::{BuilderOptionV, BuilderOptions, OptionValue, OptionValueV};

verus! {

/// Name of the provisioning-context parameter: an "unused" name when there
/// is nothing to provision.
pub open spec fn factory_name(m: LoaderV) -> Seq<char> {
    if m.fn_inputs.len() == 0 {
        "_factory"@
    } else {
        "factory"@
    }
}

/// Name of the resource-tracking parameter: an "unused" name when there is
/// nothing to provision.
pub open spec fn tracker_name(m: LoaderV) -> Seq<char> {
    if m.fn_inputs.len() == 0 {
        "_resource_tracker"@
    } else {
        "resource_tracker"@
    }
}

/// The import of the provisioning-capability traits, emitted only when at
/// least one resource is provisioned.
pub open spec fn import_text(m: LoaderV) -> Seq<char> {
    if m.fn_inputs.len() == 0 {
        Seq::empty()
    } else {
        "    use shuttle_runtime::{Factory, ResourceBuilder};\n"@
    }
}

/// The routine's signature and imports.
pub open spec fn header_text(m: LoaderV) -> Seq<char> {
    "async fn loader(\n    mut "@ + factory_name(m)
        + ": shuttle_runtime::ProvisionerFactory,\n    mut "@ + tracker_name(m)
        + ": shuttle_runtime::ResourceTracker,\n    logger: shuttle_runtime::Logger,\n) -> "@
        + m.fn_return
        + " {\n    use shuttle_runtime::Context;\n    use shuttle_runtime::tracing_subscriber::prelude::*;\n"@
        + import_text(m)
}

/// The logging setup: the configured level is referenced verbatim, and the
/// emitted comparison raises anything below the documented `DEBUG` floor up
/// to that floor before the filter is installed, exactly once.
pub open spec fn logging_text(m: LoaderV) -> Seq<char> {
    "    let log_level: shuttle_runtime::tracing::Level = match shuttle_runtime::tracing::Level::"@
        + m.log_level.spec_name()
        + " {\n        level if level < shuttle_runtime::tracing::Level::DEBUG => shuttle_runtime::tracing::Level::DEBUG,\n        level => level,\n    };\n    let filter_layer = shuttle_runtime::tracing_subscriber::EnvFilter::from_default_env().add_directive(log_level.into());\n    shuttle_runtime::tracing_subscriber::registry().with(filter_layer).with(logger).init();\n"@
}

/// Whether any option of this list holds a string-literal value.
pub open spec fn has_lit_option(opts: Seq<BuilderOptionV>) -> bool {
    exists|j: int| 0 <= j < opts.len() && (#[trigger] opts[j]).value is Lit
}

/// Whether any option value of any input is a string literal, which is the
/// only reason to fetch secrets.
pub open spec fn needs_secrets(inputs: Seq<InputV>) -> bool {
    exists|i: int| 0 <= i < inputs.len() && has_lit_option(
        (#[trigger] inputs[i]).builder.options,
    )
}

/// The one statement that fetches all secrets and builds the lookup map
/// from prefixed key to value.
pub open spec fn secrets_stmt() -> Seq<char> {
    "    let vars = std::collections::HashMap::from_iter(factory.get_secrets().await?.into_iter().map(|(key, value)| (format!(\"secrets.{}\", key), value)));\n"@
}

/// The secrets statement when any option value is a string literal; nothing
/// otherwise (the fetch is omitted entirely).
pub open spec fn secrets_text(m: LoaderV) -> Seq<char> {
    if needs_secrets(m.fn_inputs) {
        secrets_stmt()
    } else {
        Seq::empty()
    }
}

/// One chained setter call: a string-literal value is routed through
/// secret-template substitution; any other expression is passed verbatim.
pub open spec fn setter_text(o: BuilderOptionV) -> Seq<char> {
    "."@ + o.name + "("@ + (match o.value {
        OptionValueV::Lit(c) => "&shuttle_runtime::strfmt(\""@ + c + "\", &vars)?"@,
        OptionValueV::Expr(t) => t,
    }) + ")"@
}

/// The setter calls of one builder, chained in declared order.
pub open spec fn chain_text(opts: Seq<BuilderOptionV>) -> Seq<char>
    decreases opts.len(),
{
    if opts.len() == 0 {
        Seq::empty()
    } else {
        setter_text(opts[0]) + chain_text(opts.drop_first())
    }
}

/// The right-hand side of one provisioning binding: construct the builder,
/// chain its setters, provision it, and wrap any failure with the builder's
/// name as context.
pub open spec fn provision_rhs(inp: InputV) -> Seq<char> {
    "shuttle_runtime::get_resource(\n        "@ + inp.builder.path + "::new()"@ + chain_text(
        inp.builder.options,
    )
        + ",\n        &mut factory,\n        &mut resource_tracker,\n    ).await.context(format!(\"failed to provision {}\", stringify!("@
        + inp.builder.path + ")))?;\n"@
}

/// One provisioning statement, binding the provisioned value to the
/// parameter's own identifier.
pub open spec fn provision_stmt(inp: InputV) -> Seq<char> {
    "    let "@ + inp.ident + " = "@ + provision_rhs(inp)
}

/// All provisioning statements, in declaration order.
pub open spec fn provisions_text(inputs: Seq<InputV>) -> Seq<char>
    decreases inputs.len(),
{
    if inputs.len() == 0 {
        Seq::empty()
    } else {
        provision_stmt(inputs[0]) + provisions_text(inputs.drop_first())
    }
}

/// The entry point's arguments: the bound parameter identifiers, in
/// original order.
pub open spec fn args_text(inputs: Seq<InputV>) -> Seq<char>
    decreases inputs.len(),
{
    if inputs.len() == 0 {
        Seq::empty()
    } else if inputs.len() == 1 {
        inputs[0].ident
    } else {
        inputs[0].ident + ", "@ + args_text(inputs.drop_first())
    }
}

/// The final call into the original entry point, forwarding its result.
pub open spec fn call_text(m: LoaderV) -> Seq<char> {
    "    "@ + m.fn_ident + "("@ + args_text(m.fn_inputs) + ").await\n}\n"@
}

/// The whole bootstrap routine.
pub open spec fn loader_text(m: LoaderV) -> Seq<char> {
    header_text(m) + logging_text(m) + secrets_text(m) + provisions_text(m.fn_inputs) + call_text(
        m,
    )
}

/// The process entry-point wrapper that starts the bootstrap routine under
/// the executing collaborator.
pub open spec fn wrapper_text() -> Seq<char> {
    "#[tokio::main]\nasync fn main() {\n    shuttle_runtime::start(loader).await;\n}\n\n"@
}

/// With zero resource parameters the context parameters get "unused" names,
/// the provisioning-capability import is omitted and no provisioning
/// statement is emitted; with at least one resource they get "used" names
/// and the import is emitted.
pub proof fn lemma_context_naming(m: LoaderV)
    ensures
        m.fn_inputs.len() == 0 ==> factory_name(m) == "_factory"@ && tracker_name(m)
            == "_resource_tracker"@ && import_text(m) == Seq::<char>::empty() && provisions_text(
            m.fn_inputs,
        ) == Seq::<char>::empty(),
        m.fn_inputs.len() > 0 ==> factory_name(m) == "factory"@ && tracker_name(m)
            == "resource_tracker"@ && import_text(m)
            == "    use shuttle_runtime::{Factory, ResourceBuilder};\n"@,
{
}

/// The provisioning statements stand in the loader text in exactly the
/// declared order, one per input, each binding its own parameter
/// identifier, between the setup text and the final call.
pub proof fn lemma_provisioning_in_order(m: LoaderV)
    ensures
        loader_text(m) == header_text(m) + logging_text(m) + secrets_text(m) + provisions_text(
            m.fn_inputs,
        ) + call_text(m),
        forall|i: int|
            0 <= i < m.fn_inputs.len() ==> provisions_text(#[trigger] m.fn_inputs.skip(i))
                == provision_stmt(m.fn_inputs[i]) + provisions_text(m.fn_inputs.skip(i + 1)),
        forall|i: int|
            0 <= i < m.fn_inputs.len() ==> provision_stmt(#[trigger] m.fn_inputs[i]) == "    let "@
                + m.fn_inputs[i].ident + " = "@ + provision_rhs(m.fn_inputs[i]),
        provisions_text(m.fn_inputs.skip(m.fn_inputs.len() as int)) == Seq::<char>::empty(),
{
    assert forall|i: int| 0 <= i < m.fn_inputs.len() implies provisions_text(
        #[trigger] m.fn_inputs.skip(i),
    ) == provision_stmt(m.fn_inputs[i]) + provisions_text(m.fn_inputs.skip(i + 1)) by {
        assert(m.fn_inputs.skip(i)[0] == m.fn_inputs[i]);
        assert(m.fn_inputs.skip(i).drop_first() =~= m.fn_inputs.skip(i + 1));
    }
    assert(m.fn_inputs.skip(m.fn_inputs.len() as int) =~= Seq::<InputV>::empty());
}

/// The secrets statement is emitted, before all provisioning statements,
/// exactly when some option value somewhere is a string literal; otherwise
/// it is absent.
pub proof fn lemma_secrets_stmt(m: LoaderV)
    ensures
        needs_secrets(m.fn_inputs) <==> (exists|i: int, j: int|
            #![trigger m.fn_inputs[i].builder.options[j]]
            0 <= i < m.fn_inputs.len() && 0 <= j < m.fn_inputs[i].builder.options.len()
                && m.fn_inputs[i].builder.options[j].value is Lit),
        needs_secrets(m.fn_inputs) ==> loader_text(m) == (header_text(m) + logging_text(m)) + (
        secrets_stmt() + (provisions_text(m.fn_inputs) + call_text(m))),
        !needs_secrets(m.fn_inputs) ==> loader_text(m) == (header_text(m) + logging_text(m)) + (
        provisions_text(m.fn_inputs) + call_text(m)),
{
    if needs_secrets(m.fn_inputs) {
        let i = choose|i: int|
            0 <= i < m.fn_inputs.len() && has_lit_option((#[trigger] m.fn_inputs[i]).builder.options);
        let j = choose|j: int|
            0 <= j < m.fn_inputs[i].builder.options.len() && (#[trigger] m.fn_inputs[i].builder.options[j]).value is Lit;
        assert(0 <= i < m.fn_inputs.len() && 0 <= j < m.fn_inputs[i].builder.options.len()
            && m.fn_inputs[i].builder.options[j].value is Lit);
        assert(loader_text(m) =~= (header_text(m) + logging_text(m)) + (secrets_stmt() + (
        provisions_text(m.fn_inputs) + call_text(m))));
    } else {
        if exists|i: int, j: int|
            #![trigger m.fn_inputs[i].builder.options[j]]
            0 <= i < m.fn_inputs.len() && 0 <= j < m.fn_inputs[i].builder.options.len()
                && m.fn_inputs[i].builder.options[j].value is Lit {
            let (i, j) = choose|i: int, j: int|
                #![trigger m.fn_inputs[i].builder.options[j]]
                0 <= i < m.fn_inputs.len() && 0 <= j < m.fn_inputs[i].builder.options.len()
                    && m.fn_inputs[i].builder.options[j].value is Lit;
            assert(has_lit_option(m.fn_inputs[i].builder.options));
            assert(needs_secrets(m.fn_inputs));
        }
        assert(loader_text(m) =~= (header_text(m) + logging_text(m)) + (provisions_text(
            m.fn_inputs,
        ) + call_text(m)));
    }
}

/// Renders the chained setter calls of one builder: executable form of
/// [`chain_text`].
fn render_chain(opts: &BuilderOptions) -> (r: String)
    ensures
        r@ == chain_text(opts@),
{
    let mut out = String::new();
    let n = opts.options.len();
    let mut i: usize = 0;
    proof {
        assert(opts@.skip(0) =~= opts@);
        assert(out@ + chain_text(opts@) =~= chain_text(opts@));
    }
    while i < n
        invariant
            n == opts.options.len(),
            i <= n,
            out@ + chain_text(opts@.skip(i as int)) == chain_text(opts@),
        decreases n - i,
    {
        let ghost prev = out@;
        proof {
            assert(opts@[i as int] == opts.options@[i as int]@);
            assert(opts@.skip(i as int)[0] == opts@[i as int]);
            assert(opts@.skip(i as int).drop_first() =~= opts@.skip(i + 1 as int));
        }
        let o = &opts.options[i];
        out.append(".");
        out.append(o.name.as_str());
        out.append("(");
        match &o.value {
            OptionValue::Lit(c) => {
                out.append("&shuttle_runtime::strfmt(\"");
                out.append(c.as_str());
                out.append("\", &vars)?");
            },
            OptionValue::Expr(t) => {
                out.append(t.as_str());
            },
        }
        out.append(")");
        proof {
            assert(out@ =~= prev + setter_text(opts@[i as int]));
            assert(out@ + chain_text(opts@.skip(i + 1 as int)) =~= chain_text(opts@));
        }
        i = i + 1;
    }
    proof {
        assert(opts@.skip(n as int) =~= Seq::<BuilderOptionV>::empty());
        assert(out@ + chain_text(opts@.skip(n as int)) =~= out@);
    }
    out
}

/// Renders one provisioning statement: executable form of
/// [`provision_stmt`].
fn render_provision(inp: &Input) -> (r: String)
    ensures
        r@ == provision_stmt(inp@),
{
    let mut out = String::from_str("    let ");
    out.append(inp.ident.as_str());
    out.append(" = ");
    out.append("shuttle_runtime::get_resource(\n        ");
    out.append(inp.builder.path.as_str());
    out.append("::new()");
    let chain = render_chain(&inp.builder.options);
    out.append(chain.as_str());
    out.append(
        ",\n        &mut factory,\n        &mut resource_tracker,\n    ).await.context(format!(\"failed to provision {}\", stringify!(",
    );
    out.append(inp.builder.path.as_str());
    out.append(")))?;\n");
    proof {
        assert(out@ =~= provision_stmt(inp@));
    }
    out
}

/// Renders the process entry-point wrapper: executable form of
/// [`wrapper_text`].
pub fn render_wrapper() -> (r: String)
    ensures
        r@ == wrapper_text(),
{
    String::from_str("#[tokio::main]\nasync fn main() {\n    shuttle_runtime::start(loader).await;\n}\n\n")
}

impl Loader {
    /// Renders the entry point's argument list: executable form of
    /// [`args_text`].
    fn render_args(&self) -> (r: String)
        ensures
            r@ == args_text(self@.fn_inputs),
    {
        let ghost inputsv = self@.fn_inputs;
        let mut out = String::new();
        let n = self.fn_inputs.len();
        if n == 0 {
            return out;
        }
        let mut i: usize = 0;
        proof {
            assert(inputsv.skip(0) =~= inputsv);
            assert(out@ + args_text(inputsv) =~= args_text(inputsv));
        }
        loop
            invariant
                n == self.fn_inputs.len(),
                inputsv == self.fn_inputs@.map_values(|x: Input| x@),
                i < n,
                out@ + args_text(inputsv.skip(i as int)) == args_text(inputsv),
            decreases n - i,
        {
            let ghost prev = out@;
            proof {
                assert(inputsv[i as int] == self.fn_inputs@[i as int]@);
                assert(inputsv.skip(i as int)[0] == inputsv[i as int]);
                assert(inputsv.skip(i as int).drop_first() =~= inputsv.skip(i + 1 as int));
            }
            out.append(self.fn_inputs[i].ident.as_str());
            if i + 1 < n {
                out.append(", ");
                proof {
                    assert(out@ =~= prev + (inputsv[i as int].ident + ", "@));
                    assert(out@ + args_text(inputsv.skip(i + 1 as int)) =~= args_text(inputsv));
                }
                i = i + 1;
            } else {
                proof {
                    assert(inputsv.skip(i as int).len() == 1);
                    assert(args_text(inputsv.skip(i as int)) == inputsv[i as int].ident);
                    assert(out@ =~= args_text(inputsv));
                }
                return out;
            }
        }
    }

    /// Renders the whole bootstrap routine, deterministically: executable
    /// form of [`loader_text`].
    pub fn render_loader(&self) -> (r: String)
        ensures
            r@ == loader_text(self@),
    {
        let ghost m = self@;
        let mut out = String::from_str("async fn loader(\n    mut ");
        if self.fn_inputs.len() == 0 {
            out.append("_factory");
        } else {
            out.append("factory");
        }
        out.append(": shuttle_runtime::ProvisionerFactory,\n    mut ");
        if self.fn_inputs.len() == 0 {
            out.append("_resource_tracker");
        } else {
            out.append("resource_tracker");
        }
        out.append(": shuttle_runtime::ResourceTracker,\n    logger: shuttle_runtime::Logger,\n) -> ");
        out.append(self.fn_return.as_str());
        out.append(
            " {\n    use shuttle_runtime::Context;\n    use shuttle_runtime::tracing_subscriber::prelude::*;\n",
        );
        if self.fn_inputs.len() > 0 {
            out.append("    use shuttle_runtime::{Factory, ResourceBuilder};\n");
        }
        proof {
            assert(out@ =~= header_text(m));
        }
        out.append(
            "    let log_level: shuttle_runtime::tracing::Level = match shuttle_runtime::tracing::Level::",
        );
        out.append(self.log_level.name());
        out.append(
            " {\n        level if level < shuttle_runtime::tracing::Level::DEBUG => shuttle_runtime::tracing::Level::DEBUG,\n        level => level,\n    };\n    let filter_layer = shuttle_runtime::tracing_subscriber::EnvFilter::from_default_env().add_directive(log_level.into());\n    shuttle_runtime::tracing_subscriber::registry().with(filter_layer).with(logger).init();\n",
        );
        proof {
            assert(out@ =~= header_text(m) + logging_text(m));
        }
        if self.needs_secrets() {
            out.append(
                "    let vars = std::collections::HashMap::from_iter(factory.get_secrets().await?.into_iter().map(|(key, value)| (format!(\"secrets.{}\", key), value)));\n",
            );
        }
        proof {
            assert(out@ =~= header_text(m) + logging_text(m) + secrets_text(m));
        }
        let ghost base = header_text(m) + logging_text(m) + secrets_text(m);
        let ghost inputsv = m.fn_inputs;
        let n = self.fn_inputs.len();
        let mut i: usize = 0;
        proof {
            assert(inputsv.skip(0) =~= inputsv);
            assert(out@ + provisions_text(inputsv) =~= base + provisions_text(inputsv));
        }
        while i < n
            invariant
                n == self.fn_inputs.len(),
                inputsv == self.fn_inputs@.map_values(|x: Input| x@),
                i <= n,
                out@ + provisions_text(inputsv.skip(i as int)) == base + provisions_text(inputsv),
            decreases n - i,
        {
            let ghost prev = out@;
            proof {
                assert(inputsv[i as int] == self.fn_inputs@[i as int]@);
                assert(inputsv.skip(i as int)[0] == inputsv[i as int]);
                assert(inputsv.skip(i as int).drop_first() =~= inputsv.skip(i + 1 as int));
            }
            let stmt = render_provision(&self.fn_inputs[i]);
            out.append(stmt.as_str());
            proof {
                assert(out@ + provisions_text(inputsv.skip(i + 1 as int)) =~= base
                    + provisions_text(inputsv));
            }
            i = i + 1;
        }
        proof {
            assert(inputsv.skip(n as int) =~= Seq::<InputV>::empty());
            assert(out@ =~= base + provisions_text(inputsv));
        }
        out.append("    ");
        out.append(self.fn_ident.as_str());
        out.append("(");
        let args = self.render_args();
        out.append(args.as_str());
        out.append(").await\n}\n");
        proof {
            assert(out@ =~= loader_text(m));
        }
        out
    }

    /// Whether generation needs the secrets map: executable form of
    /// [`needs_secrets`].
    pub fn needs_secrets(&self) -> (b: bool)
        ensures
            b == needs_secrets(self@.fn_inputs),
    {
        let ghost inputsv = self@.fn_inputs;
        let n = self.fn_inputs.len();
        let mut i: usize = 0;
        while i < n
            invariant
                n == self.fn_inputs.len(),
                inputsv == self.fn_inputs@.map_values(|x: crate::model::Input| x@),
                i <= n,
                forall|k: int| 0 <= k < i ==> !has_lit_option((#[trigger] inputsv[k]).builder.options),
            decreases n - i,
        {
            proof {
                assert(inputsv[i as int] == self.fn_inputs@[i as int]@);
            }
            let opts = &self.fn_inputs[i].builder.options;
            let on = opts.options.len();
            let mut j: usize = 0;
            while j < on
                invariant
                    on == opts.options.len(),
                    j <= on,
                    inputsv.len() == n,
                    inputsv == self.fn_inputs@.map_values(|x: crate::model::Input| x@),
                    inputsv[i as int] == self.fn_inputs@[i as int]@,
                    i < n == self.fn_inputs.len(),
                    opts == &self.fn_inputs@[i as int].builder.options,
                    forall|k: int| 0 <= k < j ==> !((#[trigger] opts@[k]).value is Lit),
                decreases on - j,
            {
                proof {
                    assert(opts@[j as int] == opts.options@[j as int]@);
                }
                match &opts.options[j].value {
                    OptionValue::Lit(_) => {
                        proof {
                            assert(opts@[j as int].value is Lit);
                            assert(has_lit_option(inputsv[i as int].builder.options));
                            assert(needs_secrets(inputsv));
                        }
                        return true;
                    },
                    OptionValue::Expr(_) => {},
                }
                j = j + 1;
            }
            proof {
                assert(!has_lit_option(inputsv[i as int].builder.options));
            }
            i = i + 1;
        }
        false
    }
}

} // verus!
