//! The outer transformation: given the raw entry-point declaration and the
//! transformer-level options (currently a log-level override), build the
//! model and render the generated program text.
//!
//! The caller re-emits the original, annotation-stripped declaration after
//! the returned code, so the user-callable function survives the
//! transformation.

use vstd::prelude::*;
use crate::decl::{spec_diags, spec_model, spec_stripped, Diagnostic, FnDecl, FnDeclV};
use crate::gen::{loader_text, render_wrapper, wrapper_text};
use crate::model::Loader;

verus! {

/// One transformer-level `name = value` option, as attached to the
/// transformation itself (not to a parameter).
#[derive(Debug, Clone)]
pub enum ArgValue {
    /// A string-literal value.
    Str(String),
    /// Any other literal or expression.
    Other,
}

/// A named transformer-level option.
#[derive(Debug, Clone)]
pub struct MacroArg {
    pub name: String,
    pub value: ArgValue,
}

/// Mathematical value of an [`ArgValue`].
#[verifier::ext_equal]
pub enum ArgValueV {
    Str(Seq<char>),
    Other,
}

/// Mathematical value of a [`MacroArg`].
#[verifier::ext_equal]
pub struct MacroArgV {
    pub name: Seq<char>,
    pub value: ArgValueV,
}

impl View for ArgValue {
    type V = ArgValueV;

    open spec fn view(&self) -> ArgValueV {
        match self {
            ArgValue::Str(s) => ArgValueV::Str(s@),
            ArgValue::Other => ArgValueV::Other,
        }
    }
}

impl View for MacroArg {
    type V = MacroArgV;

    open spec fn view(&self) -> MacroArgV {
        MacroArgV { name: self.name@, value: self.value@ }
    }
}

/// The string value of the first `log_level` option, if any.
pub open spec fn spec_find_log_level(args: Seq<MacroArgV>) -> Option<Seq<char>>
    decreases args.len(),
{
    if args.len() == 0 {
        None
    } else if args[0].name == "log_level"@ && args[0].value is Str {
        Some(args[0].value->Str_0)
    } else {
        spec_find_log_level(args.drop_first())
    }
}

/// The effective log-level text: the supplied override, or `DEBUG` when
/// none is given.
pub open spec fn spec_level_arg(args: Seq<MacroArgV>) -> Seq<char> {
    match spec_find_log_level(args) {
        Some(s) => s,
        None => "DEBUG"@,
    }
}

/// The generated program text: the process entry-point wrapper followed by
/// the bootstrap routine; `None` exactly when no model can be built.
pub open spec fn spec_code(d: FnDeclV, args: Seq<MacroArgV>) -> Option<Seq<char>> {
    match spec_model(d, spec_level_arg(args)) {
        Some(m) => Some(wrapper_text() + loader_text(m)),
        None => None,
    }
}

/// What one transformation run produces: the generated code (absent on a
/// fatal structural error) and every diagnostic gathered on the way.
#[derive(Debug)]
pub struct Transformed {
    pub code: Option<String>,
    pub diagnostics: Vec<Diagnostic>,
}

/// Finds the `log_level` override among the transformer-level options:
/// executable form of [`spec_find_log_level`].
///
/// A `log_level` option whose value is not a string literal is rejected by
/// the caller before this point, so it is excluded here.
pub fn find_log_level(args: &Vec<MacroArg>) -> (r: Option<String>)
    requires
        forall|k: int|
            0 <= k < args@.len() && (#[trigger] args@[k])@.name == "log_level"@ ==> args@[k]@.value
                is Str,
    ensures
        match r {
            Some(s) => spec_find_log_level(args@.map_values(|a: MacroArg| a@)) == Some(s@),
            None => spec_find_log_level(args@.map_values(|a: MacroArg| a@)) is None,
        },
{
    let ghost argsv = args@.map_values(|a: MacroArg| a@);
    let n = args.len();
    let mut i: usize = 0;
    proof {
        assert(argsv.skip(0) =~= argsv);
    }
    while i < n
        invariant
            n == args@.len(),
            i <= n,
            argsv == args@.map_values(|a: MacroArg| a@),
            forall|k: int|
                0 <= k < argsv.len() && (#[trigger] argsv[k]).name == "log_level"@
                    ==> argsv[k].value is Str,
            spec_find_log_level(argsv) == spec_find_log_level(argsv.skip(i as int)),
        decreases n - i,
    {
        proof {
            assert(argsv[i as int] == args@[i as int]@);
            assert(argsv.skip(i as int)[0] == argsv[i as int]);
            assert(argsv.skip(i as int).drop_first() =~= argsv.skip(i + 1 as int));
        }
        if crate::level::str_eq(args[i].name.as_str(), "log_level") {
            match &args[i].value {
                ArgValue::Str(s) => {
                    return Some(s.clone());
                },
                ArgValue::Other => {
                    proof {
                        assert(argsv[i as int].name == "log_level"@);
                        assert(false);
                    }
                },
            }
        }
        i = i + 1;
    }
    proof {
        assert(argsv.skip(n as int) =~= Seq::<MacroArgV>::empty());
    }
    None
}

/// The whole transformation: builds the model from the declaration and the
/// transformer-level options (stripping parameter annotations from the
/// declaration as a side effect), renders the generated program text when a
/// model could be built, and returns it with all gathered diagnostics.
pub fn transform(decl: &mut FnDecl, args: &Vec<MacroArg>) -> (r: Transformed)
    requires
        forall|k: int|
            0 <= k < args@.len() && (#[trigger] args@[k])@.name == "log_level"@ ==> args@[k]@.value
                is Str,
    ensures
        match spec_code(old(decl)@, args@.map_values(|a: MacroArg| a@)) {
            Some(c) => r.code is Some && r.code->Some_0@ == c,
            None => r.code is None,
        },
        r.diagnostics@.map_values(|d: Diagnostic| d@) == spec_diags(
            old(decl)@,
            spec_level_arg(args@.map_values(|a: MacroArg| a@)),
        ),
        final(decl)@ == spec_stripped(old(decl)@),
{
    let lvl = find_log_level(args);
    let (model, diags) = match &lvl {
        Some(s) => Loader::from_item_fn(decl, s.as_str()),
        None => Loader::from_item_fn(decl, "DEBUG"),
    };
    match model {
        Some(loader) => {
            let mut code = render_wrapper();
            let body = loader.render_loader();
            code.append(body.as_str());
            Transformed { code: Some(code), diagnostics: diags }
        },
        None => Transformed { code: None, diagnostics: diags },
    }
}

} // verus!
