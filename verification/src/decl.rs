//! The declaration parser: walks an entry-point declaration's parameter
//! list and return type, resolves one resource annotation per parameter,
//! validates structural constraints, and produces the model.
//!
//! Errors are accumulated as diagnostics rather than failing fast, so one
//! run surfaces all per-parameter problems; a missing or unsupported return
//! type or an invalid log level aborts model construction.

use vstd::prelude::*;
use crate::level::{parse_level, spec_parse_level};
use crate::model::{Builder, BuilderV, Input, InputV, Loader, LoaderV};
use crate::options::{parse_options, spec_parse_options, BuilderOptions};

verus! {

/// How one parameter of the declaration binds its value.
#[derive(Debug, Clone)]
pub enum ParamPattern {
    /// A method receiver (`self` in some form); carries no resource.
    Receiver,
    /// A plain name.
    Name(String),
    /// Any other binding pattern; skipped by the parameter walk.
    Other,
}

/// One annotation attached to a parameter: a type path, optionally followed
/// by parenthesized option-list source text.
#[derive(Debug, Clone)]
pub struct Annotation {
    pub path: String,
    /// The parenthesized argument text, parens included; `None` when the
    /// annotation carries no parenthesized content at all.
    pub args: Option<String>,
}

/// One parameter of the entry-point declaration.
#[derive(Debug, Clone)]
pub struct Param {
    pub pattern: ParamPattern,
    pub annotations: Vec<Annotation>,
}

/// The declared return type of the entry point.
#[derive(Debug, Clone)]
pub enum ReturnDecl {
    /// No return type was declared.
    Missing,
    /// A plain named type path, held as its source text.
    Named(String),
    /// Any other shape (tuple, reference, function type, ...), held as its
    /// source text for diagnostics.
    Other(String),
}

/// An entry-point function declaration, reduced to what the transformation
/// reads: its identifier, its parameters and its return type.
#[derive(Debug, Clone)]
pub struct FnDecl {
    pub ident: String,
    pub params: Vec<Param>,
    pub ret: ReturnDecl,
}

/// Mathematical value of a [`ParamPattern`].
#[verifier::ext_equal]
pub enum ParamPatternV {
    Receiver,
    Name(Seq<char>),
    Other,
}

/// Mathematical value of an [`Annotation`].
#[verifier::ext_equal]
pub struct AnnotationV {
    pub path: Seq<char>,
    pub args: Option<Seq<char>>,
}

/// Mathematical value of a [`Param`].
#[verifier::ext_equal]
pub struct ParamV {
    pub pattern: ParamPatternV,
    pub annotations: Seq<AnnotationV>,
}

/// Mathematical value of a [`ReturnDecl`].
#[verifier::ext_equal]
pub enum ReturnDeclV {
    Missing,
    Named(Seq<char>),
    Other(Seq<char>),
}

/// Mathematical value of an [`FnDecl`].
#[verifier::ext_equal]
pub struct FnDeclV {
    pub ident: Seq<char>,
    pub params: Seq<ParamV>,
    pub ret: ReturnDeclV,
}

impl View for ParamPattern {
    type V = ParamPatternV;

    open spec fn view(&self) -> ParamPatternV {
        match self {
            ParamPattern::Receiver => ParamPatternV::Receiver,
            ParamPattern::Name(s) => ParamPatternV::Name(s@),
            ParamPattern::Other => ParamPatternV::Other,
        }
    }
}

impl View for Annotation {
    type V = AnnotationV;

    open spec fn view(&self) -> AnnotationV {
        AnnotationV {
            path: self.path@,
            args: match &self.args {
                Some(s) => Some(s@),
                None => None,
            },
        }
    }
}

impl View for Param {
    type V = ParamV;

    open spec fn view(&self) -> ParamV {
        ParamV {
            pattern: self.pattern@,
            annotations: self.annotations@.map_values(|a: Annotation| a@),
        }
    }
}

impl View for ReturnDecl {
    type V = ReturnDeclV;

    open spec fn view(&self) -> ReturnDeclV {
        match self {
            ReturnDecl::Missing => ReturnDeclV::Missing,
            ReturnDecl::Named(s) => ReturnDeclV::Named(s@),
            ReturnDecl::Other(s) => ReturnDeclV::Other(s@),
        }
    }
}

impl View for FnDecl {
    type V = FnDeclV;

    open spec fn view(&self) -> FnDeclV {
        FnDeclV {
            ident: self.ident@,
            params: self.params@.map_values(|p: Param| p@),
            ret: self.ret@,
        }
    }
}

/// The structural violations the declaration parser can report.
#[derive(Debug, Clone, Copy, PartialEq, Eq, Structural)]
pub enum ErrorKind {
    /// The entry point bears the reserved process-entry name.
    ReservedName,
    /// The entry point declares no return type.
    MissingReturnType,
    /// The declared return type is not a plain named type path.
    UnsupportedReturnType,
    /// A parameter carries no resource annotation.
    MissingResourceAnnotation,
    /// An annotation's option list is malformed.
    Syntax,
    /// The transformer-level log-level option names no defined level.
    InvalidLogLevel,
}

/// One reported structural violation, attached to the source item (function
/// identifier, parameter name, type text or level text) it concerns.
#[derive(Debug, Clone)]
pub struct Diagnostic {
    pub kind: ErrorKind,
    pub subject: String,
}

/// Mathematical value of a [`Diagnostic`].
#[verifier::ext_equal]
pub struct DiagnosticV {
    pub kind: ErrorKind,
    pub subject: Seq<char>,
}

impl View for Diagnostic {
    type V = DiagnosticV;

    open spec fn view(&self) -> DiagnosticV {
        DiagnosticV { kind: self.kind, subject: self.subject@ }
    }
}

impl Diagnostic {
    /// The remediation hint attached to this kind of violation, if any.
    pub fn hint(&self) -> (r: Option<&'static str>)
        ensures
            r is Some <==> self.kind == ErrorKind::MissingResourceAnnotation || self.kind
                == ErrorKind::MissingReturnType || self.kind == ErrorKind::UnsupportedReturnType,
    {
        match self.kind {
            ErrorKind::MissingResourceAnnotation => Some(
                "Try adding a config like `#[shuttle_shared_db::Postgres]`",
            ),
            ErrorKind::MissingReturnType => Some(
                "See the docs for services with first class support",
            ),
            ErrorKind::UnsupportedReturnType => Some(
                "See the docs for services with first class support",
            ),
            _ => None,
        }
    }
}

/// The reserved name of the process entry point, which the user's function
/// must not bear.
pub open spec fn reserved_name() -> Seq<char> {
    "main"@
}

/// Resolution of a parameter's annotations to a builder: the first
/// annotation names the builder type; its parenthesized content, when
/// present, is the option list.
pub open spec fn spec_attr_to_builder(anns: Seq<AnnotationV>) -> Result<BuilderV, ErrorKind> {
    if anns.len() == 0 {
        Err(ErrorKind::MissingResourceAnnotation)
    } else {
        match anns[0].args {
            None => Ok(BuilderV { path: anns[0].path, options: Seq::empty() }),
            Some(src) => match spec_parse_options(src) {
                Some(opts) => Ok(BuilderV { path: anns[0].path, options: opts }),
                None => Err(ErrorKind::Syntax),
            },
        }
    }
}

/// The name a parameter binds, when its pattern is a plain name.
pub open spec fn param_name(p: ParamV) -> Option<Seq<char>> {
    match p.pattern {
        ParamPatternV::Name(id) => Some(id),
        _ => None,
    }
}

/// The resource inputs of a parameter list, in declaration order: one per
/// named parameter whose annotations resolve to a builder; receivers, other
/// binding patterns and erroneous parameters contribute none.
pub open spec fn spec_inputs(params: Seq<ParamV>) -> Seq<InputV>
    decreases params.len(),
{
    if params.len() == 0 {
        Seq::empty()
    } else {
        let rest = spec_inputs(params.drop_first());
        match params[0].pattern {
            ParamPatternV::Name(id) => match spec_attr_to_builder(params[0].annotations) {
                Ok(b) => seq![InputV { ident: id, builder: b }] + rest,
                Err(_) => rest,
            },
            _ => rest,
        }
    }
}

/// The per-parameter diagnostics of a parameter list, in declaration order.
pub open spec fn spec_param_diags(params: Seq<ParamV>) -> Seq<DiagnosticV>
    decreases params.len(),
{
    if params.len() == 0 {
        Seq::empty()
    } else {
        let rest = spec_param_diags(params.drop_first());
        match params[0].pattern {
            ParamPatternV::Name(id) => match spec_attr_to_builder(params[0].annotations) {
                Ok(_) => rest,
                Err(k) => seq![DiagnosticV { kind: k, subject: id }] + rest,
            },
            _ => rest,
        }
    }
}

/// The model built from a declaration and the transformer-level log-level
/// text; `None` exactly when a fatal structural error makes a model
/// impossible (reserved name, missing or unsupported return type, invalid
/// log level).
pub open spec fn spec_model(d: FnDeclV, level_arg: Seq<char>) -> Option<LoaderV> {
    if d.ident == reserved_name() {
        None
    } else {
        match d.ret {
            ReturnDeclV::Named(t) => match spec_parse_level(level_arg) {
                Some(lv) => Some(
                    LoaderV {
                        fn_ident: d.ident,
                        fn_inputs: spec_inputs(d.params),
                        fn_return: t,
                        log_level: lv,
                    },
                ),
                None => None,
            },
            _ => None,
        }
    }
}

/// The diagnostics reported for a declaration, in the order the checks run:
/// the reserved-name check short-circuits; otherwise per-parameter errors
/// come first, then the return-type error, then the log-level error.
pub open spec fn spec_diags(d: FnDeclV, level_arg: Seq<char>) -> Seq<DiagnosticV> {
    if d.ident == reserved_name() {
        seq![DiagnosticV { kind: ErrorKind::ReservedName, subject: d.ident }]
    } else {
        let pd = spec_param_diags(d.params);
        let rd = match d.ret {
            ReturnDeclV::Missing => seq![
                DiagnosticV { kind: ErrorKind::MissingReturnType, subject: d.ident },
            ],
            ReturnDeclV::Other(t) => seq![
                DiagnosticV { kind: ErrorKind::UnsupportedReturnType, subject: t },
            ],
            ReturnDeclV::Named(_) => Seq::empty(),
        };
        let ld = match d.ret {
            ReturnDeclV::Named(_) => if spec_parse_level(level_arg) is None {
                seq![DiagnosticV { kind: ErrorKind::InvalidLogLevel, subject: level_arg }]
            } else {
                Seq::empty()
            },
            _ => Seq::empty(),
        };
        pd + rd + ld
    }
}

/// The declaration after the parameter walk: annotations are stripped from
/// every plainly named parameter (they are transformer-only metadata), and
/// everything else is unchanged. The reserved-name short circuit leaves the
/// declaration untouched.
pub open spec fn spec_stripped(d: FnDeclV) -> FnDeclV {
    if d.ident == reserved_name() {
        d
    } else {
        FnDeclV {
            ident: d.ident,
            params: d.params.map_values(
                |p: ParamV|
                    ParamV {
                        pattern: p.pattern,
                        annotations: if p.pattern is Name {
                            Seq::empty()
                        } else {
                            p.annotations
                        },
                    },
            ),
            ret: d.ret,
        }
    }
}

/// A declaration whose entry point bears the reserved name yields no model
/// and exactly one report: the reserved-name violation.
pub proof fn lemma_reserved_name_rejected(d: FnDeclV, level_arg: Seq<char>)
    requires
        d.ident == reserved_name(),
    ensures
        spec_model(d, level_arg) is None,
        spec_diags(d, level_arg) == seq![
            DiagnosticV { kind: ErrorKind::ReservedName, subject: d.ident },
        ],
{
}

/// Checks the declared return type: it must be present and a plain named
/// type path.
pub fn check_return_type(decl: &FnDecl) -> (r: Result<String, Diagnostic>)
    ensures
        match decl@.ret {
            ReturnDeclV::Named(t) => r is Ok && r->Ok_0@ == t,
            ReturnDeclV::Missing => r is Err && r->Err_0@ == DiagnosticV {
                kind: ErrorKind::MissingReturnType,
                subject: decl@.ident,
            },
            ReturnDeclV::Other(t) => r is Err && r->Err_0@ == DiagnosticV {
                kind: ErrorKind::UnsupportedReturnType,
                subject: t,
            },
        },
{
    match &decl.ret {
        ReturnDecl::Named(t) => Ok(t.clone()),
        ReturnDecl::Missing => Err(
            Diagnostic { kind: ErrorKind::MissingReturnType, subject: decl.ident.clone() },
        ),
        ReturnDecl::Other(t) => Err(
            Diagnostic { kind: ErrorKind::UnsupportedReturnType, subject: t.clone() },
        ),
    }
}

/// Resolves a parameter's annotations to a builder: executable form of
/// [`spec_attr_to_builder`]. The diagnostic names the parameter.
pub fn attribute_to_builder(param_ident: &String, annotations: &Vec<Annotation>) -> (r: Result<
    Builder,
    Diagnostic,
>)
    ensures
        match r {
            Ok(b) => spec_attr_to_builder(annotations@.map_values(|a: Annotation| a@)) == Ok::<
                BuilderV,
                ErrorKind,
            >(b@),
            Err(d) => spec_attr_to_builder(annotations@.map_values(|a: Annotation| a@)) == Err::<
                BuilderV,
                ErrorKind,
            >(d@.kind) && d@.subject == param_ident@,
        },
{
    let ghost annsv = annotations@.map_values(|a: Annotation| a@);
    if annotations.len() == 0 {
        return Err(
            Diagnostic {
                kind: ErrorKind::MissingResourceAnnotation,
                subject: param_ident.clone(),
            },
        );
    }
    let first = &annotations[0];
    proof {
        assert(annsv[0] == annotations@[0]@);
    }
    match &first.args {
        None => {
            let empty: Vec<crate::options::BuilderOption> = Vec::new();
            proof {
                assert(empty@.map_values(|o: crate::options::BuilderOption| o@)
                    =~= Seq::<crate::options::BuilderOptionV>::empty());
            }
            Ok(Builder { path: first.path.clone(), options: BuilderOptions { options: empty } })
        },
        Some(src) => match parse_options(src.as_str()) {
            Ok(opts) => Ok(Builder { path: first.path.clone(), options: opts }),
            Err(_) => Err(
                Diagnostic { kind: ErrorKind::Syntax, subject: param_ident.clone() },
            ),
        },
    }
}

impl Loader {
    /// Builds the model from a declaration and the transformer-level
    /// log-level text, stripping annotations from the declaration as a side
    /// effect, and returns it together with all accumulated diagnostics.
    ///
    /// The model is `None` exactly on a fatal structural error; diagnostics
    /// for independent per-parameter errors are accumulated, not
    /// fail-fast.
    pub fn from_item_fn(decl: &mut FnDecl, log_level: &str) -> (r: (
        Option<Loader>,
        Vec<Diagnostic>,
    ))
        ensures
            match spec_model(old(decl)@, log_level@) {
                Some(m) => r.0 is Some && r.0->Some_0@ == m,
                None => r.0 is None,
            },
            r.1@.map_values(|d: Diagnostic| d@) == spec_diags(old(decl)@, log_level@),
            final(decl)@ == spec_stripped(old(decl)@),
    {
        let ghost dv = old(decl)@;
        let mut diags: Vec<Diagnostic> = Vec::new();
        if crate::level::str_eq(decl.ident.as_str(), "main") {
            diags.push(
                Diagnostic { kind: ErrorKind::ReservedName, subject: decl.ident.clone() },
            );
            proof {
                assert(diags@.map_values(|d: Diagnostic| d@) =~= spec_diags(dv, log_level@));
            }
            return (None, diags);
        }
        let mut work: Vec<Param> = Vec::new();
        core::mem::swap(&mut decl.params, &mut work);
        let ghost orig = work@;
        let n = work.len();
        let mut new_params: Vec<Param> = Vec::new();
        let mut inputs: Vec<Input> = Vec::new();
        let mut i: usize = 0;
        proof {
            assert(orig.skip(0) =~= orig);
            assert(dv.params.skip(0) =~= dv.params);
            assert(inputs@.map_values(|x: Input| x@) =~= Seq::<InputV>::empty());
            assert(diags@.map_values(|d: Diagnostic| d@) =~= Seq::<DiagnosticV>::empty());
            assert(Seq::<InputV>::empty() + spec_inputs(dv.params) =~= spec_inputs(dv.params));
            assert(Seq::<DiagnosticV>::empty() + spec_param_diags(dv.params) =~= spec_param_diags(
                dv.params,
            ));
            assert(new_params@.map_values(|p: Param| p@) =~= spec_stripped(dv).params.subrange(
                0,
                0,
            ));
        }
        while i < n
            invariant
                dv.ident != reserved_name(),
                n == orig.len(),
                i <= n,
                work@ == orig.skip(i as int),
                dv.params == orig.map_values(|p: Param| p@),
                spec_inputs(dv.params) == inputs@.map_values(|x: Input| x@) + spec_inputs(
                    dv.params.skip(i as int),
                ),
                spec_param_diags(dv.params) == diags@.map_values(|d: Diagnostic| d@)
                    + spec_param_diags(dv.params.skip(i as int)),
                new_params@.map_values(|p: Param| p@) == spec_stripped(dv).params.subrange(
                    0,
                    i as int,
                ),
            decreases n - i,
        {
            let p = work.remove(0);
            proof {
                assert(orig.skip(i as int)[0] == orig[i as int]);
                assert(orig.skip(i as int).remove(0) =~= orig.skip(i + 1 as int));
                assert(dv.params[i as int] == orig[i as int]@);
                assert(dv.params.skip(i as int)[0] == dv.params[i as int]);
                assert(dv.params.skip(i as int).drop_first() =~= dv.params.skip(i + 1 as int));
            }
            let Param { pattern, annotations } = p;
            match pattern {
                ParamPattern::Name(id) => {
                    match attribute_to_builder(&id, &annotations) {
                        Ok(b) => {
                            let ghost prev = inputs@;
                            inputs.push(Input { ident: id.clone(), builder: b });
                            proof {
                                assert(inputs@.map_values(|x: Input| x@) =~= prev.map_values(
                                    |x: Input| x@,
                                ) + seq![InputV { ident: id@, builder: b@ }]);
                                assert(prev.map_values(|x: Input| x@) + (seq![
                                    InputV { ident: id@, builder: b@ },
                                ] + spec_inputs(dv.params.skip(i + 1 as int)))
                                    =~= inputs@.map_values(|x: Input| x@) + spec_inputs(
                                    dv.params.skip(i + 1 as int),
                                ));
                            }
                        },
                        Err(d) => {
                            let ghost prevd = diags@;
                            let ghost dvw = d@;
                            diags.push(d);
                            proof {
                                assert(diags@.map_values(|x: Diagnostic| x@) =~= prevd.map_values(
                                    |x: Diagnostic| x@,
                                ) + seq![dvw]);
                                assert(prevd.map_values(|x: Diagnostic| x@) + (seq![dvw]
                                    + spec_param_diags(dv.params.skip(i + 1 as int)))
                                    =~= diags@.map_values(|x: Diagnostic| x@) + spec_param_diags(
                                    dv.params.skip(i + 1 as int),
                                ));
                            }
                        },
                    }
                    let ghost prevp = new_params@;
                    let stripped: Vec<Annotation> = Vec::new();
                    new_params.push(Param { pattern: ParamPattern::Name(id), annotations: stripped });
                    proof {
                        assert(new_params@.map_values(|q: Param| q@) =~= prevp.map_values(
                            |q: Param| q@,
                        ).push(new_params@[new_params@.len() - 1]@));
                        assert(new_params@[new_params@.len() - 1]@.annotations
                            =~= Seq::<AnnotationV>::empty());
                        assert(new_params@[new_params@.len() - 1]@ =~= spec_stripped(
                            dv,
                        ).params[i as int]);
                        assert(new_params@.map_values(|q: Param| q@) =~= spec_stripped(
                            dv,
                        ).params.subrange(0, i + 1 as int));
                    }
                },
                other => {
                    let ghost prevp = new_params@;
                    new_params.push(Param { pattern: other, annotations });
                    proof {
                        assert(new_params@.map_values(|q: Param| q@) =~= prevp.map_values(
                            |q: Param| q@,
                        ).push(new_params@[new_params@.len() - 1]@));
                        assert(new_params@[new_params@.len() - 1]@ =~= spec_stripped(
                            dv,
                        ).params[i as int]);
                        assert(new_params@.map_values(|q: Param| q@) =~= spec_stripped(
                            dv,
                        ).params.subrange(0, i + 1 as int));
                    }
                },
            }
            i = i + 1;
        }
        core::mem::swap(&mut decl.params, &mut new_params);
        proof {
            assert(dv.params.skip(n as int) =~= Seq::<ParamV>::empty());
            assert(spec_inputs(dv.params) =~= inputs@.map_values(|x: Input| x@)) by {
                assert(spec_inputs(Seq::<ParamV>::empty()) =~= Seq::<InputV>::empty());
                assert(inputs@.map_values(|x: Input| x@) + Seq::<InputV>::empty()
                    =~= inputs@.map_values(|x: Input| x@));
            }
            assert(spec_param_diags(dv.params) =~= diags@.map_values(|d: Diagnostic| d@)) by {
                assert(spec_param_diags(Seq::<ParamV>::empty()) =~= Seq::<DiagnosticV>::empty());
                assert(diags@.map_values(|d: Diagnostic| d@) + Seq::<DiagnosticV>::empty()
                    =~= diags@.map_values(|d: Diagnostic| d@));
            }
            assert(spec_stripped(dv).params.subrange(0, n as int) =~= spec_stripped(dv).params);
            assert(decl@ =~= spec_stripped(dv));
        }
        let ghost pdiags = diags@;
        match check_return_type(decl) {
            Err(d) => {
                let ghost dvw = d@;
                diags.push(d);
                proof {
                    assert(diags@.map_values(|x: Diagnostic| x@) =~= pdiags.map_values(
                        |x: Diagnostic| x@,
                    ) + seq![dvw]);
                    assert(diags@.map_values(|x: Diagnostic| x@) =~= spec_diags(dv, log_level@));
                }
                (None, diags)
            },
            Ok(ret_ty) => {
                match parse_level(log_level) {
                    None => {
                        diags.push(
                            Diagnostic {
                                kind: ErrorKind::InvalidLogLevel,
                                subject: String::from_str(log_level),
                            },
                        );
                        proof {
                            assert(diags@.map_values(|x: Diagnostic| x@) =~= pdiags.map_values(
                                |x: Diagnostic| x@,
                            ) + seq![
                                DiagnosticV {
                                    kind: ErrorKind::InvalidLogLevel,
                                    subject: log_level@,
                                },
                            ]);
                            assert(diags@.map_values(|x: Diagnostic| x@) =~= spec_diags(
                                dv,
                                log_level@,
                            ));
                        }
                        (None, diags)
                    },
                    Some(lv) => {
                        let loader = Loader {
                            fn_ident: decl.ident.clone(),
                            fn_inputs: inputs,
                            fn_return: ret_ty,
                            log_level: lv,
                        };
                        proof {
                            assert(loader@ =~= spec_model(dv, log_level@)->Some_0);
                            assert(pdiags.map_values(|x: Diagnostic| x@) + Seq::<
                                DiagnosticV,
                            >::empty() =~= pdiags.map_values(|x: Diagnostic| x@));
                            assert(diags@.map_values(|x: Diagnostic| x@) =~= spec_diags(
                                dv,
                                log_level@,
                            ));
                        }
                        (Some(loader), diags)
                    },
                }
            },
        }
    }
}

} // verus!
