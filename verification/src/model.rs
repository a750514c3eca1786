//! The intermediate model: what one annotated entry-point declaration
//! means. Produced by the declaration parser, consumed by the code
//! generator.

use vstd::prelude::*;
use crate::level::LogLevel;
use crate::options::{BuilderOptionV, BuilderOptions};

verus! {

/// A resource builder: a named builder type plus the ordered option list to
/// apply to it.
#[derive(Debug, Clone)]
pub struct Builder {
    /// Path of the builder type; also the human-readable label used when
    /// provisioning fails.
    pub path: String,
    /// Options to call on the builder, in declared order.
    pub options: BuilderOptions,
}

/// One resource dependency of the entry point.
#[derive(Debug, Clone)]
pub struct Input {
    /// The parameter name bound to the provisioned value.
    pub ident: String,
    /// The builder that provisions this resource.
    pub builder: Builder,
}

/// The full descriptor of one entry-point declaration: everything the code
/// generator needs, immutable once built.
#[derive(Debug, Clone)]
pub struct Loader {
    /// The identifier of the user's entry-point function.
    pub fn_ident: String,
    /// Resource inputs, in declaration order (which is also provisioning
    /// order and call-argument order).
    pub fn_inputs: Vec<Input>,
    /// The declared return type: a plain named type path.
    pub fn_return: String,
    /// The configured log level.
    pub log_level: LogLevel,
}

/// Mathematical value of a [`Builder`].
#[verifier::ext_equal]
pub struct BuilderV {
    pub path: Seq<char>,
    pub options: Seq<BuilderOptionV>,
}

/// Mathematical value of an [`Input`].
#[verifier::ext_equal]
pub struct InputV {
    pub ident: Seq<char>,
    pub builder: BuilderV,
}

/// Mathematical value of a [`Loader`].
#[verifier::ext_equal]
pub struct LoaderV {
    pub fn_ident: Seq<char>,
    pub fn_inputs: Seq<InputV>,
    pub fn_return: Seq<char>,
    pub log_level: LogLevel,
}

impl View for Builder {
    type V = BuilderV;

    open spec fn view(&self) -> BuilderV {
        BuilderV { path: self.path@, options: self.options@ }
    }
}

impl View for Input {
    type V = InputV;

    open spec fn view(&self) -> InputV {
        InputV { ident: self.ident@, builder: self.builder@ }
    }
}

impl View for Loader {
    type V = LoaderV;

    open spec fn view(&self) -> LoaderV {
        LoaderV {
            fn_ident: self.fn_ident@,
            fn_inputs: self.fn_inputs@.map_values(|i: Input| i@),
            fn_return: self.fn_return@,
            log_level: self.log_level,
        }
    }
}

} // verus!
