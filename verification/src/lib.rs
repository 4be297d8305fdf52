//! A transpiler from the bracketed Kleenexp surface syntax to classical
//! regular-expression strings in several target flavors.
//!
//! The pipeline is `parse` (surface text to AST), `compile` (AST to an
//! intermediate regex algebra, resolving macros), and rendering (IR to the
//! target flavor's concrete syntax). The whole pipeline is a pure function,
//! exposed as [`transpile`].

use vstd::prelude::*;

pub mod ast;
pub mod builtins;
pub mod chars;
pub mod compiler;
pub mod parse;
pub mod regexable;
pub mod render;

use crate::builtins::{builtins, spec_builtins};
use crate::compiler::{spec_compile, spec_compile_defs, spec_compile_matches, Macros};
use crate::ast::SpecAst;
use crate::parse::{parse, spec_parse};
use crate::regexable::{Regexable, SpecRegexable};
use crate::render::spec_render;
use regex::Error as RegexCrateError;

verus! {

/// The target regex dialect. The flavors only differ in output-level
/// details such as the header of a named capture group.
#[derive(Copy, Clone, PartialEq, Eq, Structural)]
pub enum RegexFlavor {
    Python,
    Javascript,
    Rust,
    RustFancy,
}

/// A failed transpilation: either the surface syntax was ill-formed, or it
/// was well-formed but semantically illegal (unknown macro, empty body under
/// a quantifier, and so on). The payload is a human-readable description.
#[derive(Debug)]
pub enum Error {
    ParseError(String),
    CompileError(String),
}

impl Error {
    /// The error's description, prefixed with its kind.
    pub fn describe(&self) -> (r: String)
        ensures
            match self {
                Error::ParseError(s) => r@ == "ParseError: "@ + s@,
                Error::CompileError(s) => r@ == "CompileError: "@ + s@,
            },
    {
        let mut r = String::new();
        match self {
            Error::ParseError(s) => {
                r.append("ParseError: ");
                r.append(s.as_str());
            },
            Error::CompileError(s) => {
                r.append("CompileError: ");
                r.append(s.as_str());
            },
        }
        r
    }
}

/// The parse and compile stages composed: the intermediate representation
/// of a pattern under an environment, or nothing on either kind of error.
#[verifier::opaque]
pub open spec fn spec_parse_compile(
    p: Seq<char>,
    env: Seq<Seq<(Seq<char>, SpecRegexable)>>,
) -> Option<SpecRegexable> {
    match spec_parse(p) {
        None => None,
        Some(ast) => spec_compile(ast, env),
    }
}

/// The whole pipeline: parse, compile under the built-in macros, render
/// unwrapped in the requested flavor.
pub open spec fn spec_transpile(p: Seq<char>, flavor: RegexFlavor) -> Option<Seq<char>> {
    match spec_parse_compile(p, spec_builtins()) {
        None => None,
        Some(rx) => spec_render(rx, flavor, false),
    }
}

/// Parses a pattern and compiles it under the given environment, telling a
/// surface-syntax error apart from a semantic one.
pub fn parse_and_compile(kleenexp: &str, macros: &mut Macros) -> (r: Result<Regexable, Error>)
    requires
        old(macros)@.len() >= 1,
    ensures
        final(macros)@ == old(macros)@,
        match r {
            Ok(rx) => spec_parse_compile(kleenexp@, old(macros)@) == Some(rx@),
            Err(Error::ParseError(_)) => spec_parse(kleenexp@) is None,
            Err(Error::CompileError(_)) => spec_parse(kleenexp@) is Some && spec_parse_compile(
                kleenexp@,
                old(macros)@,
            ) is None,
        },
{
    reveal(spec_parse_compile);
    match parse(kleenexp) {
        Err(e) => Err(Error::ParseError(e)),
        Ok(ast) => match ast.compile(macros) {
            Err(e) => Err(Error::CompileError(e)),
            Ok(rx) => Ok(rx),
        },
    }
}

/// Transpiles a Kleenexp pattern to a classical regex string in the given
/// flavor. The result is rendered unwrapped; errors distinguish surface
/// syntax (`ParseError`) from semantics and rendering (`CompileError`).
pub fn transpile(pattern: &str, flavor: RegexFlavor) -> (r: Result<String, Error>)
    ensures
        match r {
            Ok(s) => spec_transpile(pattern@, flavor) == Some(s@),
            Err(Error::ParseError(_)) => spec_parse(pattern@) is None,
            Err(Error::CompileError(_)) => spec_parse(pattern@) is Some && spec_transpile(
                pattern@,
                flavor,
            ) is None,
        },
{
    reveal(spec_parse_compile);
    let mut macros = builtins();
    match parse_and_compile(pattern, &mut macros) {
        Err(e) => Err(e),
        Ok(rx) => match rx.into_regex(flavor, false) {
            Ok(s) => Ok(s),
            Err(e) => Err(Error::CompileError(e)),
        },
    }
}

/// A pattern without bracket groups is pure literal text: it has no
/// quantifiers, captures or macros, and it transpiles, in every flavor, to
/// exactly itself with regex metacharacters escaped.
#[verifier::rlimit(100)]
#[verifier::spinoff_prover]
pub proof fn lemma_plain_text_transpiles_to_its_escape(p: Seq<char>, flavor: RegexFlavor)
    requires
        forall|i: int| 0 <= i < p.len() ==> #[trigger] p[i] != '[' && p[i] != ']',
    ensures
        spec_transpile(p, flavor) == Some(crate::render::spec_escape(p)),
{
    reveal(spec_parse_compile);
    let env = spec_builtins();
    crate::parse::lemma_parse_plain_text(p);
    if p.len() == 0 {
        let inner = env.push(Seq::empty());
        assert(spec_compile_defs(Seq::<SpecAst>::empty(), inner) == Some(inner));
        assert(spec_compile_matches(Seq::<SpecAst>::empty(), inner) == Some(
            Seq::<SpecRegexable>::empty(),
        ));
        assert(spec_compile(SpecAst::Concat(Seq::empty()), env) == Some(
            SpecRegexable::Concat(Seq::empty()),
        ));
        assert(crate::render::spec_render_concat(Seq::<SpecRegexable>::empty(), flavor)
            == Some(Seq::<char>::empty()));
        assert(spec_render(SpecRegexable::Concat(Seq::empty()), flavor, false) == Some(
            Seq::<char>::empty(),
        ));
        assert(crate::render::spec_escape(p) =~= Seq::<char>::empty());
    } else {
        assert(spec_compile(SpecAst::Literal(p), env) == Some(SpecRegexable::Literal(p)));
    }
}

/// The further special case of the law above: text whose characters need
/// no escaping at all transpiles to exactly itself.
pub proof fn lemma_safe_text_transpiles_to_itself(p: Seq<char>, flavor: RegexFlavor)
    requires
        forall|i: int|
            0 <= i < p.len() ==> crate::render::spec_escape_char(#[trigger] p[i]) is None,
    ensures
        spec_transpile(p, flavor) == Some(p),
{
    assert(forall|i: int| 0 <= i < p.len() ==> #[trigger] p[i] != '[' && p[i] != ']');
    lemma_plain_text_transpiles_to_its_escape(p, flavor);
    crate::render::lemma_escape_id(p);
}

/// A drop-in front end for regex engines: implementors compile a Kleenexp
/// pattern instead of classical regex syntax.
pub trait Kleenexp<T, E> {
    fn kleenexp(pattern: &str) -> Result<T, E>;
}

#[verifier::external_type_specification]
#[verifier::external_body]
pub struct ExRegex(regex::Regex);

#[verifier::external_type_specification]
#[verifier::external_body]
pub struct ExRegexError(RegexCrateError);

/// Relies on regex::Regex::new: compiles a classical regex string with the
/// regex crate's own compiler.
#[verifier::external_body]
fn regex_new(re: &str) -> (r: Result<regex::Regex, regex::Error>) {
    regex::Regex::new(re)
}

/// Relies on regex::Error::Syntax: the variant that carries a syntax-error
/// message.
#[verifier::external_body]
fn regex_syntax_error(message: String) -> (r: regex::Error) {
    regex::Error::Syntax(message)
}

impl Kleenexp<regex::Regex, regex::Error> for regex::Regex {
    fn kleenexp(pattern: &str) -> Result<regex::Regex, regex::Error> {
        match transpile(pattern, RegexFlavor::Rust) {
            Ok(re) => regex_new(re.as_str()),
            Err(e) => Err(regex_syntax_error(e.describe())),
        }
    }
}

} // verus!
