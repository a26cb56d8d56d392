//! The front end every `calcc` subcommand shares: parse, then resolve, then lower,
//! stopping at the first stage that fails.

use vstd::prelude::*;

use crate::ast::Expr;
use crate::frontend::{ParseDiagnostic, ParserFrontend};
use crate::ir::{temp_view, Program};
use crate::lower::{
    lemma_resolved_programs_lower, lower, lower_spec, temp_count, temps_needed,
};
use crate::parser::{frontend_answer, LalrpopFrontend};
use crate::resolve::{errors_view, resolve, spec_resolve, ResolveError};
use crate::runtime_deps::{calls_known, lemma_lowering_calls_known};

verus! {

/// Why a program did not get through the front end.
#[derive(Debug)]
pub enum FrontEndError {
    /// It does not parse.
    Parse(Vec<ParseDiagnostic>),
    /// It parses, but names do not resolve.
    Resolve(Vec<ResolveError>),
    /// It needs more temporaries than the IR can number.
    TooLarge,
}

/// Parses `src` and resolves its names: the program, or the first stage's errors.
pub fn parse_and_resolve(src: &str) -> (r: Result<Expr, FrontEndError>)
    ensures
        match r {
            Ok(e) => frontend_answer(Ok(e), src@) && spec_resolve(e@) is Ok,
            Err(FrontEndError::Parse(ds)) => frontend_answer(Err(ds), src@),
            Err(FrontEndError::Resolve(es)) => exists|e: Expr|
                frontend_answer(Ok(e), src@) && spec_resolve(e@) == Err::<(), _>(errors_view(es@)),
            Err(FrontEndError::TooLarge) => false,
        },
{
    let ast = match LalrpopFrontend.parse(src) {
        Ok(ast) => ast,
        Err(ds) => {
            return Err(FrontEndError::Parse(ds));
        },
    };
    match resolve(&ast) {
        Ok(()) => Ok(ast),
        Err(es) => {
            assert(frontend_answer(Ok(ast), src@));
            Err(FrontEndError::Resolve(es))
        },
    }
}

/// Parses, resolves and lowers `src`: the lowered program, or why it could not be.
/// A lowered program only calls built-ins the manifest declares.
pub fn compile_front(src: &str) -> (r: Result<Program, FrontEndError>)
    ensures
        match r {
            Ok(p) => exists|e: Expr|
                frontend_answer(Ok(e), src@) && spec_resolve(e@) is Ok && temp_count(e@)
                    <= u32::MAX && p.body@ == lower_spec(e@, Seq::empty(), 0).0 && temp_view(p.result)
                    == lower_spec(e@, Seq::empty(), 0).1 && calls_known(p.body@),
            Err(FrontEndError::TooLarge) => exists|e: Expr|
                frontend_answer(Ok(e), src@) && spec_resolve(e@) is Ok && temp_count(e@)
                    > u32::MAX,
            Err(FrontEndError::Parse(ds)) => frontend_answer(Err(ds), src@),
            Err(FrontEndError::Resolve(es)) => exists|e: Expr|
                frontend_answer(Ok(e), src@) && spec_resolve(e@) == Err::<(), _>(errors_view(es@)),
        },
{
    let ast = match parse_and_resolve(src) {
        Ok(ast) => ast,
        Err(err) => {
            return Err(err);
        },
    };
    if temps_needed(&ast) > 0xffff_ffff {
        return Err(FrontEndError::TooLarge);
    }
    proof {
        lemma_resolved_programs_lower(ast@);
        lemma_lowering_calls_known(ast@, Seq::empty(), 0);
    }
    let p = lower(&ast);
    Ok(p)
}

} // verus!
