//! A small ahead-of-time compiler and interpreter for a minimal esoteric
//! instruction set operating on a bounded byte tape.
//!
//! The pipeline has three stages: a recursive-descent parser producing a
//! span-annotated syntax tree with bounded nesting, an optimizer applying a
//! fixed chain of local rewrite passes to a flat per-block statement list,
//! and a tape-machine interpreter executing the flattened, jump-based form.
use vstd::prelude::*;

pub mod interp;
pub mod lir;
pub mod opts;
pub mod parse;

verus! {

/// Parse, optimize and lower a whole source: the full ahead-of-time
/// pipeline. On success the result satisfies the interpreter's safety
/// invariants by construction and is ready for `interp::run`.
pub fn compile(src: &Vec<u8>) -> (r: Result<lir::Lir, parse::ParseError>)
    requires
        src@.len() <= u32::MAX,
    ensures
        match r {
            Ok(code) => {
                &&& parse::parse_spec(src@) matches Some(ast) && code.stmts@ == lir::lir_of(
                    opts::optimize_spec(ast),
                )
                &&& code.wf()
            },
            Err(_) => parse::parse_spec(src@) is None,
        },
{
    match parse::parse(src) {
        Err(e) => Err(e),
        Ok(ast) => {
            let ir = opts::optimize(ast.as_slice());
            let code = lir::lower(&ir);
            Ok(code)
        },
    }
}

} // verus!
