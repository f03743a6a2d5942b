//! The interpreter front object: one value per session, handing each
//! source buffer to a scanner constructed for that buffer alone, so an
//! error in one buffer can never taint the next.

use vstd::prelude::*;

use crate::errors::{errors_model, CompileError};
use crate::model::scan_result;
use crate::scanner::Scanner;
use crate::token::{tokens_model, Token};

verus! {

/// The interpreter front. It holds no state of its own: the aggregate
/// error signal for a buffer lives in the scanner built for that buffer,
/// and nothing survives from one `run` to the next.
pub struct Lox {}

impl Lox {
    pub fn new() -> (l: Self) {
        Lox {  }
    }

    /// Scan one source buffer to completion and hand back its ordered
    /// token list and its diagnostics, exactly as the scan model
    /// prescribes. The caller decides what a non-empty diagnostic list
    /// means (for a file run: a failing exit).
    pub fn run(&mut self, source: String) -> (r: (Vec<Token>, Vec<CompileError>))
        requires
            source@.len() < usize::MAX,
        ensures
            tokens_model(r.0@) == scan_result(source@).tokens,
            errors_model(r.1@) == scan_result(source@).errors,
    {
        let mut scanner = Scanner::new(source);
        scanner.scan_tokens();
        (scanner.tokens, scanner.errors)
    }
}

} // verus!
