//! The engine facade: parse, compile, execute.
//!
//! The strong contracts live on the parts — the compiler returns exactly
//! its functional specification and a well-formed chunk; the virtual
//! machine returns exactly what the step machine computes — so composing
//! them here needs nothing taken on faith: the compiled chunk's
//! well-formedness discharges the machine's precondition.

use vstd::prelude::*;
use crate::ast::Program;
use crate::chunk::chunk_wf;
use crate::compiler::{BytecodeCompiler, CompileError, compile_program};
use crate::error::RuntimeError;
use crate::parser::Parser;
use crate::vm::{RunResult, VM, spec_exec};

verus! {

/// Why an evaluation stopped: the compiler refused the program, or
/// execution faulted.
#[derive(Debug)]
pub enum EvalError {
    Compile(CompileError),
    Runtime(RuntimeError),
}

/// How one evaluation relates to a parsed program: a compile error comes
/// back unchanged with the machine untouched; otherwise the compiled chunk
/// is well formed and the result, the first fault, and the whole final
/// machine state are exactly what the step machine computes on it.
pub open spec fn eval_follows(prog: Program, pre: VM, post: VM, r: Result<(), EvalError>) -> bool {
    match compile_program(prog) {
        Ok(c) => chunk_wf(c) && match spec_exec(c, pre.snap(0)) {
            RunResult::Done(s2) => r is Ok && post.snap(s2.ip) == s2,
            RunResult::Fault(e, s2) => (r matches Err(EvalError::Runtime(re)) && re@ == e)
                && post.snap(s2.ip) == s2,
        },
        Err(e) => (r matches Err(EvalError::Compile(ce)) && ce@ == e) && post == pre,
    }
}

/// The engine: one virtual machine, fed by the parser and compiler.
#[derive(Debug)]
pub struct ShadowEngine {
    pub vm: VM,
}

impl ShadowEngine {
    pub fn new() -> (e: Self)
        ensures
            e.vm.wf(),
            e.vm.snap(0) == crate::vm::fresh_snap(),
    {
        ShadowEngine { vm: VM::new() }
    }

    pub fn set_debug(&mut self, debug: bool)
        requires
            old(self).vm.wf(),
        ensures
            final(self).vm.wf(),
            final(self).vm.debug == debug,
    {
        self.vm.set_debug(debug);
    }

    /// Evaluate a source program: lex and parse it, compile the result,
    /// and run the chunk on this engine's machine.  What `print` wrote is
    /// then in the machine's output log.
    ///
    /// The contract pins everything downstream of parsing: for the parsed
    /// program, a compile error comes back unchanged with the machine
    /// untouched, and otherwise the result, the first fault, and the whole
    /// machine state — output log included — are exactly what the step
    /// machine computes on the compiled chunk.  (Which program the source
    /// parses to is not yet stated: the parser carries structural
    /// contracts, not a functional one.)
    pub fn eval(&mut self, src: Vec<char>) -> (r: Result<(), EvalError>)
        requires
            old(self).vm.wf(),
        ensures
            final(self).vm.wf(),
            r matches Err(EvalError::Compile(_)) ==> final(self).vm == old(self).vm,
            exists|prog: Program| #[trigger] eval_follows(prog, old(self).vm, final(self).vm, r),
    {
        let mut parser = Parser::new(src);
        let ast = match parser.parse() {
            Ok(p) => p,
            Err(_) => vstd::pervasive::unreached(),
        };
        let ghost pg = ast;
        let chunk = match BytecodeCompiler::compile(&ast) {
            Ok(c) => c,
            Err(e) => {
                let r: Result<(), EvalError> = Err(EvalError::Compile(e));
                proof {
                    assert(eval_follows(pg, old(self).vm, self.vm, r));
                }
                return r;
            },
        };
        let r: Result<(), EvalError> = match self.vm.execute(chunk) {
            Ok(()) => Ok(()),
            Err(e) => Err(EvalError::Runtime(e)),
        };
        proof {
            assert(eval_follows(pg, old(self).vm, self.vm, r));
        }
        r
    }
}

} // verus!
