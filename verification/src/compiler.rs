//! The bytecode compiler.
//!
//! A single pass over the statements, emitting into a growing chunk.
//! [`compile_expr`] and [`compile_stmt`] are the compiler's functional
//! specification: the executable compiler returns exactly what they
//! compute.  Two theorems accompany them: compilation only ever appends to
//! the chunk it was handed (patching touches only its own jump
//! placeholders), and every chunk the compiler produces is well formed —
//! constant references in range and all jumps forward — which is what the
//! virtual machine's contract asks for.

use vstd::prelude::*;
use crate::ast::{Expression, Program, Statement};
use crate::chunk::{Chunk, Constant, OpCode, SpecChunk, SpecConstant, chunk_wf, op_wf};
use crate::value::clone_chars;

verus! {

broadcast use
    vstd::std_specs::vec::axiom_vec_index_decreases,
    vstd::std_specs::vec::axiom_vec_decreases_to_view,
    vstd::seq::axiom_seq_index_decreases;

/// The mathematical image of a [`CompileError`].
pub enum SpecCompileError {
    UnsupportedStatement,
    UnsupportedExpression,
    UnknownOperator(Seq<char>),
}

/// What stops compilation: a statement or expression outside the
/// compiler's coverage, or an infix operator it does not know.
#[derive(Debug)]
pub enum CompileError {
    UnsupportedStatement,
    UnsupportedExpression,
    UnknownOperator(Vec<char>),
}

impl View for CompileError {
    type V = SpecCompileError;

    open spec fn view(&self) -> SpecCompileError {
        match self {
            CompileError::UnsupportedStatement => SpecCompileError::UnsupportedStatement,
            CompileError::UnsupportedExpression => SpecCompileError::UnsupportedExpression,
            CompileError::UnknownOperator(op) => SpecCompileError::UnknownOperator(op@),
        }
    }
}

/// Append one opcode.
pub open spec fn push_op(c: SpecChunk, op: OpCode) -> SpecChunk {
    SpecChunk { code: c.code.push(op), constants: c.constants }
}

/// Append one constant.
pub open spec fn push_const(c: SpecChunk, k: SpecConstant) -> SpecChunk {
    SpecChunk { code: c.code, constants: c.constants.push(k) }
}

/// The opcode an infix operator denotes, if any.
pub open spec fn infix_opcode(op: Seq<char>) -> Option<OpCode> {
    if op == seq!['+'] {
        Some(OpCode::Add)
    } else if op == seq!['-'] {
        Some(OpCode::Sub)
    } else if op == seq!['*'] {
        Some(OpCode::Mul)
    } else if op == seq!['/'] {
        Some(OpCode::Div)
    } else if op == seq!['=', '='] {
        Some(OpCode::Equal)
    } else if op == seq!['!', '='] {
        Some(OpCode::NotEqual)
    } else if op == seq!['<'] {
        Some(OpCode::LessThan)
    } else if op == seq!['>'] {
        Some(OpCode::GreaterThan)
    } else {
        None
    }
}

/// What compiling one expression appends to chunk `c`: the expression's
/// value is left on the operand stack.
pub open spec fn compile_expr(e: Expression, c: SpecChunk) -> Result<SpecChunk, SpecCompileError>
    decreases e,
{
    match e {
        Expression::Number(bits) => Ok(
            push_op(
                push_const(c, SpecConstant::Number(bits)),
                OpCode::Constant(c.constants.len() as usize),
            ),
        ),
        Expression::Str(sv) => Ok(
            push_op(
                push_const(c, SpecConstant::Str(sv@)),
                OpCode::Constant(c.constants.len() as usize),
            ),
        ),
        Expression::Identifier(name) => Ok(
            push_op(
                push_const(c, SpecConstant::Str(name@)),
                OpCode::GetGlobal(c.constants.len() as usize),
            ),
        ),
        Expression::Call { function, arguments } => match compile_expr(*function, c) {
            Ok(c1) => match compile_exprs(arguments@, c1) {
                Ok(c2) => Ok(push_op(c2, OpCode::Call(arguments@.len() as usize))),
                Err(er) => Err(er),
            },
            Err(er) => Err(er),
        },
        Expression::Array(elements) => match compile_exprs(elements@, c) {
            Ok(c1) => Ok(push_op(c1, OpCode::Array(elements@.len() as usize))),
            Err(er) => Err(er),
        },
        Expression::Object(pairs) => match compile_pairs(pairs@, c) {
            Ok(c1) => Ok(push_op(c1, OpCode::Object(pairs@.len() as usize))),
            Err(er) => Err(er),
        },
        Expression::Index { left, index } => match compile_expr(*left, c) {
            Ok(c1) => match compile_expr(*index, c1) {
                Ok(c2) => Ok(push_op(c2, OpCode::GetIndex)),
                Err(er) => Err(er),
            },
            Err(er) => Err(er),
        },
        Expression::Infix { left, operator, right } => match compile_expr(*left, c) {
            Ok(c1) => match compile_expr(*right, c1) {
                Ok(c2) => match infix_opcode(operator@) {
                    Some(op) => Ok(push_op(c2, op)),
                    None => Err(SpecCompileError::UnknownOperator(operator@)),
                },
                Err(er) => Err(er),
            },
            Err(er) => Err(er),
        },
        _ => Err(SpecCompileError::UnsupportedExpression),
    }
}

/// Compile a sequence of expressions left to right.
pub open spec fn compile_exprs(es: Seq<Expression>, c: SpecChunk) -> Result<
    SpecChunk,
    SpecCompileError,
>
    decreases es,
{
    if es.len() == 0 {
        Ok(c)
    } else {
        match compile_exprs(es.drop_last(), c) {
            Ok(c1) => compile_expr(es.last(), c1),
            Err(er) => Err(er),
        }
    }
}

/// Compile the pairs of an object literal left to right: each pair pushes
/// its key as a string constant, then its value.
pub open spec fn compile_pairs(ps: Seq<(Vec<char>, Expression)>, c: SpecChunk) -> Result<
    SpecChunk,
    SpecCompileError,
>
    decreases ps,
{
    if ps.len() == 0 {
        Ok(c)
    } else {
        match compile_pairs(ps.drop_last(), c) {
            Ok(c1) => {
                let key = ps.last().0;
                let c2 = push_op(
                    push_const(c1, SpecConstant::Str(key@)),
                    OpCode::Constant(c1.constants.len() as usize),
                );
                compile_expr(ps.last().1, c2)
            },
            Err(er) => Err(er),
        }
    }
}

/// What compiling one statement appends to chunk `c`: a statement leaves
/// the operand stack as it found it.
pub open spec fn compile_stmt(s: Statement, c: SpecChunk) -> Result<SpecChunk, SpecCompileError>
    decreases s,
{
    match s {
        Statement::Expression(e) => match compile_expr(e, c) {
            Ok(c1) => Ok(push_op(c1, OpCode::Pop)),
            Err(er) => Err(er),
        },
        Statement::Let { name, value } => match compile_expr(value, c) {
            Ok(c1) => Ok(
                push_op(
                    push_op(
                        push_const(c1, SpecConstant::Str(name@)),
                        OpCode::SetGlobal(c1.constants.len() as usize),
                    ),
                    OpCode::Pop,
                ),
            ),
            Err(er) => Err(er),
        },
        Statement::Const { name, value } => match compile_expr(value, c) {
            Ok(c1) => Ok(
                push_op(
                    push_op(
                        push_const(c1, SpecConstant::Str(name@)),
                        OpCode::SetGlobal(c1.constants.len() as usize),
                    ),
                    OpCode::Pop,
                ),
            ),
            Err(er) => Err(er),
        },
        Statement::Block(stmts) => compile_stmts(stmts@, c),
        Statement::If { condition, consequence, alternative } => match compile_expr(condition, c) {
            Ok(c1) => {
                let jif = c1.code.len() as int;
                let c2 = push_op(c1, OpCode::JumpIfFalse(0));
                match compile_stmt(*consequence, c2) {
                    Ok(c3) => {
                        let j = c3.code.len() as int;
                        let c4 = push_op(c3, OpCode::Jump(0));
                        let c5 = SpecChunk {
                            code: c4.code.update(
                                jif,
                                OpCode::JumpIfFalse(c4.code.len() as usize),
                            ),
                            constants: c4.constants,
                        };
                        match alternative {
                            Some(alt) => match compile_stmt(*alt, c5) {
                                Ok(c6) => Ok(
                                    SpecChunk {
                                        code: c6.code.update(
                                            j,
                                            OpCode::Jump(c6.code.len() as usize),
                                        ),
                                        constants: c6.constants,
                                    },
                                ),
                                Err(er) => Err(er),
                            },
                            None => Ok(
                                SpecChunk {
                                    code: c5.code.update(j, OpCode::Jump(c5.code.len() as usize)),
                                    constants: c5.constants,
                                },
                            ),
                        }
                    },
                    Err(er) => Err(er),
                }
            },
            Err(er) => Err(er),
        },
        _ => Err(SpecCompileError::UnsupportedStatement),
    }
}

/// Compile a sequence of statements left to right.
pub open spec fn compile_stmts(ss: Seq<Statement>, c: SpecChunk) -> Result<
    SpecChunk,
    SpecCompileError,
>
    decreases ss,
{
    if ss.len() == 0 {
        Ok(c)
    } else {
        match compile_stmts(ss.drop_last(), c) {
            Ok(c1) => compile_stmt(ss.last(), c1),
            Err(er) => Err(er),
        }
    }
}

/// What compiling a whole program produces, starting from an empty chunk.
pub open spec fn compile_program(p: Program) -> Result<SpecChunk, SpecCompileError> {
    compile_stmts(
        p.statements@,
        SpecChunk { code: Seq::<OpCode>::empty(), constants: Seq::<SpecConstant>::empty() },
    )
}

/// The chunk grew: the old code and constants are unchanged prefixes of
/// the new ones.
pub open spec fn extends(c: SpecChunk, c2: SpecChunk) -> bool {
    &&& c.code.len() <= c2.code.len()
    &&& c2.code.subrange(0, c.code.len() as int) == c.code
    &&& c.constants.len() <= c2.constants.len()
    &&& c2.constants.subrange(0, c.constants.len() as int) == c.constants
}

/// The region `[from, to)` of the code is well formed with respect to the
/// whole chunk.
pub open spec fn region_wf(c: SpecChunk, from: int, to: int) -> bool {
    forall|i: int| from <= i < to ==> op_wf(#[trigger] c.code[i], i, c)
}

proof fn lemma_extends_trans(a: SpecChunk, b: SpecChunk, c: SpecChunk)
    requires
        extends(a, b),
        extends(b, c),
    ensures
        extends(a, c),
{
    assert(c.code.subrange(0, a.code.len() as int) =~= a.code);
    assert(c.constants.subrange(0, a.constants.len() as int) =~= a.constants);
}

/// Well-formedness of a region survives growth of the chunk.
proof fn lemma_region_wf_extends(a: SpecChunk, b: SpecChunk, from: int, to: int)
    requires
        0 <= from,
        extends(a, b),
        to <= a.code.len(),
        region_wf(a, from, to),
    ensures
        region_wf(b, from, to),
{
    assert forall|i: int| from <= i < to implies op_wf(#[trigger] b.code[i], i, b) by {
        assert(b.code.subrange(0, a.code.len() as int)[i] == b.code[i]);
        assert(b.code[i] == a.code[i]);
        assert(op_wf(a.code[i], i, a));
    }
}

/// Compiling an expression appends to the chunk, and everything it
/// appended is well formed.
proof fn lemma_compile_expr_wf(e: Expression, c: SpecChunk)
    ensures
        compile_expr(e, c) matches Ok(c2) ==> extends(c, c2) && (c2.code.len() <= usize::MAX
            ==> region_wf(c2, c.code.len() as int, c2.code.len() as int)),
    decreases e,
{
    match e {
        Expression::Number(bits) => {
            assert(compile_expr(e, c) matches Ok(c2) ==> c2.code.subrange(
                0,
                c.code.len() as int,
            ) =~= c.code && c2.constants.subrange(0, c.constants.len() as int) =~= c.constants);
        },
        Expression::Str(sv) => {
            assert(compile_expr(e, c) matches Ok(c2) ==> c2.code.subrange(
                0,
                c.code.len() as int,
            ) =~= c.code && c2.constants.subrange(0, c.constants.len() as int) =~= c.constants);
        },
        Expression::Identifier(name) => {
            assert(compile_expr(e, c) matches Ok(c2) ==> c2.code.subrange(
                0,
                c.code.len() as int,
            ) =~= c.code && c2.constants.subrange(0, c.constants.len() as int) =~= c.constants);
        },
        Expression::Call { function, arguments } => {
            lemma_compile_expr_wf(*function, c);
            if let Ok(c1) = compile_expr(*function, c) {
                lemma_compile_exprs_wf(arguments@, c1);
                if let Ok(c2) = compile_exprs(arguments@, c1) {
                    let c3 = push_op(c2, OpCode::Call(arguments@.len() as usize));
                    assert(extends(c2, c3)) by {
                        assert(c3.code.subrange(0, c2.code.len() as int) =~= c2.code);
                        assert(c3.constants.subrange(0, c2.constants.len() as int)
                            =~= c2.constants);
                    }
                    lemma_extends_trans(c, c1, c2);
                    lemma_extends_trans(c, c2, c3);
                    if c3.code.len() <= usize::MAX {
                        if c2.code.len() <= usize::MAX {
                            lemma_region_wf_extends(c1, c2, c.code.len() as int, c1.code.len() as int);
                        }
                        lemma_region_wf_extends(c2, c3, c.code.len() as int, c2.code.len() as int);
                    }
                }
            }
        },
        Expression::Array(elements) => {
            lemma_compile_exprs_wf(elements@, c);
            if let Ok(c1) = compile_exprs(elements@, c) {
                let c2 = push_op(c1, OpCode::Array(elements@.len() as usize));
                assert(extends(c1, c2)) by {
                    assert(c2.code.subrange(0, c1.code.len() as int) =~= c1.code);
                    assert(c2.constants.subrange(0, c1.constants.len() as int) =~= c1.constants);
                }
                lemma_extends_trans(c, c1, c2);
                if c2.code.len() <= usize::MAX {
                    lemma_region_wf_extends(c1, c2, c.code.len() as int, c1.code.len() as int);
                }
            }
        },
        Expression::Object(pairs) => {
            lemma_compile_pairs_wf(pairs@, c);
            if let Ok(c1) = compile_pairs(pairs@, c) {
                let c2 = push_op(c1, OpCode::Object(pairs@.len() as usize));
                assert(extends(c1, c2)) by {
                    assert(c2.code.subrange(0, c1.code.len() as int) =~= c1.code);
                    assert(c2.constants.subrange(0, c1.constants.len() as int) =~= c1.constants);
                }
                lemma_extends_trans(c, c1, c2);
                if c2.code.len() <= usize::MAX {
                    lemma_region_wf_extends(c1, c2, c.code.len() as int, c1.code.len() as int);
                }
            }
        },
        Expression::Index { left, index } => {
            lemma_compile_expr_wf(*left, c);
            if let Ok(c1) = compile_expr(*left, c) {
                lemma_compile_expr_wf(*index, c1);
                if let Ok(c2) = compile_expr(*index, c1) {
                    let c3 = push_op(c2, OpCode::GetIndex);
                    assert(extends(c2, c3)) by {
                        assert(c3.code.subrange(0, c2.code.len() as int) =~= c2.code);
                        assert(c3.constants.subrange(0, c2.constants.len() as int)
                            =~= c2.constants);
                    }
                    lemma_extends_trans(c, c1, c2);
                    lemma_extends_trans(c, c2, c3);
                    if c3.code.len() <= usize::MAX {
                        if c2.code.len() <= usize::MAX {
                            lemma_region_wf_extends(c1, c2, c.code.len() as int, c1.code.len() as int);
                        }
                        lemma_region_wf_extends(c2, c3, c.code.len() as int, c2.code.len() as int);
                    }
                }
            }
        },
        Expression::Infix { left, operator, right } => {
            lemma_compile_expr_wf(*left, c);
            if let Ok(c1) = compile_expr(*left, c) {
                lemma_compile_expr_wf(*right, c1);
                if let Ok(c2) = compile_expr(*right, c1) {
                    if let Some(op) = infix_opcode(operator@) {
                        let c3 = push_op(c2, op);
                        assert(extends(c2, c3)) by {
                            assert(c3.code.subrange(0, c2.code.len() as int) =~= c2.code);
                            assert(c3.constants.subrange(0, c2.constants.len() as int)
                                =~= c2.constants);
                        }
                        lemma_extends_trans(c, c1, c2);
                        lemma_extends_trans(c, c2, c3);
                        if c3.code.len() <= usize::MAX {
                            if c2.code.len() <= usize::MAX {
                                lemma_region_wf_extends(c1, c2, c.code.len() as int, c1.code.len() as int);
                            }
                            lemma_region_wf_extends(c2, c3, c.code.len() as int, c2.code.len() as int);
                        }
                    }
                }
            }
        },
        _ => {},
    }
}

proof fn lemma_compile_exprs_wf(es: Seq<Expression>, c: SpecChunk)
    ensures
        compile_exprs(es, c) matches Ok(c2) ==> extends(c, c2) && (c2.code.len() <= usize::MAX
            ==> region_wf(c2, c.code.len() as int, c2.code.len() as int)),
    decreases es,
{
    if es.len() == 0 {
        assert(compile_exprs(es, c) matches Ok(c2) ==> c2.code.subrange(0, c.code.len() as int)
            =~= c.code && c2.constants.subrange(0, c.constants.len() as int) =~= c.constants);
    } else {
        lemma_compile_exprs_wf(es.drop_last(), c);
        if let Ok(c1) = compile_exprs(es.drop_last(), c) {
            lemma_compile_expr_wf(es.last(), c1);
            if let Ok(c2) = compile_expr(es.last(), c1) {
                lemma_extends_trans(c, c1, c2);
                if c2.code.len() <= usize::MAX {
                    lemma_region_wf_extends(c1, c2, c.code.len() as int, c1.code.len() as int);
                }
            }
        }
    }
}

proof fn lemma_compile_pairs_wf(ps: Seq<(Vec<char>, Expression)>, c: SpecChunk)
    ensures
        compile_pairs(ps, c) matches Ok(c2) ==> extends(c, c2) && (c2.code.len() <= usize::MAX
            ==> region_wf(c2, c.code.len() as int, c2.code.len() as int)),
    decreases ps,
{
    if ps.len() == 0 {
        assert(compile_pairs(ps, c) matches Ok(c2) ==> c2.code.subrange(0, c.code.len() as int)
            =~= c.code && c2.constants.subrange(0, c.constants.len() as int) =~= c.constants);
    } else {
        lemma_compile_pairs_wf(ps.drop_last(), c);
        if let Ok(c1) = compile_pairs(ps.drop_last(), c) {
            let key = ps.last().0;
            let c2 = push_op(
                push_const(c1, SpecConstant::Str(key@)),
                OpCode::Constant(c1.constants.len() as usize),
            );
            assert(extends(c1, c2)) by {
                assert(c2.code.subrange(0, c1.code.len() as int) =~= c1.code);
                assert(c2.constants.subrange(0, c1.constants.len() as int) =~= c1.constants);
            }
            lemma_compile_expr_wf(ps.last().1, c2);
            if let Ok(c3) = compile_expr(ps.last().1, c2) {
                lemma_extends_trans(c, c1, c2);
                lemma_extends_trans(c, c2, c3);
                if c3.code.len() <= usize::MAX {
                    if c2.code.len() <= usize::MAX {
                        lemma_region_wf_extends(c1, c2, c.code.len() as int, c1.code.len() as int);
                    }
                    lemma_region_wf_extends(c2, c3, c.code.len() as int, c2.code.len() as int);
                }
            }
        }
    }
}

proof fn lemma_compile_stmt_wf(s: Statement, c: SpecChunk)
    ensures
        compile_stmt(s, c) matches Ok(c2) ==> extends(c, c2) && (c2.code.len() <= usize::MAX
            ==> region_wf(c2, c.code.len() as int, c2.code.len() as int)),
    decreases s,
{
    match s {
        Statement::Expression(e) => {
            lemma_compile_expr_wf(e, c);
            if let Ok(c1) = compile_expr(e, c) {
                let c2 = push_op(c1, OpCode::Pop);
                assert(extends(c1, c2)) by {
                    assert(c2.code.subrange(0, c1.code.len() as int) =~= c1.code);
                    assert(c2.constants.subrange(0, c1.constants.len() as int) =~= c1.constants);
                }
                lemma_extends_trans(c, c1, c2);
                if c2.code.len() <= usize::MAX {
                    lemma_region_wf_extends(c1, c2, c.code.len() as int, c1.code.len() as int);
                }
            }
        },
        Statement::Let { name, value } => {
            lemma_compile_expr_wf(value, c);
            if let Ok(c1) = compile_expr(value, c) {
                let c2 = push_op(
                    push_op(
                        push_const(c1, SpecConstant::Str(name@)),
                        OpCode::SetGlobal(c1.constants.len() as usize),
                    ),
                    OpCode::Pop,
                );
                assert(extends(c1, c2)) by {
                    assert(c2.code.subrange(0, c1.code.len() as int) =~= c1.code);
                    assert(c2.constants.subrange(0, c1.constants.len() as int) =~= c1.constants);
                }
                lemma_extends_trans(c, c1, c2);
                if c2.code.len() <= usize::MAX {
                    lemma_region_wf_extends(c1, c2, c.code.len() as int, c1.code.len() as int);
                }
            }
        },
        Statement::Const { name, value } => {
            lemma_compile_expr_wf(value, c);
            if let Ok(c1) = compile_expr(value, c) {
                let c2 = push_op(
                    push_op(
                        push_const(c1, SpecConstant::Str(name@)),
                        OpCode::SetGlobal(c1.constants.len() as usize),
                    ),
                    OpCode::Pop,
                );
                assert(extends(c1, c2)) by {
                    assert(c2.code.subrange(0, c1.code.len() as int) =~= c1.code);
                    assert(c2.constants.subrange(0, c1.constants.len() as int) =~= c1.constants);
                }
                lemma_extends_trans(c, c1, c2);
                if c2.code.len() <= usize::MAX {
                    lemma_region_wf_extends(c1, c2, c.code.len() as int, c1.code.len() as int);
                }
            }
        },
        Statement::Block(stmts) => {
            lemma_compile_stmts_wf(stmts@, c);
        },
        Statement::If { condition, consequence, alternative } => {
            lemma_compile_expr_wf(condition, c);
            if let Ok(c1) = compile_expr(condition, c) {
                let jif = c1.code.len() as int;
                let c2 = push_op(c1, OpCode::JumpIfFalse(0));
                assert(extends(c1, c2)) by {
                    assert(c2.code.subrange(0, c1.code.len() as int) =~= c1.code);
                    assert(c2.constants.subrange(0, c1.constants.len() as int) =~= c1.constants);
                }
                lemma_compile_stmt_wf(*consequence, c2);
                if let Ok(c3) = compile_stmt(*consequence, c2) {
                    let j = c3.code.len() as int;
                    let c4 = push_op(c3, OpCode::Jump(0));
                    assert(extends(c3, c4)) by {
                        assert(c4.code.subrange(0, c3.code.len() as int) =~= c3.code);
                        assert(c4.constants.subrange(0, c3.constants.len() as int)
                            =~= c3.constants);
                    }
                    let c5 = SpecChunk {
                        code: c4.code.update(jif, OpCode::JumpIfFalse(c4.code.len() as usize)),
                        constants: c4.constants,
                    };
                    assert(extends(c1, c5)) by {
                        assert(c5.code.subrange(0, c1.code.len() as int) =~= c1.code);
                        assert(c5.constants.subrange(0, c1.constants.len() as int)
                            =~= c1.constants);
                    }
                    assert(extends(c, c5)) by {
                        lemma_extends_trans(c, c1, c5);
                    }
                    // the consequence's region survives the patch at `jif`
                    assert(c3.code.len() <= usize::MAX ==> region_wf(
                        c5,
                        c2.code.len() as int,
                        c3.code.len() as int,
                    )) by {
                        if c3.code.len() <= usize::MAX {
                        lemma_region_wf_extends(c3, c4, c2.code.len() as int, c3.code.len() as int);
                        assert forall|i: int|
                            c2.code.len() <= i < c3.code.len() implies op_wf(
                            #[trigger] c5.code[i],
                            i,
                            c5,
                        ) by {
                            assert(c5.code[i] == c4.code[i]);
                            assert(op_wf(c4.code[i], i, c4));
                        }
                        }
                    }
                    match alternative {
                        Some(alt) => {
                            lemma_compile_stmt_wf(*alt, c5);
                            if let Ok(c6) = compile_stmt(*alt, c5) {
                                let c7 = SpecChunk {
                                    code: c6.code.update(j, OpCode::Jump(c6.code.len() as usize)),
                                    constants: c6.constants,
                                };
                                assert(extends(c, c7)) by {
                                    lemma_extends_trans(c, c1, c5);
                                    lemma_extends_trans(c, c5, c6);
                                    assert(c7.code.subrange(0, c.code.len() as int) =~= c.code);
                                    assert(c7.constants.subrange(0, c.constants.len() as int)
                                        =~= c.constants);
                                }
                                if c7.code.len() <= usize::MAX {
                                    assert(c1.code.len() <= usize::MAX);
                                    assert(c3.code.len() <= usize::MAX);
                                    assert(c6.code.len() <= usize::MAX);
                                    assert(region_wf(
                                        c7,
                                        c.code.len() as int,
                                        c7.code.len() as int,
                                    )) by {
                                    lemma_region_wf_extends(
                                        c1,
                                        c5,
                                        c.code.len() as int,
                                        c1.code.len() as int,
                                    );
                                    lemma_region_wf_extends(
                                        c5,
                                        c6,
                                        c.code.len() as int,
                                        c1.code.len() as int,
                                    );
                                    lemma_region_wf_extends(
                                        c5,
                                        c6,
                                        c2.code.len() as int,
                                        c3.code.len() as int,
                                    );
                                    assert forall|i: int|
                                        c.code.len() <= i < c7.code.len() implies op_wf(
                                        #[trigger] c7.code[i],
                                        i,
                                        c7,
                                    ) by {
                                        assert(c7.code.len() == c6.code.len());
                                        assert(c7.constants.len() == c6.constants.len());
                                        if i == jif {
                                            assert(c6.code.subrange(0, c5.code.len() as int)[jif]
                                                == c6.code[jif]);
                                            assert(c6.code[jif] == c5.code[jif]);
                                            assert(c5.code[jif] == OpCode::JumpIfFalse(
                                                c4.code.len() as usize,
                                            ));
                                            assert(c7.code[i] == OpCode::JumpIfFalse(
                                                c4.code.len() as usize,
                                            ));
                                        } else if i == j {
                                            assert(c7.code[i] == OpCode::Jump(
                                                c6.code.len() as usize,
                                            ));
                                        } else {
                                            assert(c7.code[i] == c6.code[i]);
                                            assert(i < c1.code.len() || (c2.code.len() <= i
                                                < c3.code.len()) || (c5.code.len() <= i
                                                < c6.code.len()));
                                            assert(op_wf(c6.code[i], i, c6));
                                        }
                                    }
                                }
                                }
                            }
                        },
                        None => {
                            let c7 = SpecChunk {
                                code: c5.code.update(j, OpCode::Jump(c5.code.len() as usize)),
                                constants: c5.constants,
                            };
                            assert(extends(c, c7)) by {
                                lemma_extends_trans(c, c1, c5);
                                assert(c7.code.subrange(0, c.code.len() as int) =~= c.code);
                                assert(c7.constants.subrange(0, c.constants.len() as int)
                                    =~= c.constants);
                            }
                            if c7.code.len() <= usize::MAX {
                                assert(c1.code.len() <= usize::MAX);
                                assert(c3.code.len() <= usize::MAX);
                                assert(region_wf(
                                    c7,
                                    c.code.len() as int,
                                    c7.code.len() as int,
                                )) by {
                                lemma_region_wf_extends(
                                    c1,
                                    c5,
                                    c.code.len() as int,
                                    c1.code.len() as int,
                                );
                                assert forall|i: int|
                                    c.code.len() <= i < c7.code.len() implies op_wf(
                                    #[trigger] c7.code[i],
                                    i,
                                    c7,
                                ) by {
                                    assert(c7.code.len() == c5.code.len());
                                    assert(c7.constants.len() == c5.constants.len());
                                    if i == jif {
                                        assert(c5.code[jif] == OpCode::JumpIfFalse(
                                            c4.code.len() as usize,
                                        ));
                                        assert(c7.code[i] == OpCode::JumpIfFalse(
                                            c4.code.len() as usize,
                                        ));
                                    } else if i == j {
                                        assert(c7.code[i] == OpCode::Jump(c5.code.len() as usize));
                                    } else {
                                        assert(c7.code[i] == c5.code[i]);
                                        assert(i < c1.code.len() || (c2.code.len() <= i
                                            < c3.code.len()));
                                        assert(op_wf(c5.code[i], i, c5));
                                    }
                                }
                                }
                            }
                        },
                    }
                }
            }
        },
        _ => {},
    }
}

proof fn lemma_compile_stmts_wf(ss: Seq<Statement>, c: SpecChunk)
    ensures
        compile_stmts(ss, c) matches Ok(c2) ==> extends(c, c2) && (c2.code.len() <= usize::MAX
            ==> region_wf(c2, c.code.len() as int, c2.code.len() as int)),
    decreases ss,
{
    if ss.len() == 0 {
        assert(compile_stmts(ss, c) matches Ok(c2) ==> c2.code.subrange(0, c.code.len() as int)
            =~= c.code && c2.constants.subrange(0, c.constants.len() as int) =~= c.constants);
    } else {
        lemma_compile_stmts_wf(ss.drop_last(), c);
        if let Ok(c1) = compile_stmts(ss.drop_last(), c) {
            lemma_compile_stmt_wf(ss.last(), c1);
            if let Ok(c2) = compile_stmt(ss.last(), c1) {
                lemma_extends_trans(c, c1, c2);
                if c2.code.len() <= usize::MAX {
                    lemma_region_wf_extends(c1, c2, c.code.len() as int, c1.code.len() as int);
                }
            }
        }
    }
}

/// Every chunk the compiler produces is well formed: all constant
/// references in range, all jumps forward — which also bounds execution.
/// (The length bound always holds of a chunk that exists in memory.)
pub proof fn lemma_compile_program_wf(p: Program)
    ensures
        (compile_program(p) matches Ok(c) && c.code.len() <= usize::MAX) ==> chunk_wf(
            compile_program(p)->Ok_0,
        ),
{
    let c0 = SpecChunk {
        code: Seq::<OpCode>::empty(),
        constants: Seq::<SpecConstant>::empty(),
    };
    lemma_compile_stmts_wf(p.statements@, c0);
}

/// Errors anywhere in a prefix decide the whole sequence's compilation.
proof fn lemma_exprs_prefix_err(es: Seq<Expression>, i: int, c: SpecChunk)
    requires
        0 <= i <= es.len(),
        compile_exprs(es.subrange(0, i), c) is Err,
    ensures
        compile_exprs(es, c) == compile_exprs(es.subrange(0, i), c),
    decreases es.len() - i,
{
    if i == es.len() {
        assert(es.subrange(0, i) =~= es);
    } else {
        assert(es.subrange(0, i + 1).drop_last() =~= es.subrange(0, i));
        assert(es.subrange(0, i + 1).last() == es[i]);
        lemma_exprs_prefix_err(es, i + 1, c);
    }
}

proof fn lemma_pairs_prefix_err(ps: Seq<(Vec<char>, Expression)>, i: int, c: SpecChunk)
    requires
        0 <= i <= ps.len(),
        compile_pairs(ps.subrange(0, i), c) is Err,
    ensures
        compile_pairs(ps, c) == compile_pairs(ps.subrange(0, i), c),
    decreases ps.len() - i,
{
    if i == ps.len() {
        assert(ps.subrange(0, i) =~= ps);
    } else {
        assert(ps.subrange(0, i + 1).drop_last() =~= ps.subrange(0, i));
        assert(ps.subrange(0, i + 1).last() == ps[i]);
        lemma_pairs_prefix_err(ps, i + 1, c);
    }
}

proof fn lemma_stmts_prefix_err(ss: Seq<Statement>, i: int, c: SpecChunk)
    requires
        0 <= i <= ss.len(),
        compile_stmts(ss.subrange(0, i), c) is Err,
    ensures
        compile_stmts(ss, c) == compile_stmts(ss.subrange(0, i), c),
    decreases ss.len() - i,
{
    if i == ss.len() {
        assert(ss.subrange(0, i) =~= ss);
    } else {
        assert(ss.subrange(0, i + 1).drop_last() =~= ss.subrange(0, i));
        assert(ss.subrange(0, i + 1).last() == ss[i]);
        lemma_stmts_prefix_err(ss, i + 1, c);
    }
}

/// The opcode an infix operator denotes: the executable form of
/// [`infix_opcode`].
fn infix_op(operator: &Vec<char>) -> (r: Option<OpCode>)
    ensures
        r == infix_opcode(operator@),
{
    let r: Option<OpCode> = if operator.len() == 1 {
        let ch = operator[0];
        if ch == '+' {
            Some(OpCode::Add)
        } else if ch == '-' {
            Some(OpCode::Sub)
        } else if ch == '*' {
            Some(OpCode::Mul)
        } else if ch == '/' {
            Some(OpCode::Div)
        } else if ch == '<' {
            Some(OpCode::LessThan)
        } else if ch == '>' {
            Some(OpCode::GreaterThan)
        } else {
            None
        }
    } else if operator.len() == 2 && operator[0] == '=' && operator[1] == '=' {
        Some(OpCode::Equal)
    } else if operator.len() == 2 && operator[0] == '!' && operator[1] == '=' {
        Some(OpCode::NotEqual)
    } else {
        None
    };
    proof {
        if operator@.len() == 1 {
            assert(operator@ == seq![operator@[0]]) by {
                assert(operator@ =~= seq![operator@[0]]);
            }
        }
        if operator@.len() == 2 {
            assert(operator@ == seq![operator@[0], operator@[1]]) by {
                assert(operator@ =~= seq![operator@[0], operator@[1]]);
            }
        }
    }
    r
}

/// The single-pass bytecode compiler: statements in, one chunk out.
#[derive(Debug)]
pub struct BytecodeCompiler {
    pub chunk: Chunk,
}

impl BytecodeCompiler {
    pub fn new() -> (r: Self)
        ensures
            r.chunk@ == (SpecChunk {
                code: Seq::<OpCode>::empty(),
                constants: Seq::<SpecConstant>::empty(),
            }),
    {
        BytecodeCompiler { chunk: Chunk::new() }
    }

    /// Compile a whole program into a fresh chunk: the result is exactly
    /// [`compile_program`], and on success the chunk is well formed.
    pub fn compile(ast: &Program) -> (r: Result<Chunk, CompileError>)
        ensures
            match compile_program(*ast) {
                Ok(c) => r matches Ok(ch) && ch@ == c && chunk_wf(c),
                Err(e) => r matches Err(re) && re@ == e,
            },
    {
        let mut compiler = Self::new();
        let ghost c0 = compiler.chunk@;
        let mut i: usize = 0;
        #[verifier::loop_isolation(false)]
        while i < ast.statements.len()
            invariant
                i <= ast.statements@.len(),
                compile_stmts(ast.statements@.subrange(0, i as int), c0) == Ok::<
                    SpecChunk,
                    SpecCompileError,
                >(compiler.chunk@),
                c0 == (SpecChunk {
                    code: Seq::<OpCode>::empty(),
                    constants: Seq::<SpecConstant>::empty(),
                }),
            decreases ast.statements@.len() - i,
        {
            match compiler.compile_statement(&ast.statements[i]) {
                Ok(()) => (),
                Err(e) => {
                    proof {
                        assert(ast.statements@.subrange(0, i + 1).drop_last()
                            =~= ast.statements@.subrange(0, i as int));
                        assert(ast.statements@.subrange(0, i + 1).last() == ast.statements@[
                            i as int]);
                        assert(compile_stmts(ast.statements@.subrange(0, i + 1), c0) is Err);
                        lemma_stmts_prefix_err(ast.statements@, i + 1, c0);
                    }
                    return Err(e);
                },
            }
            proof {
                assert(ast.statements@.subrange(0, i + 1).drop_last() =~= ast.statements@.subrange(
                    0,
                    i as int,
                ));
                assert(ast.statements@.subrange(0, i + 1).last() == ast.statements@[i as int]);
            }
            i += 1;
        }
        proof {
            assert(ast.statements@.subrange(0, ast.statements@.len() as int) =~= ast.statements@);
            vstd::std_specs::vec::axiom_spec_len(&compiler.chunk.code);
            assert(compiler.chunk@.code.len() <= usize::MAX);
            lemma_compile_program_wf(*ast);
        }
        Ok(compiler.chunk)
    }

    fn compile_statement(&mut self, stmt: &Statement) -> (r: Result<(), CompileError>)
        ensures
            match compile_stmt(*stmt, old(self).chunk@) {
                Ok(c2) => r is Ok && final(self).chunk@ == c2,
                Err(e) => r matches Err(re) && re@ == e,
            },
        decreases *stmt,
    {
        match stmt {
            Statement::Expression(e) => {
                match self.compile_expression(e) {
                    Ok(()) => (),
                    Err(er) => {
                        return Err(er);
                    },
                }
                self.emit(OpCode::Pop);
                Ok(())
            },
            Statement::Let { name, value } => {
                match self.compile_expression(value) {
                    Ok(()) => (),
                    Err(er) => {
                        return Err(er);
                    },
                }
                let idx = self.chunk.add_constant(Constant::Str(clone_chars(name)));
                self.emit(OpCode::SetGlobal(idx));
                self.emit(OpCode::Pop);
                Ok(())
            },
            Statement::Const { name, value } => {
                match self.compile_expression(value) {
                    Ok(()) => (),
                    Err(er) => {
                        return Err(er);
                    },
                }
                let idx = self.chunk.add_constant(Constant::Str(clone_chars(name)));
                self.emit(OpCode::SetGlobal(idx));
                self.emit(OpCode::Pop);
                Ok(())
            },
            Statement::Block(stmts) => {
                let ghost c0 = self.chunk@;
                let ghost sv = stmts@;
                let mut i: usize = 0;
                #[verifier::loop_isolation(false)]
                while i < stmts.len()
                    invariant
                        i <= sv.len(),
                        sv == stmts@,
                        compile_stmts(sv.subrange(0, i as int), c0) == Ok::<
                            SpecChunk,
                            SpecCompileError,
                        >(self.chunk@),
                    decreases sv.len() - i,
                {
                    match self.compile_statement(&stmts[i]) {
                        Ok(()) => (),
                        Err(e) => {
                            proof {
                                assert(sv.subrange(0, i + 1).drop_last() =~= sv.subrange(
                                    0,
                                    i as int,
                                ));
                                assert(sv.subrange(0, i + 1).last() == sv[i as int]);
                                assert(compile_stmts(sv.subrange(0, i + 1), c0) is Err);
                                lemma_stmts_prefix_err(sv, i + 1, c0);
                            }
                            return Err(e);
                        },
                    }
                    proof {
                        assert(sv.subrange(0, i + 1).drop_last() =~= sv.subrange(0, i as int));
                        assert(sv.subrange(0, i + 1).last() == sv[i as int]);
                    }
                    i += 1;
                }
                proof {
                    assert(sv.subrange(0, sv.len() as int) =~= sv);
                }
                Ok(())
            },
            Statement::If { condition, consequence, alternative } => {
                let ghost c0 = self.chunk@;
                match self.compile_expression(condition) {
                    Ok(()) => (),
                    Err(er) => {
                        return Err(er);
                    },
                }
                let ghost c1 = self.chunk@;
                let jif = self.emit_jump(OpCode::JumpIfFalse(0));
                let ghost c2 = self.chunk@;
                match self.compile_statement(&**consequence) {
                    Ok(()) => (),
                    Err(er) => {
                        return Err(er);
                    },
                }
                let ghost c3 = self.chunk@;
                proof {
                    lemma_compile_stmt_wf(**consequence, c2);
                    assert(c3.code.subrange(0, c2.code.len() as int)[jif as int] == c3.code[
                        jif as int]);
                    assert(c3.code[jif as int] == OpCode::JumpIfFalse(0));
                }
                let j = self.emit_jump(OpCode::Jump(0));
                let ghost c4 = self.chunk@;
                self.patch_jump(jif);
                let ghost c5 = self.chunk@;
                match alternative {
                    Some(alt) => {
                        match self.compile_statement(&**alt) {
                            Ok(()) => (),
                            Err(er) => {
                                return Err(er);
                            },
                        }
                        let ghost c6 = self.chunk@;
                        proof {
                            lemma_compile_stmt_wf(**alt, c5);
                            assert(c6.code.subrange(0, c5.code.len() as int)[j as int] == c6.code[
                                j as int]);
                            assert(c6.code[j as int] == OpCode::Jump(0));
                        }
                        self.patch_jump(j);
                        Ok(())
                    },
                    None => {
                        proof {
                            assert(c5.code[j as int] == OpCode::Jump(0));
                        }
                        self.patch_jump(j);
                        Ok(())
                    },
                }
            },
            _ => Err(CompileError::UnsupportedStatement),
        }
    }

    fn compile_expression(&mut self, expr: &Expression) -> (r: Result<(), CompileError>)
        ensures
            match compile_expr(*expr, old(self).chunk@) {
                Ok(c2) => r is Ok && final(self).chunk@ == c2,
                Err(e) => r matches Err(re) && re@ == e,
            },
        decreases *expr,
    {
        match expr {
            Expression::Number(bits) => {
                let idx = self.chunk.add_constant(Constant::Number(*bits));
                self.emit(OpCode::Constant(idx));
                Ok(())
            },
            Expression::Str(sv) => {
                let idx = self.chunk.add_constant(Constant::Str(clone_chars(sv)));
                self.emit(OpCode::Constant(idx));
                Ok(())
            },
            Expression::Identifier(name) => {
                let idx = self.chunk.add_constant(Constant::Str(clone_chars(name)));
                self.emit(OpCode::GetGlobal(idx));
                Ok(())
            },
            Expression::Call { function, arguments } => {
                match self.compile_expression(&**function) {
                    Ok(()) => (),
                    Err(er) => {
                        return Err(er);
                    },
                }
                let ghost c1 = self.chunk@;
                let ghost av = arguments@;
                let mut k: usize = 0;
                #[verifier::loop_isolation(false)]
                while k < arguments.len()
                    invariant
                        k <= av.len(),
                        av == arguments@,
                        compile_exprs(av.subrange(0, k as int), c1) == Ok::<
                            SpecChunk,
                            SpecCompileError,
                        >(self.chunk@),
                    decreases av.len() - k,
                {
                    match self.compile_expression(&arguments[k]) {
                        Ok(()) => (),
                        Err(e) => {
                            proof {
                                assert(av.subrange(0, k + 1).drop_last() =~= av.subrange(
                                    0,
                                    k as int,
                                ));
                                assert(av.subrange(0, k + 1).last() == av[k as int]);
                                assert(compile_exprs(av.subrange(0, k + 1), c1) is Err);
                                lemma_exprs_prefix_err(av, k + 1, c1);
                            }
                            return Err(e);
                        },
                    }
                    proof {
                        assert(av.subrange(0, k + 1).drop_last() =~= av.subrange(0, k as int));
                        assert(av.subrange(0, k + 1).last() == av[k as int]);
                    }
                    k += 1;
                }
                proof {
                    assert(av.subrange(0, av.len() as int) =~= av);
                }
                self.emit(OpCode::Call(arguments.len()));
                Ok(())
            },
            Expression::Array(elements) => {
                let ghost c1 = self.chunk@;
                let ghost av = elements@;
                let mut k: usize = 0;
                #[verifier::loop_isolation(false)]
                while k < elements.len()
                    invariant
                        k <= av.len(),
                        av == elements@,
                        compile_exprs(av.subrange(0, k as int), c1) == Ok::<
                            SpecChunk,
                            SpecCompileError,
                        >(self.chunk@),
                    decreases av.len() - k,
                {
                    match self.compile_expression(&elements[k]) {
                        Ok(()) => (),
                        Err(e) => {
                            proof {
                                assert(av.subrange(0, k + 1).drop_last() =~= av.subrange(
                                    0,
                                    k as int,
                                ));
                                assert(av.subrange(0, k + 1).last() == av[k as int]);
                                assert(compile_exprs(av.subrange(0, k + 1), c1) is Err);
                                lemma_exprs_prefix_err(av, k + 1, c1);
                            }
                            return Err(e);
                        },
                    }
                    proof {
                        assert(av.subrange(0, k + 1).drop_last() =~= av.subrange(0, k as int));
                        assert(av.subrange(0, k + 1).last() == av[k as int]);
                    }
                    k += 1;
                }
                proof {
                    assert(av.subrange(0, av.len() as int) =~= av);
                }
                self.emit(OpCode::Array(elements.len()));
                Ok(())
            },
            Expression::Object(pairs) => {
                let ghost c1 = self.chunk@;
                let ghost pv = pairs@;
                let mut k: usize = 0;
                #[verifier::loop_isolation(false)]
                while k < pairs.len()
                    invariant
                        k <= pv.len(),
                        pv == pairs@,
                        compile_pairs(pv.subrange(0, k as int), c1) == Ok::<
                            SpecChunk,
                            SpecCompileError,
                        >(self.chunk@),
                    decreases pv.len() - k,
                {
                    let idx = self.chunk.add_constant(Constant::Str(clone_chars(&pairs[k].0)));
                    self.emit(OpCode::Constant(idx));
                    match self.compile_expression(&pairs[k].1) {
                        Ok(()) => (),
                        Err(e) => {
                            proof {
                                assert(pv.subrange(0, k + 1).drop_last() =~= pv.subrange(
                                    0,
                                    k as int,
                                ));
                                assert(pv.subrange(0, k + 1).last() == pv[k as int]);
                                assert(compile_pairs(pv.subrange(0, k + 1), c1) is Err);
                                lemma_pairs_prefix_err(pv, k + 1, c1);
                            }
                            return Err(e);
                        },
                    }
                    proof {
                        assert(pv.subrange(0, k + 1).drop_last() =~= pv.subrange(0, k as int));
                        assert(pv.subrange(0, k + 1).last() == pv[k as int]);
                    }
                    k += 1;
                }
                proof {
                    assert(pv.subrange(0, pv.len() as int) =~= pv);
                }
                self.emit(OpCode::Object(pairs.len()));
                Ok(())
            },
            Expression::Index { left, index } => {
                match self.compile_expression(&**left) {
                    Ok(()) => (),
                    Err(er) => {
                        return Err(er);
                    },
                }
                match self.compile_expression(&**index) {
                    Ok(()) => (),
                    Err(er) => {
                        return Err(er);
                    },
                }
                self.emit(OpCode::GetIndex);
                Ok(())
            },
            Expression::Infix { left, operator, right } => {
                match self.compile_expression(&**left) {
                    Ok(()) => (),
                    Err(er) => {
                        return Err(er);
                    },
                }
                match self.compile_expression(&**right) {
                    Ok(()) => (),
                    Err(er) => {
                        return Err(er);
                    },
                }
                match infix_op(operator) {
                    Some(op) => {
                        self.emit(op);
                        Ok(())
                    },
                    None => Err(CompileError::UnknownOperator(clone_chars(operator))),
                }
            },
            _ => Err(CompileError::UnsupportedExpression),
        }
    }

    fn emit(&mut self, op: OpCode)
        ensures
            final(self).chunk@ == push_op(old(self).chunk@, op),
    {
        self.chunk.write(op);
    }

    fn emit_jump(&mut self, op: OpCode) -> (idx: usize)
        ensures
            final(self).chunk@ == push_op(old(self).chunk@, op),
            idx == old(self).chunk@.code.len(),
    {
        self.emit(op);
        self.chunk.code.len() - 1
    }

    /// Point the jump placeholder at `idx` to the current end of the code.
    fn patch_jump(&mut self, idx: usize)
        requires
            idx < old(self).chunk@.code.len(),
            old(self).chunk@.code[idx as int] is Jump || old(self).chunk@.code[
                idx as int] is JumpIfFalse,
        ensures
            final(self).chunk@.constants == old(self).chunk@.constants,
            old(self).chunk@.code[idx as int] is Jump ==> final(self).chunk@.code == old(
                self,
            ).chunk@.code.update(idx as int, OpCode::Jump(old(self).chunk@.code.len() as usize)),
            old(self).chunk@.code[idx as int] is JumpIfFalse ==> final(self).chunk@.code == old(
                self,
            ).chunk@.code.update(
                idx as int,
                OpCode::JumpIfFalse(old(self).chunk@.code.len() as usize),
            ),
    {
        let target = self.chunk.code.len();
        match self.chunk.code[idx] {
            OpCode::Jump(_) => {
                self.chunk.code[idx] = OpCode::Jump(target);
            },
            OpCode::JumpIfFalse(_) => {
                self.chunk.code[idx] = OpCode::JumpIfFalse(target);
            },
            _ => vstd::pervasive::unreached(),
        }
    }
}

proof fn lemma_compile_number_exprs(es: Seq<Expression>, bits: Seq<u64>)
    requires
        es.len() == bits.len(),
        bits.len() <= usize::MAX,
        forall|i: int| 0 <= i < bits.len() ==> es[i] == Expression::Number(bits[i]),
    ensures
        compile_exprs(
            es,
            SpecChunk { code: Seq::<OpCode>::empty(), constants: Seq::<SpecConstant>::empty() },
        ) matches Ok(c1) && c1.code.len() == bits.len() && c1.constants.len() == bits.len() && (
        forall|i: int| 0 <= i < bits.len() ==> c1.code[i] == OpCode::Constant(i as usize)) && (
        forall|i: int| 0 <= i < bits.len() ==> c1.constants[i] == SpecConstant::Number(bits[i])),
    decreases es.len(),
{
    let c0 = SpecChunk { code: Seq::<OpCode>::empty(), constants: Seq::<SpecConstant>::empty() };
    if es.len() == 0 {
    } else {
        lemma_compile_number_exprs(es.drop_last(), bits.drop_last());
        assert(es.last() == Expression::Number(bits.last()));
        let c1 = compile_exprs(es.drop_last(), c0)->Ok_0;
        assert(compile_expr(es.last(), c1) == Ok::<SpecChunk, SpecCompileError>(
            push_op(
                push_const(c1, SpecConstant::Number(bits.last())),
                OpCode::Constant(c1.constants.len() as usize),
            ),
        ));
    }
}

/// Compiling an array literal of `n` number literals yields exactly the
/// chunk [`crate::vm::literal_array_chunk`] describes: each literal pushed
/// in order, then gathered into one array.  Together with the machine's
/// theorem on such chunks, executing the compiled literal yields an array
/// whose element `i` is the value of the `i`-th element expression.
pub proof fn lemma_compile_array_of_literals(elems: Vec<Expression>, bits: Seq<u64>)
    requires
        elems@.len() == bits.len(),
        bits.len() <= usize::MAX,
        forall|i: int| 0 <= i < bits.len() ==> elems@[i] == Expression::Number(bits[i]),
    ensures
        compile_expr(
            Expression::Array(elems),
            SpecChunk { code: Seq::<OpCode>::empty(), constants: Seq::<SpecConstant>::empty() },
        ) matches Ok(c) && crate::vm::literal_array_chunk(c, bits),
{
    lemma_compile_number_exprs(elems@, bits);
}

} // verus!
