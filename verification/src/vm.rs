//! The stack virtual machine.
//!
//! [`VM::execute`] interprets a chunk.  Its whole behaviour is pinned down
//! by [`spec_exec`], a mathematical step machine over snapshots of the
//! machine state (operand stack, globals, heap, printed output, instruction
//! pointer): the interpreter returns exactly what the step machine
//! computes, garbage collections at the 1000-instruction boundaries
//! included.  Because compiled chunks only jump forward, every well-formed
//! chunk runs to completion, and the step machine is a total function — so
//! execution is deterministic by construction.

use vstd::prelude::*;
use crate::chunk::{Chunk, Constant, OpCode, SpecChunk, SpecConstant, chunk_wf, op_wf, clone_template};
use crate::error::{RuntimeError, SpecErr};
use crate::heap::{
    GC, Heap, HeapPayload, SpecHeap, SpecPayload, Trace, collect_spec, live, pairs_handles,
    payload_at, to_ints, values_handles,
};
use crate::num::{
    add_bits, div_bits, index_bits, mul_bits, spec_num_is_zero, spec_num_lt, sub_bits, num_add,
    num_div, num_index, num_is_zero, num_lt, num_mul, num_sub,
};
use crate::value::{Gc, Native, SpecValue, Value, chars_eq, clone_chars, spec_value_eq};

verus! {

/// A snapshot of the whole machine state, as the step machine sees it.
#[verifier::ext_equal]
pub struct VmSnap {
    pub stack: Seq<SpecValue>,
    pub globals: Seq<(Seq<char>, SpecValue)>,
    pub heap: SpecHeap,
    pub output: Seq<Seq<SpecValue>>,
    pub ip: int,
}

/// What one instruction does: continue, halt, or fault.
#[verifier::ext_equal]
pub enum StepOut {
    Next(VmSnap),
    Halt(VmSnap),
    Fault(SpecErr, VmSnap),
}

/// How a whole run ends: normally, or with the first fault.
#[verifier::ext_equal]
pub enum RunResult {
    Done(VmSnap),
    Fault(SpecErr, VmSnap),
}

/// The mathematical image of an operand stack.
pub open spec fn stack_view(s: Seq<Value>) -> Seq<SpecValue> {
    s.map_values(|v: Value| v@)
}

/// The mathematical image of the globals' entry list.
pub open spec fn globals_view(g: Seq<(Vec<char>, Value)>) -> Seq<(Seq<char>, SpecValue)> {
    g.map_values(|p: (Vec<char>, Value)| (p.0@, p.1@))
}

/// The mathematical image of the print log: one sequence of values per
/// `print` call.
pub open spec fn out_view(o: Seq<Vec<Value>>) -> Seq<Seq<SpecValue>> {
    o.map_values(|l: Vec<Value>| stack_view(l@))
}

/// The keys of an entry list are pairwise distinct.
pub open spec fn keys_unique(g: Seq<(Seq<char>, SpecValue)>) -> bool {
    forall|i: int, j: int| 0 <= i < j < g.len() ==> (#[trigger] g[i]).0 != (#[trigger] g[j]).0
}

/// Some entry carries this key.
pub open spec fn assoc_has(g: Seq<(Seq<char>, SpecValue)>, k: Seq<char>) -> bool {
    exists|i: int| 0 <= i < g.len() && (#[trigger] g[i]).0 == k
}

/// The index of the entry carrying this key (unique when keys are).
pub open spec fn assoc_idx(g: Seq<(Seq<char>, SpecValue)>, k: Seq<char>) -> int {
    choose|i: int| 0 <= i < g.len() && (#[trigger] g[i]).0 == k
}

/// The value bound to this key, if any.
pub open spec fn assoc_find(g: Seq<(Seq<char>, SpecValue)>, k: Seq<char>) -> Option<SpecValue> {
    if assoc_has(g, k) {
        Some(g[assoc_idx(g, k)].1)
    } else {
        None
    }
}

/// Bind `k` to `v`: overwrite the entry carrying `k`, or append one.
pub open spec fn assoc_insert(
    g: Seq<(Seq<char>, SpecValue)>,
    k: Seq<char>,
    v: SpecValue,
) -> Seq<(Seq<char>, SpecValue)> {
    if assoc_has(g, k) {
        g.update(assoc_idx(g, k), (k, v))
    } else {
        g.push((k, v))
    }
}

/// The coercion of a value to a branch condition: `false`, `null`,
/// `undefined`, either zero, and the empty string are falsy; everything
/// else — NaN included — is truthy.
pub open spec fn spec_is_falsey(v: SpecValue) -> bool {
    match v {
        SpecValue::Boolean(b) => !b,
        SpecValue::Null => true,
        SpecValue::Undefined => true,
        SpecValue::Number(bits) => spec_num_is_zero(bits),
        SpecValue::Str(s) => s.len() == 0,
        _ => false,
    }
}

/// The name the machine binds `print` under.
pub open spec fn print_name() -> Seq<char> {
    seq!['p', 'r', 'i', 'n', 't']
}

/// The root set a collection starts from: every handle on the operand
/// stack and every handle in a global binding.  The executing chunk is a
/// root as well, but its constants hold no handles.
pub open spec fn roots_of(s: VmSnap) -> Seq<int> {
    values_handles(s.stack) + pairs_handles(s.globals)
}

/// Collect garbage when the instruction pointer sits on a
/// 1000-instruction boundary.
pub open spec fn gc_if(s: VmSnap) -> VmSnap {
    if s.ip % 1000 == 0 {
        VmSnap { heap: collect_spec(s.heap, roots_of(s)), ..s }
    } else {
        s
    }
}

/// Building an object literal from the stack: pairs are popped value
/// first, key second, and inserted in pop order, so an earlier duplicate
/// key overwrites a later one.
pub enum ObjBuild {
    Done(Seq<SpecValue>, Seq<(Seq<char>, SpecValue)>),
    Under(Seq<SpecValue>),
    BadKey(Seq<SpecValue>),
}

pub open spec fn build_object(
    s: Seq<SpecValue>,
    n: nat,
    acc: Seq<(Seq<char>, SpecValue)>,
) -> ObjBuild
    decreases n,
{
    if n == 0 {
        ObjBuild::Done(s, acc)
    } else if s.len() == 0 {
        ObjBuild::Under(s)
    } else if s.len() == 1 {
        ObjBuild::Under(s.drop_last())
    } else {
        let v = s.last();
        let k = s[s.len() - 2];
        let s2 = s.drop_last().drop_last();
        match k {
            SpecValue::Str(ks) => build_object(s2, (n - 1) as nat, assoc_insert(acc, ks, v)),
            _ => ObjBuild::BadKey(s2),
        }
    }
}

/// One instruction of the step machine.  `s.ip` must sit on an opcode.
pub open spec fn step(c: SpecChunk, s: VmSnap) -> StepOut {
    let op = c.code[s.ip];
    match op {
        OpCode::Constant(idx) => match c.constants[idx as int] {
            SpecConstant::Number(bits) => StepOut::Next(
                VmSnap { stack: s.stack.push(SpecValue::Number(bits)), ip: s.ip + 1, ..s },
            ),
            SpecConstant::Str(st) => StepOut::Next(
                VmSnap { stack: s.stack.push(SpecValue::Str(st)), ip: s.ip + 1, ..s },
            ),
            SpecConstant::Function(t) => StepOut::Next(
                VmSnap {
                    stack: s.stack.push(SpecValue::Function(s.heap.len() as int)),
                    heap: s.heap.push(Some(SpecPayload::Fun(t))),
                    ip: s.ip + 1,
                    ..s
                },
            ),
        },
        OpCode::Add => {
            if s.stack.len() == 0 {
                StepOut::Fault(SpecErr::StackUnderflow, s)
            } else if s.stack.len() == 1 {
                StepOut::Fault(SpecErr::StackUnderflow, VmSnap { stack: s.stack.drop_last(), ..s })
            } else {
                let b = s.stack.last();
                let a = s.stack[s.stack.len() - 2];
                let rest = s.stack.drop_last().drop_last();
                match (a, b) {
                    (SpecValue::Number(x), SpecValue::Number(y)) => StepOut::Next(
                        VmSnap {
                            stack: rest.push(SpecValue::Number(add_bits(x, y))),
                            ip: s.ip + 1,
                            ..s
                        },
                    ),
                    (SpecValue::Str(x), SpecValue::Str(y)) => StepOut::Next(
                        VmSnap { stack: rest.push(SpecValue::Str(x + y)), ip: s.ip + 1, ..s },
                    ),
                    _ => StepOut::Fault(
                        SpecErr::TypeError("Operands must be numbers or strings"@),
                        VmSnap { stack: rest, ..s },
                    ),
                }
            }
        },
        OpCode::Sub => step_arith(s, ArithOp::Sub),
        OpCode::Mul => step_arith(s, ArithOp::Mul),
        OpCode::Div => step_arith(s, ArithOp::Div),
        OpCode::Equal => {
            if s.stack.len() == 0 {
                StepOut::Fault(SpecErr::StackUnderflow, s)
            } else if s.stack.len() == 1 {
                StepOut::Fault(SpecErr::StackUnderflow, VmSnap { stack: s.stack.drop_last(), ..s })
            } else {
                let b = s.stack.last();
                let a = s.stack[s.stack.len() - 2];
                let rest = s.stack.drop_last().drop_last();
                StepOut::Next(
                    VmSnap {
                        stack: rest.push(SpecValue::Boolean(spec_value_eq(a, b))),
                        ip: s.ip + 1,
                        ..s
                    },
                )
            }
        },
        OpCode::NotEqual => {
            if s.stack.len() == 0 {
                StepOut::Fault(SpecErr::StackUnderflow, s)
            } else if s.stack.len() == 1 {
                StepOut::Fault(SpecErr::StackUnderflow, VmSnap { stack: s.stack.drop_last(), ..s })
            } else {
                let b = s.stack.last();
                let a = s.stack[s.stack.len() - 2];
                let rest = s.stack.drop_last().drop_last();
                StepOut::Next(
                    VmSnap {
                        stack: rest.push(SpecValue::Boolean(!spec_value_eq(a, b))),
                        ip: s.ip + 1,
                        ..s
                    },
                )
            }
        },
        OpCode::LessThan => step_compare(s, true),
        OpCode::GreaterThan => step_compare(s, false),
        OpCode::Pop => {
            if s.stack.len() == 0 {
                StepOut::Fault(SpecErr::StackUnderflow, s)
            } else {
                StepOut::Next(VmSnap { stack: s.stack.drop_last(), ip: s.ip + 1, ..s })
            }
        },
        OpCode::GetGlobal(idx) => match c.constants[idx as int] {
            SpecConstant::Str(name) => match assoc_find(s.globals, name) {
                Some(v) => StepOut::Next(
                    VmSnap { stack: s.stack.push(v), ip: s.ip + 1, ..s },
                ),
                None => StepOut::Fault(SpecErr::UndefinedVariable(name), s),
            },
            _ => StepOut::Fault(SpecErr::TypeError("Global name must be a string"@), s),
        },
        OpCode::SetGlobal(idx) => match c.constants[idx as int] {
            SpecConstant::Str(name) => {
                if s.stack.len() == 0 {
                    StepOut::Fault(SpecErr::StackUnderflow, s)
                } else {
                    StepOut::Next(
                        VmSnap {
                            globals: assoc_insert(s.globals, name, s.stack.last()),
                            ip: s.ip + 1,
                            ..s
                        },
                    )
                }
            },
            _ => StepOut::Fault(SpecErr::TypeError("Global name must be a string"@), s),
        },
        OpCode::Call(argc) => {
            if s.stack.len() < argc + 1 {
                StepOut::Fault(SpecErr::StackUnderflow, VmSnap { stack: Seq::empty(), ..s })
            } else {
                let args = s.stack.subrange(s.stack.len() - argc, s.stack.len() as int);
                let callee = s.stack[s.stack.len() - argc - 1];
                let rest = s.stack.subrange(0, s.stack.len() - argc - 1);
                match callee {
                    SpecValue::NativeFunction(Native::Print) => StepOut::Next(
                        VmSnap {
                            stack: rest.push(SpecValue::Undefined),
                            output: s.output.push(args),
                            ip: s.ip + 1,
                            ..s
                        },
                    ),
                    _ => StepOut::Fault(
                        SpecErr::TypeError("Can only call functions"@),
                        VmSnap { stack: rest, ..s },
                    ),
                }
            }
        },
        OpCode::Array(n) => {
            if s.stack.len() < n {
                StepOut::Fault(SpecErr::StackUnderflow, VmSnap { stack: Seq::empty(), ..s })
            } else {
                let elems = s.stack.subrange(s.stack.len() - n, s.stack.len() as int);
                let rest = s.stack.subrange(0, s.stack.len() - n);
                StepOut::Next(
                    VmSnap {
                        stack: rest.push(SpecValue::Array(s.heap.len() as int)),
                        heap: s.heap.push(Some(SpecPayload::Arr(elems))),
                        ip: s.ip + 1,
                        ..s
                    },
                )
            }
        },
        OpCode::Object(n) => match build_object(s.stack, n as nat, Seq::empty()) {
            ObjBuild::Done(rest, pairs) => StepOut::Next(
                VmSnap {
                    stack: rest.push(SpecValue::Object(s.heap.len() as int)),
                    heap: s.heap.push(Some(SpecPayload::Obj(pairs))),
                    ip: s.ip + 1,
                    ..s
                },
            ),
            ObjBuild::Under(rest) => StepOut::Fault(
                SpecErr::StackUnderflow,
                VmSnap { stack: rest, ..s },
            ),
            ObjBuild::BadKey(rest) => StepOut::Fault(
                SpecErr::TypeError("Object key must be a string"@),
                VmSnap { stack: rest, ..s },
            ),
        },
        OpCode::GetIndex => {
            if s.stack.len() == 0 {
                StepOut::Fault(SpecErr::StackUnderflow, s)
            } else if s.stack.len() == 1 {
                StepOut::Fault(SpecErr::StackUnderflow, VmSnap { stack: s.stack.drop_last(), ..s })
            } else {
                let index = s.stack.last();
                let target = s.stack[s.stack.len() - 2];
                let rest = s.stack.drop_last().drop_last();
                let faulted = VmSnap { stack: rest, ..s };
                match target {
                    SpecValue::Array(h) => match index {
                        SpecValue::Number(bits) => {
                            if live(s.heap, h) && payload_at(s.heap, h) is Arr {
                                let elems = payload_at(s.heap, h)->Arr_0;
                                let i = index_bits(bits) as int;
                                let got = if i < elems.len() {
                                    elems[i]
                                } else {
                                    SpecValue::Undefined
                                };
                                StepOut::Next(
                                    VmSnap { stack: rest.push(got), ip: s.ip + 1, ..s },
                                )
                            } else {
                                StepOut::Fault(
                                    SpecErr::TypeError("Cannot index non-array/object"@),
                                    faulted,
                                )
                            }
                        },
                        _ => StepOut::Fault(
                            SpecErr::TypeError("Array index must be a number"@),
                            faulted,
                        ),
                    },
                    SpecValue::Object(h) => match index {
                        SpecValue::Str(key) => {
                            if live(s.heap, h) && payload_at(s.heap, h) is Obj {
                                let pairs = payload_at(s.heap, h)->Obj_0;
                                let got = match assoc_find(pairs, key) {
                                    Some(v) => v,
                                    None => SpecValue::Undefined,
                                };
                                StepOut::Next(
                                    VmSnap { stack: rest.push(got), ip: s.ip + 1, ..s },
                                )
                            } else {
                                StepOut::Fault(
                                    SpecErr::TypeError("Cannot index non-array/object"@),
                                    faulted,
                                )
                            }
                        },
                        _ => StepOut::Fault(
                            SpecErr::TypeError("Object key must be a string"@),
                            faulted,
                        ),
                    },
                    _ => StepOut::Fault(
                        SpecErr::TypeError("Cannot index non-array/object"@),
                        faulted,
                    ),
                }
            }
        },
        OpCode::SetIndex => {
            if s.stack.len() == 0 {
                StepOut::Fault(SpecErr::StackUnderflow, s)
            } else if s.stack.len() == 1 {
                StepOut::Fault(SpecErr::StackUnderflow, VmSnap { stack: s.stack.drop_last(), ..s })
            } else if s.stack.len() == 2 {
                StepOut::Fault(
                    SpecErr::StackUnderflow,
                    VmSnap { stack: s.stack.drop_last().drop_last(), ..s },
                )
            } else {
                let value = s.stack.last();
                let index = s.stack[s.stack.len() - 2];
                let target = s.stack[s.stack.len() - 3];
                let rest = s.stack.drop_last().drop_last().drop_last();
                let faulted = VmSnap { stack: rest, ..s };
                match target {
                    SpecValue::Array(h) => match index {
                        SpecValue::Number(bits) => {
                            if live(s.heap, h) && payload_at(s.heap, h) is Arr {
                                let elems = payload_at(s.heap, h)->Arr_0;
                                let i = index_bits(bits) as int;
                                if i < elems.len() {
                                    StepOut::Next(
                                        VmSnap {
                                            stack: rest.push(value),
                                            heap: s.heap.update(
                                                h,
                                                Some(SpecPayload::Arr(elems.update(i, value))),
                                            ),
                                            ip: s.ip + 1,
                                            ..s
                                        },
                                    )
                                } else if i == elems.len() {
                                    StepOut::Next(
                                        VmSnap {
                                            stack: rest.push(value),
                                            heap: s.heap.update(
                                                h,
                                                Some(SpecPayload::Arr(elems.push(value))),
                                            ),
                                            ip: s.ip + 1,
                                            ..s
                                        },
                                    )
                                } else {
                                    StepOut::Fault(
                                        SpecErr::Custom(
                                            "Array index out of bounds (sparse arrays not supported)"@,
                                        ),
                                        faulted,
                                    )
                                }
                            } else {
                                StepOut::Fault(
                                    SpecErr::TypeError("Cannot set property on non-object"@),
                                    faulted,
                                )
                            }
                        },
                        _ => StepOut::Fault(
                            SpecErr::TypeError("Array index must be a number"@),
                            faulted,
                        ),
                    },
                    SpecValue::Object(h) => match index {
                        SpecValue::Str(key) => {
                            if live(s.heap, h) && payload_at(s.heap, h) is Obj {
                                let pairs = payload_at(s.heap, h)->Obj_0;
                                StepOut::Next(
                                    VmSnap {
                                        stack: rest.push(value),
                                        heap: s.heap.update(
                                            h,
                                            Some(SpecPayload::Obj(assoc_insert(pairs, key, value))),
                                        ),
                                        ip: s.ip + 1,
                                        ..s
                                    },
                                )
                            } else {
                                StepOut::Fault(
                                    SpecErr::TypeError("Cannot set property on non-object"@),
                                    faulted,
                                )
                            }
                        },
                        _ => StepOut::Fault(
                            SpecErr::TypeError("Object key must be a string"@),
                            faulted,
                        ),
                    },
                    _ => StepOut::Fault(
                        SpecErr::TypeError("Cannot set property on non-object"@),
                        faulted,
                    ),
                }
            }
        },
        OpCode::Jump(t) => StepOut::Next(VmSnap { ip: t as int, ..s }),
        OpCode::JumpIfFalse(t) => {
            if s.stack.len() == 0 {
                StepOut::Fault(SpecErr::StackUnderflow, s)
            } else {
                let cond = s.stack.last();
                let target = if spec_is_falsey(cond) {
                    t as int
                } else {
                    s.ip + 1
                };
                StepOut::Next(VmSnap { stack: s.stack.drop_last(), ip: target, ..s })
            }
        },
        OpCode::Return => StepOut::Halt(s),
    }
}

/// Which strictly numeric arithmetic instruction is running.
pub enum ArithOp {
    Sub,
    Mul,
    Div,
}

/// The encoding the instruction computes from its two number operands.
pub open spec fn arith_bits(op: ArithOp, x: u64, y: u64) -> u64 {
    match op {
        ArithOp::Sub => sub_bits(x, y),
        ArithOp::Mul => mul_bits(x, y),
        ArithOp::Div => div_bits(x, y),
    }
}

/// `Sub`, `Mul` and `Div`: numbers only, otherwise a type fault.
pub open spec fn step_arith(s: VmSnap, op: ArithOp) -> StepOut {
    if s.stack.len() == 0 {
        StepOut::Fault(SpecErr::StackUnderflow, s)
    } else if s.stack.len() == 1 {
        StepOut::Fault(SpecErr::StackUnderflow, VmSnap { stack: s.stack.drop_last(), ..s })
    } else {
        let b = s.stack.last();
        let a = s.stack[s.stack.len() - 2];
        let rest = s.stack.drop_last().drop_last();
        match (a, b) {
            (SpecValue::Number(x), SpecValue::Number(y)) => StepOut::Next(
                VmSnap { stack: rest.push(SpecValue::Number(arith_bits(op, x, y))), ip: s.ip + 1, ..s },
            ),
            _ => StepOut::Fault(
                SpecErr::TypeError("Operands must be numbers"@),
                VmSnap { stack: rest, ..s },
            ),
        }
    }
}

/// `LessThan` (and, operands swapped, `GreaterThan`): numbers only.
pub open spec fn step_compare(s: VmSnap, less: bool) -> StepOut {
    if s.stack.len() == 0 {
        StepOut::Fault(SpecErr::StackUnderflow, s)
    } else if s.stack.len() == 1 {
        StepOut::Fault(SpecErr::StackUnderflow, VmSnap { stack: s.stack.drop_last(), ..s })
    } else {
        let b = s.stack.last();
        let a = s.stack[s.stack.len() - 2];
        let rest = s.stack.drop_last().drop_last();
        match (a, b) {
            (SpecValue::Number(x), SpecValue::Number(y)) => {
                let flag = if less {
                    spec_num_lt(x, y)
                } else {
                    spec_num_lt(y, x)
                };
                StepOut::Next(
                    VmSnap { stack: rest.push(SpecValue::Boolean(flag)), ip: s.ip + 1, ..s },
                )
            },
            _ => StepOut::Fault(
                SpecErr::TypeError("Operands must be numbers"@),
                VmSnap { stack: rest, ..s },
            ),
        }
    }
}

/// Run the step machine to completion from `s`.  On every iteration whose
/// instruction pointer sits on a 1000-instruction boundary, garbage is
/// collected first, exactly as the interpreter does.
pub open spec fn spec_exec(c: SpecChunk, s: VmSnap) -> RunResult
    decreases c.code.len() - s.ip
        when 0 <= s.ip && chunk_wf(c)
    via spec_exec_decreases
{
    if s.ip >= c.code.len() {
        RunResult::Done(s)
    } else {
        let s1 = gc_if(s);
        match step(c, s1) {
            StepOut::Next(s2) => spec_exec(c, s2),
            StepOut::Halt(s2) => RunResult::Done(s2),
            StepOut::Fault(e, s2) => RunResult::Fault(e, s2),
        }
    }
}

#[via_fn]
proof fn spec_exec_decreases(c: SpecChunk, s: VmSnap) {
    if s.ip < c.code.len() {
        let s1 = gc_if(s);
        assert(s1.ip == s.ip);
        assert(crate::chunk::op_wf(c.code[s.ip], s.ip, c));
        match step(c, s1) {
            StepOut::Next(s2) => {
                assert(s2.ip > s.ip);
                assert(s2.ip <= c.code.len());
            },
            _ => (),
        }
    }
}

/// Key uniqueness of every object payload on the heap: insertion keeps it,
/// so lookups are determined by the key alone.
pub open spec fn objs_unique(h: SpecHeap) -> bool {
    forall|p: int|
        live(h, p) && (#[trigger] payload_at(h, p)) is Obj ==> keys_unique(payload_at(h, p)->Obj_0)
}

proof fn lemma_stack_view_push(s: Seq<Value>, v: Value)
    ensures
        stack_view(s.push(v)) == stack_view(s).push(v@),
{
    assert(stack_view(s.push(v)) =~= stack_view(s).push(v@));
}

proof fn lemma_stack_view_drop(s: Seq<Value>)
    requires
        s.len() > 0,
    ensures
        stack_view(s.drop_last()) == stack_view(s).drop_last(),
{
    assert(stack_view(s.drop_last()) =~= stack_view(s).drop_last());
}

proof fn lemma_stack_view_subrange(s: Seq<Value>, a: int, b: int)
    requires
        0 <= a <= b <= s.len(),
    ensures
        stack_view(s.subrange(a, b)) == stack_view(s).subrange(a, b),
{
    assert(stack_view(s.subrange(a, b)) =~= stack_view(s).subrange(a, b));
}

proof fn lemma_stack_view_update(s: Seq<Value>, i: int, v: Value)
    requires
        0 <= i < s.len(),
    ensures
        stack_view(s.update(i, v)) == stack_view(s).update(i, v@),
{
    assert(stack_view(s.update(i, v)) =~= stack_view(s).update(i, v@));
}

proof fn lemma_out_view_push(o: Seq<Vec<Value>>, l: Vec<Value>)
    ensures
        out_view(o.push(l)) == out_view(o).push(stack_view(l@)),
{
    assert(out_view(o.push(l)) =~= out_view(o).push(stack_view(l@)));
}

/// Overwrite the entry carrying `name`, or append one: the executable form
/// of [`assoc_insert`].
fn assoc_update(entries: &mut Vec<(Vec<char>, Value)>, name: Vec<char>, value: Value)
    requires
        keys_unique(globals_view(old(entries)@)),
    ensures
        globals_view(final(entries)@) == assoc_insert(globals_view(old(entries)@), name@, value@),
        keys_unique(globals_view(final(entries)@)),
{
    let ghost g0 = globals_view(entries@);
    let mut i: usize = 0;
    while i < entries.len()
        invariant
            i <= entries@.len(),
            globals_view(entries@) == g0,
            globals_view(old(entries)@) == g0,
            keys_unique(g0),
            forall|j: int| 0 <= j < i ==> (#[trigger] g0[j]).0 != name@,
        decreases entries@.len() - i,
    {
        if chars_eq(&entries[i].0, &name) {
            proof {
                assert(g0[i as int].0 == name@);
                assert(assoc_has(g0, name@));
                let k = assoc_idx(g0, name@);
                assert(g0[k].0 == name@);
                assert(k == i as int);
            }
            entries[i] = (name, value);
            proof {
                assert(globals_view(entries@) =~~= assoc_insert(g0, name@, value@));
                assert forall|a: int, b: int|
                    0 <= a < b < globals_view(entries@).len() implies (#[trigger] globals_view(
                    entries@,
                )[a]).0 != (#[trigger] globals_view(entries@)[b]).0 by {
                    assert(g0[a].0 == globals_view(entries@)[a].0 || a == i as int);
                    assert(g0[b].0 == globals_view(entries@)[b].0 || b == i as int);
                }
            }
            return ;
        }
        i += 1;
    }
    proof {
        assert forall|j: int| 0 <= j < g0.len() implies (#[trigger] g0[j]).0 != name@ by {}
        assert(!assoc_has(g0, name@));
    }
    entries.push((name, value));
    proof {
        assert(globals_view(entries@) =~~= assoc_insert(g0, name@, value@));
        assert forall|a: int, b: int|
            0 <= a < b < globals_view(entries@).len() implies (#[trigger] globals_view(
            entries@,
        )[a]).0 != (#[trigger] globals_view(entries@)[b]).0 by {
            if b < g0.len() {
                assert(g0[a].0 != g0[b].0);
            } else {
                assert(globals_view(entries@)[b].0 == name@);
                assert(globals_view(entries@)[a].0 == g0[a].0);
            }
        }
    }
}

/// Find the entry carrying `key`: the executable form of [`assoc_find`].
fn assoc_get<'a>(entries: &'a Vec<(Vec<char>, Value)>, key: &Vec<char>) -> (r: Option<&'a Value>)
    requires
        keys_unique(globals_view(entries@)),
    ensures
        match assoc_find(globals_view(entries@), key@) {
            Some(v) => r matches Some(rv) && rv@ == v,
            None => r is None,
        },
{
    let ghost g = globals_view(entries@);
    let mut i: usize = 0;
    while i < entries.len()
        invariant
            i <= entries@.len(),
            g == globals_view(entries@),
            keys_unique(g),
            forall|j: int| 0 <= j < i ==> (#[trigger] g[j]).0 != key@,
        decreases entries@.len() - i,
    {
        if chars_eq(&entries[i].0, key) {
            proof {
                assert(g[i as int].0 == key@);
                assert(assoc_has(g, key@));
                let k = assoc_idx(g, key@);
                assert(g[k].0 == key@);
                assert(k == i as int);
            }
            return Some(&entries[i].1);
        }
        i += 1;
    }
    proof {
        assert(!assoc_has(g, key@));
    }
    None
}

/// The single global environment: a mapping from names to values, kept as
/// an entry list with pairwise distinct keys.
#[derive(Debug)]
pub struct Environment {
    pub entries: Vec<(Vec<char>, Value)>,
}

impl View for Environment {
    type V = Seq<(Seq<char>, SpecValue)>;

    open spec fn view(&self) -> Seq<(Seq<char>, SpecValue)> {
        globals_view(self.entries@)
    }
}

impl Environment {
    pub fn new() -> (g: Environment)
        ensures
            g@ == Seq::<(Seq<char>, SpecValue)>::empty(),
            keys_unique(g@),
    {
        let g = Environment { entries: Vec::new() };
        proof {
            assert(g@ =~= Seq::<(Seq<char>, SpecValue)>::empty());
        }
        g
    }

    /// Bind `name` to `value`, replacing any earlier binding.
    pub fn define(&mut self, name: Vec<char>, value: Value)
        requires
            keys_unique(old(self)@),
        ensures
            final(self)@ == assoc_insert(old(self)@, name@, value@),
            keys_unique(final(self)@),
    {
        assoc_update(&mut self.entries, name, value);
    }

    /// Look a name up.
    pub fn get(&self, name: &Vec<char>) -> (r: Option<&Value>)
        requires
            keys_unique(self@),
        ensures
            match assoc_find(self@, name@) {
                Some(v) => r matches Some(rv) && rv@ == v,
                None => r is None,
            },
    {
        assoc_get(&self.entries, name)
    }
}

/// The virtual machine: operand stack, global bindings, heap, collector,
/// and the log of what `print` wrote.
#[derive(Debug)]
pub struct VM {
    pub stack: Vec<Value>,
    pub globals: Environment,
    pub debug: bool,
    pub gc: GC,
    pub heap: Heap,
    pub output: Vec<Vec<Value>>,
}

impl VM {
    /// The machine's state as a snapshot with the given instruction
    /// pointer.
    pub open spec fn snap(&self, ip: int) -> VmSnap {
        VmSnap {
            stack: stack_view(self.stack@),
            globals: self.globals@,
            heap: self.heap@,
            output: out_view(self.output@),
            ip,
        }
    }

    /// The machine's invariant: the heap is well formed, and global and
    /// object keys are pairwise distinct, so lookups are determined.
    pub open spec fn wf(&self) -> bool {
        &&& self.heap.wf()
        &&& keys_unique(self.globals@)
        &&& objs_unique(self.heap@)
    }

    /// A fresh machine: empty stack and heap, no output, and `print`
    /// pre-bound as the one native function.
    pub fn new() -> (vm: VM)
        ensures
            vm.wf(),
            !vm.debug,
            vm.snap(0) == (VmSnap {
                stack: Seq::<SpecValue>::empty(),
                globals: seq![(print_name(), SpecValue::NativeFunction(Native::Print))],
                heap: Seq::<Option<SpecPayload>>::empty(),
                output: Seq::<Seq<SpecValue>>::empty(),
                ip: 0,
            }),
    {
        let mut globals = Environment::new();
        let name: Vec<char> = vec!['p', 'r', 'i', 'n', 't'];
        globals.define(name, Value::NativeFunction(Native::Print));
        let vm = VM {
            stack: Vec::new(),
            globals,
            debug: false,
            gc: GC::new(),
            heap: Heap::new(),
            output: Vec::new(),
        };
        proof {
            assert(vm.globals@ =~~= seq![(print_name(), SpecValue::NativeFunction(Native::Print))]);
            assert(vm.snap(0) =~~= VmSnap {
                stack: Seq::<SpecValue>::empty(),
                globals: seq![(print_name(), SpecValue::NativeFunction(Native::Print))],
                heap: Seq::<Option<SpecPayload>>::empty(),
                output: Seq::<Seq<SpecValue>>::empty(),
                ip: 0,
            });
        }
        vm
    }

    pub fn set_debug(&mut self, debug: bool)
        ensures
            final(self).debug == debug,
            final(self).stack == old(self).stack,
            final(self).globals == old(self).globals,
            final(self).heap == old(self).heap,
            final(self).output == old(self).output,
    {
        self.debug = debug;
    }

    fn push(&mut self, value: Value)
        ensures
            stack_view(final(self).stack@) == stack_view(old(self).stack@).push(value@),
            final(self).globals == old(self).globals,
            final(self).heap == old(self).heap,
            final(self).output == old(self).output,
            final(self).debug == old(self).debug,
    {
        proof {
            lemma_stack_view_push(self.stack@, value);
        }
        self.stack.push(value);
    }

    fn pop(&mut self) -> (r: Result<Value, RuntimeError>)
        ensures
            final(self).globals == old(self).globals,
            final(self).heap == old(self).heap,
            final(self).output == old(self).output,
            final(self).debug == old(self).debug,
            old(self).stack@.len() == 0 ==> (r matches Err(e) && e@ == SpecErr::StackUnderflow)
                && final(self).stack@ == old(self).stack@,
            old(self).stack@.len() > 0 ==> (r matches Ok(v) && v@ == stack_view(
                old(self).stack@,
            ).last()) && stack_view(final(self).stack@) == stack_view(old(self).stack@).drop_last()
                && final(self).stack@.len() == old(self).stack@.len() - 1,
    {
        proof {
            if self.stack@.len() > 0 {
                lemma_stack_view_drop(self.stack@);
            }
        }
        match self.stack.pop() {
            Some(v) => Ok(v),
            None => Err(RuntimeError::StackUnderflow),
        }
    }

    /// Pop the right then the left operand of a binary instruction.
    fn pop2(&mut self) -> (r: Result<(Value, Value), RuntimeError>)
        ensures
            final(self).globals == old(self).globals,
            final(self).heap == old(self).heap,
            final(self).output == old(self).output,
            final(self).debug == old(self).debug,
            old(self).stack@.len() == 0 ==> (r matches Err(e) && e@ == SpecErr::StackUnderflow)
                && stack_view(final(self).stack@) == stack_view(old(self).stack@),
            old(self).stack@.len() == 1 ==> (r matches Err(e) && e@ == SpecErr::StackUnderflow)
                && stack_view(final(self).stack@) == stack_view(old(self).stack@).drop_last(),
            old(self).stack@.len() >= 2 ==> (r matches Ok(p) && p.0@ == stack_view(
                old(self).stack@,
            )[old(self).stack@.len() - 2] && p.1@ == stack_view(old(self).stack@).last())
                && stack_view(final(self).stack@) == stack_view(
                old(self).stack@,
            ).drop_last().drop_last(),
    {
        let b = match self.pop() {
            Ok(v) => v,
            Err(e) => {
                return Err(e);
            },
        };
        let a = match self.pop() {
            Ok(v) => v,
            Err(e) => {
                return Err(e);
            },
        };
        Ok((a, b))
    }

    fn peek(&self, distance: usize) -> (r: Result<&Value, RuntimeError>)
        ensures
            self.stack@.len() > distance ==> (r matches Ok(v) && v@ == stack_view(self.stack@)[
                self.stack@.len() - 1 - distance]),
            self.stack@.len() <= distance ==> (r matches Err(e) && e@ == SpecErr::StackUnderflow),
    {
        if self.stack.len() <= distance {
            return Err(RuntimeError::StackUnderflow);
        }
        Ok(&self.stack[self.stack.len() - 1 - distance])
    }

    /// The branch coercion: `false`, `null`, `undefined`, zero and the
    /// empty string are falsy.
    pub fn is_falsey(&self, value: &Value) -> (r: bool)
        ensures
            r == spec_is_falsey(value@),
    {
        match value {
            Value::Boolean(b) => !*b,
            Value::Null => true,
            Value::Undefined => true,
            Value::Number(bits) => num_is_zero(*bits),
            Value::Str(sv) => sv.len() == 0,
            _ => false,
        }
    }

    /// Collect garbage from the stack and globals roots: afterwards the
    /// heap is exactly [`collect_spec`] of the old heap and those roots.
    fn collect_garbage(&mut self)
        requires
            old(self).wf(),
        ensures
            final(self).wf(),
            final(self).heap@ == collect_spec(old(self).heap@, roots_of(old(self).snap(0))),
            final(self).stack == old(self).stack,
            final(self).globals == old(self).globals,
            final(self).output == old(self).output,
            final(self).debug == old(self).debug,
    {
        let ghost h0 = self.heap@;
        let ghost sv = stack_view(self.stack@);
        let ghost gv = self.globals@;
        let mut roots: Vec<usize> = Vec::new();
        let mut si: usize = 0;
        while si < self.stack.len()
            invariant
                si <= self.stack@.len(),
                sv == stack_view(self.stack@),
                to_ints(roots@) == values_handles(sv.subrange(0, si as int)),
            decreases self.stack@.len() - si,
        {
            self.stack[si].trace(&mut roots);
            proof {
                assert(sv.subrange(0, si + 1).drop_last() =~= sv.subrange(0, si as int));
                assert(sv.subrange(0, si + 1).last() == self.stack@[si as int]@);
                assert(to_ints(roots@) =~= values_handles(sv.subrange(0, si + 1)));
            }
            si += 1;
        }
        proof {
            assert(sv.subrange(0, sv.len() as int) =~= sv);
        }
        let mut gi: usize = 0;
        while gi < self.globals.entries.len()
            invariant
                gi <= self.globals.entries@.len(),
                sv == stack_view(self.stack@),
                gv == self.globals@,
                to_ints(roots@) == values_handles(sv) + pairs_handles(gv.subrange(0, gi as int)),
            decreases self.globals.entries@.len() - gi,
        {
            self.globals.entries[gi].1.trace(&mut roots);
            proof {
                assert(gv.subrange(0, gi + 1).drop_last() =~= gv.subrange(0, gi as int));
                assert(gv.subrange(0, gi + 1).last().1 == self.globals.entries@[gi as int].1@);
                assert(to_ints(roots@) =~= values_handles(sv) + pairs_handles(
                    gv.subrange(0, gi + 1),
                ));
            }
            gi += 1;
        }
        proof {
            assert(gv.subrange(0, gv.len() as int) =~= gv);
            assert(to_ints(roots@) == roots_of(old(self).snap(0)));
        }
        self.gc.collect(&mut self.heap, &roots);
        proof {
            let rts = to_ints(roots@);
            assert forall|p: int|
                live(self.heap@, p) && (#[trigger] payload_at(self.heap@, p)) is Obj implies
            keys_unique(payload_at(self.heap@, p)->Obj_0) by {
                assert(self.heap@[p] == collect_spec(h0, rts)[p]);
                assert(self.heap@[p] == h0[p]);
                assert(payload_at(self.heap@, p) == payload_at(h0, p));
            }
        }
    }
}

impl VM {
    fn op_constant(&mut self, chunk: &Chunk, ip: usize) -> (r: Result<(), RuntimeError>)
        requires
            old(self).wf(),
            chunk_wf(chunk@),
            ip < chunk@.code.len(),
            chunk@.code[ip as int] matches OpCode::Constant(_),
        ensures
            final(self).wf(),
            match step(chunk@, old(self).snap(ip as int)) {
                StepOut::Next(s2) => r is Ok && s2.ip == ip + 1 && final(self).snap(s2.ip) == s2,
                StepOut::Fault(e, s2) => (r matches Err(re) && re@ == e) && s2.ip == ip
                    && final(self).snap(s2.ip) == s2,
                StepOut::Halt(_) => false,
            },
    {
        let ghost s1 = self.snap(ip as int);
        let idx = match chunk.code[ip] {
            OpCode::Constant(i) => i,
            _ => vstd::pervasive::unreached(),
        };
        match &chunk.constants[idx] {
            Constant::Number(bits) => {
                self.push(Value::Number(*bits));
            },
            Constant::Str(sv) => {
                self.push(Value::Str(clone_chars(sv)));
            },
            Constant::Function(t) => {
                let tpl = clone_template(t);
                let h = self.heap.allocate(HeapPayload::Fun(tpl));
                self.push(Value::Function(h));
            },
        }
        proof {
            assert forall|p: int|
                live(self.heap@, p) && (#[trigger] payload_at(self.heap@, p)) is Obj
                    implies keys_unique(payload_at(self.heap@, p)->Obj_0) by {
                if p < s1.heap.len() {
                    assert(payload_at(self.heap@, p) == payload_at(s1.heap, p));
                    assert(live(s1.heap, p));
                }
            }
            assert(step(chunk@, s1) =~~= StepOut::Next(self.snap(ip + 1)));
        }
        Ok(())
    }

    fn op_add(&mut self, chunk: &Chunk, ip: usize) -> (r: Result<(), RuntimeError>)
        requires
            old(self).wf(),
            chunk_wf(chunk@),
            ip < chunk@.code.len(),
            chunk@.code[ip as int] == OpCode::Add,
        ensures
            final(self).wf(),
            match step(chunk@, old(self).snap(ip as int)) {
                StepOut::Next(s2) => r is Ok && s2.ip == ip + 1 && final(self).snap(s2.ip) == s2,
                StepOut::Fault(e, s2) => (r matches Err(re) && re@ == e) && s2.ip == ip
                    && final(self).snap(s2.ip) == s2,
                StepOut::Halt(_) => false,
            },
    {
        let ghost s1 = self.snap(ip as int);
        let (a, b) = match self.pop2() {
            Ok(p) => p,
            Err(e) => {
                proof {
                    assert(step(chunk@, s1) =~~= StepOut::Fault(
                        SpecErr::StackUnderflow,
                        self.snap(ip as int),
                    ));
                }
                return Err(e);
            },
        };
        match (a, b) {
            (Value::Number(x), Value::Number(y)) => {
                let sum = num_add(x, y);
                self.push(Value::Number(sum));
            },
            (Value::Str(x), Value::Str(y)) => {
                let mut cat = x;
                let mut rhs = y;
                cat.append(&mut rhs);
                self.push(Value::Str(cat));
            },
            _ => {
                proof {
                    assert(step(chunk@, s1) =~~= StepOut::Fault(
                        SpecErr::TypeError("Operands must be numbers or strings"@),
                        self.snap(ip as int),
                    ));
                }
                return Err(
                    RuntimeError::TypeError(
                        String::from_str("Operands must be numbers or strings"),
                    ),
                );
            },
        }
        proof {
            assert(step(chunk@, s1) =~~= StepOut::Next(self.snap(ip + 1)));
        }
        Ok(())
    }

    fn op_arith(&mut self, chunk: &Chunk, ip: usize, op: OpCode) -> (r: Result<(), RuntimeError>)
        requires
            old(self).wf(),
            chunk_wf(chunk@),
            ip < chunk@.code.len(),
            chunk@.code[ip as int] == op && (op == OpCode::Sub || op == OpCode::Mul || op == OpCode::Div),
        ensures
            final(self).wf(),
            match step(chunk@, old(self).snap(ip as int)) {
                StepOut::Next(s2) => r is Ok && s2.ip == ip + 1 && final(self).snap(s2.ip) == s2,
                StepOut::Fault(e, s2) => (r matches Err(re) && re@ == e) && s2.ip == ip
                    && final(self).snap(s2.ip) == s2,
                StepOut::Halt(_) => false,
            },
    {
        let ghost s1 = self.snap(ip as int);
        let (a, b) = match self.pop2() {
            Ok(p) => p,
            Err(e) => {
                proof {
                    assert(step(chunk@, s1) =~~= StepOut::Fault(
                        SpecErr::StackUnderflow,
                        self.snap(ip as int),
                    ));
                }
                return Err(e);
            },
        };
        match (a, b) {
            (Value::Number(x), Value::Number(y)) => {
                let bits = match op {
                    OpCode::Sub => num_sub(x, y),
                    OpCode::Mul => num_mul(x, y),
                    _ => num_div(x, y),
                };
                self.push(Value::Number(bits));
            },
            _ => {
                proof {
                    assert(step(chunk@, s1) =~~= StepOut::Fault(
                        SpecErr::TypeError("Operands must be numbers"@),
                        self.snap(ip as int),
                    ));
                }
                return Err(
                    RuntimeError::TypeError(String::from_str("Operands must be numbers")),
                );
            },
        }
        proof {
            assert(step(chunk@, s1) =~~= StepOut::Next(self.snap(ip + 1)));
        }
        Ok(())
    }

    fn op_equality(&mut self, chunk: &Chunk, ip: usize, op: OpCode) -> (r: Result<(), RuntimeError>)
        requires
            old(self).wf(),
            chunk_wf(chunk@),
            ip < chunk@.code.len(),
            chunk@.code[ip as int] == op && (op == OpCode::Equal || op == OpCode::NotEqual),
        ensures
            final(self).wf(),
            match step(chunk@, old(self).snap(ip as int)) {
                StepOut::Next(s2) => r is Ok && s2.ip == ip + 1 && final(self).snap(s2.ip) == s2,
                StepOut::Fault(e, s2) => (r matches Err(re) && re@ == e) && s2.ip == ip
                    && final(self).snap(s2.ip) == s2,
                StepOut::Halt(_) => false,
            },
    {
        let ghost s1 = self.snap(ip as int);
        let (a, b) = match self.pop2() {
            Ok(p) => p,
            Err(e) => {
                proof {
                    assert(step(chunk@, s1) =~~= StepOut::Fault(
                        SpecErr::StackUnderflow,
                        self.snap(ip as int),
                    ));
                }
                return Err(e);
            },
        };
        let eq = a.equals(&b);
        let flag = match op {
            OpCode::Equal => eq,
            _ => !eq,
        };
        self.push(Value::Boolean(flag));
        proof {
            assert(step(chunk@, s1) =~~= StepOut::Next(self.snap(ip + 1)));
        }
        Ok(())
    }

    fn op_compare(&mut self, chunk: &Chunk, ip: usize, op: OpCode) -> (r: Result<(), RuntimeError>)
        requires
            old(self).wf(),
            chunk_wf(chunk@),
            ip < chunk@.code.len(),
            chunk@.code[ip as int] == op && (op == OpCode::LessThan || op == OpCode::GreaterThan),
        ensures
            final(self).wf(),
            match step(chunk@, old(self).snap(ip as int)) {
                StepOut::Next(s2) => r is Ok && s2.ip == ip + 1 && final(self).snap(s2.ip) == s2,
                StepOut::Fault(e, s2) => (r matches Err(re) && re@ == e) && s2.ip == ip
                    && final(self).snap(s2.ip) == s2,
                StepOut::Halt(_) => false,
            },
    {
        let ghost s1 = self.snap(ip as int);
        let (a, b) = match self.pop2() {
            Ok(p) => p,
            Err(e) => {
                proof {
                    assert(step(chunk@, s1) =~~= StepOut::Fault(
                        SpecErr::StackUnderflow,
                        self.snap(ip as int),
                    ));
                }
                return Err(e);
            },
        };
        match (a, b) {
            (Value::Number(x), Value::Number(y)) => {
                let flag = match op {
                    OpCode::LessThan => num_lt(x, y),
                    _ => num_lt(y, x),
                };
                self.push(Value::Boolean(flag));
            },
            _ => {
                proof {
                    assert(step(chunk@, s1) =~~= StepOut::Fault(
                        SpecErr::TypeError("Operands must be numbers"@),
                        self.snap(ip as int),
                    ));
                }
                return Err(
                    RuntimeError::TypeError(String::from_str("Operands must be numbers")),
                );
            },
        }
        proof {
            assert(step(chunk@, s1) =~~= StepOut::Next(self.snap(ip + 1)));
        }
        Ok(())
    }

    fn op_pop_top(&mut self, chunk: &Chunk, ip: usize) -> (r: Result<(), RuntimeError>)
        requires
            old(self).wf(),
            chunk_wf(chunk@),
            ip < chunk@.code.len(),
            chunk@.code[ip as int] == OpCode::Pop,
        ensures
            final(self).wf(),
            match step(chunk@, old(self).snap(ip as int)) {
                StepOut::Next(s2) => r is Ok && s2.ip == ip + 1 && final(self).snap(s2.ip) == s2,
                StepOut::Fault(e, s2) => (r matches Err(re) && re@ == e) && s2.ip == ip
                    && final(self).snap(s2.ip) == s2,
                StepOut::Halt(_) => false,
            },
    {
        let ghost s1 = self.snap(ip as int);
        match self.pop() {
            Ok(_) => (),
            Err(e) => {
                proof {
                    assert(step(chunk@, s1) =~~= StepOut::Fault(
                        SpecErr::StackUnderflow,
                        self.snap(ip as int),
                    ));
                }
                return Err(e);
            },
        }
        proof {
            assert(step(chunk@, s1) =~~= StepOut::Next(self.snap(ip + 1)));
        }
        Ok(())
    }

    fn op_get_global(&mut self, chunk: &Chunk, ip: usize) -> (r: Result<(), RuntimeError>)
        requires
            old(self).wf(),
            chunk_wf(chunk@),
            ip < chunk@.code.len(),
            chunk@.code[ip as int] matches OpCode::GetGlobal(_),
        ensures
            final(self).wf(),
            match step(chunk@, old(self).snap(ip as int)) {
                StepOut::Next(s2) => r is Ok && s2.ip == ip + 1 && final(self).snap(s2.ip) == s2,
                StepOut::Fault(e, s2) => (r matches Err(re) && re@ == e) && s2.ip == ip
                    && final(self).snap(s2.ip) == s2,
                StepOut::Halt(_) => false,
            },
    {
        let ghost s1 = self.snap(ip as int);
        let idx = match chunk.code[ip] {
            OpCode::GetGlobal(i) => i,
            _ => vstd::pervasive::unreached(),
        };
        let got: Option<Value> = match &chunk.constants[idx] {
            Constant::Str(name) => match self.globals.get(name) {
                Some(v) => Some(v.clone()),
                None => {
                    proof {
                        assert(step(chunk@, s1) =~~= StepOut::Fault(
                            SpecErr::UndefinedVariable(name@),
                            self.snap(ip as int),
                        ));
                    }
                    return Err(RuntimeError::UndefinedVariable(clone_chars(name)));
                },
            },
            _ => {
                proof {
                    assert(step(chunk@, s1) =~~= StepOut::Fault(
                        SpecErr::TypeError("Global name must be a string"@),
                        self.snap(ip as int),
                    ));
                }
                return Err(
                    RuntimeError::TypeError(
                        String::from_str("Global name must be a string"),
                    ),
                );
            },
        };
        match got {
            Some(v) => {
                self.push(v);
            },
            None => vstd::pervasive::unreached(),
        }
        proof {
            assert(step(chunk@, s1) =~~= StepOut::Next(self.snap(ip + 1)));
        }
        Ok(())
    }

    fn op_set_global(&mut self, chunk: &Chunk, ip: usize) -> (r: Result<(), RuntimeError>)
        requires
            old(self).wf(),
            chunk_wf(chunk@),
            ip < chunk@.code.len(),
            chunk@.code[ip as int] matches OpCode::SetGlobal(_),
        ensures
            final(self).wf(),
            match step(chunk@, old(self).snap(ip as int)) {
                StepOut::Next(s2) => r is Ok && s2.ip == ip + 1 && final(self).snap(s2.ip) == s2,
                StepOut::Fault(e, s2) => (r matches Err(re) && re@ == e) && s2.ip == ip
                    && final(self).snap(s2.ip) == s2,
                StepOut::Halt(_) => false,
            },
    {
        let ghost s1 = self.snap(ip as int);
        let idx = match chunk.code[ip] {
            OpCode::SetGlobal(i) => i,
            _ => vstd::pervasive::unreached(),
        };
        match &chunk.constants[idx] {
            Constant::Str(name) => {
                let val = match self.peek(0) {
                    Ok(v) => v.clone(),
                    Err(e) => {
                        proof {
                            assert(step(chunk@, s1) =~~= StepOut::Fault(
                                SpecErr::StackUnderflow,
                                self.snap(ip as int),
                            ));
                        }
                        return Err(e);
                    },
                };
                let namec = clone_chars(name);
                self.globals.define(namec, val);
            },
            _ => {
                proof {
                    assert(step(chunk@, s1) =~~= StepOut::Fault(
                        SpecErr::TypeError("Global name must be a string"@),
                        self.snap(ip as int),
                    ));
                }
                return Err(
                    RuntimeError::TypeError(
                        String::from_str("Global name must be a string"),
                    ),
                );
            },
        }
        proof {
            assert(step(chunk@, s1) =~~= StepOut::Next(self.snap(ip + 1)));
        }
        Ok(())
    }

    fn op_call(&mut self, chunk: &Chunk, ip: usize) -> (r: Result<(), RuntimeError>)
        requires
            old(self).wf(),
            chunk_wf(chunk@),
            ip < chunk@.code.len(),
            chunk@.code[ip as int] matches OpCode::Call(_),
        ensures
            final(self).wf(),
            match step(chunk@, old(self).snap(ip as int)) {
                StepOut::Next(s2) => r is Ok && s2.ip == ip + 1 && final(self).snap(s2.ip) == s2,
                StepOut::Fault(e, s2) => (r matches Err(re) && re@ == e) && s2.ip == ip
                    && final(self).snap(s2.ip) == s2,
                StepOut::Halt(_) => false,
            },
    {
        let ghost s1 = self.snap(ip as int);
        let arg_count = match chunk.code[ip] {
            OpCode::Call(i) => i,
            _ => vstd::pervasive::unreached(),
        };
        if self.stack.len() <= arg_count {
            self.stack.truncate(0);
            proof {
                assert(stack_view(self.stack@) =~= Seq::<SpecValue>::empty());
                assert(step(chunk@, s1) =~~= StepOut::Fault(
                    SpecErr::StackUnderflow,
                    self.snap(ip as int),
                ));
            }
            return Err(RuntimeError::StackUnderflow);
        }
        let ghost st0 = self.stack@;
        let at = self.stack.len() - arg_count;
        let args = self.stack.split_off(at);
        proof {
            lemma_stack_view_subrange(st0, at as int, st0.len() as int);
            lemma_stack_view_subrange(st0, 0, at as int);
            assert(stack_view(args@) == s1.stack.subrange(
                s1.stack.len() - arg_count,
                s1.stack.len() as int,
            ));
        }
        let callee = match self.stack.pop() {
            Some(c) => c,
            None => vstd::pervasive::unreached(),
        };
        proof {
            assert(self.stack@ =~= st0.subrange(0, at - 1));
            lemma_stack_view_subrange(st0, 0, at - 1);
            assert(stack_view(self.stack@) == s1.stack.subrange(
                0,
                s1.stack.len() - arg_count - 1,
            ));
            assert(callee@ == s1.stack[s1.stack.len() - arg_count - 1]);
        }
        match callee {
            Value::NativeFunction(Native::Print) => {
                proof {
                    lemma_out_view_push(self.output@, args);
                }
                self.output.push(args);
                self.push(Value::Undefined);
            },
            _ => {
                proof {
                    assert(step(chunk@, s1) =~~= StepOut::Fault(
                        SpecErr::TypeError("Can only call functions"@),
                        self.snap(ip as int),
                    ));
                }
                return Err(
                    RuntimeError::TypeError(String::from_str("Can only call functions")),
                );
            },
        }
        proof {
            assert(step(chunk@, s1) =~~= StepOut::Next(self.snap(ip + 1)));
        }
        Ok(())
    }

    fn op_array(&mut self, chunk: &Chunk, ip: usize) -> (r: Result<(), RuntimeError>)
        requires
            old(self).wf(),
            chunk_wf(chunk@),
            ip < chunk@.code.len(),
            chunk@.code[ip as int] matches OpCode::Array(_),
        ensures
            final(self).wf(),
            match step(chunk@, old(self).snap(ip as int)) {
                StepOut::Next(s2) => r is Ok && s2.ip == ip + 1 && final(self).snap(s2.ip) == s2,
                StepOut::Fault(e, s2) => (r matches Err(re) && re@ == e) && s2.ip == ip
                    && final(self).snap(s2.ip) == s2,
                StepOut::Halt(_) => false,
            },
    {
        let ghost s1 = self.snap(ip as int);
        let n = match chunk.code[ip] {
            OpCode::Array(i) => i,
            _ => vstd::pervasive::unreached(),
        };
        if self.stack.len() < n {
            self.stack.truncate(0);
            proof {
                assert(stack_view(self.stack@) =~= Seq::<SpecValue>::empty());
                assert(step(chunk@, s1) =~~= StepOut::Fault(
                    SpecErr::StackUnderflow,
                    self.snap(ip as int),
                ));
            }
            return Err(RuntimeError::StackUnderflow);
        }
        let ghost st0 = self.stack@;
        let at = self.stack.len() - n;
        let elems = self.stack.split_off(at);
        proof {
            lemma_stack_view_subrange(st0, at as int, st0.len() as int);
            lemma_stack_view_subrange(st0, 0, at as int);
            assert(stack_view(elems@) == s1.stack.subrange(
                s1.stack.len() - n,
                s1.stack.len() as int,
            ));
            assert(stack_view(self.stack@) == s1.stack.subrange(
                0,
                s1.stack.len() - n,
            ));
            assert(elems@.map_values(|v: Value| v@) =~= stack_view(elems@));
        }
        let h = self.heap.allocate(HeapPayload::Arr(elems));
        self.push(Value::Array(h));
        proof {
            assert forall|p: int|
                live(self.heap@, p) && (#[trigger] payload_at(self.heap@, p)) is Obj
                    implies keys_unique(payload_at(self.heap@, p)->Obj_0) by {
                if p < s1.heap.len() {
                    assert(payload_at(self.heap@, p) == payload_at(s1.heap, p));
                    assert(live(s1.heap, p));
                }
            }
            assert(step(chunk@, s1) =~~= StepOut::Next(self.snap(ip + 1)));
        }
        Ok(())
    }

    fn op_object(&mut self, chunk: &Chunk, ip: usize) -> (r: Result<(), RuntimeError>)
        requires
            old(self).wf(),
            chunk_wf(chunk@),
            ip < chunk@.code.len(),
            chunk@.code[ip as int] matches OpCode::Object(_),
        ensures
            final(self).wf(),
            match step(chunk@, old(self).snap(ip as int)) {
                StepOut::Next(s2) => r is Ok && s2.ip == ip + 1 && final(self).snap(s2.ip) == s2,
                StepOut::Fault(e, s2) => (r matches Err(re) && re@ == e) && s2.ip == ip
                    && final(self).snap(s2.ip) == s2,
                StepOut::Halt(_) => false,
            },
    {
        let ghost s1 = self.snap(ip as int);
        let n = match chunk.code[ip] {
            OpCode::Object(i) => i,
            _ => vstd::pervasive::unreached(),
        };
        let ghost heap_b = self.heap@;
        let ghost glob_b = self.globals@;
        let ghost out_b = out_view(self.output@);
        let mut pairs_vec: Vec<(Vec<char>, Value)> = Vec::new();
        proof {
            assert(globals_view(pairs_vec@) =~= Seq::<(Seq<char>, SpecValue)>::empty());
        }
        let mut k: usize = 0;
        #[verifier::loop_isolation(false)]
        while k < n
            invariant
                k <= n,
                self.heap@ == heap_b,
                self.heap.wf(),
                self.globals@ == glob_b,
                out_view(self.output@) == out_b,
                keys_unique(globals_view(pairs_vec@)),
                build_object(s1.stack, n as nat, Seq::empty()) == build_object(
                    stack_view(self.stack@),
                    (n - k) as nat,
                    globals_view(pairs_vec@),
                ),
            decreases n - k,
        {
            let ghost cur = stack_view(self.stack@);
            let ghost acc = globals_view(pairs_vec@);
            let value = match self.pop() {
                Ok(v) => v,
                Err(e) => {
                    proof {
                        assert(build_object(cur, (n - k) as nat, acc) == ObjBuild::Under(
                            cur,
                        ));
                        assert(step(chunk@, s1) =~~= StepOut::Fault(
                            SpecErr::StackUnderflow,
                            self.snap(ip as int),
                        ));
                    }
                    return Err(e);
                },
            };
            let keyv = match self.pop() {
                Ok(v) => v,
                Err(e) => {
                    proof {
                        assert(build_object(cur, (n - k) as nat, acc) == ObjBuild::Under(
                            cur.drop_last(),
                        ));
                        assert(step(chunk@, s1) =~~= StepOut::Fault(
                            SpecErr::StackUnderflow,
                            self.snap(ip as int),
                        ));
                    }
                    return Err(e);
                },
            };
            let keyc = match keyv {
                Value::Str(kc) => kc,
                _ => {
                    proof {
                        assert(build_object(cur, (n - k) as nat, acc) == ObjBuild::BadKey(
                            cur.drop_last().drop_last(),
                        ));
                        assert(step(chunk@, s1) =~~= StepOut::Fault(
                            SpecErr::TypeError("Object key must be a string"@),
                            self.snap(ip as int),
                        ));
                    }
                    return Err(
                        RuntimeError::TypeError(
                            String::from_str("Object key must be a string"),
                        ),
                    );
                },
            };
            let ghost ks = keyc@;
            let ghost vv = value@;
            assoc_update(&mut pairs_vec, keyc, value);
            k += 1;
            proof {
                assert(build_object(cur, (n - (k - 1)) as nat, acc) == build_object(
                    stack_view(self.stack@),
                    (n - k) as nat,
                    assoc_insert(acc, ks, vv),
                ));
            }
        }
        proof {
            assert(build_object(s1.stack, n as nat, Seq::empty()) == ObjBuild::Done(
                stack_view(self.stack@),
                globals_view(pairs_vec@),
            ));
            assert(pairs_vec@.map_values(|p: (Vec<char>, Value)| (p.0@, p.1@)) =~=
                globals_view(pairs_vec@));
        }
        let h = self.heap.allocate(HeapPayload::Obj(pairs_vec));
        self.push(Value::Object(h));
        proof {
            assert forall|p: int|
                live(self.heap@, p) && (#[trigger] payload_at(self.heap@, p)) is Obj
                    implies keys_unique(payload_at(self.heap@, p)->Obj_0) by {
                if p < s1.heap.len() {
                    assert(payload_at(self.heap@, p) == payload_at(s1.heap, p));
                    assert(live(s1.heap, p));
                }
            }
            assert(step(chunk@, s1) =~~= StepOut::Next(self.snap(ip + 1)));
        }
        Ok(())
    }

    fn op_get_index(&mut self, chunk: &Chunk, ip: usize) -> (r: Result<(), RuntimeError>)
        requires
            old(self).wf(),
            chunk_wf(chunk@),
            ip < chunk@.code.len(),
            chunk@.code[ip as int] == OpCode::GetIndex,
        ensures
            final(self).wf(),
            match step(chunk@, old(self).snap(ip as int)) {
                StepOut::Next(s2) => r is Ok && s2.ip == ip + 1 && final(self).snap(s2.ip) == s2,
                StepOut::Fault(e, s2) => (r matches Err(re) && re@ == e) && s2.ip == ip
                    && final(self).snap(s2.ip) == s2,
                StepOut::Halt(_) => false,
            },
    {
        let ghost s1 = self.snap(ip as int);
        let (target, index) = match self.pop2() {
            Ok(p) => p,
            Err(e) => {
                proof {
                    assert(step(chunk@, s1) =~~= StepOut::Fault(
                        SpecErr::StackUnderflow,
                        self.snap(ip as int),
                    ));
                }
                return Err(e);
            },
        };
        match target {
            Value::Array(hgc) => {
                let bits = match index {
                    Value::Number(b) => b,
                    _ => {
                        proof {
                            assert(step(chunk@, s1) =~~= StepOut::Fault(
                                SpecErr::TypeError("Array index must be a number"@),
                                self.snap(ip as int),
                            ));
                        }
                        return Err(
                            RuntimeError::TypeError(
                                String::from_str("Array index must be a number"),
                            ),
                        );
                    },
                };
                let idx = num_index(bits);
                let got: Option<Value> = match self.heap.get(hgc.idx) {
                    Some(HeapPayload::Arr(vs)) => {
                        proof {
                            assert(vs@.map_values(|v: Value| v@) =~= stack_view(vs@));
                        }
                        if idx < vs.len() {
                            Some(vs[idx].clone())
                        } else {
                            Some(Value::Undefined)
                        }
                    },
                    _ => None,
                };
                match got {
                    Some(v) => {
                        self.push(v);
                    },
                    None => {
                        proof {
                            assert(step(chunk@, s1) =~~= StepOut::Fault(
                                SpecErr::TypeError("Cannot index non-array/object"@),
                                self.snap(ip as int),
                            ));
                        }
                        return Err(
                            RuntimeError::TypeError(
                                String::from_str("Cannot index non-array/object"),
                            ),
                        );
                    },
                }
            },
            Value::Object(hgc) => {
                let keyc = match index {
                    Value::Str(kc) => kc,
                    _ => {
                        proof {
                            assert(step(chunk@, s1) =~~= StepOut::Fault(
                                SpecErr::TypeError("Object key must be a string"@),
                                self.snap(ip as int),
                            ));
                        }
                        return Err(
                            RuntimeError::TypeError(
                                String::from_str("Object key must be a string"),
                            ),
                        );
                    },
                };
                let got: Option<Value> = match self.heap.get(hgc.idx) {
                    Some(HeapPayload::Obj(ps)) => {
                        proof {
                            assert(ps@.map_values(|p: (Vec<char>, Value)| (p.0@, p.1@))
                                =~= globals_view(ps@));
                            assert(payload_at(self.heap@, hgc.idx as int)->Obj_0
                                == globals_view(ps@));
                        }
                        match assoc_get(ps, &keyc) {
                            Some(v) => Some(v.clone()),
                            None => Some(Value::Undefined),
                        }
                    },
                    _ => None,
                };
                match got {
                    Some(v) => {
                        self.push(v);
                    },
                    None => {
                        proof {
                            assert(step(chunk@, s1) =~~= StepOut::Fault(
                                SpecErr::TypeError("Cannot index non-array/object"@),
                                self.snap(ip as int),
                            ));
                        }
                        return Err(
                            RuntimeError::TypeError(
                                String::from_str("Cannot index non-array/object"),
                            ),
                        );
                    },
                }
            },
            _ => {
                proof {
                    assert(step(chunk@, s1) =~~= StepOut::Fault(
                        SpecErr::TypeError("Cannot index non-array/object"@),
                        self.snap(ip as int),
                    ));
                }
                return Err(
                    RuntimeError::TypeError(
                        String::from_str("Cannot index non-array/object"),
                    ),
                );
            },
        }
        proof {
            assert(step(chunk@, s1) =~~= StepOut::Next(self.snap(ip + 1)));
        }
        Ok(())
    }

    fn op_set_index(&mut self, chunk: &Chunk, ip: usize) -> (r: Result<(), RuntimeError>)
        requires
            old(self).wf(),
            chunk_wf(chunk@),
            ip < chunk@.code.len(),
            chunk@.code[ip as int] == OpCode::SetIndex,
        ensures
            final(self).wf(),
            match step(chunk@, old(self).snap(ip as int)) {
                StepOut::Next(s2) => r is Ok && s2.ip == ip + 1 && final(self).snap(s2.ip) == s2,
                StepOut::Fault(e, s2) => (r matches Err(re) && re@ == e) && s2.ip == ip
                    && final(self).snap(s2.ip) == s2,
                StepOut::Halt(_) => false,
            },
    {
        let ghost s1 = self.snap(ip as int);
        let value = match self.pop() {
            Ok(v) => v,
            Err(e) => {
                proof {
                    assert(step(chunk@, s1) =~~= StepOut::Fault(
                        SpecErr::StackUnderflow,
                        self.snap(ip as int),
                    ));
                }
                return Err(e);
            },
        };
        let index = match self.pop() {
            Ok(v) => v,
            Err(e) => {
                proof {
                    assert(step(chunk@, s1) =~~= StepOut::Fault(
                        SpecErr::StackUnderflow,
                        self.snap(ip as int),
                    ));
                }
                return Err(e);
            },
        };
        let target = match self.pop() {
            Ok(v) => v,
            Err(e) => {
                proof {
                    assert(step(chunk@, s1) =~~= StepOut::Fault(
                        SpecErr::StackUnderflow,
                        self.snap(ip as int),
                    ));
                }
                return Err(e);
            },
        };
        match target {
            Value::Array(hgc) => {
                let bits = match index {
                    Value::Number(b) => b,
                    _ => {
                        proof {
                            assert(step(chunk@, s1) =~~= StepOut::Fault(
                                SpecErr::TypeError("Array index must be a number"@),
                                self.snap(ip as int),
                            ));
                        }
                        return Err(
                            RuntimeError::TypeError(
                                String::from_str("Array index must be a number"),
                            ),
                        );
                    },
                };
                let idx = num_index(bits);
                let info: Option<usize> = match self.heap.get(hgc.idx) {
                    Some(HeapPayload::Arr(vs)) => Some(vs.len()),
                    _ => None,
                };
                let alen = match info {
                    Some(l) => l,
                    None => {
                        proof {
                            assert(step(chunk@, s1) =~~= StepOut::Fault(
                                SpecErr::TypeError("Cannot set property on non-object"@),
                                self.snap(ip as int),
                            ));
                        }
                        return Err(
                            RuntimeError::TypeError(
                                String::from_str("Cannot set property on non-object"),
                            ),
                        );
                    },
                };
                if idx > alen {
                    proof {
                        assert(step(chunk@, s1) =~~= StepOut::Fault(
                            SpecErr::Custom(
                                "Array index out of bounds (sparse arrays not supported)"@,
                            ),
                            self.snap(ip as int),
                        ));
                    }
                    return Err(
                        RuntimeError::Custom(
                            String::from_str(
                                "Array index out of bounds (sparse arrays not supported)",
                            ),
                        ),
                    );
                }
                let p = self.heap.take(hgc.idx);
                match p {
                    HeapPayload::Arr(mut vs) => {
                        let ghost vs0 = vs@;
                        proof {
                            assert(vs0.map_values(|v: Value| v@) =~= stack_view(vs0));
                            assert(stack_view(vs0) == payload_at(
                                s1.heap,
                                hgc.idx as int,
                            )->Arr_0);
                        }
                        let v2 = value.clone();
                        let ghost v2g = v2;
                        if idx < vs.len() {
                            vs[idx] = v2;
                            proof {
                                lemma_stack_view_update(vs0, idx as int, v2g);
                            }
                        } else {
                            vs.push(v2);
                            proof {
                                lemma_stack_view_push(vs0, v2g);
                            }
                        }
                        proof {
                            assert(vs@.map_values(|v: Value| v@) =~= stack_view(vs@));
                        }
                        self.heap.put(hgc.idx, HeapPayload::Arr(vs));
                    },
                    _ => vstd::pervasive::unreached(),
                }
                proof {
                    assert(self.heap@ =~= (if idx < alen {
                        s1.heap.update(
                            hgc.idx as int,
                            Some(
                                SpecPayload::Arr(
                                    (payload_at(s1.heap, hgc.idx as int)->Arr_0).update(
                                        idx as int,
                                        value@,
                                    ),
                                ),
                            ),
                        )
                    } else {
                        s1.heap.update(
                            hgc.idx as int,
                            Some(
                                SpecPayload::Arr(
                                    (payload_at(s1.heap, hgc.idx as int)->Arr_0).push(
                                        value@,
                                    ),
                                ),
                            ),
                        )
                    }));
                }
                self.push(value);
                proof {
                    assert forall|p: int|
                        live(self.heap@, p) && (#[trigger] payload_at(
                            self.heap@,
                            p,
                        )) is Obj implies keys_unique(
                        payload_at(self.heap@, p)->Obj_0,
                    ) by {
                        if p != hgc.idx as int {
                            assert(payload_at(self.heap@, p) == payload_at(s1.heap, p));
                            assert(live(s1.heap, p));
                        }
                    }
                }
            },
            Value::Object(hgc) => {
                let keyc = match index {
                    Value::Str(kc) => kc,
                    _ => {
                        proof {
                            assert(step(chunk@, s1) =~~= StepOut::Fault(
                                SpecErr::TypeError("Object key must be a string"@),
                                self.snap(ip as int),
                            ));
                        }
                        return Err(
                            RuntimeError::TypeError(
                                String::from_str("Object key must be a string"),
                            ),
                        );
                    },
                };
                let is_obj: bool = match self.heap.get(hgc.idx) {
                    Some(HeapPayload::Obj(_)) => true,
                    _ => false,
                };
                if !is_obj {
                    proof {
                        assert(step(chunk@, s1) =~~= StepOut::Fault(
                            SpecErr::TypeError("Cannot set property on non-object"@),
                            self.snap(ip as int),
                        ));
                    }
                    return Err(
                        RuntimeError::TypeError(
                            String::from_str("Cannot set property on non-object"),
                        ),
                    );
                }
                let p = self.heap.take(hgc.idx);
                match p {
                    HeapPayload::Obj(mut ps) => {
                        proof {
                            assert(ps@.map_values(|q: (Vec<char>, Value)| (q.0@, q.1@))
                                =~= globals_view(ps@));
                            assert(payload_at(s1.heap, hgc.idx as int)->Obj_0
                                == globals_view(ps@));
                        }
                        let v2 = value.clone();
                        assoc_update(&mut ps, keyc, v2);
                        proof {
                            assert(ps@.map_values(|q: (Vec<char>, Value)| (q.0@, q.1@))
                                =~= globals_view(ps@));
                        }
                        self.heap.put(hgc.idx, HeapPayload::Obj(ps));
                    },
                    _ => vstd::pervasive::unreached(),
                }
                self.push(value);
                proof {
                    assert forall|p: int|
                        live(self.heap@, p) && (#[trigger] payload_at(
                            self.heap@,
                            p,
                        )) is Obj implies keys_unique(
                        payload_at(self.heap@, p)->Obj_0,
                    ) by {
                        if p != hgc.idx as int {
                            assert(payload_at(self.heap@, p) == payload_at(s1.heap, p));
                            assert(live(s1.heap, p));
                        }
                    }
                }
            },
            _ => {
                proof {
                    assert(step(chunk@, s1) =~~= StepOut::Fault(
                        SpecErr::TypeError("Cannot set property on non-object"@),
                        self.snap(ip as int),
                    ));
                }
                return Err(
                    RuntimeError::TypeError(
                        String::from_str("Cannot set property on non-object"),
                    ),
                );
            },
        }
        proof {
            assert(step(chunk@, s1) =~~= StepOut::Next(self.snap(ip + 1)));
        }
        Ok(())
    }

    /// Interpret a chunk: the result and every side effect — stack,
    /// globals, heap, printed output — are exactly what the step machine
    /// [`spec_exec`] computes from the starting state.
    pub fn execute(&mut self, chunk: Chunk) -> (r: Result<(), RuntimeError>)
        requires
            chunk_wf(chunk@),
            old(self).wf(),
        ensures
            final(self).wf(),
            match spec_exec(chunk@, old(self).snap(0)) {
                RunResult::Done(s2) => r is Ok && final(self).snap(s2.ip) == s2,
                RunResult::Fault(e, s2) => (r matches Err(re) && re@ == e) && final(self).snap(
                    s2.ip,
                ) == s2,
            },
    {
        let ghost s0 = self.snap(0);
        let mut ip: usize = 0;
        #[verifier::loop_isolation(false)]
        while ip < chunk.code.len()
            invariant
                self.wf(),
                ip <= chunk@.code.len(),
                spec_exec(chunk@, s0) == spec_exec(chunk@, self.snap(ip as int)),
            decreases chunk@.code.len() - ip,
        {
            let ghost s_entry = self.snap(ip as int);
            proof {
                assert(op_wf(chunk@.code[ip as int], ip as int, chunk@));
            }
            if ip % 1000 == 0 {
                self.collect_garbage();
            }
            let ghost s1 = self.snap(ip as int);
            proof {
                assert(gc_if(s_entry) =~~= s1);
            }
            let op = chunk.code[ip];
            match op {
                OpCode::Jump(t) => {
                    ip = t;
                    proof {
                        assert(step(chunk@, s1) =~~= StepOut::Next(self.snap(ip as int)));
                    }
                },
                OpCode::JumpIfFalse(t) => {
                    let falsy = match self.peek(0) {
                        Ok(c) => self.is_falsey(c),
                        Err(e) => {
                            proof {
                                assert(step(chunk@, s1) =~~= StepOut::Fault(
                                    SpecErr::StackUnderflow,
                                    self.snap(ip as int),
                                ));
                            }
                            return Err(e);
                        },
                    };
                    if falsy {
                        ip = t;
                    } else {
                        ip += 1;
                    }
                    match self.pop() {
                        Ok(_) => (),
                        Err(_) => vstd::pervasive::unreached(),
                    }
                    proof {
                        assert(step(chunk@, s1) =~~= StepOut::Next(self.snap(ip as int)));
                    }
                },
                OpCode::Return => {
                    proof {
                        assert(step(chunk@, s1) =~~= StepOut::Halt(s1));
                        assert(spec_exec(chunk@, s0) == RunResult::Done(s1));
                    }
                    return Ok(());
                },
                _ => {
                    let res = match op {
                        OpCode::Constant(_) => self.op_constant(&chunk, ip),
                        OpCode::Add => self.op_add(&chunk, ip),
                        OpCode::Sub => self.op_arith(&chunk, ip, op),
                        OpCode::Mul => self.op_arith(&chunk, ip, op),
                        OpCode::Div => self.op_arith(&chunk, ip, op),
                        OpCode::Equal => self.op_equality(&chunk, ip, op),
                        OpCode::NotEqual => self.op_equality(&chunk, ip, op),
                        OpCode::LessThan => self.op_compare(&chunk, ip, op),
                        OpCode::GreaterThan => self.op_compare(&chunk, ip, op),
                        OpCode::Pop => self.op_pop_top(&chunk, ip),
                        OpCode::GetGlobal(_) => self.op_get_global(&chunk, ip),
                        OpCode::SetGlobal(_) => self.op_set_global(&chunk, ip),
                        OpCode::Call(_) => self.op_call(&chunk, ip),
                        OpCode::Array(_) => self.op_array(&chunk, ip),
                        OpCode::Object(_) => self.op_object(&chunk, ip),
                        OpCode::GetIndex => self.op_get_index(&chunk, ip),
                        OpCode::SetIndex => self.op_set_index(&chunk, ip),
                        _ => vstd::pervasive::unreached(),
                    };
                    match res {
                        Ok(()) => {
                            ip += 1;
                            proof {
                                assert(step(chunk@, s1) matches StepOut::Next(s2) && self.snap(
                                    ip as int,
                                ) == s2);
                            }
                        },
                        Err(e) => {
                            proof {
                                assert(step(chunk@, s1) matches StepOut::Fault(er, s2) && er == e@
                                    && self.snap(ip as int) == s2);
                                assert(spec_exec(chunk@, s0) == RunResult::Fault(
                                    e@,
                                    self.snap(ip as int),
                                ));
                            }
                            return Err(e);
                        },
                    }
                },
            }
        }
        proof {
            assert(spec_exec(chunk@, self.snap(ip as int)) == RunResult::Done(self.snap(ip as int)));
        }
        Ok(())
    }
}

/// The snapshot of a freshly created machine: empty stack, heap and
/// output, `print` the only binding.
pub open spec fn fresh_snap() -> VmSnap {
    VmSnap {
        stack: Seq::<SpecValue>::empty(),
        globals: seq![(print_name(), SpecValue::NativeFunction(Native::Print))],
        heap: Seq::<Option<SpecPayload>>::empty(),
        output: Seq::<Seq<SpecValue>>::empty(),
        ip: 0,
    }
}

/// Executing a chunk and re-executing the same chunk on a fresh machine
/// yield the same outcome — result, final state and printed output alike:
/// the step machine is a function of the chunk and the starting snapshot,
/// and every fresh machine starts from the same snapshot.
pub proof fn lemma_rerun_deterministic(c: SpecChunk, a: VmSnap, b: VmSnap)
    requires
        a == fresh_snap(),
        b == fresh_snap(),
    ensures
        spec_exec(c, a) == spec_exec(c, b),
{
}

/// Inserting a binding and looking the same key up yields exactly the
/// bound value, and key uniqueness survives the insertion.
pub proof fn lemma_assoc_insert_find(g: Seq<(Seq<char>, SpecValue)>, k: Seq<char>, v: SpecValue)
    requires
        keys_unique(g),
    ensures
        assoc_find(assoc_insert(g, k, v), k) == Some(v),
        keys_unique(assoc_insert(g, k, v)),
{
    let g2 = assoc_insert(g, k, v);
    if assoc_has(g, k) {
        let i = assoc_idx(g, k);
        assert(g[i].0 == k);
        assert forall|a: int, b: int| 0 <= a < b < g2.len() implies (#[trigger] g2[a]).0 != (
        #[trigger] g2[b]).0 by {
            assert(g2[a].0 == g[a].0);
            assert(g2[b].0 == g[b].0);
        }
        assert(g2[i].0 == k);
        assert(assoc_has(g2, k));
        let j = assoc_idx(g2, k);
        assert(g2[j].0 == k);
        assert(j == i);
    } else {
        assert(g2[g.len() as int].0 == k);
        assert(assoc_has(g2, k));
        assert forall|a: int, b: int| 0 <= a < b < g2.len() implies (#[trigger] g2[a]).0 != (
        #[trigger] g2[b]).0 by {
            if b == g.len() {
                assert(g2[a].0 == g[a].0);
                assert(!(exists|i: int| 0 <= i < g.len() && (#[trigger] g[i]).0 == k));
            }
        }
        let j = assoc_idx(g2, k);
        assert(g2[j].0 == k);
        assert(j == g.len());
    }
}

/// After a `SetGlobal(i)` with value `v` on top of the stack, followed
/// immediately by `GetGlobal(i)` of the same name, the top of stack is
/// exactly `v`.
pub proof fn lemma_set_then_get_global(c: SpecChunk, s: VmSnap, i: usize, name: Seq<char>)
    requires
        0 <= s.ip,
        s.ip + 1 < c.code.len(),
        c.code[s.ip] == OpCode::SetGlobal(i),
        c.code[s.ip + 1] == OpCode::GetGlobal(i),
        (i as int) < c.constants.len(),
        c.constants[i as int] == SpecConstant::Str(name),
        keys_unique(s.globals),
        s.stack.len() > 0,
    ensures
        step(c, s) matches StepOut::Next(s2) && (step(c, s2) matches StepOut::Next(s3)
            && s3.stack.len() > 0 && s3.stack.last() == s.stack.last()),
{
    let v = s.stack.last();
    lemma_assoc_insert_find(s.globals, name, v);
}

/// Gathering an array takes exactly the values its element expressions
/// left on the stack, in order: element `i` of the fresh array is the
/// `i`-th of the gathered values, and the pushed handle points at it.
/// (The compiler's contract states that compiling `n` element expressions
/// pushes their `n` values left to right.)
pub proof fn lemma_array_gathers_elements(c: SpecChunk, s: VmSnap, n: usize)
    requires
        0 <= s.ip < c.code.len(),
        c.code[s.ip] == OpCode::Array(n),
        s.stack.len() >= n,
    ensures
        step(c, s) matches StepOut::Next(s2) && {
            let h = s.heap.len() as int;
            &&& s2.stack.len() > 0
            &&& s2.stack.last() == SpecValue::Array(h)
            &&& live(s2.heap, h)
            &&& payload_at(s2.heap, h) == SpecPayload::Arr(
                s.stack.subrange(s.stack.len() - n, s.stack.len() as int),
            )
            &&& forall|i: int|
                0 <= i < n ==> payload_at(s2.heap, h)->Arr_0[i] == s.stack[s.stack.len() - n + i]
        },
{
}

/// The values of `n` number literals, as a stack.
pub open spec fn literal_stack(bits: Seq<u64>, k: int) -> Seq<SpecValue> {
    Seq::new(k as nat, |i: int| SpecValue::Number(bits[i]))
}

/// The shape of a chunk that builds one array out of `n` number literals:
/// each literal pushed in order, then gathered.
pub open spec fn literal_array_chunk(c: SpecChunk, bits: Seq<u64>) -> bool {
    &&& bits.len() <= usize::MAX
    &&& c.code.len() == bits.len() + 1
    &&& (forall|i: int| 0 <= i < bits.len() ==> c.code[i] == OpCode::Constant(i as usize))
    &&& c.code[bits.len() as int] == OpCode::Array(bits.len() as usize)
    &&& c.constants.len() == bits.len()
    &&& (forall|i: int|
        0 <= i < bits.len() ==> c.constants[i] == SpecConstant::Number(bits[i]))
}

proof fn lemma_literal_array_run(c: SpecChunk, bits: Seq<u64>, g: Seq<(Seq<char>, SpecValue)>, o: Seq<Seq<SpecValue>>, k: int)
    requires
        literal_array_chunk(c, bits),
        chunk_wf(c),
        0 <= k <= bits.len(),
    ensures
        spec_exec(
            c,
            VmSnap {
                stack: literal_stack(bits, k),
                globals: g,
                heap: Seq::<Option<SpecPayload>>::empty(),
                output: o,
                ip: k,
            },
        ) matches RunResult::Done(s2) && s2.stack.len() == 1 && s2.stack.last()
            == SpecValue::Array(0) && live(s2.heap, 0) && payload_at(s2.heap, 0)
            == SpecPayload::Arr(literal_stack(bits, bits.len() as int)),
    decreases bits.len() - k,
{
    let s = VmSnap {
        stack: literal_stack(bits, k),
        globals: g,
        heap: Seq::<Option<SpecPayload>>::empty(),
        output: o,
        ip: k,
    };
    let s1 = gc_if(s);
    assert(s1 =~~= s) by {
        assert(collect_spec(s.heap, roots_of(s)) =~= s.heap);
    }
    if k < bits.len() {
        assert(c.code[k] == OpCode::Constant(k as usize));
        let s2 = VmSnap {
            stack: literal_stack(bits, k + 1),
            globals: g,
            heap: Seq::<Option<SpecPayload>>::empty(),
            output: o,
            ip: k + 1,
        };
        assert(step(c, s1) =~~= StepOut::Next(s2)) by {
            assert(s.stack.push(SpecValue::Number(bits[k])) =~= literal_stack(bits, k + 1));
        }
        lemma_literal_array_run(c, bits, g, o, k + 1);
    } else {
        assert(c.code[k] == OpCode::Array(bits.len() as usize));
        let n = bits.len() as usize;
        assert(s.stack.len() == n);
        let elems = s.stack.subrange(s.stack.len() - n, s.stack.len() as int);
        assert(elems =~= literal_stack(bits, bits.len() as int));
        let rest = s.stack.subrange(0, s.stack.len() - n);
        let s2 = VmSnap {
            stack: rest.push(SpecValue::Array(0)),
            heap: s.heap.push(Some(SpecPayload::Arr(elems))),
            ip: k + 1,
            ..s
        };
        assert(step(c, s1) =~~= StepOut::Next(s2));
        assert(s2.ip >= c.code.len());
        assert(spec_exec(c, s2) == RunResult::Done(s2));
        assert(s2.stack.len() == 1);
        assert(payload_at(s2.heap, 0) == SpecPayload::Arr(literal_stack(bits, bits.len() as int)));
    }
}

/// Executing a chunk that pushes `n` number literals and gathers them into
/// an array — what the compiler emits for an array literal — leaves one
/// fresh array on the stack whose element `i` is the value of the `i`-th
/// literal, whatever the globals and prior output were.
pub proof fn lemma_literal_array_builds_array(
    c: SpecChunk,
    bits: Seq<u64>,
    g: Seq<(Seq<char>, SpecValue)>,
    o: Seq<Seq<SpecValue>>,
)
    requires
        literal_array_chunk(c, bits),
    ensures
        spec_exec(
            c,
            VmSnap {
                stack: Seq::<SpecValue>::empty(),
                globals: g,
                heap: Seq::<Option<SpecPayload>>::empty(),
                output: o,
                ip: 0,
            },
        ) matches RunResult::Done(s2) && s2.stack.len() == 1 && s2.stack.last()
            == SpecValue::Array(0) && live(s2.heap, 0) && (forall|i: int|
            0 <= i < bits.len() ==> (payload_at(s2.heap, 0)->Arr_0)[i] == SpecValue::Number(
                bits[i],
            )),
{
    assert(chunk_wf(c)) by {
        assert forall|i: int| 0 <= i < c.code.len() implies op_wf(#[trigger] c.code[i], i, c) by {
            if i < bits.len() {
                assert(c.code[i] == OpCode::Constant(i as usize));
            } else {
                assert(c.code[i] == OpCode::Array(bits.len() as usize));
            }
        }
    }
    assert(literal_stack(bits, 0) =~= Seq::<SpecValue>::empty());
    lemma_literal_array_run(c, bits, g, o, 0);
}

/// A native-stack image as machine values.
pub open spec fn nums_as_values(st: Seq<u64>) -> Seq<SpecValue> {
    Seq::new(st.len(), |i: int| SpecValue::Number(st[i]))
}

proof fn lemma_numeric_run(
    c: SpecChunk,
    g: Seq<(Seq<char>, SpecValue)>,
    h: SpecHeap,
    o: Seq<Seq<SpecValue>>,
    i: int,
    st: Seq<u64>,
)
    requires
        chunk_wf(c),
        0 <= i,
        crate::jit::jit_eval(c, i, st) is Some,
    ensures
        spec_exec(
            c,
            VmSnap { stack: nums_as_values(st), globals: g, heap: h, output: o, ip: i },
        ) matches RunResult::Done(s2) && s2.stack == nums_as_values(
            crate::jit::jit_eval(c, i, st)->Some_0,
        ) && s2.globals == g && s2.output == o,
    decreases c.code.len() - i,
{
    let s = VmSnap { stack: nums_as_values(st), globals: g, heap: h, output: o, ip: i };
    assert(i < c.code.len());
    let s1 = gc_if(s);
    assert(s1.stack == s.stack && s1.globals == g && s1.output == o && s1.ip == i);
    match c.code[i] {
        OpCode::Constant(idx) => {
            let bits = c.constants[idx as int]->Number_0;
            let s2 = VmSnap {
                stack: s.stack.push(SpecValue::Number(bits)),
                ip: i + 1,
                ..s1
            };
            assert(step(c, s1) =~~= StepOut::Next(s2));
            assert(s2.stack =~= nums_as_values(st.push(bits)));
            lemma_numeric_run(c, g, s2.heap, o, i + 1, st.push(bits));
        },
        OpCode::Add => {
            let x = st[st.len() - 2];
            let y = st.last();
            let st2 = st.drop_last().drop_last().push(add_bits(x, y));
            let s2 = VmSnap {
                stack: s.stack.drop_last().drop_last().push(SpecValue::Number(add_bits(x, y))),
                ip: i + 1,
                ..s1
            };
            assert(s.stack.last() == SpecValue::Number(y));
            assert(s.stack[s.stack.len() - 2] == SpecValue::Number(x));
            assert(step(c, s1) =~~= StepOut::Next(s2));
            assert(s2.stack =~= nums_as_values(st2));
            lemma_numeric_run(c, g, s2.heap, o, i + 1, st2);
        },
        OpCode::Sub => {
            let x = st[st.len() - 2];
            let y = st.last();
            let st2 = st.drop_last().drop_last().push(sub_bits(x, y));
            let s2 = VmSnap {
                stack: s.stack.drop_last().drop_last().push(SpecValue::Number(sub_bits(x, y))),
                ip: i + 1,
                ..s1
            };
            assert(s.stack.last() == SpecValue::Number(y));
            assert(s.stack[s.stack.len() - 2] == SpecValue::Number(x));
            assert(step(c, s1) =~~= StepOut::Next(s2));
            assert(s2.stack =~= nums_as_values(st2));
            lemma_numeric_run(c, g, s2.heap, o, i + 1, st2);
        },
        OpCode::Mul => {
            let x = st[st.len() - 2];
            let y = st.last();
            let st2 = st.drop_last().drop_last().push(mul_bits(x, y));
            let s2 = VmSnap {
                stack: s.stack.drop_last().drop_last().push(SpecValue::Number(mul_bits(x, y))),
                ip: i + 1,
                ..s1
            };
            assert(s.stack.last() == SpecValue::Number(y));
            assert(s.stack[s.stack.len() - 2] == SpecValue::Number(x));
            assert(step(c, s1) =~~= StepOut::Next(s2));
            assert(s2.stack =~= nums_as_values(st2));
            lemma_numeric_run(c, g, s2.heap, o, i + 1, st2);
        },
        OpCode::Div => {
            let x = st[st.len() - 2];
            let y = st.last();
            let st2 = st.drop_last().drop_last().push(div_bits(x, y));
            let s2 = VmSnap {
                stack: s.stack.drop_last().drop_last().push(SpecValue::Number(div_bits(x, y))),
                ip: i + 1,
                ..s1
            };
            assert(s.stack.last() == SpecValue::Number(y));
            assert(s.stack[s.stack.len() - 2] == SpecValue::Number(x));
            assert(step(c, s1) =~~= StepOut::Next(s2));
            assert(s2.stack =~= nums_as_values(st2));
            lemma_numeric_run(c, g, s2.heap, o, i + 1, st2);
        },
        OpCode::Return => {
            assert(step(c, s1) =~~= StepOut::Halt(s1));
            assert(spec_exec(c, s) == RunResult::Done(s1));
        },
        _ => {
            assert(false);
        },
    }
}

/// On a chunk the code generator accepts, the interpreter computes exactly
/// the numeric evaluation [`crate::jit::jit_eval`] that the emitted
/// templates encode: run from an empty stack, it halts with the same
/// stack of encoded doubles — in particular the same top-of-stack result —
/// and touches neither the globals nor the output.
pub proof fn lemma_interpreter_matches_numeric_evaluation(
    c: SpecChunk,
    g: Seq<(Seq<char>, SpecValue)>,
    h: SpecHeap,
    o: Seq<Seq<SpecValue>>,
)
    requires
        chunk_wf(c),
        crate::jit::jit_eval(c, 0, Seq::<u64>::empty()) is Some,
    ensures
        spec_exec(
            c,
            VmSnap { stack: Seq::<SpecValue>::empty(), globals: g, heap: h, output: o, ip: 0 },
        ) matches RunResult::Done(s2) && s2.stack == nums_as_values(
            crate::jit::jit_eval(c, 0, Seq::<u64>::empty())->Some_0,
        ) && s2.globals == g && s2.output == o,
{
    assert(nums_as_values(Seq::<u64>::empty()) =~= Seq::<SpecValue>::empty());
    lemma_numeric_run(c, g, h, o, 0, Seq::<u64>::empty());
}

} // verus!
