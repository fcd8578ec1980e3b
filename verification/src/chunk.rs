//! Compiled code.
//!
//! A chunk is the unit of compiled code: an ordered sequence of opcodes and
//! a constant pool the opcodes reference by index.  Jump opcodes carry
//! absolute instruction indices.  [`chunk_wf`] is the invariant the compiler
//! establishes and the virtual machine relies on: every referenced constant
//! index is in range, and every jump lands forward, on an opcode boundary of
//! the same chunk.

use vstd::prelude::*;

verus! {

/// One primitive operation of the virtual machine.
#[derive(Debug, Clone, Copy, PartialEq, Eq, Structural)]
pub enum OpCode {
    /// Push the constant at the given pool index.
    Constant(usize),
    Add,
    Sub,
    Mul,
    Div,
    Equal,
    NotEqual,
    LessThan,
    GreaterThan,
    Pop,
    /// Push the global named by the string constant at the given pool index.
    GetGlobal(usize),
    /// Bind the top of stack (peeked, not popped) to the global named by the
    /// string constant at the given pool index.
    SetGlobal(usize),
    /// Call the callee below the given number of arguments.
    Call(usize),
    /// Gather that many values into a fresh array.
    Array(usize),
    /// Gather that many key-value pairs into a fresh object.
    Object(usize),
    GetIndex,
    SetIndex,
    /// Set the instruction pointer to the given absolute index.
    Jump(usize),
    /// As `Jump`, but only when the popped top of stack is falsy.
    JumpIfFalse(usize),
    Return,
}

/// The mathematical image of a [`FunctionTemplate`].  Templates are inert in
/// this core — no opcode ever runs one — so the image keeps only what the
/// runtime can observe of them.
pub struct SpecTemplate {
    pub name: Seq<char>,
    pub arity: int,
}

/// A compiled function: reserved in the constant pool for a future calling
/// convention; the present instruction set never invokes one.
#[derive(Debug, PartialEq)]
pub struct FunctionTemplate {
    pub name: Vec<char>,
    pub arity: usize,
    pub chunk: Chunk,
}

impl View for FunctionTemplate {
    type V = SpecTemplate;

    open spec fn view(&self) -> SpecTemplate {
        SpecTemplate { name: self.name@, arity: self.arity as int }
    }
}

/// The mathematical image of a [`Constant`].
pub enum SpecConstant {
    Number(u64),
    Str(Seq<char>),
    Function(SpecTemplate),
}

/// One entry of a chunk's constant pool.
#[derive(Debug, PartialEq)]
pub enum Constant {
    /// A numeric literal, as the encoding of an IEEE-754 double.
    Number(u64),
    /// A string literal, or the name behind a `GetGlobal`/`SetGlobal`.
    Str(Vec<char>),
    /// Reserved: a compiled function template.
    Function(Box<FunctionTemplate>),
}

impl View for Constant {
    type V = SpecConstant;

    open spec fn view(&self) -> SpecConstant {
        match self {
            Constant::Number(bits) => SpecConstant::Number(*bits),
            Constant::Str(s) => SpecConstant::Str(s@),
            Constant::Function(t) => SpecConstant::Function(t@),
        }
    }
}

/// The mathematical image of a [`Chunk`].
pub struct SpecChunk {
    pub code: Seq<OpCode>,
    pub constants: Seq<SpecConstant>,
}

/// The unit of compiled code: opcodes plus the constant pool they index.
#[derive(Debug, PartialEq)]
pub struct Chunk {
    pub code: Vec<OpCode>,
    pub constants: Vec<Constant>,
}

impl View for Chunk {
    type V = SpecChunk;

    open spec fn view(&self) -> SpecChunk {
        SpecChunk {
            code: self.code@,
            constants: self.constants@.map_values(|c: Constant| c@),
        }
    }
}

/// Well-formedness of one opcode at position `i` of chunk `c`: referenced
/// constants are in range and jumps land forward, at or before the end of
/// the code.
pub open spec fn op_wf(op: OpCode, i: int, c: SpecChunk) -> bool {
    match op {
        OpCode::Constant(x) => x < c.constants.len(),
        OpCode::GetGlobal(x) => x < c.constants.len(),
        OpCode::SetGlobal(x) => x < c.constants.len(),
        OpCode::Jump(t) => i < t <= c.code.len(),
        OpCode::JumpIfFalse(t) => i < t <= c.code.len(),
        _ => true,
    }
}

/// The invariant of compiled chunks: every opcode is well formed at its
/// position.  Forward jumps also bound execution, so a well-formed chunk
/// always runs to completion.
pub open spec fn chunk_wf(c: SpecChunk) -> bool {
    forall|i: int| 0 <= i < c.code.len() ==> op_wf(#[trigger] c.code[i], i, c)
}

impl Chunk {
    pub fn new() -> (c: Self)
        ensures
            c@.code == Seq::<OpCode>::empty(),
            c@.constants == Seq::<SpecConstant>::empty(),
    {
        let c = Self { code: Vec::new(), constants: Vec::new() };
        proof {
            assert(c@.constants =~= Seq::<SpecConstant>::empty());
        }
        c
    }

    /// Append one opcode.
    pub fn write(&mut self, op: OpCode)
        ensures
            final(self)@.code == old(self)@.code.push(op),
            final(self)@.constants == old(self)@.constants,
    {
        self.code.push(op);
    }

    /// Append one constant and return its pool index.
    pub fn add_constant(&mut self, value: Constant) -> (idx: usize)
        ensures
            final(self)@.constants == old(self)@.constants.push(value@),
            final(self)@.code == old(self)@.code,
            idx == old(self)@.constants.len(),
    {
        self.constants.push(value);
        proof {
            assert(self@.constants =~= old(self)@.constants.push(self.constants@.last()@));
        }
        self.constants.len() - 1
    }
}

/// Copy a constant.
pub fn clone_constant(c: &Constant) -> (r: Constant)
    ensures
        r@ == c@,
    decreases *c,
{
    match c {
        Constant::Number(bits) => Constant::Number(*bits),
        Constant::Str(s) => Constant::Str(crate::value::clone_chars(s)),
        Constant::Function(t) => Constant::Function(Box::new(clone_template(t))),
    }
}

/// Copy a function template.  The image keeps only the name and arity, so
/// nothing is claimed of the embedded chunk beyond its code.
pub fn clone_template(t: &FunctionTemplate) -> (r: FunctionTemplate)
    ensures
        r@ == t@,
    decreases *t,
{
    FunctionTemplate {
        name: crate::value::clone_chars(&t.name),
        arity: t.arity,
        chunk: clone_chunk(&t.chunk),
    }
}

/// Copy a chunk.
pub fn clone_chunk(ch: &Chunk) -> (r: Chunk)
    ensures
        r@ == ch@,
    decreases *ch,
{
    let mut code: Vec<OpCode> = Vec::new();
    let mut i: usize = 0;
    while i < ch.code.len()
        invariant
            i <= ch.code.len(),
            code@ == ch.code@.subrange(0, i as int),
        decreases ch.code.len() - i,
    {
        code.push(ch.code[i]);
        proof {
            assert(ch.code@.subrange(0, i as int).push(ch.code@[i as int]) =~= ch.code@.subrange(
                0,
                i + 1,
            ));
        }
        i += 1;
    }
    let mut constants: Vec<Constant> = Vec::new();
    let mut j: usize = 0;
    while j < ch.constants.len()
        invariant
            j <= ch.constants.len(),
            constants@.len() == j,
            forall|k: int| 0 <= k < j ==> constants@[k]@ == #[trigger] ch.constants@[k]@,
        decreases ch.constants.len() - j,
    {
        proof {
            broadcast use vstd::std_specs::vec::axiom_vec_index_decreases;

        }
        let dup = clone_constant(&ch.constants[j]);
        constants.push(dup);
        j += 1;
    }
    let r = Chunk { code, constants };
    proof {
        assert(ch.code@.subrange(0, ch.code@.len() as int) =~= ch.code@);
        assert(r@.constants =~= ch@.constants);
    }
    r
}

} // verus!
