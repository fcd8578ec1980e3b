//! The x86-64 template code generator.
//!
//! For chunks in the numeric subset — number constants, the four
//! arithmetic instructions, `Return` — the generator stitches together
//! fixed machine-code sequences: a System-V prologue, one template per
//! opcode working on the native stack in `xmm0`/`xmm1`, and an epilogue
//! that leaves the result in `xmm0`.  [`jit_spec`] states the emitted
//! bytes exactly, and compilation succeeds precisely on the supported
//! subset.  Turning the bytes into an executable page and calling them is
//! platform work that lives outside this library.

use vstd::prelude::*;
use crate::chunk::{Chunk, OpCode, SpecChunk, SpecConstant, chunk_wf};

verus! {

/// The eight little-endian bytes of a 64-bit value.
pub open spec fn le_bytes(v: u64) -> Seq<u8> {
    seq![
        (v & 0xFF) as u8,
        ((v >> 8) & 0xFF) as u8,
        ((v >> 16) & 0xFF) as u8,
        ((v >> 24) & 0xFF) as u8,
        ((v >> 32) & 0xFF) as u8,
        ((v >> 40) & 0xFF) as u8,
        ((v >> 48) & 0xFF) as u8,
        ((v >> 56) & 0xFF) as u8,
    ]
}

/// `push rbp; mov rbp, rsp`.
pub open spec fn prologue_code() -> Seq<u8> {
    seq![0x55u8, 0x48u8, 0x89u8, 0xE5u8]
}

/// `sub rsp, 8; movsd [rsp], xmm0`.
pub open spec fn push_xmm0_code() -> Seq<u8> {
    seq![0x48u8, 0x83u8, 0xECu8, 0x08u8, 0xF2u8, 0x0Fu8, 0x11u8, 0x04u8, 0x24u8]
}

/// `movsd xmm0, [rsp]; add rsp, 8`.
pub open spec fn pop_xmm0_code() -> Seq<u8> {
    seq![0xF2u8, 0x0Fu8, 0x10u8, 0x04u8, 0x24u8, 0x48u8, 0x83u8, 0xC4u8, 0x08u8]
}

/// `movsd xmm1, [rsp]; add rsp, 8`.
pub open spec fn pop_xmm1_code() -> Seq<u8> {
    seq![0xF2u8, 0x0Fu8, 0x10u8, 0x0Cu8, 0x24u8, 0x48u8, 0x83u8, 0xC4u8, 0x08u8]
}

/// `mov rax, imm64; movq xmm0, rax`.
pub open spec fn mov_xmm0_imm_code(bits: u64) -> Seq<u8> {
    seq![0x48u8, 0xB8u8] + le_bytes(bits) + seq![0x66u8, 0x48u8, 0x0Fu8, 0x6Eu8, 0xC0u8]
}

/// The `addsd`/`subsd`/`mulsd`/`divsd` opcode byte distinguishing the four
/// arithmetic templates.
pub open spec fn arith_opcode_byte(op: OpCode) -> u8 {
    match op {
        OpCode::Add => 0x58u8,
        OpCode::Sub => 0x5Cu8,
        OpCode::Mul => 0x59u8,
        OpCode::Div => 0x5Eu8,
        _ => 0u8,
    }
}

/// Pop both operands, apply the arithmetic instruction, push the result.
pub open spec fn arith_code(op: OpCode) -> Seq<u8> {
    pop_xmm1_code() + pop_xmm0_code() + seq![0xF2u8, 0x0Fu8, arith_opcode_byte(op), 0xC1u8]
        + push_xmm0_code()
}

/// Pop the result into `xmm0`; `mov rsp, rbp; pop rbp; ret`.
pub open spec fn return_code() -> Seq<u8> {
    pop_xmm0_code() + seq![0x48u8, 0x89u8, 0xECu8, 0x5Du8, 0xC3u8]
}

/// The template one opcode emits, or nothing where the opcode is outside
/// the numeric subset.
pub open spec fn jit_op_code(c: SpecChunk, op: OpCode) -> Option<Seq<u8>> {
    match op {
        OpCode::Constant(idx) => match c.constants[idx as int] {
            SpecConstant::Number(bits) => Some(mov_xmm0_imm_code(bits) + push_xmm0_code()),
            _ => None,
        },
        OpCode::Add => Some(arith_code(op)),
        OpCode::Sub => Some(arith_code(op)),
        OpCode::Mul => Some(arith_code(op)),
        OpCode::Div => Some(arith_code(op)),
        OpCode::Return => Some(return_code()),
        _ => None,
    }
}

/// The templates of `c.code[i..]`, concatenated; nothing where any opcode
/// falls outside the subset.
pub open spec fn jit_ops(c: SpecChunk, i: int) -> Option<Seq<u8>>
    decreases c.code.len() - i,
{
    if i < 0 || i >= c.code.len() {
        Some(Seq::empty())
    } else {
        match jit_op_code(c, c.code[i]) {
            Some(b) => match jit_ops(c, i + 1) {
                Some(rest) => Some(b + rest),
                None => None,
            },
            None => None,
        }
    }
}

/// What the generator emits for a whole chunk: the prologue followed by
/// each opcode's template, or nothing where the chunk leaves the subset.
pub open spec fn jit_spec(c: SpecChunk) -> Option<Seq<u8>> {
    match jit_ops(c, 0) {
        Some(body) => Some(prologue_code() + body),
        None => None,
    }
}

/// A growing buffer of emitted machine code.
#[derive(Debug)]
pub struct Assembler {
    pub code: Vec<u8>,
}

impl Assembler {
    pub fn new() -> (a: Assembler)
        ensures
            a.code@ == Seq::<u8>::empty(),
    {
        let a = Assembler { code: Vec::new() };
        proof {
            assert(a.code@ =~= Seq::<u8>::empty());
        }
        a
    }

    pub fn emit_byte(&mut self, byte: u8)
        ensures
            final(self).code@ == old(self).code@.push(byte),
    {
        self.code.push(byte);
    }

    pub fn emit_bytes(&mut self, bytes: &[u8])
        ensures
            final(self).code@ == old(self).code@ + bytes@,
    {
        self.code.extend_from_slice(bytes);
    }

    /// Emit the eight little-endian bytes of `val`.
    pub fn emit_u64(&mut self, val: u64)
        ensures
            final(self).code@ == old(self).code@ + le_bytes(val),
    {
        self.emit_byte((val & 0xFF) as u8);
        self.emit_byte(((val >> 8) & 0xFF) as u8);
        self.emit_byte(((val >> 16) & 0xFF) as u8);
        self.emit_byte(((val >> 24) & 0xFF) as u8);
        self.emit_byte(((val >> 32) & 0xFF) as u8);
        self.emit_byte(((val >> 40) & 0xFF) as u8);
        self.emit_byte(((val >> 48) & 0xFF) as u8);
        self.emit_byte(((val >> 56) & 0xFF) as u8);
        proof {
            assert(self.code@ =~= old(self).code@ + le_bytes(val));
        }
    }

    pub fn emit_push_rbp(&mut self)
        ensures
            final(self).code@ == old(self).code@.push(0x55u8),
    {
        self.emit_byte(0x55);
    }

    pub fn emit_mov_rbp_rsp(&mut self)
        ensures
            final(self).code@ == old(self).code@ + seq![0x48u8, 0x89u8, 0xE5u8],
    {
        self.emit_bytes(&[0x48, 0x89, 0xE5]);
        proof {
            assert(self.code@ =~= old(self).code@ + seq![0x48u8, 0x89u8, 0xE5u8]);
        }
    }

    pub fn emit_mov_rsp_rbp(&mut self)
        ensures
            final(self).code@ == old(self).code@ + seq![0x48u8, 0x89u8, 0xECu8],
    {
        self.emit_bytes(&[0x48, 0x89, 0xEC]);
        proof {
            assert(self.code@ =~= old(self).code@ + seq![0x48u8, 0x89u8, 0xECu8]);
        }
    }

    pub fn emit_pop_rbp(&mut self)
        ensures
            final(self).code@ == old(self).code@.push(0x5Du8),
    {
        self.emit_byte(0x5D);
    }

    pub fn emit_ret(&mut self)
        ensures
            final(self).code@ == old(self).code@.push(0xC3u8),
    {
        self.emit_byte(0xC3);
    }

    /// Load a double constant into `xmm0`.
    pub fn emit_mov_xmm0_imm(&mut self, bits: u64)
        ensures
            final(self).code@ == old(self).code@ + mov_xmm0_imm_code(bits),
    {
        self.emit_bytes(&[0x48, 0xB8]);
        self.emit_u64(bits);
        self.emit_bytes(&[0x66, 0x48, 0x0F, 0x6E, 0xC0]);
        proof {
            assert(self.code@ =~= old(self).code@ + mov_xmm0_imm_code(bits));
        }
    }

    pub fn emit_push_xmm0(&mut self)
        ensures
            final(self).code@ == old(self).code@ + push_xmm0_code(),
    {
        self.emit_bytes(&[0x48, 0x83, 0xEC, 0x08]);
        self.emit_bytes(&[0xF2, 0x0F, 0x11, 0x04, 0x24]);
        proof {
            assert(self.code@ =~= old(self).code@ + push_xmm0_code());
        }
    }

    pub fn emit_pop_xmm0(&mut self)
        ensures
            final(self).code@ == old(self).code@ + pop_xmm0_code(),
    {
        self.emit_bytes(&[0xF2, 0x0F, 0x10, 0x04, 0x24]);
        self.emit_bytes(&[0x48, 0x83, 0xC4, 0x08]);
        proof {
            assert(self.code@ =~= old(self).code@ + pop_xmm0_code());
        }
    }

    pub fn emit_pop_xmm1(&mut self)
        ensures
            final(self).code@ == old(self).code@ + pop_xmm1_code(),
    {
        self.emit_bytes(&[0xF2, 0x0F, 0x10, 0x0C, 0x24]);
        self.emit_bytes(&[0x48, 0x83, 0xC4, 0x08]);
        proof {
            assert(self.code@ =~= old(self).code@ + pop_xmm1_code());
        }
    }

    pub fn emit_addsd_xmm0_xmm1(&mut self)
        ensures
            final(self).code@ == old(self).code@ + seq![0xF2u8, 0x0Fu8, 0x58u8, 0xC1u8],
    {
        self.emit_bytes(&[0xF2, 0x0F, 0x58, 0xC1]);
        proof {
            assert(self.code@ =~= old(self).code@ + seq![0xF2u8, 0x0Fu8, 0x58u8, 0xC1u8]);
        }
    }

    pub fn emit_subsd_xmm0_xmm1(&mut self)
        ensures
            final(self).code@ == old(self).code@ + seq![0xF2u8, 0x0Fu8, 0x5Cu8, 0xC1u8],
    {
        self.emit_bytes(&[0xF2, 0x0F, 0x5C, 0xC1]);
        proof {
            assert(self.code@ =~= old(self).code@ + seq![0xF2u8, 0x0Fu8, 0x5Cu8, 0xC1u8]);
        }
    }

    pub fn emit_mulsd_xmm0_xmm1(&mut self)
        ensures
            final(self).code@ == old(self).code@ + seq![0xF2u8, 0x0Fu8, 0x59u8, 0xC1u8],
    {
        self.emit_bytes(&[0xF2, 0x0F, 0x59, 0xC1]);
        proof {
            assert(self.code@ =~= old(self).code@ + seq![0xF2u8, 0x0Fu8, 0x59u8, 0xC1u8]);
        }
    }

    pub fn emit_divsd_xmm0_xmm1(&mut self)
        ensures
            final(self).code@ == old(self).code@ + seq![0xF2u8, 0x0Fu8, 0x5Eu8, 0xC1u8],
    {
        self.emit_bytes(&[0xF2, 0x0F, 0x5E, 0xC1]);
        proof {
            assert(self.code@ =~= old(self).code@ + seq![0xF2u8, 0x0Fu8, 0x5Eu8, 0xC1u8]);
        }
    }

    pub fn finalize(self) -> (r: Vec<u8>)
        ensures
            r@ == self.code@,
    {
        self.code
    }
}

/// The template code generator.  It emits position-independent bytes;
/// mapping them into an executable page is the caller's platform work.
#[derive(Debug)]
pub struct JitCompiler {
}

impl JitCompiler {
    pub fn new() -> Self {
        JitCompiler {  }
    }

    /// Compile a chunk to machine code: succeeds exactly on the numeric
    /// subset, and the bytes are exactly the concatenated templates of
    /// [`jit_spec`].
    pub fn compile(&mut self, chunk: &Chunk) -> (r: Result<Vec<u8>, String>)
        requires
            chunk_wf(chunk@),
        ensures
            match jit_spec(chunk@) {
                Some(code) => r matches Ok(v) && v@ == code,
                None => r is Err,
            },
    {
        let mut assembler = Assembler::new();
        assembler.emit_push_rbp();
        assembler.emit_mov_rbp_rsp();
        proof {
            assert(assembler.code@ =~= prologue_code());
        }
        let mut i: usize = 0;
        #[verifier::loop_isolation(false)]
        while i < chunk.code.len()
            invariant
                i <= chunk@.code.len(),
                jit_ops(chunk@, 0) matches Some(all) ==> (jit_ops(chunk@, i as int) matches Some(
                    rest,
                ) && assembler.code@ + rest == prologue_code() + all),
                jit_ops(chunk@, i as int) is Some ==> jit_ops(chunk@, 0) is Some,
            decreases chunk@.code.len() - i,
        {
            let ghost pre = assembler.code@;
            let op = chunk.code[i];
            proof {
                assert(crate::chunk::op_wf(chunk@.code[i as int], i as int, chunk@));
            }
            match op {
                OpCode::Constant(idx) => {
                    match &chunk.constants[idx] {
                        crate::chunk::Constant::Number(bits) => {
                            assembler.emit_mov_xmm0_imm(*bits);
                            assembler.emit_push_xmm0();
                            proof {
                                assert(assembler.code@ =~= pre + (mov_xmm0_imm_code(*bits)
                                    + push_xmm0_code()));
                            }
                        },
                        _ => {
                            proof {
                                lemma_jit_ops_none(chunk@, 0, i as int);
                            }
                            return Err(String::from_str("JIT only supports numbers"));
                        },
                    }
                },
                OpCode::Add => {
                    assembler.emit_pop_xmm1();
                    assembler.emit_pop_xmm0();
                    assembler.emit_addsd_xmm0_xmm1();
                    assembler.emit_push_xmm0();
                    proof {
                        assert(assembler.code@ =~= pre + arith_code(op));
                    }
                },
                OpCode::Sub => {
                    assembler.emit_pop_xmm1();
                    assembler.emit_pop_xmm0();
                    assembler.emit_subsd_xmm0_xmm1();
                    assembler.emit_push_xmm0();
                    proof {
                        assert(assembler.code@ =~= pre + arith_code(op));
                    }
                },
                OpCode::Mul => {
                    assembler.emit_pop_xmm1();
                    assembler.emit_pop_xmm0();
                    assembler.emit_mulsd_xmm0_xmm1();
                    assembler.emit_push_xmm0();
                    proof {
                        assert(assembler.code@ =~= pre + arith_code(op));
                    }
                },
                OpCode::Div => {
                    assembler.emit_pop_xmm1();
                    assembler.emit_pop_xmm0();
                    assembler.emit_divsd_xmm0_xmm1();
                    assembler.emit_push_xmm0();
                    proof {
                        assert(assembler.code@ =~= pre + arith_code(op));
                    }
                },
                OpCode::Return => {
                    assembler.emit_pop_xmm0();
                    assembler.emit_mov_rsp_rbp();
                    assembler.emit_pop_rbp();
                    assembler.emit_ret();
                    proof {
                        assert(assembler.code@ =~= pre + return_code());
                    }
                },
                _ => {
                    proof {
                        lemma_jit_ops_none(chunk@, 0, i as int);
                    }
                    return Err(String::from_str("Unsupported opcode for the numeric subset"));
                },
            }
            i += 1;
            proof {
                lemma_jit_ops_step(chunk@, 0, i as int, assembler.code@, pre);
            }
        }
        let code = assembler.finalize();
        Ok(code)
    }
}

/// An unsupported opcode at position `i` refuses the whole chunk.
proof fn lemma_jit_ops_none(c: SpecChunk, from: int, i: int)
    requires
        0 <= from <= i < c.code.len(),
        jit_op_code(c, c.code[i]) is None,
    ensures
        jit_ops(c, from) is None,
    decreases i - from,
{
    if from < i {
        lemma_jit_ops_none(c, from + 1, i);
    }
}

/// One emitted template advances the remaining-code relation by one
/// opcode.
proof fn lemma_jit_ops_step(c: SpecChunk, from: int, i: int, cur: Seq<u8>, pre: Seq<u8>)
    requires
        0 <= from,
        0 < i <= c.code.len(),
        jit_op_code(c, c.code[i - 1]) matches Some(b) && cur == pre + b,
        jit_ops(c, 0) matches Some(all) ==> (jit_ops(c, i - 1) matches Some(rest) && pre + rest
            == prologue_code() + all),
        jit_ops(c, i - 1) is Some ==> jit_ops(c, 0) is Some,
    ensures
        jit_ops(c, 0) matches Some(all) ==> (jit_ops(c, i) matches Some(rest) && cur + rest
            == prologue_code() + all),
        jit_ops(c, i) is Some ==> jit_ops(c, 0) is Some,
{
    if jit_ops(c, 0) is Some {
        let all = jit_ops(c, 0)->Some_0;
        let rest0 = jit_ops(c, i - 1)->Some_0;
        let b = jit_op_code(c, c.code[i - 1])->Some_0;
        assert(jit_ops(c, i - 1) == Some(b + jit_ops(c, i)->Some_0) || jit_ops(c, i) is None);
        assert(jit_ops(c, i) is Some);
        let rest = jit_ops(c, i)->Some_0;
        assert(rest0 == b + rest);
        assert(cur + rest =~= pre + rest0);
    }
    if jit_ops(c, i) is Some {
        assert(jit_ops(c, i - 1) is Some);
    }
}

/// What the emitted templates compute: a stack machine over encoded
/// doubles, one rounding operation per arithmetic instruction, stopping at
/// `Return` with the native stack as it stands (its top is the returned
/// double).  Nothing where execution would underflow the native stack or
/// run off the end of the code.
pub open spec fn jit_eval(c: SpecChunk, i: int, st: Seq<u64>) -> Option<Seq<u64>>
    decreases c.code.len() - i,
{
    if i < 0 || i >= c.code.len() {
        None
    } else {
        match c.code[i] {
            OpCode::Constant(idx) => match c.constants[idx as int] {
                SpecConstant::Number(bits) => jit_eval(c, i + 1, st.push(bits)),
                _ => None,
            },
            OpCode::Add => {
                if st.len() < 2 {
                    None
                } else {
                    jit_eval(
                        c,
                        i + 1,
                        st.drop_last().drop_last().push(
                            crate::num::add_bits(st[st.len() - 2], st.last()),
                        ),
                    )
                }
            },
            OpCode::Sub => {
                if st.len() < 2 {
                    None
                } else {
                    jit_eval(
                        c,
                        i + 1,
                        st.drop_last().drop_last().push(
                            crate::num::sub_bits(st[st.len() - 2], st.last()),
                        ),
                    )
                }
            },
            OpCode::Mul => {
                if st.len() < 2 {
                    None
                } else {
                    jit_eval(
                        c,
                        i + 1,
                        st.drop_last().drop_last().push(
                            crate::num::mul_bits(st[st.len() - 2], st.last()),
                        ),
                    )
                }
            },
            OpCode::Div => {
                if st.len() < 2 {
                    None
                } else {
                    jit_eval(
                        c,
                        i + 1,
                        st.drop_last().drop_last().push(
                            crate::num::div_bits(st[st.len() - 2], st.last()),
                        ),
                    )
                }
            },
            OpCode::Return => {
                if st.len() == 0 {
                    None
                } else {
                    Some(st)
                }
            },
            _ => None,
        }
    }
}

} // verus!
