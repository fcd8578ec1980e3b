//! The template code generator: exact bytes, and the subset boundary.

use shadowjs::chunk::{Chunk, Constant, OpCode};
use shadowjs::jit::JitCompiler;

fn chunk_of(code: Vec<OpCode>, constants: Vec<Constant>) -> Chunk {
    let mut c = Chunk::new();
    for op in code {
        c.write(op);
    }
    for k in constants {
        c.add_constant(k);
    }
    c
}

#[test]
fn emits_the_exact_templates() {
    // 1.0 2.0 Add Return
    let c = chunk_of(
        vec![
            OpCode::Constant(0),
            OpCode::Constant(1),
            OpCode::Add,
            OpCode::Return,
        ],
        vec![
            Constant::Number(1.0f64.to_bits()),
            Constant::Number(2.0f64.to_bits()),
        ],
    );
    let mut jit = JitCompiler::new();
    let code = jit.compile(&c).expect("the numeric subset compiles");

    let mut expect: Vec<u8> = Vec::new();
    // prologue: push rbp; mov rbp, rsp
    expect.extend_from_slice(&[0x55, 0x48, 0x89, 0xE5]);
    for bits in [1.0f64.to_bits(), 2.0f64.to_bits()] {
        // mov rax, imm64; movq xmm0, rax
        expect.extend_from_slice(&[0x48, 0xB8]);
        expect.extend_from_slice(&bits.to_le_bytes());
        expect.extend_from_slice(&[0x66, 0x48, 0x0F, 0x6E, 0xC0]);
        // sub rsp, 8; movsd [rsp], xmm0
        expect.extend_from_slice(&[0x48, 0x83, 0xEC, 0x08, 0xF2, 0x0F, 0x11, 0x04, 0x24]);
    }
    // pop operands, addsd, push result
    expect.extend_from_slice(&[0xF2, 0x0F, 0x10, 0x0C, 0x24, 0x48, 0x83, 0xC4, 0x08]);
    expect.extend_from_slice(&[0xF2, 0x0F, 0x10, 0x04, 0x24, 0x48, 0x83, 0xC4, 0x08]);
    expect.extend_from_slice(&[0xF2, 0x0F, 0x58, 0xC1]);
    expect.extend_from_slice(&[0x48, 0x83, 0xEC, 0x08, 0xF2, 0x0F, 0x11, 0x04, 0x24]);
    // return: pop into xmm0; mov rsp, rbp; pop rbp; ret
    expect.extend_from_slice(&[0xF2, 0x0F, 0x10, 0x04, 0x24, 0x48, 0x83, 0xC4, 0x08]);
    expect.extend_from_slice(&[0x48, 0x89, 0xEC, 0x5D, 0xC3]);

    assert_eq!(code, expect);
}

#[test]
fn arithmetic_opcode_bytes_differ_per_instruction() {
    let mut jit = JitCompiler::new();
    let mut seen = Vec::new();
    for (op, byte) in [
        (OpCode::Add, 0x58u8),
        (OpCode::Sub, 0x5C),
        (OpCode::Mul, 0x59),
        (OpCode::Div, 0x5E),
    ] {
        let c = chunk_of(vec![op, OpCode::Return], vec![]);
        let code = jit.compile(&c).expect("compiles");
        // the arithmetic instruction is F2 0F <byte> C1
        let window: Vec<usize> = (0..code.len() - 3)
            .filter(|&i| code[i] == 0xF2 && code[i + 1] == 0x0F && code[i + 2] == byte && code[i + 3] == 0xC1)
            .collect();
        assert_eq!(window.len(), 1, "exactly one template for {:?}", op);
        seen.push(byte);
    }
    seen.dedup();
    assert_eq!(seen.len(), 4);
}

#[test]
fn non_numeric_chunks_are_refused() {
    let mut jit = JitCompiler::new();
    let with_pop = chunk_of(vec![OpCode::Pop, OpCode::Return], vec![]);
    assert!(jit.compile(&with_pop).is_err());

    let with_string = chunk_of(
        vec![OpCode::Constant(0), OpCode::Return],
        vec![Constant::Str("s".chars().collect())],
    );
    assert!(jit.compile(&with_string).is_err());
}
