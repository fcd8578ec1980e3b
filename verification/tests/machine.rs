//! The virtual machine and the value model, driven by hand-built chunks.

use shadowjs::chunk::{Chunk, Constant, OpCode};
use shadowjs::error::RuntimeError;
use shadowjs::heap::HeapPayload;
use shadowjs::num::{num_eq, num_is_nan, num_is_zero, num_lt};
use shadowjs::value::Value;
use shadowjs::vm::VM;

fn chars(s: &str) -> Vec<char> {
    s.chars().collect()
}

fn chunk_of(code: Vec<OpCode>, constants: Vec<Constant>) -> Chunk {
    let mut c = Chunk::new();
    for op in code {
        c.write(op);
    }
    for k in constants {
        c.add_constant(k);
    }
    c
}

#[test]
fn set_then_get_global_restores_the_value() {
    // `SetGlobal` peeks and binds; `GetGlobal` pushes the bound value.
    let c = chunk_of(
        vec![
            OpCode::Constant(0),
            OpCode::SetGlobal(1),
            OpCode::GetGlobal(1),
        ],
        vec![Constant::Number(41.5f64.to_bits()), Constant::Str(chars("v"))],
    );
    let mut vm = VM::new();
    vm.execute(c).expect("runs");
    assert_eq!(vm.stack.len(), 2);
    match &vm.stack[1] {
        Value::Number(b) => assert_eq!(*b, 41.5f64.to_bits()),
        other => panic!("expected the bound number back, got {:?}", other),
    }
}

#[test]
fn number_equality_is_ieee() {
    // Reflexive on every value but NaN; positive and negative zero agree.
    for x in [0.0f64, -0.0, 1.5, -7.25, f64::INFINITY, f64::NEG_INFINITY] {
        assert!(num_eq(x.to_bits(), x.to_bits()));
    }
    assert!(!num_eq(f64::NAN.to_bits(), f64::NAN.to_bits()));
    assert!(num_eq(0.0f64.to_bits(), (-0.0f64).to_bits()));
    assert!(!num_eq(1.0f64.to_bits(), 2.0f64.to_bits()));
}

#[test]
fn number_ordering_matches_the_hardware() {
    let samples = [
        0.0f64,
        -0.0,
        1.0,
        -1.0,
        2.5,
        -2.5,
        f64::INFINITY,
        f64::NEG_INFINITY,
        f64::NAN,
        f64::MIN_POSITIVE,
        -4.0e300,
    ];
    for &a in &samples {
        for &b in &samples {
            assert_eq!(num_lt(a.to_bits(), b.to_bits()), a < b, "{} < {}", a, b);
            assert_eq!(num_eq(a.to_bits(), b.to_bits()), a == b, "{} == {}", a, b);
        }
    }
}

#[test]
fn nan_and_zero_classification_match_the_hardware() {
    for x in [0.0f64, -0.0, 1.0, f64::NAN, f64::INFINITY, -3.25] {
        assert_eq!(num_is_nan(x.to_bits()), x.is_nan());
        assert_eq!(num_is_zero(x.to_bits()), x == 0.0);
    }
}

#[test]
fn value_equality_reflexive_except_nan() {
    let v = Value::Number(3.0f64.to_bits());
    assert!(v.equals(&v));
    let nan = Value::Number(f64::NAN.to_bits());
    assert!(!nan.equals(&nan));
    assert!(Value::Null.equals(&Value::Null));
    assert!(Value::Str(chars("ab")).equals(&Value::Str(chars("ab"))));
    assert!(!Value::Str(chars("ab")).equals(&Value::Str(chars("ac"))));
}

#[test]
fn composite_equality_is_identity() {
    // Two arrays with equal contents are distinct allocations, so `==`
    // denies them; a value compares equal to its own allocation.
    let c = chunk_of(
        vec![
            OpCode::Constant(0),
            OpCode::Array(1),
            OpCode::Constant(0),
            OpCode::Array(1),
            OpCode::Equal,
        ],
        vec![Constant::Number(1.0f64.to_bits())],
    );
    let mut vm = VM::new();
    vm.execute(c).expect("runs");
    match vm.stack.last() {
        Some(Value::Boolean(false)) => (),
        other => panic!("distinct allocations must differ, got {:?}", other),
    }

    let c2 = chunk_of(
        vec![
            OpCode::Constant(0),
            OpCode::Array(1),
            OpCode::SetGlobal(1),
            OpCode::GetGlobal(1),
            OpCode::Equal,
        ],
        vec![Constant::Number(1.0f64.to_bits()), Constant::Str(chars("a"))],
    );
    let mut vm2 = VM::new();
    vm2.execute(c2).expect("runs");
    match vm2.stack.last() {
        Some(Value::Boolean(true)) => (),
        other => panic!("an allocation equals itself, got {:?}", other),
    }
}

#[test]
fn falsiness_table() {
    let vm = VM::new();
    assert!(vm.is_falsey(&Value::Boolean(false)));
    assert!(vm.is_falsey(&Value::Null));
    assert!(vm.is_falsey(&Value::Undefined));
    assert!(vm.is_falsey(&Value::Number(0.0f64.to_bits())));
    assert!(vm.is_falsey(&Value::Number((-0.0f64).to_bits())));
    assert!(vm.is_falsey(&Value::Str(Vec::new())));
    assert!(!vm.is_falsey(&Value::Boolean(true)));
    assert!(!vm.is_falsey(&Value::Number(1.0f64.to_bits())));
    // NaN is nonzero, so this machine treats it as truthy.
    assert!(!vm.is_falsey(&Value::Number(f64::NAN.to_bits())));
    assert!(!vm.is_falsey(&Value::Str(chars("x"))));
}

#[test]
fn pop_on_empty_stack_underflows() {
    let c = chunk_of(vec![OpCode::Pop], vec![]);
    let mut vm = VM::new();
    match vm.execute(c) {
        Err(RuntimeError::StackUnderflow) => (),
        other => panic!("expected a stack underflow, got {:?}", other),
    }
}

#[test]
fn set_index_appends_and_rejects_sparse_writes() {
    // a[1] = 9 on a one-element array appends; a[3] = 9 is out of bounds.
    let append = chunk_of(
        vec![
            OpCode::Constant(0),
            OpCode::Array(1),
            OpCode::Constant(1),
            OpCode::Constant(2),
            OpCode::SetIndex,
        ],
        vec![
            Constant::Number(1.0f64.to_bits()),
            Constant::Number(1.0f64.to_bits()),
            Constant::Number(9.0f64.to_bits()),
        ],
    );
    let mut vm = VM::new();
    vm.execute(append).expect("append runs");
    match vm.heap.get(0) {
        Some(HeapPayload::Arr(vs)) => {
            assert_eq!(vs.len(), 2);
            match &vs[1] {
                Value::Number(b) => assert_eq!(*b, 9.0f64.to_bits()),
                other => panic!("expected the written value, got {:?}", other),
            }
        }
        other => panic!("expected the array payload, got {:?}", other),
    }

    let sparse = chunk_of(
        vec![
            OpCode::Constant(0),
            OpCode::Array(1),
            OpCode::Constant(1),
            OpCode::Constant(2),
            OpCode::SetIndex,
        ],
        vec![
            Constant::Number(1.0f64.to_bits()),
            Constant::Number(3.0f64.to_bits()),
            Constant::Number(9.0f64.to_bits()),
        ],
    );
    let mut vm2 = VM::new();
    match vm2.execute(sparse) {
        Err(RuntimeError::Custom(m)) => {
            assert_eq!(m, "Array index out of bounds (sparse arrays not supported)");
        }
        other => panic!("expected the bounds fault, got {:?}", other),
    }
}

#[test]
fn object_lookup_and_missing_key() {
    // {k: 5}["k"] is 5; a missing key reads as undefined.
    let c = chunk_of(
        vec![
            OpCode::Constant(0),
            OpCode::Constant(1),
            OpCode::Object(1),
            OpCode::Constant(2),
            OpCode::GetIndex,
        ],
        vec![
            Constant::Str(chars("k")),
            Constant::Number(5.0f64.to_bits()),
            Constant::Str(chars("m")),
        ],
    );
    let mut vm = VM::new();
    vm.execute(c).expect("runs");
    match vm.stack.last() {
        Some(Value::Undefined) => (),
        other => panic!("missing key must read as undefined, got {:?}", other),
    }
}

#[test]
fn calling_a_non_function_faults() {
    let c = chunk_of(
        vec![OpCode::Constant(0), OpCode::Call(0)],
        vec![Constant::Number(1.0f64.to_bits())],
    );
    let mut vm = VM::new();
    match vm.execute(c) {
        Err(RuntimeError::TypeError(m)) => assert_eq!(m, "Can only call functions"),
        other => panic!("expected a type fault, got {:?}", other),
    }
}

#[test]
fn return_halts_before_later_code() {
    let c = chunk_of(
        vec![OpCode::Return, OpCode::Pop],
        vec![],
    );
    let mut vm = VM::new();
    assert!(vm.execute(c).is_ok());
}
