//! Cross-cutting pipeline properties on concrete inputs.

use shadowjs::engine::ShadowEngine;
use shadowjs::parser::Parser;
use shadowjs::value::Value;
use shadowjs::vm::Environment;

fn chars(s: &str) -> Vec<char> {
    s.chars().collect()
}

#[test]
fn parsing_is_deterministic() {
    let src = "let a = [1, 2 * 3]; if (a[0] < 2) { print(a.length); } else { print('no'); }";
    let first = Parser::new(chars(src)).parse().expect("parses");
    let second = Parser::new(chars(src)).parse().expect("parses");
    assert_eq!(first, second);
}

#[test]
fn array_elements_are_the_element_expressions_values() {
    // element i of the built array is the value of the i-th expression
    let mut engine = ShadowEngine::new();
    engine
        .eval(chars(
            "let a = [1 + 1, 2 * 3, \"x\" + \"y\"]; print(a[0]); print(a[1]); print(a[2]);",
        ))
        .expect("runs");
    assert_eq!(engine.vm.output.len(), 3);
    match &engine.vm.output[0][0] {
        Value::Number(b) => assert_eq!(*b, 2.0f64.to_bits()),
        other => panic!("expected the first element's value, got {:?}", other),
    }
    match &engine.vm.output[1][0] {
        Value::Number(b) => assert_eq!(*b, 6.0f64.to_bits()),
        other => panic!("expected the second element's value, got {:?}", other),
    }
    match &engine.vm.output[2][0] {
        Value::Str(s) => assert_eq!(s, &chars("xy")),
        other => panic!("expected the third element's value, got {:?}", other),
    }
}

#[test]
fn duplicate_object_keys_keep_the_first_literal_pair() {
    // pairs are popped from the top and inserted in pop order, so the
    // first literal pair is written last and wins
    let mut engine = ShadowEngine::new();
    engine
        .eval(chars("let o = {k: 1, k: 2}; print(o.k);"))
        .expect("runs");
    match &engine.vm.output[0][0] {
        Value::Number(b) => assert_eq!(*b, 1.0f64.to_bits()),
        other => panic!("expected the first pair's value, got {:?}", other),
    }
}

#[test]
fn environment_define_overwrites_and_get_finds() {
    let mut env = Environment::new();
    env.define(chars("x"), Value::Number(1.0f64.to_bits()));
    env.define(chars("y"), Value::Boolean(true));
    env.define(chars("x"), Value::Number(2.0f64.to_bits()));
    match env.get(&chars("x")) {
        Some(Value::Number(b)) => assert_eq!(*b, 2.0f64.to_bits()),
        other => panic!("expected the rebound value, got {:?}", other),
    }
    assert!(matches!(env.get(&chars("y")), Some(Value::Boolean(true))));
    assert!(env.get(&chars("z")).is_none());
}

#[test]
fn rebinding_a_global_updates_reads() {
    let mut engine = ShadowEngine::new();
    engine
        .eval(chars("let x = 1; let x = 5; print(x);"))
        .expect("runs");
    match &engine.vm.output[0][0] {
        Value::Number(b) => assert_eq!(*b, 5.0f64.to_bits()),
        other => panic!("expected the rebound value, got {:?}", other),
    }
}

#[test]
fn truthiness_drives_branches() {
    // the empty string is falsy; a nonempty one is truthy
    let mut engine = ShadowEngine::new();
    engine
        .eval(chars(
            "if (\"\") { print(1); } else { print(2); } if (\"x\") { print(3); } else { print(4); }",
        ))
        .expect("runs");
    let nums: Vec<u64> = engine
        .vm
        .output
        .iter()
        .map(|line| match &line[0] {
            Value::Number(b) => *b,
            other => panic!("expected a number, got {:?}", other),
        })
        .collect();
    assert_eq!(nums, vec![2.0f64.to_bits(), 3.0f64.to_bits()]);
}

#[test]
fn empty_sources_and_literals() {
    let mut engine = ShadowEngine::new();
    engine.eval(chars("")).expect("an empty program runs");
    engine.eval(chars("   \n\t ")).expect("whitespace runs");
    engine
        .eval(chars("let a = []; let o = {}; print(a[0]); print(o[\"k\"]);"))
        .expect("empty literals run");
    let outs: Vec<bool> = engine
        .vm
        .output
        .iter()
        .map(|line| matches!(line[0], Value::Undefined))
        .collect();
    assert_eq!(outs, vec![true, true]);
}

#[test]
fn call_without_arguments_fails_its_production() {
    // the call production peeks for `)` after an argument, so an empty
    // argument list never closes; the statement is dropped silently
    let mut engine = ShadowEngine::new();
    engine.eval(chars("print();")).expect("runs");
    assert_eq!(engine.vm.output.len(), 0);
}
