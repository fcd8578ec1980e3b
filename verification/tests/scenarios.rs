//! End-to-end scenarios: source text in, printed lines out.

use shadowjs::engine::ShadowEngine;
use shadowjs::heap::{Heap, HeapPayload};
use shadowjs::value::Value;

fn chars(s: &str) -> Vec<char> {
    s.chars().collect()
}

fn render_value(v: &Value, heap: &Heap) -> String {
    match v {
        Value::Number(bits) => format!("{}", f64::from_bits(*bits)),
        Value::Boolean(b) => format!("{}", b),
        Value::Str(s) => s.iter().collect(),
        Value::Object(_) => "[object Object]".to_string(),
        Value::Array(h) => {
            let mut out = String::from("[");
            if let Some(HeapPayload::Arr(vs)) = heap.get(h.idx) {
                for (i, val) in vs.iter().enumerate() {
                    if i > 0 {
                        out.push_str(", ");
                    }
                    out.push_str(&render_value(val, heap));
                }
            }
            out.push(']');
            out
        }
        Value::NativeFunction(_) => "[native function]".to_string(),
        Value::Function(h) => {
            if let Some(HeapPayload::Fun(t)) = heap.get(h.idx) {
                let name: String = t.name.iter().collect();
                format!("[function {}]", name)
            } else {
                "[function]".to_string()
            }
        }
        Value::Null => "null".to_string(),
        Value::Undefined => "undefined".to_string(),
    }
}

fn run(src: &str) -> Vec<String> {
    let mut engine = ShadowEngine::new();
    engine.eval(chars(src)).expect("evaluation should succeed");
    engine
        .vm
        .output
        .iter()
        .map(|line| {
            let mut s = String::new();
            for arg in line {
                s.push_str(&render_value(arg, &engine.vm.heap));
                s.push(' ');
            }
            s.push('\n');
            s
        })
        .collect()
}

#[test]
fn prints_arithmetic_with_precedence() {
    assert_eq!(run("print(1 + 2 * 3);"), vec!["7 \n".to_string()]);
}

#[test]
fn prints_sum_of_globals() {
    assert_eq!(
        run("let x = 10; let y = 20; print(x + y);"),
        vec!["30 \n".to_string()]
    );
}

#[test]
fn prints_array_elements() {
    assert_eq!(
        run("let a = [1, 2, 3]; print(a[0]); print(a[2]);"),
        vec!["1 \n".to_string(), "3 \n".to_string()]
    );
}

#[test]
fn prints_object_members_and_keys() {
    assert_eq!(
        run("let o = {name: \"hi\", n: 42}; print(o.name); print(o[\"n\"]);"),
        vec!["hi \n".to_string(), "42 \n".to_string()]
    );
}

#[test]
fn branches_on_comparison() {
    assert_eq!(
        run("if (1 < 2) { print(\"y\"); } else { print(\"n\"); }"),
        vec!["y \n".to_string()]
    );
}

#[test]
fn concatenates_strings() {
    assert_eq!(run("print(\"a\" + \"b\");"), vec!["ab \n".to_string()]);
}

#[test]
fn out_of_range_read_is_undefined() {
    assert_eq!(
        run("let a = [1]; print(a[99]);"),
        vec!["undefined \n".to_string()]
    );
}

#[test]
fn division_follows_ieee() {
    assert_eq!(run("print(10 / 4);"), vec!["2.5 \n".to_string()]);
    assert_eq!(run("print(1 / 0);"), vec!["inf \n".to_string()]);
}

#[test]
fn not_equal_compares() {
    assert_eq!(
        run("print(1 != 2); print(3 != 3);"),
        vec!["true \n".to_string(), "false \n".to_string()]
    );
}

#[test]
fn subtraction_and_comparison() {
    assert_eq!(run("print(7 - 2); print(3 > 2);"), vec!["5 \n".to_string(), "true \n".to_string()]);
}

#[test]
fn else_branch_taken_on_falsy() {
    assert_eq!(
        run("if (2 < 1) { print(\"y\"); } else { print(\"n\"); }"),
        vec!["n \n".to_string()]
    );
}

#[test]
fn comments_are_skipped() {
    assert_eq!(
        run("// leading note\nprint(1); /* in the\nmiddle */ print(2);"),
        vec!["1 \n".to_string(), "2 \n".to_string()]
    );
}

#[test]
fn single_quoted_strings() {
    assert_eq!(run("print('hi');"), vec!["hi \n".to_string()]);
}

#[test]
fn rerunning_a_program_gives_the_same_output() {
    let first = run("let a = [1, 2]; print(a[1] + 40); print(\"x\" + \"y\");");
    let second = run("let a = [1, 2]; print(a[1] + 40); print(\"x\" + \"y\");");
    assert_eq!(first, second);
    assert_eq!(first, vec!["42 \n".to_string(), "xy \n".to_string()]);
}

#[test]
fn unbound_global_faults() {
    let mut engine = ShadowEngine::new();
    let r = engine.eval(chars("print(zz);"));
    assert!(r.is_err());
}

#[test]
fn adding_mixed_kinds_faults() {
    let mut engine = ShadowEngine::new();
    let r = engine.eval(chars("print(1 + \"a\");"));
    match r {
        Err(shadowjs::engine::EvalError::Runtime(shadowjs::error::RuntimeError::TypeError(m))) => {
            assert_eq!(m, "Operands must be numbers or strings");
        }
        other => panic!("expected a type fault, got {:?}", other),
    }
}
