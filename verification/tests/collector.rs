//! The heap and its mark-sweep collector.

use shadowjs::engine::ShadowEngine;
use shadowjs::heap::{GC, Heap, HeapPayload};
use shadowjs::value::Value;

fn chars(s: &str) -> Vec<char> {
    s.chars().collect()
}

#[test]
fn collect_frees_garbage_and_keeps_the_reachable() {
    let mut heap = Heap::new();
    let kept = heap.allocate(HeapPayload::Arr(vec![Value::Number(1.0f64.to_bits())]));
    let garbage = heap.allocate(HeapPayload::Arr(vec![Value::Number(2.0f64.to_bits())]));
    let roots = vec![kept.idx];
    heap.collect(&roots);
    assert!(heap.get(kept.idx).is_some());
    assert!(heap.get(garbage.idx).is_none());
    match heap.get(kept.idx) {
        Some(HeapPayload::Arr(vs)) => assert_eq!(vs.len(), 1),
        other => panic!("the kept payload must be unchanged, got {:?}", other),
    }
}

#[test]
fn collect_follows_pointers_transitively() {
    let mut heap = Heap::new();
    let inner = heap.allocate(HeapPayload::Arr(vec![Value::Number(7.0f64.to_bits())]));
    let outer = heap.allocate(HeapPayload::Arr(vec![Value::Array(inner)]));
    let lost = heap.allocate(HeapPayload::Arr(vec![]));
    let roots = vec![outer.idx];
    heap.collect(&roots);
    assert!(heap.get(outer.idx).is_some());
    assert!(heap.get(inner.idx).is_some(), "a child of a root must survive");
    assert!(heap.get(lost.idx).is_none());
}

#[test]
fn collect_handles_cycles() {
    let mut heap = Heap::new();
    let a = heap.allocate(HeapPayload::Arr(vec![]));
    let b = heap.allocate(HeapPayload::Arr(vec![Value::Array(a)]));
    // close the cycle: a points back at b
    let p = heap.take(a.idx);
    match p {
        HeapPayload::Arr(mut vs) => {
            vs.push(Value::Array(b));
            heap.put(a.idx, HeapPayload::Arr(vs));
        }
        other => panic!("expected the array payload, got {:?}", other),
    }
    // reachable cycle survives
    let roots = vec![a.idx];
    heap.collect(&roots);
    assert!(heap.get(a.idx).is_some());
    assert!(heap.get(b.idx).is_some());
    // unreachable cycle is collected; the slots stay as tombstones, so
    // surviving indices never move
    let before = heap.slot_count();
    let no_roots: Vec<usize> = vec![];
    heap.collect(&no_roots);
    assert_eq!(heap.slot_count(), before);
    assert!(heap.get(a.idx).is_none());
    assert!(heap.get(b.idx).is_none());
}

#[test]
fn facade_collects_through_the_heap() {
    let mut heap = Heap::new();
    let dead = heap.allocate(HeapPayload::Obj(vec![(chars("k"), Value::Null)]));
    let mut gc = GC::new();
    let roots: Vec<usize> = vec![];
    gc.collect(&mut heap, &roots);
    assert!(heap.get(dead.idx).is_none());
}

#[test]
fn globals_keep_their_objects_across_the_boundary_collection() {
    // Execution collects at the 1000-instruction boundary, in particular
    // at the very first instruction; values bound to globals survive.
    let mut engine = ShadowEngine::new();
    engine
        .eval(chars("let a = [1, 2, 3]; print(a[1]);"))
        .expect("runs");
    assert_eq!(engine.vm.output.len(), 1);
    match &engine.vm.output[0][0] {
        Value::Number(b) => assert_eq!(*b, 2.0f64.to_bits()),
        other => panic!("expected the surviving element, got {:?}", other),
    }
}
