//! Direct tests of the machine: stack discipline, the register tree,
//! arena sharing, arithmetic edges, and display rendering.

use dune::machine::{num_div, num_rem, HeapVal, Machine};
use dune::render::display_cell;

#[test]
fn push_and_pop_are_lifo() {
    let mut m = Machine::new();
    m.push(HeapVal::Num(1));
    m.push(HeapVal::Num(2));
    let top = m.pop().expect("a cell");
    match &m.heap[top] {
        HeapVal::Num(n) => assert_eq!(*n, 2),
        _ => panic!("expected a number"),
    }
    let next = m.pop().expect("a cell");
    match &m.heap[next] {
        HeapVal::Num(n) => assert_eq!(*n, 1),
        _ => panic!("expected a number"),
    }
    assert!(m.pop().is_none());
}

#[test]
fn store_then_load_yields_same_cell() {
    let mut m = Machine::new();
    m.push(HeapVal::Num(9));
    m.push(HeapVal::Str(String::from("n")));
    m.store();
    m.push(HeapVal::Str(String::from("n")));
    m.load();
    let c = m.pop().expect("the bound cell");
    match &m.heap[c] {
        HeapVal::Num(n) => assert_eq!(*n, 9),
        _ => panic!("expected the stored number"),
    }
}

#[test]
fn load_of_missing_name_yields_empty_tree() {
    let mut m = Machine::new();
    m.push(HeapVal::Str(String::from("nowhere")));
    m.load();
    let c = m.pop().expect("a fresh cell");
    match &m.heap[c] {
        HeapVal::Tree(es) => assert_eq!(es.len(), 0),
        _ => panic!("expected an empty tree"),
    }
}

#[test]
fn index_inserts_missing_tree_key() {
    let mut m = Machine::new();
    m.push(HeapVal::Tree(Vec::new()));
    m.push(HeapVal::Str(String::from("k")));
    m.index();
    let inner = m.pop().expect("the interior cell");
    match &m.heap[inner] {
        HeapVal::Tree(es) => assert_eq!(es.len(), 0),
        _ => panic!("expected a fresh empty tree"),
    }
}

#[test]
fn assign_overwrites_in_place() {
    let mut m = Machine::new();
    m.push(HeapVal::Num(1));
    let target = m.pop().expect("target");
    m.push(HeapVal::Num(5));
    m.push_cell(target);
    m.assign();
    match &m.heap[target] {
        HeapVal::Num(n) => assert_eq!(*n, 5),
        _ => panic!("expected the assigned number"),
    }
}

#[test]
fn truncating_division_edges() {
    assert_eq!(num_div(9, 2), 4);
    assert_eq!(num_div(-9, 2), -4);
    assert_eq!(num_div(9, -2), -4);
    assert_eq!(num_div(-9, -2), 4);
    assert_eq!(num_div(5, 0), 0);
    assert_eq!(num_div(i64::MIN, -1), i64::MIN);
    assert_eq!(num_div(i64::MIN, 1), i64::MIN);
}

#[test]
fn truncating_remainder_edges() {
    assert_eq!(num_rem(9, 2), 1);
    assert_eq!(num_rem(-9, 2), -1);
    assert_eq!(num_rem(9, -2), 1);
    assert_eq!(num_rem(5, 0), 0);
    assert_eq!(num_rem(i64::MIN, -1), 0);
}

#[test]
fn equality_is_structural() {
    let mut m = Machine::new();
    let a = m.alloc_cell(HeapVal::Num(4));
    let b = m.alloc_cell(HeapVal::Num(4));
    let c = m.alloc_cell(HeapVal::Str(String::from("4")));
    assert!(m.eq_cells(a, b, 64));
    assert!(!m.eq_cells(a, c, 64));
    let l1 = {
        let x = m.alloc_cell(HeapVal::Num(7));
        m.alloc_cell(HeapVal::List(vec![x]))
    };
    let l2 = {
        let y = m.alloc_cell(HeapVal::Num(7));
        m.alloc_cell(HeapVal::List(vec![y]))
    };
    assert!(m.eq_cells(l1, l2, 64));
}

#[test]
fn display_of_values() {
    let mut m = Machine::new();
    let n = m.alloc_cell(HeapVal::Num(-30));
    assert_eq!(display_cell(&m, n), "-30");
    let s = m.alloc_cell(HeapVal::Str(String::from("plain text")));
    assert_eq!(display_cell(&m, s), "plain text");
    let a = m.alloc_cell(HeapVal::Num(1));
    let b = m.alloc_cell(HeapVal::Num(2));
    let l = m.alloc_cell(HeapVal::List(vec![a, b]));
    assert_eq!(display_cell(&m, l), "[1, 2]");
    let t = m.alloc_cell(HeapVal::Tree(vec![dune::machine::Entry {
        name: String::from("k"),
        cell: a,
    }]));
    assert_eq!(display_cell(&m, t), "{k: 1}");
    let zero = m.alloc_cell(HeapVal::Num(0));
    assert_eq!(display_cell(&m, zero), "0");
}

#[test]
fn display_of_cycle_is_finite() {
    let mut m = Machine::new();
    let l = m.alloc_cell(HeapVal::List(Vec::new()));
    // tie the knot: the list contains itself
    m.heap[l] = HeapVal::List(vec![l]);
    let shown = display_cell(&m, l);
    assert!(shown.starts_with("["));
    assert!(shown.len() < 100);
}

#[test]
fn fresh_machine_registers() {
    let m = Machine::new();
    assert_eq!(m.stack.len(), 0);
    assert!(!m.done);
    let names: Vec<&str> = m.registers.iter().map(|e| e.name.as_str()).collect();
    assert!(names.contains(&"true"));
    assert!(names.contains(&"println"));
    assert!(names.contains(&"dict"));
    assert!(names.contains(&"add"));
    assert_eq!(names[0], "true");
    assert_eq!(names[1], "false");
}
