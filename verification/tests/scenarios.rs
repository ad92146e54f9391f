//! End-to-end scenarios: programs run against a simulated host that
//! answers requests and records everything the program prints.

use dune::interp::{HostReq, Interp};
use dune::machine::HeapVal;
use dune::parser::program;

/// Parse and run a program, answering host requests with fixed data, and
/// hand back the machine and the printed lines.
fn run_source(src: &str) -> (Interp, Vec<String>) {
    let chars: Vec<char> = src.chars().collect();
    let prog = program(&chars).expect("the program should parse");
    let mut it = Interp::new();
    it.start(&prog);
    let mut outputs: Vec<String> = Vec::new();
    loop {
        match it.run(1_000_000) {
            Some(req) => match req {
                HostReq::Print(s) => outputs.push(s),
                HostReq::PrintLine(s) => outputs.push(s),
                HostReq::Pwd => it.resume_str(String::from("/test")),
                HostReq::Input(_) => it.resume_str(String::from("typed")),
                HostReq::Ls(_) => {
                    it.resume_list(vec![String::from("alpha"), String::from("beta")])
                }
                _ => {}
            },
            None => {
                if it.is_done() || !it.pending() {
                    break;
                }
            }
        }
    }
    (it, outputs)
}

/// The cell bound to a register name, if any.
fn register_cell(it: &Interp, name: &str) -> Option<usize> {
    for e in it.machine.registers.iter() {
        if e.name == name {
            return Some(e.cell);
        }
    }
    None
}

#[test]
fn prints_a_string() {
    let (_, out) = run_source("println(\"hi\")");
    assert_eq!(out, vec![String::from("hi")]);
}

#[test]
fn adds_two_registers() {
    let (_, out) = run_source("x = 2; y = 3; println(add(x, y))");
    assert_eq!(out, vec![String::from("5")]);
}

#[test]
fn defines_and_calls_a_function() {
    let (_, out) = run_source("fn f(a, b) { add(a, b) } println(f(4, 5))");
    assert_eq!(out, vec![String::from("9")]);
}

#[test]
fn stores_and_reads_a_tree_field() {
    let (_, out) = run_source("d = dict(); d.k = \"v\"; println(d.k)");
    assert_eq!(out, vec![String::from("v")]);
}

#[test]
fn loops_three_times() {
    let (_, out) = run_source("i = 0; while lt(i, 3) { println(i); i = add(i, 1) }");
    assert_eq!(
        out,
        vec![String::from("0"), String::from("1"), String::from("2")]
    );
}

#[test]
fn branches_on_equality() {
    let (_, out) = run_source("if eq(1, 1) { println(\"y\") } else { println(\"n\") }");
    assert_eq!(out, vec![String::from("y")]);
}

#[test]
fn argument_order_first_argument_on_top() {
    // the callee pops its single parameter: it gets the first argument
    let (_, out) = run_source("fn first(a, b, c) { println(a) } first(10, 20, 30)");
    assert_eq!(out, vec![String::from("10")]);
}

#[test]
fn assignment_idempotent() {
    let (it, _) = run_source("x = 41; x = 41");
    let c = register_cell(&it, "x").expect("x should be bound");
    match &it.machine.heap[c] {
        HeapVal::Num(n) => assert_eq!(*n, 41),
        _ => panic!("x should hold a number"),
    }
}

#[test]
fn aliasing_through_shared_cells() {
    let (_, out) = run_source("a = dict(); b = a; a.k = 1; println(b.k)");
    assert_eq!(out, vec![String::from("1")]);
}

#[test]
fn stack_drains_after_program() {
    let (mut it, _) = run_source("1; 2");
    assert_eq!(it.stack_height(), 2);
    let shown = it.drain_display();
    // top first: the last value computed prints first
    assert_eq!(shown, vec![String::from("2"), String::from("1")]);
    assert_eq!(it.stack_height(), 0);
}

#[test]
fn while_false_runs_body_never() {
    let (it, out) = run_source("while 0 { println(\"no\") }");
    assert_eq!(out.len(), 0);
    assert!(!it.is_done());
}

#[test]
fn while_exit_terminates() {
    let (it, _) = run_source("while 1 { exit() }");
    assert!(it.is_done());
}

#[test]
fn dynamic_scope_binding_persists() {
    // parameter bindings land in the shared register tree and stay
    let (it, out) = run_source("fn f(a) { println(a) } f(7)");
    assert_eq!(out, vec![String::from("7")]);
    let c = register_cell(&it, "a").expect("a stays bound after the call");
    match &it.machine.heap[c] {
        HeapVal::Num(n) => assert_eq!(*n, 7),
        _ => panic!("a should hold a number"),
    }
}

#[test]
fn pwd_pushes_host_reply() {
    let (mut it, _) = run_source("pwd");
    let shown = it.drain_display();
    assert_eq!(shown, vec![String::from("/test")]);
}

#[test]
fn ls_pushes_listing() {
    let (mut it, _) = run_source("ls \"dir\"");
    let shown = it.drain_display();
    assert_eq!(shown, vec![String::from("[alpha, beta]")]);
}

#[test]
fn input_pushes_typed_line() {
    let (mut it, _) = run_source("input(\"? \")");
    let shown = it.drain_display();
    assert_eq!(shown, vec![String::from("typed")]);
}

#[test]
fn empty_path_removal_is_silent() {
    // rm of an empty path must not reach the host at all
    let chars: Vec<char> = "rm \"\"".chars().collect();
    let prog = program(&chars).expect("parse");
    let mut it = Interp::new();
    it.start(&prog);
    loop {
        match it.run(1_000_000) {
            Some(req) => match req {
                HostReq::Rm(_) => panic!("an empty path must be a no-op"),
                _ => {}
            },
            None => {
                if it.is_done() || !it.pending() {
                    break;
                }
            }
        }
    }
}

#[test]
fn exit_sets_terminator() {
    let (it, _) = run_source("exit()");
    assert!(it.is_done());
}

#[test]
fn arithmetic_natives() {
    let (_, out) = run_source(
        "println(sub(10, 4)); println(mul(6, 7)); println(div(9, 2)); println(rem(9, 2))",
    );
    assert_eq!(
        out,
        vec![
            String::from("6"),
            String::from("42"),
            String::from("4"),
            String::from("1")
        ]
    );
}

#[test]
fn addition_wraps_at_the_boundary() {
    let (_, out) = run_source("println(add(9223372036854775807, 1))");
    assert_eq!(out, vec![String::from("-9223372036854775808")]);
}

#[test]
fn string_concatenation() {
    let (_, out) = run_source("println(add(\"ab\", \"cd\"))");
    assert_eq!(out, vec![String::from("abcd")]);
}

#[test]
fn comparison_natives() {
    let (_, out) = run_source("println(gt(3, 2)); println(le(3, 2)); println(neq(1, 2))");
    assert_eq!(
        out,
        vec![String::from("1"), String::from("0"), String::from("1")]
    );
}

#[test]
fn not_negates_truth() {
    let (_, out) = run_source("println(not(0)); println(not(5))");
    assert_eq!(out, vec![String::from("1"), String::from("0")]);
}

#[test]
fn map_applies_function_to_items() {
    let (_, out) = run_source("l = ls; fn show(x) { println(x) } map(show, l)");
    // `ls` pushed [alpha, beta]; map feeds each item through `show`
    assert_eq!(out, vec![String::from("alpha"), String::from("beta")]);
}

#[test]
fn indexed_read_of_list() {
    let (mut it, _) = run_source("l = ls; l[1]");
    let shown = it.drain_display();
    assert_eq!(shown, vec![String::from("beta")]);
}

#[test]
fn tree_key_overwritten_in_place() {
    // assigning an existing key writes through the same interior cell
    let (_, out) = run_source("d = dict(); d.k = 1; d.k = 2; println(d.k)");
    assert_eq!(out, vec![String::from("2")]);
}

#[test]
fn register_rebinding_does_not_alias() {
    // a plain assignment rebinds the name; the old holder keeps its value
    let (_, out) = run_source("x = 5; y = x; x = 6; println(y)");
    assert_eq!(out, vec![String::from("5")]);
}

#[test]
fn true_and_false_constants() {
    let (_, out) = run_source("if true { println(\"t\") } else { println(\"f\") }");
    assert_eq!(out, vec![String::from("t")]);
}
