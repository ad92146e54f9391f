//! Parser tests: the grammar's shapes, keyword reservation, comment
//! transparency, and round trips from hand-written sources to their trees.

use std::rc::Rc;

use dune::parser::{builtin, ident, literal, number_literal, program, string_literal, value};
use dune::tokens::{Builtin, Expr, FnCall, Identifier, Literal, Name, Suite, Value};

fn chars(s: &str) -> Vec<char> {
    s.chars().collect()
}

#[test]
fn parses_identifier() {
    let input = chars("  hello_9 ");
    let (id, p) = ident(&input, 0).expect("an identifier");
    assert_eq!(id, Identifier(String::from("hello_9")));
    assert_eq!(p, 9);
}

#[test]
fn parses_string_literal_with_escapes() {
    let input = chars("\"a\\n\\\"b\\\\\"");
    let (l, _) = string_literal(&input, 0).expect("a string literal");
    assert_eq!(l, Literal::String(String::from("a\n\"b\\")));
}

#[test]
fn parses_number_literal() {
    let input = chars(" -42 ");
    let (l, _) = number_literal(&input, 0).expect("a number literal");
    assert_eq!(l, Literal::Number(-42));
}

#[test]
fn rejects_number_out_of_range() {
    let input = chars("99999999999999999999");
    assert!(number_literal(&input, 0).is_none());
}

#[test]
fn parses_number_at_the_boundary() {
    let input = chars("9223372036854775807");
    let (l, _) = number_literal(&input, 0).expect("the largest number");
    assert_eq!(l, Literal::Number(i64::MAX));
}

#[test]
fn comment_runs_to_the_newline() {
    let input: Vec<char> = "# abc
x".chars().collect();
    assert_eq!(dune::parser::comment(&input, 0), Some(5));
    assert_eq!(dune::parser::comment(&input, 6), None);
}

#[test]
fn builtin_fails_on_other_tokens() {
    for src in ["foo", "l", "exi", "=", ""] {
        let input: Vec<char> = src.chars().collect();
        assert!(builtin(&input, 0).is_none());
    }
}

#[test]
fn parses_literal_value() {
    let input = chars("7");
    let (v, _) = literal(&input, 0).expect("a literal");
    assert_eq!(v, Value::Literal(Literal::Number(7)));
}

#[test]
fn keyword_ls_is_reserved() {
    // `ls` in value position is the List built-in, never an identifier
    let input = chars("  ls");
    let (v, _) = value(&input, 0).expect("a value");
    assert_eq!(v, Value::Builtin(Builtin::List));
}

#[test]
fn keyword_table_is_complete() {
    for (src, b) in [
        ("ls", Builtin::List),
        ("mv", Builtin::Move),
        ("cd", Builtin::ChangeDir),
        ("rm", Builtin::Remove),
        ("mkdir", Builtin::MakeDir),
        ("mkf", Builtin::MakeFile),
        ("pwd", Builtin::WorkingDir),
        ("exit", Builtin::Exit),
    ] {
        let input = chars(src);
        let (v, _) = builtin(&input, 0).expect("a built-in");
        assert_eq!(v, Value::Builtin(b));
    }
}

#[test]
fn juxtaposed_call_needs_builtin_head() {
    // a built-in head takes juxtaposed arguments...
    let input = chars("cd \"..\"");
    let (v, _) = value(&input, 0).expect("a value");
    match v {
        Value::FnCall(FnCall(callee, args)) => {
            assert_eq!(*callee, Value::Builtin(Builtin::ChangeDir));
            assert_eq!(args.len(), 1);
        }
        _ => panic!("expected a call"),
    }
    // ...while a bare identifier next to a value is not one call
    let input2 = chars("f 1");
    let prog = program(&input2).expect("two expressions");
    assert_eq!(prog.0.len(), 2);
}

#[test]
fn comments_are_transparent() {
    // inserting comment lines between top-level expressions keeps the tree
    let plain = program(&chars("x = 1\ny = 2")).expect("parse");
    let commented = program(&chars("# lead\nx = 1\n# middle\ny = 2\n# trail"))
        .expect("parse with comments");
    assert_eq!(plain, commented);
}

#[test]
fn round_trip_assignment() {
    // a source text witnessing this tree parses to exactly this tree
    let tree = Suite(vec![Rc::new(Expr::Assignment(
        Name::Name(Identifier(String::from("x"))),
        Rc::new(Value::Literal(Literal::Number(2))),
    ))]);
    assert_eq!(program(&chars("x = 2;")).expect("parse"), tree);
    assert_eq!(program(&chars("  x  =  2  ")).expect("parse"), tree);
}

#[test]
fn round_trip_call() {
    let tree = Suite(vec![Rc::new(Expr::Value(Rc::new(Value::FnCall(FnCall(
        Rc::new(Value::Name(Name::Name(Identifier(String::from("f"))))),
        vec![
            Rc::new(Value::Literal(Literal::Number(1))),
            Rc::new(Value::Literal(Literal::Number(2))),
        ],
    )))))]);
    assert_eq!(program(&chars("f(1, 2)")).expect("parse"), tree);
    assert_eq!(program(&chars(" f ( 1 , 2 ) ")).expect("parse"), tree);
}

#[test]
fn round_trip_dotted_assignment() {
    let tree = Suite(vec![Rc::new(Expr::Assignment(
        Name::DotName(
            Rc::new(Value::Name(Name::Name(Identifier(String::from("d"))))),
            vec![Identifier(String::from("k"))],
        ),
        Rc::new(Value::Literal(Literal::String(String::from("v")))),
    ))]);
    assert_eq!(program(&chars("d.k = \"v\"")).expect("parse"), tree);
}

#[test]
fn while_and_if_shapes() {
    let prog = program(&chars("while 1 { exit() } if 0 { } else { pwd }")).expect("parse");
    assert_eq!(prog.0.len(), 2);
    match &*prog.0[0] {
        Expr::WhileLoop(c, body) => {
            assert_eq!(**c, Value::Literal(Literal::Number(1)));
            assert_eq!(body.0.len(), 1);
        }
        _ => panic!("expected a while loop"),
    }
    match &*prog.0[1] {
        Expr::IfThenElse(c, t, e) => {
            assert_eq!(**c, Value::Literal(Literal::Number(0)));
            assert_eq!(t.0.len(), 0);
            assert_eq!(e.0.len(), 1);
        }
        _ => panic!("expected a conditional"),
    }
}

#[test]
fn missing_else_is_empty_suite() {
    let prog = program(&chars("if 1 { pwd }")).expect("parse");
    match &*prog.0[0] {
        Expr::IfThenElse(_, _, e) => assert_eq!(e.0.len(), 0),
        _ => panic!("expected a conditional"),
    }
}

#[test]
fn function_definition_shape() {
    let prog = program(&chars("fn sum(a, b) { add(a, b) }")).expect("parse");
    match &*prog.0[0] {
        Expr::FunctionDef(fd) => {
            assert_eq!(fd.0, Name::Name(Identifier(String::from("sum"))));
            assert_eq!(fd.1 .0.len(), 2);
            assert_eq!(fd.1 .1 .0.len(), 1);
        }
        _ => panic!("expected a function definition"),
    }
}

#[test]
fn anonymous_function_is_a_value() {
    let prog = program(&chars("f = fn(x) { x }")).expect("parse");
    match &*prog.0[0] {
        Expr::Assignment(_, v) => match &**v {
            Value::Function(f) => assert_eq!(f.0.len(), 1),
            _ => panic!("expected a function value"),
        },
        _ => panic!("expected an assignment"),
    }
}

#[test]
fn unbalanced_input_fails() {
    assert!(program(&chars("(")).is_none());
    assert!(program(&chars("x =")).is_none());
    assert!(program(&chars("\"unterminated")).is_none());
}

#[test]
fn empty_program_parses() {
    let prog = program(&chars("   \n # only a comment\n")).expect("parse");
    assert_eq!(prog.0.len(), 0);
}

#[test]
fn grouped_value() {
    let prog = program(&chars("x = (2)")).expect("parse");
    match &*prog.0[0] {
        Expr::Assignment(_, v) => assert_eq!(**v, Value::Literal(Literal::Number(2))),
        _ => panic!("expected an assignment"),
    }
}

#[test]
fn indexed_name_shape() {
    let prog = program(&chars("l[0]")).expect("parse");
    match &*prog.0[0] {
        Expr::Value(v) => match &**v {
            Value::Name(Name::IndexName(_, path)) => assert_eq!(path.len(), 1),
            _ => panic!("expected an indexed name"),
        },
        _ => panic!("expected a value expression"),
    }
}
