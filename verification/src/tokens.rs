//! The abstract syntax tree of the shell language.
//!
//! Recursive positions are held behind `Rc` so that the executor can share
//! subtrees with its task list without copying them; a shared node is equal,
//! as a mathematical value, to the node it was taken from.

use vstd::prelude::*;
use std::rc::Rc;

verus! {

/// Execution never fails: every machine operation is total.  Callers still
/// get a nominal error type; the one variant is never constructed (Verus
/// does not accept an uninhabited enum).
#[derive(Debug)]
pub enum Error {
    Never,
}

/// A plain identifier: the name of a register, parameter or field.
#[derive(Debug, PartialEq, Eq)]
pub struct Identifier(pub String);

impl Identifier {
    /// The character sequence of the identifier.
    pub open spec fn chars(&self) -> Seq<char> {
        self.0@
    }
}

impl Clone for Identifier {
    fn clone(&self) -> (r: Self)
        ensures
            r == *self,
    {
        Identifier(self.0.clone())
    }
}

/// The closed set of shell built-ins.  These are reserved keywords: they are
/// tried before identifiers by the parser and never resolve through the
/// register tree.
#[derive(Debug, Clone, Copy, PartialEq, Eq, Structural)]
pub enum Builtin {
    List,
    ChangeDir,
    Move,
    Clear,
    Remove,
    MakeDir,
    MakeFile,
    ShellOut,
    WorkingDir,
    Exit,
}

/// A source literal: a double-quoted string or a decimal integer.
#[derive(Debug, PartialEq)]
pub enum Literal {
    String(String),
    Number(i64),
}

/// A call: the callee value and its argument values, in source order.
#[derive(Debug, PartialEq)]
pub struct FnCall(pub Rc<Value>, pub Vec<Rc<Value>>);

/// Any expression that yields a value on the evaluation stack.
#[derive(Debug, PartialEq)]
pub enum Value {
    Name(Name),
    Literal(Literal),
    FnCall(FnCall),
    Builtin(Builtin),
    Function(Function),
}

/// A readable or assignable place: a bare identifier, a head value followed
/// by one or more `[index]` selectors, or a head value followed by one or
/// more `.field` selectors.
#[derive(Debug, PartialEq)]
pub enum Name {
    Name(Identifier),
    IndexName(Rc<Value>, Vec<Rc<Value>>),
    DotName(Rc<Value>, Vec<Identifier>),
}

/// A statement of the language.
#[derive(Debug, PartialEq)]
pub enum Expr {
    Assignment(Name, Rc<Value>),
    WhileLoop(Rc<Value>, Rc<Suite>),
    IfThenElse(Rc<Value>, Rc<Suite>, Rc<Suite>),
    FunctionDef(FunctionDef),
    Value(Rc<Value>),
}

/// A sequence of expressions, executed in order.
#[derive(Debug, PartialEq)]
pub struct Suite(pub Vec<Rc<Expr>>);

/// A named function definition: sugar for assigning a function value.
#[derive(Debug, PartialEq)]
pub struct FunctionDef(pub Name, pub Function);

/// An anonymous function: parameter names and a body suite.
#[derive(Debug, PartialEq)]
pub struct Function(pub Vec<Identifier>, pub Rc<Suite>);

impl Clone for Function {
    fn clone(&self) -> (r: Self)
        ensures
            r.0@ == self.0@,
            r.1 == self.1,
    {
        let params = clone_params(&self.0);
        Function(params, rc_clone(&self.1))
    }
}

/// Copy a parameter list; the copy is equal, element for element, to the
/// original.
pub fn clone_params(params: &Vec<Identifier>) -> (r: Vec<Identifier>)
    ensures
        r@ == params@,
{
    let r = params.clone();
    proof {
        assert forall|i: int| 0 <= i < params@.len() implies r@[i] == params@[i] by {
            assert(vstd::pervasive::cloned::<Identifier>(params[i], r[i]));
        }
        assert(r@ =~= params@);
    }
    r
}

/// Relies on `Rc::clone`: the clone is a second handle to the same
/// allocation, so it is equal, as a value, to the original.
#[verifier::external_body]
pub fn rc_clone<T>(rc: &Rc<T>) -> (r: Rc<T>)
    ensures
        r == *rc,
{
    Rc::clone(rc)
}

} // verus!
