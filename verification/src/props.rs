//! Laws of the executor, proved against the small-step semantics
//! [`crate::interp::spec_step`].
//!
//! Each law speaks of an arbitrary machine state: what it relies on is in
//! its `requires`, and what it claims is proved for every state, program
//! text and value that those clauses accept.

use vstd::prelude::*;
use crate::tokens::{Builtin, Expr, Identifier, Literal, Name, Suite, Value};
use crate::machine::{NativeOp, ValModel, assoc_find, assoc_lookup, assoc_set, truthy};
use crate::interp::{IState, TaskM, spec_step, spec_run, sched_suite, sched_binds, sched_args,
    sched_exprs, sched_name, sched_dot, ReqM};

verus! {

/// The value a shared node holds.
pub open spec fn rc_val<T>(r: std::rc::Rc<T>) -> T {
    *r
}

/// The machine value of a literal.
pub open spec fn lit_val(l: Literal) -> ValModel {
    match l {
        Literal::String(s) => ValModel::Str(s@),
        Literal::Number(n) => ValModel::Num(n as int),
    }
}

/// `spec_step` iterated `n` times, requests discarded.
pub open spec fn steps(s: IState, n: nat) -> IState
    decreases n,
{
    if n == 0 {
        s
    } else {
        steps(spec_step(s).0, (n - 1) as nat)
    }
}

/// After binding `name`, looking `name` up yields exactly the new cell.
pub proof fn lemma_set_lookup(es: Seq<(Seq<char>, int)>, name: Seq<char>, cell: int)
    ensures
        assoc_lookup(assoc_set(es, name, cell), name) == Some(cell),
{
    match assoc_find(es, name, 0) {
        Some(i) => {
            lemma_find_bounds(es, name, 0);
            lemma_find_update(es, name, cell, 0, i);
        },
        None => {
            lemma_find_push(es, name, cell, 0);
        },
    }
}

/// A found index lies in bounds and carries the name.
pub proof fn lemma_find_bounds(es: Seq<(Seq<char>, int)>, name: Seq<char>, from: int)
    ensures
        assoc_find(es, name, from) matches Some(i) ==> from <= i < es.len() && es[i].0 == name,
    decreases es.len() - from,
{
    if 0 <= from < es.len() && es[from].0 != name {
        lemma_find_bounds(es, name, from + 1);
    }
}

/// Overwriting the found binding in place keeps it the first match.
proof fn lemma_find_update(
    es: Seq<(Seq<char>, int)>,
    name: Seq<char>,
    cell: int,
    from: int,
    i: int,
)
    requires
        assoc_find(es, name, from) == Some(i),
    ensures
        assoc_find(es.update(i, (name, cell)), name, from) == Some(i),
    decreases es.len() - from,
{
    lemma_find_bounds(es, name, from);
    if 0 <= from < es.len() {
        if es[from].0 == name {
            assert(i == from);
        } else {
            assert(es.update(i, (name, cell))[from].0 == es[from].0);
            lemma_find_update(es, name, cell, from + 1, i);
        }
    }
}

/// A name absent from the entries is found exactly at the appended slot.
proof fn lemma_find_push(es: Seq<(Seq<char>, int)>, name: Seq<char>, cell: int, from: int)
    requires
        0 <= from <= es.len(),
        assoc_find(es, name, from) is None,
    ensures
        assoc_find(es.push((name, cell)), name, from) == Some(es.len() as int),
    decreases es.len() - from,
{
    if from < es.len() {
        assert(es.push((name, cell))[from].0 == es[from].0);
        lemma_find_push(es, name, cell, from + 1);
    } else {
        assert(es.push((name, cell))[from].0 == name);
    }
}

/// Binding one name leaves every other name's binding as it was.
pub proof fn lemma_set_lookup_other(
    es: Seq<(Seq<char>, int)>,
    name: Seq<char>,
    cell: int,
    other: Seq<char>,
)
    requires
        other != name,
    ensures
        assoc_lookup(assoc_set(es, name, cell), other) == assoc_lookup(es, other),
{
    match assoc_find(es, name, 0) {
        Some(i) => {
            lemma_find_bounds(es, name, 0);
            lemma_find_other_update(es, name, cell, other, 0, i);
        },
        None => {
            lemma_find_other_push(es, name, cell, other, 0);
        },
    }
}

/// Updating a slot of a different name does not change where `other` is
/// found.
proof fn lemma_find_other_update(
    es: Seq<(Seq<char>, int)>,
    name: Seq<char>,
    cell: int,
    other: Seq<char>,
    from: int,
    i: int,
)
    requires
        other != name,
        0 <= i < es.len(),
        es[i].0 == name,
    ensures
        assoc_find(es.update(i, (name, cell)), other, from) == assoc_find(es, other, from),
        (assoc_find(es, other, from) matches Some(j) ==> es.update(i, (name, cell))[j]
            == es[j]),
    decreases es.len() - from,
{
    lemma_find_bounds(es, other, from);
    if 0 <= from < es.len() {
        assert(es.update(i, (name, cell))[from].0 == (if from == i {
            name
        } else {
            es[from].0
        }));
        if es[from].0 != other {
            lemma_find_other_update(es, name, cell, other, from + 1, i);
        }
    }
}

/// Appending a binding of a different name does not change where `other`
/// is found, unless it was absent, in which case it stays absent among the
/// old entries.
proof fn lemma_find_other_push(
    es: Seq<(Seq<char>, int)>,
    name: Seq<char>,
    cell: int,
    other: Seq<char>,
    from: int,
)
    requires
        other != name,
        0 <= from <= es.len(),
    ensures
        assoc_find(es.push((name, cell)), other, from) == assoc_find(es, other, from),
        (assoc_find(es, other, from) matches Some(j) ==> es.push((name, cell))[j] == es[j]),
    decreases es.len() - from,
{
    if from < es.len() {
        assert(es.push((name, cell))[from].0 == es[from].0);
        if es[from].0 != other {
            lemma_find_other_push(es, name, cell, other, from + 1);
        }
    } else {
        assert(es.push((name, cell))[from].0 == name);
        assert(assoc_find(es.push((name, cell)), other, from + 1) is None);
    }
}

/// Executing `x = v` stores a cell holding the value of `v` under `x`: the
/// four steps of the lowering — evaluate the literal, push the name, store
/// — end with `registers[x]` bound to a fresh cell holding `lit`'s value,
/// and the stack as it was.
pub proof fn lemma_assign_once(s: IState, e: Expr, id: Identifier, lit: Literal)
    requires
        s.tasks.len() >= 1,
        s.tasks.last() == TaskM::TExpr(e),
        (e matches Expr::Assignment(n, v) && n == Name::Name(id) && *v == Value::Literal(lit)),
    ensures
        ({
            let s4 = steps(s, 4);
            &&& s4.m.stack == s.m.stack
            &&& s4.m.heap == s.m.heap.push(lit_val(lit)).push(ValModel::Str(id.0@))
            &&& s4.m.regs == assoc_set(s.m.regs, id.0@, s.m.heap.len() as int)
            &&& s4.m.done == s.m.done
            &&& s4.tasks == s.tasks.drop_last()
            &&& assoc_lookup(s4.m.regs, id.0@) == Some(s.m.heap.len() as int)
            &&& s4.m.heap[s.m.heap.len() as int] == lit_val(lit)
        }),
{
    let ts0 = s.tasks.drop_last();
    let s1 = spec_step(s).0;
    assert(ts0.push(TaskM::TStore).push(TaskM::TPushStr(id.0@)).push(
        TaskM::TValue(Value::Literal(lit)),
    ).drop_last() =~= ts0.push(TaskM::TStore).push(TaskM::TPushStr(id.0@)));
    let s2 = spec_step(s1).0;
    assert(ts0.push(TaskM::TStore).push(TaskM::TPushStr(id.0@)).drop_last() =~= ts0.push(
        TaskM::TStore,
    ));
    let s3 = spec_step(s2).0;
    assert(ts0.push(TaskM::TStore).drop_last() =~= ts0);
    let s4 = spec_step(s3).0;
    assert(s3.m.stack == s.m.stack.push(s.m.heap.len() as int).push(s.m.heap.len() as int + 1));
    assert(s3.m.stack.len() >= 2);
    assert(s3.m.stack.last() == s.m.heap.len() + 1);
    assert(s3.m.heap[s.m.heap.len() as int + 1] == ValModel::Str(id.0@));
    assert(s4.m.regs == assoc_set(s.m.regs, id.0@, s.m.heap.len() as int));
    assert(s4.m.stack =~= s.m.stack);
    lemma_set_lookup(s.m.regs, id.0@, s.m.heap.len() as int);
    assert(steps(s, 4) == s4) by {
        reveal_with_fuel(steps, 5);
    }
}

/// Assignment is idempotent: executing `x = v` twice, for a literal `v`,
/// leaves `registers[x]` bound to a cell holding exactly `v`'s value — the
/// same value the first execution bound, and the stack as it was.
pub proof fn law_assignment_idempotent(s: IState, e: Expr, id: Identifier, lit: Literal)
    requires
        s.tasks.len() >= 2,
        s.tasks.last() == TaskM::TExpr(e),
        s.tasks[s.tasks.len() - 2] == TaskM::TExpr(e),
        (e matches Expr::Assignment(n, v) && n == Name::Name(id) && *v == Value::Literal(lit)),
    ensures
        ({
            let s8 = steps(s, 8);
            &&& assoc_lookup(s8.m.regs, id.0@) matches Some(c) && s8.m.heap[c] == lit_val(lit)
            &&& s8.m.stack == s.m.stack
        }),
        ({
            let s4 = steps(s, 4);
            &&& assoc_lookup(s4.m.regs, id.0@) matches Some(c) && s4.m.heap[c] == lit_val(lit)
        }),
{
    lemma_assign_once(s, e, id, lit);
    let s4 = steps(s, 4);
    assert(s4.tasks.last() == TaskM::TExpr(e));
    lemma_assign_once(s4, e, id, lit);
    let s8 = steps(s4, 4);
    assert(steps(s, 8) == s8) by {
        lemma_steps_add(s, 4, 4);
    }
    assert(s8.m.heap[s4.m.heap.len() as int] == lit_val(lit));
}

/// Iterating steps composes.
pub proof fn lemma_steps_add(s: IState, a: nat, b: nat)
    ensures
        steps(steps(s, a), b) == steps(s, a + b),
    decreases a,
{
    if a > 0 {
        lemma_steps_add(spec_step(s).0, (a - 1) as nat, b);
    }
}

/// Argument order: in a call `f(a, b, c)` of literals, at callee entry —
/// the moment the callee's parameter bindings and body are scheduled — the
/// top of the stack holds the value of `a`, below it `b`, below it `c`.
/// The arguments were pushed in reverse order of their source positions,
/// so the callee pops them left to right.
#[verifier::rlimit(60)]
pub proof fn law_argument_order(
    s: IState,
    call: Value,
    id: Identifier,
    la: Literal,
    lb: Literal,
    lc: Literal,
    f: int,
    params: Seq<Seq<char>>,
    body: Suite,
)
    requires
        s.tasks.len() >= 1,
        s.tasks.last() == TaskM::TValue(call),
        (call matches Value::FnCall(fc) && *fc.0 == Value::Name(Name::Name(id)) && fc.1@.len()
            == 3 && *fc.1@[0] == Value::Literal(la) && *fc.1@[1] == Value::Literal(lb)
            && *fc.1@[2] == Value::Literal(lc)),
        assoc_lookup(s.m.regs, id.0@) == Some(f),
        0 <= f < s.m.heap.len(),
        s.m.heap[f] == ValModel::Closure(params, body),
    ensures
        ({
            let s8 = steps(s, 8);
            let h0 = s.m.heap.len() as int;
            &&& s8.m.stack == s.m.stack + seq![h0, h0 + 1, h0 + 2]
            &&& s8.m.heap[h0 + 2] == lit_val(la)  // top of the stack: the first argument
            &&& s8.m.heap[h0 + 1] == lit_val(lb)
            &&& s8.m.heap[h0] == lit_val(lc)
            &&& s8.tasks == s.tasks.drop_last() + sched_suite(body) + sched_binds(params)
            &&& s8.m.regs == s.m.regs
        }),
{
    let ts0 = s.tasks.drop_last();
    let h0 = s.m.heap.len() as int;
    let fc = call->FnCall_0;
    let callee = rc_val(fc.0);
    let va = rc_val(fc.1@[0]);
    let vb = rc_val(fc.1@[1]);
    let vc = rc_val(fc.1@[2]);
    let s1 = spec_step(s).0;
    assert(sched_args(fc.1@) =~= seq![
        TaskM::TValue(va),
        TaskM::TValue(vb),
        TaskM::TValue(vc),
    ]);
    let head = ts0 + seq![TaskM::TCall, TaskM::TValue(callee)];
    let ts1 = head + seq![TaskM::TValue(va), TaskM::TValue(vb), TaskM::TValue(vc)];
    assert(s1.tasks =~= ts1);
    let s2 = spec_step(s1).0;
    assert(ts1.last() == TaskM::TValue(vc));
    assert(ts1.drop_last() =~= head + seq![TaskM::TValue(va), TaskM::TValue(vb)]);
    let s3 = spec_step(s2).0;
    assert((head + seq![TaskM::TValue(va), TaskM::TValue(vb)]).last() == TaskM::TValue(vb));
    assert((head + seq![TaskM::TValue(va), TaskM::TValue(vb)]).drop_last() =~= head + seq![
        TaskM::TValue(va),
    ]);
    let s4 = spec_step(s3).0;
    assert((head + seq![TaskM::TValue(va)]).last() == TaskM::TValue(va));
    assert((head + seq![TaskM::TValue(va)]).drop_last() =~= head);
    assert(s4.m.stack =~= s.m.stack + seq![h0, h0 + 1, h0 + 2]);
    assert(s4.m.heap =~= s.m.heap.push(lit_val(lc)).push(lit_val(lb)).push(lit_val(la)));
    let s5 = spec_step(s4).0;
    assert(head.last() == TaskM::TValue(callee));
    assert(head.drop_last() =~= ts0 + seq![TaskM::TCall]);
    assert(sched_name(Name::Name(id)) =~= seq![TaskM::TLoad, TaskM::TPushStr(id.0@)]);
    let ts5 = ts0 + seq![TaskM::TCall] + seq![TaskM::TLoad, TaskM::TPushStr(id.0@)];
    assert(s5.tasks =~= ts5);
    let s6 = spec_step(s5).0;
    assert(ts5.last() == TaskM::TPushStr(id.0@));
    assert(ts5.drop_last() =~= ts0 + seq![TaskM::TCall] + seq![TaskM::TLoad]);
    assert(s6.m.heap =~= s4.m.heap.push(ValModel::Str(id.0@)));
    assert(s6.m.stack =~= s4.m.stack.push(h0 + 3));
    let s7 = spec_step(s6).0;
    assert((ts0 + seq![TaskM::TCall] + seq![TaskM::TLoad]).last() == TaskM::TLoad);
    assert((ts0 + seq![TaskM::TCall] + seq![TaskM::TLoad]).drop_last() =~= ts0 + seq![
        TaskM::TCall,
    ]);
    assert(s6.m.stack.last() == h0 + 3);
    assert(s6.m.heap[h0 + 3] == ValModel::Str(id.0@));
    assert(crate::machine::key_of(s6.m, s6.m.stack.last()) == id.0@);
    assert(s6.m.regs == s.m.regs);
    assert(s7.m.stack =~= s.m.stack + seq![h0, h0 + 1, h0 + 2, f]);
    let s8 = spec_step(s7).0;
    assert((ts0 + seq![TaskM::TCall]).last() == TaskM::TCall);
    assert((ts0 + seq![TaskM::TCall]).drop_last() =~= ts0);
    assert(s7.m.stack.last() == f);
    assert(s7.m.heap[f] == ValModel::Closure(params, body));
    assert(s8.m.stack =~= s.m.stack + seq![h0, h0 + 1, h0 + 2]);
    assert(s8.tasks =~= ts0 + sched_suite(body) + sched_binds(params));
    assert(steps(s, 8) == s8) by {
        reveal_with_fuel(steps, 9);
    }
}

/// Reading a bare name takes three steps — schedule, push the name, load —
/// and pushes the bound cell itself, not a copy: the reader shares the
/// cell with every other holder.
pub proof fn lemma_name_read(s: IState, v: Value, id: Identifier, t: int)
    requires
        s.tasks.len() >= 1,
        s.tasks.last() == TaskM::TValue(v),
        v == Value::Name(Name::Name(id)),
        assoc_lookup(s.m.regs, id.0@) == Some(t),
    ensures
        ({
            let s3 = steps(s, 3);
            &&& s3.m.stack == s.m.stack.push(t)
            &&& s3.m.heap == s.m.heap.push(ValModel::Str(id.0@))
            &&& s3.m.regs == s.m.regs
            &&& s3.m.done == s.m.done
            &&& s3.tasks == s.tasks.drop_last()
        }),
{
    let ts0 = s.tasks.drop_last();
    let s1 = spec_step(s).0;
    assert(sched_name(Name::Name(id)) =~= seq![TaskM::TLoad, TaskM::TPushStr(id.0@)]);
    let ts1 = ts0 + seq![TaskM::TLoad, TaskM::TPushStr(id.0@)];
    assert(s1.tasks =~= ts1);
    let s2 = spec_step(s1).0;
    assert(ts1.last() == TaskM::TPushStr(id.0@));
    assert(ts1.drop_last() =~= ts0 + seq![TaskM::TLoad]);
    let s3 = spec_step(s2).0;
    assert((ts0 + seq![TaskM::TLoad]).last() == TaskM::TLoad);
    assert((ts0 + seq![TaskM::TLoad]).drop_last() =~= ts0);
    assert(s2.m.stack.last() == s.m.heap.len() as int);
    assert(s2.m.heap[s.m.heap.len() as int] == ValModel::Str(id.0@));
    assert(crate::machine::key_of(s2.m, s2.m.stack.last()) == id.0@);
    assert(s3.m.stack =~= s.m.stack.push(t));
    assert(steps(s, 3) == s3) by {
        reveal_with_fuel(steps, 4);
    }
}

/// Calling a register bound to the dictionary primitive, with no
/// arguments, takes five steps and pushes one fresh, empty tree cell.
pub proof fn lemma_dict_call(s: IState, v: Value, idd: Identifier, d: int)
    requires
        s.tasks.len() >= 1,
        s.tasks.last() == TaskM::TValue(v),
        (v matches Value::FnCall(fc) && *fc.0 == Value::Name(Name::Name(idd)) && fc.1@.len()
            == 0),
        assoc_lookup(s.m.regs, idd.0@) == Some(d),
        0 <= d < s.m.heap.len(),
        s.m.heap[d] == ValModel::Native(NativeOp::Dict),
    ensures
        ({
            let s5 = steps(s, 5);
            let h0 = s.m.heap.len() as int;
            &&& s5.m.stack == s.m.stack.push(h0 + 1)
            &&& s5.m.heap == s.m.heap.push(ValModel::Str(idd.0@)).push(
                ValModel::Tree(Seq::empty()),
            )
            &&& s5.m.regs == s.m.regs
            &&& s5.m.done == s.m.done
            &&& s5.tasks == s.tasks.drop_last()
        }),
{
    let ts0 = s.tasks.drop_last();
    let h0 = s.m.heap.len() as int;
    let fc = v->FnCall_0;
    let callee = rc_val(fc.0);
    let s1 = spec_step(s).0;
    assert(sched_args(fc.1@) =~= Seq::<TaskM>::empty());
    let ts1 = ts0 + seq![TaskM::TCall, TaskM::TValue(callee)];
    assert(s1.tasks =~= ts1);
    assert(ts1.last() == TaskM::TValue(callee));
    assert(ts1.drop_last() =~= ts0 + seq![TaskM::TCall]);
    assert(s1.m == s.m);
    lemma_name_read(s1, callee, idd, d);
    let s4 = steps(s1, 3);
    assert(s4.tasks =~= ts0 + seq![TaskM::TCall]);
    let s5 = spec_step(s4).0;
    assert((ts0 + seq![TaskM::TCall]).last() == TaskM::TCall);
    assert((ts0 + seq![TaskM::TCall]).drop_last() =~= ts0);
    assert(s4.m.stack.last() == d);
    assert(s4.m.heap[d] == ValModel::Native(NativeOp::Dict));
    assert(s5.m.stack =~= s.m.stack.push(h0 + 1));
    assert(s5.m.heap =~= s.m.heap.push(ValModel::Str(idd.0@)).push(
        ValModel::Tree(Seq::empty()),
    ));
    assert(steps(s1, 4) == s5) by {
        lemma_steps_add(s1, 3, 1);
        reveal_with_fuel(steps, 2);
    }
    assert(steps(s, 5) == s5) by {
        lemma_steps_add(s, 1, 4);
        reveal_with_fuel(steps, 2);
    }
}

/// Aliasing: after `a = dict(); b = a; a.k = 1`, reading `b.k` yields `1`.
/// The second assignment binds `b` to the very cell `a` is bound to, the
/// dotted write mutates that shared cell's interior in place, and the read
/// through `b` reaches the same interior cell.
#[verifier::rlimit(100)]
pub proof fn law_aliasing(
    s: IState,
    e1: Expr,
    e2: Expr,
    e3: Expr,
    vr: Value,
    ia: Identifier,
    ib: Identifier,
    ik: Identifier,
    idd: Identifier,
    d: int,
)
    requires
        s.tasks.len() >= 4,
        s.tasks[s.tasks.len() - 1] == TaskM::TExpr(e1),
        s.tasks[s.tasks.len() - 2] == TaskM::TExpr(e2),
        s.tasks[s.tasks.len() - 3] == TaskM::TExpr(e3),
        s.tasks[s.tasks.len() - 4] == TaskM::TValue(vr),
        // a = dict()
        ({
            &&& e1 matches Expr::Assignment(n1, v1)
            &&& n1 == Name::Name(ia)
            &&& (*v1) matches Value::FnCall(fc)
            &&& *fc.0 == Value::Name(Name::Name(idd))
            &&& fc.1@.len() == 0
        }),
        // b = a
        (e2 matches Expr::Assignment(n2, v2) && n2 == Name::Name(ib) && (*v2) == Value::Name(
            Name::Name(ia),
        )),
        // a.k = 1
        ({
            &&& e3 matches Expr::Assignment(n3, v3)
            &&& n3 matches Name::DotName(head, ids)
            &&& (*head) == Value::Name(Name::Name(ia))
            &&& ids@ =~= seq![ik]
            &&& (*v3) == Value::Literal(Literal::Number(1))
        }),
        // read b.k
        ({
            &&& vr matches Value::Name(nr)
            &&& nr matches Name::DotName(head, ids)
            &&& (*head) == Value::Name(Name::Name(ib))
            &&& ids@ =~= seq![ik]
        }),
        assoc_lookup(s.m.regs, idd.0@) == Some(d),
        0 <= d < s.m.heap.len(),
        s.m.heap[d] == ValModel::Native(NativeOp::Dict),
        ia.0@ != ib.0@,
    ensures
        ({
            let sf = steps(s, 28);
            let h0 = s.m.heap.len() as int;
            &&& sf.m.stack == s.m.stack.push(h0 + 8)
            &&& sf.m.heap[h0 + 8] == ValModel::Num(1)
        }),
{
    let ts0 = s.tasks.drop_last();
    let h0 = s.m.heap.len() as int;
    let treecell = h0 + 1;
    // a = dict(): one scheduling step, then the call
    let s1 = spec_step(s).0;
    let v1 = rc_val(e1->Assignment_1);
    let ts1 = ts0 + seq![TaskM::TStore, TaskM::TPushStr(ia.0@), TaskM::TValue(v1)];
    assert(s1.tasks =~= ts1);
    assert(ts1.last() == TaskM::TValue(v1));
    lemma_dict_call(s1, v1, idd, d);
    let s6 = steps(s1, 5);
    assert(ts1.drop_last() =~= ts0 + seq![TaskM::TStore, TaskM::TPushStr(ia.0@)]);
    let s7 = spec_step(s6).0;
    assert((ts0 + seq![TaskM::TStore, TaskM::TPushStr(ia.0@)]).last() == TaskM::TPushStr(ia.0@));
    assert((ts0 + seq![TaskM::TStore, TaskM::TPushStr(ia.0@)]).drop_last() =~= ts0 + seq![
        TaskM::TStore,
    ]);
    let s8 = spec_step(s7).0;
    assert((ts0 + seq![TaskM::TStore]).last() == TaskM::TStore);
    assert((ts0 + seq![TaskM::TStore]).drop_last() =~= ts0);
    assert(s7.m.stack.last() == h0 + 2);
    assert(s7.m.heap[h0 + 2] == ValModel::Str(ia.0@));
    assert(s7.m.stack[s7.m.stack.len() - 2] == treecell);
    assert(s8.m.regs == assoc_set(s.m.regs, ia.0@, treecell));
    assert(s8.m.stack =~= s.m.stack);
    assert(s8.m.heap == s7.m.heap);
    assert(s8.m.heap[treecell] == ValModel::Tree(Seq::empty()));
    assert(s8.tasks =~= ts0);
    assert(steps(s, 8) == s8) by {
        lemma_steps_add(s, 1, 5);
        lemma_steps_add(s, 6, 1);
        lemma_steps_add(s, 7, 1);
        reveal_with_fuel(steps, 2);
    }
    // b = a: bind b to the same cell
    lemma_set_lookup(s.m.regs, ia.0@, treecell);
    let ts0b = ts0.drop_last();
    assert(ts0.last() == TaskM::TExpr(e2));
    let s9 = spec_step(s8).0;
    let v2 = rc_val(e2->Assignment_1);
    let ts9 = ts0b + seq![TaskM::TStore, TaskM::TPushStr(ib.0@), TaskM::TValue(v2)];
    assert(s9.tasks =~= ts9);
    assert(ts9.last() == TaskM::TValue(v2));
    lemma_name_read(s9, v2, ia, treecell);
    let s12 = steps(s9, 3);
    assert(ts9.drop_last() =~= ts0b + seq![TaskM::TStore, TaskM::TPushStr(ib.0@)]);
    let s13 = spec_step(s12).0;
    assert((ts0b + seq![TaskM::TStore, TaskM::TPushStr(ib.0@)]).last() == TaskM::TPushStr(
        ib.0@,
    ));
    assert((ts0b + seq![TaskM::TStore, TaskM::TPushStr(ib.0@)]).drop_last() =~= ts0b + seq![
        TaskM::TStore,
    ]);
    let s14 = spec_step(s13).0;
    assert((ts0b + seq![TaskM::TStore]).last() == TaskM::TStore);
    assert((ts0b + seq![TaskM::TStore]).drop_last() =~= ts0b);
    assert(s13.m.stack.last() == s12.m.heap.len() as int);
    assert(s13.m.heap.last() == ValModel::Str(ib.0@));
    assert(s13.m.stack[s13.m.stack.len() - 2] == treecell);
    assert(s14.m.regs == assoc_set(s8.m.regs, ib.0@, treecell));
    assert(s14.m.stack =~= s.m.stack);
    assert(s14.m.heap[treecell] == ValModel::Tree(Seq::empty()));
    assert(s14.tasks =~= ts0b);
    assert(steps(s, 14) == s14) by {
        lemma_steps_add(s, 8, 1);
        lemma_steps_add(s, 9, 3);
        lemma_steps_add(s, 12, 1);
        lemma_steps_add(s, 13, 1);
        reveal_with_fuel(steps, 2);
    }
    // a.k = 1: write through the shared cell's interior
    lemma_set_lookup_other(s8.m.regs, ib.0@, treecell, ia.0@);
    assert(assoc_lookup(s14.m.regs, ia.0@) == Some(treecell));
    let ts0c = ts0b.drop_last();
    assert(ts0b.last() == TaskM::TExpr(e3));
    let s15 = spec_step(s14).0;
    let n3 = e3->Assignment_0;
    let v3 = rc_val(e3->Assignment_1);
    let head3 = rc_val(n3->DotName_0);
    assert(sched_dot(n3->DotName_1@) =~= seq![TaskM::TIndex, TaskM::TPushStr(ik.0@)]) by {
        assert(n3->DotName_1@.drop_first() =~= Seq::<Identifier>::empty());
        assert(sched_dot(Seq::<Identifier>::empty()) =~= Seq::<TaskM>::empty());
    }
    let ts15 = ts0c + seq![
        TaskM::TAssign,
        TaskM::TIndex,
        TaskM::TPushStr(ik.0@),
        TaskM::TValue(head3),
        TaskM::TValue(v3),
    ];
    assert(s15.tasks =~= ts15);
    assert(ts15.last() == TaskM::TValue(v3));
    let s16 = spec_step(s15).0;
    let numcell = s15.m.heap.len() as int;
    assert(s16.m.heap.last() == ValModel::Num(1));
    assert(ts15.drop_last() =~= ts0c + seq![
        TaskM::TAssign,
        TaskM::TIndex,
        TaskM::TPushStr(ik.0@),
        TaskM::TValue(head3),
    ]);
    assert(s16.tasks.last() == TaskM::TValue(head3));
    lemma_name_read(s16, head3, ia, treecell);
    let s19 = steps(s16, 3);
    assert(s19.tasks =~= ts0c + seq![
        TaskM::TAssign,
        TaskM::TIndex,
        TaskM::TPushStr(ik.0@),
    ]);
    let s20 = spec_step(s19).0;
    assert((ts0c + seq![TaskM::TAssign, TaskM::TIndex, TaskM::TPushStr(ik.0@)]).last()
        == TaskM::TPushStr(ik.0@));
    assert((ts0c + seq![TaskM::TAssign, TaskM::TIndex, TaskM::TPushStr(ik.0@)]).drop_last()
        =~= ts0c + seq![TaskM::TAssign, TaskM::TIndex]);
    let kstrcell = s19.m.heap.len() as int;
    let s21 = spec_step(s20).0;
    assert((ts0c + seq![TaskM::TAssign, TaskM::TIndex]).last() == TaskM::TIndex);
    assert((ts0c + seq![TaskM::TAssign, TaskM::TIndex]).drop_last() =~= ts0c + seq![
        TaskM::TAssign,
    ]);
    // the index step: the key is absent, so a fresh interior cell is made
    let kcell = s20.m.heap.len() as int;
    assert(s20.m.stack.last() == kstrcell);
    assert(s20.m.heap[kstrcell] == ValModel::Str(ik.0@));
    assert(s20.m.stack[s20.m.stack.len() - 2] == treecell);
    assert(s20.m.heap[treecell] == ValModel::Tree(Seq::empty()));
    assert(crate::machine::key_of(s20.m, kstrcell) == ik.0@);
    assert(s21.m.heap[treecell] == ValModel::Tree(
        Seq::empty().push((ik.0@, kcell)),
    ));
    assert(s21.m.stack.last() == kcell);
    assert(s21.m.stack[s21.m.stack.len() - 2] == numcell);
    let s22 = spec_step(s21).0;
    assert((ts0c + seq![TaskM::TAssign]).last() == TaskM::TAssign);
    assert((ts0c + seq![TaskM::TAssign]).drop_last() =~= ts0c);
    assert(s21.m.heap[numcell] == ValModel::Num(1));
    assert(s22.m.heap[kcell] == ValModel::Num(1));
    assert(s22.m.heap[treecell] == ValModel::Tree(Seq::empty().push((ik.0@, kcell))));
    assert(s22.m.stack =~= s.m.stack);
    assert(s22.m.regs == s14.m.regs);
    assert(s22.tasks =~= ts0c);
    assert(steps(s, 22) == s22) by {
        lemma_steps_add(s, 14, 1);
        lemma_steps_add(s, 15, 1);
        lemma_steps_add(s, 16, 3);
        lemma_steps_add(s, 19, 1);
        lemma_steps_add(s, 20, 1);
        lemma_steps_add(s, 21, 1);
        reveal_with_fuel(steps, 2);
    }
    // read b.k: through b, the same interior cell comes back
    lemma_set_lookup(s8.m.regs, ib.0@, treecell);
    assert(assoc_lookup(s22.m.regs, ib.0@) == Some(treecell));
    let ts0d = ts0c.drop_last();
    assert(ts0c.last() == TaskM::TValue(vr));
    let s23 = spec_step(s22).0;
    let nr = vr->Name_0;
    let headr = rc_val(nr->DotName_0);
    assert(sched_dot(nr->DotName_1@) =~= seq![TaskM::TIndex, TaskM::TPushStr(ik.0@)]) by {
        assert(nr->DotName_1@.drop_first() =~= Seq::<Identifier>::empty());
        assert(sched_dot(Seq::<Identifier>::empty()) =~= Seq::<TaskM>::empty());
    }
    let ts23 = ts0d + seq![TaskM::TIndex, TaskM::TPushStr(ik.0@), TaskM::TValue(headr)];
    assert(s23.tasks =~= ts23);
    assert(ts23.last() == TaskM::TValue(headr));
    lemma_name_read(s23, headr, ib, treecell);
    let s26 = steps(s23, 3);
    assert(s26.tasks =~= ts0d + seq![TaskM::TIndex, TaskM::TPushStr(ik.0@)]);
    let s27 = spec_step(s26).0;
    assert((ts0d + seq![TaskM::TIndex, TaskM::TPushStr(ik.0@)]).last() == TaskM::TPushStr(
        ik.0@,
    ));
    assert((ts0d + seq![TaskM::TIndex, TaskM::TPushStr(ik.0@)]).drop_last() =~= ts0d + seq![
        TaskM::TIndex,
    ]);
    let s28 = spec_step(s27).0;
    assert((ts0d + seq![TaskM::TIndex]).last() == TaskM::TIndex);
    assert(s27.m.stack.last() == s26.m.heap.len() as int);
    assert(s27.m.heap.last() == ValModel::Str(ik.0@));
    assert(s27.m.stack[s27.m.stack.len() - 2] == treecell);
    assert(s27.m.heap[treecell] == ValModel::Tree(Seq::empty().push((ik.0@, kcell))));
    assert(assoc_lookup(Seq::empty().push((ik.0@, kcell)), ik.0@) == Some(kcell));
    assert(s28.m.stack =~= s.m.stack.push(kcell));
    assert(s28.m.heap[kcell] == ValModel::Num(1));
    assert(kcell == s.m.heap.len() as int + 8);
    assert(steps(s, 28) == s28) by {
        lemma_steps_add(s, 22, 1);
        lemma_steps_add(s, 23, 3);
        lemma_steps_add(s, 26, 1);
        lemma_steps_add(s, 27, 1);
        reveal_with_fuel(steps, 2);
    }
}

/// A while loop whose condition is the literal `0` executes its body not
/// at all: three steps — schedule, evaluate the condition, test it — drop
/// the loop, scheduling nothing, and only the dead condition cell remains
/// of it.
pub proof fn law_while_false_skips_body(s: IState, e: Expr, b: Suite)
    requires
        s.tasks.len() >= 1,
        s.tasks.last() == TaskM::TExpr(e),
        (e matches Expr::WhileLoop(c, body) && *c == Value::Literal(Literal::Number(0)) && *body
            == b),
    ensures
        ({
            let s3 = steps(s, 3);
            &&& s3.tasks == s.tasks.drop_last()
            &&& s3.m.stack == s.m.stack
            &&& s3.m.heap == s.m.heap.push(ValModel::Num(0))
            &&& s3.m.regs == s.m.regs
            &&& s3.m.done == s.m.done
        }),
{
    let ts0 = s.tasks.drop_last();
    let cond = (e->WhileLoop_0);
    let s1 = spec_step(s).0;
    assert(ts0.push(TaskM::TWhile(rc_val(cond), b)).push(TaskM::TValue(rc_val(cond))).drop_last() =~= ts0.push(
        TaskM::TWhile(rc_val(cond), b),
    ));
    let s2 = spec_step(s1).0;
    assert(ts0.push(TaskM::TWhile(rc_val(cond), b)).drop_last() =~= ts0);
    let s3 = spec_step(s2).0;
    assert(s2.m.stack.last() == s.m.heap.len() as int);
    assert(!truthy(s2.m.heap[s.m.heap.len() as int]));
    assert(s3.m.stack =~= s.m.stack);
    assert(steps(s, 3) == s3) by {
        reveal_with_fuel(steps, 4);
    }
}

/// A while loop whose condition is the literal `1` and whose body calls
/// the `exit` built-in terminates: after six steps the terminator flag is
/// up, and a run with any budget of at least six ends there, however large
/// the budget — the loop does not spin on.
pub proof fn law_while_exit_terminates(s: IState, e: Expr, b: Suite, fuel: nat)
    requires
        s.m.done == false,
        s.tasks.len() >= 1,
        s.tasks.last() == TaskM::TExpr(e),
        (e matches Expr::WhileLoop(c, body) && *c == Value::Literal(Literal::Number(1)) && *body
            == b),
        b.0@.len() == 1,
        ((*b.0@[0]) matches Expr::Value(v) && (*v) matches Value::FnCall(fc) && (*fc.0)
            == Value::Builtin(Builtin::Exit) && fc.1@.len() == 0),
        fuel >= 6,
    ensures
        steps(s, 6).m.done == true,
        spec_run(s, fuel) == (steps(s, 6), None::<ReqM>),
{
    let ts0 = s.tasks.drop_last();
    let cond = (e->WhileLoop_0);
    let body_expr = b.0@[0];
    let call_v = rc_val(body_expr)->Value_0;
    let fc = rc_val(call_v)->FnCall_0;
    let s1 = spec_step(s).0;
    let t_while = TaskM::TWhile(rc_val(cond), b);
    assert(ts0.push(t_while).push(TaskM::TValue(rc_val(cond))).drop_last() =~= ts0.push(t_while));
    let s2 = spec_step(s1).0;
    assert(ts0.push(t_while).drop_last() =~= ts0);
    let s3 = spec_step(s2).0;
    // the condition is true: the loop re-schedules itself and its body
    assert(s2.m.stack.last() == s.m.heap.len() as int);
    assert(truthy(s2.m.heap[s.m.heap.len() as int]));
    assert(sched_suite(b) =~= sched_exprs(b.0@));
    assert(b.0@.drop_first() =~= Seq::<std::rc::Rc<Expr>>::empty());
    assert(b.0@.first() == body_expr);
    assert(sched_exprs(Seq::<std::rc::Rc<Expr>>::empty()) =~= Seq::<TaskM>::empty());
    assert(sched_exprs(b.0@) =~= seq![TaskM::TExpr(rc_val(body_expr))]);
    let ts3 = ts0 + seq![t_while, TaskM::TValue(rc_val(cond))] + seq![TaskM::TExpr(rc_val(body_expr))];
    assert(s3.tasks =~= ts3);
    assert(ts3.last() == TaskM::TExpr(rc_val(body_expr)));
    let s4 = spec_step(s3).0;
    assert(ts3.drop_last() =~= ts0 + seq![t_while, TaskM::TValue(rc_val(cond))]);
    assert(s4.tasks =~= ts0 + seq![t_while, TaskM::TValue(rc_val(cond))] + seq![TaskM::TValue(rc_val(call_v))]);
    let s5 = spec_step(s4).0;
    // the call's callee is a built-in: no call task, no argument tasks
    assert(sched_args(fc.1@) =~= Seq::<TaskM>::empty());
    assert((ts0 + seq![t_while, TaskM::TValue(rc_val(cond))] + seq![TaskM::TValue(rc_val(call_v))]).drop_last()
        =~= ts0 + seq![t_while, TaskM::TValue(rc_val(cond))]);
    assert(s5.tasks =~= ts0 + seq![t_while, TaskM::TValue(rc_val(cond))] + seq![
        TaskM::TValue(Value::Builtin(Builtin::Exit)),
    ]);
    let s6 = spec_step(s5).0;
    assert((ts0 + seq![t_while, TaskM::TValue(rc_val(cond))] + seq![
        TaskM::TValue(Value::Builtin(Builtin::Exit)),
    ]).drop_last() =~= ts0 + seq![t_while, TaskM::TValue(rc_val(cond))]);
    assert(s6.m.done == true);
    assert(steps(s, 6) == s6) by {
        reveal_with_fuel(steps, 7);
    }
    // a run stops as soon as the flag is up, whatever is left of the budget
    assert(spec_step(s).1 is None);
    assert(spec_step(s1).1 is None);
    assert(spec_step(s2).1 is None);
    assert(spec_step(s3).1 is None);
    assert(spec_step(s4).1 is None);
    assert(spec_step(s5).1 is None);
    assert(s1.tasks.len() > 0 && s2.tasks.len() > 0 && s3.tasks.len() > 0 && s4.tasks.len() > 0
        && s5.tasks.len() > 0);
    assert(s1.m.done == false && s2.m.done == false && s3.m.done == false && s4.m.done == false
        && s5.m.done == false);
    assert(spec_run(s6, (fuel - 6) as nat) == (s6, None::<ReqM>));
    assert(spec_run(s, fuel) == (s6, None::<ReqM>)) by {
        reveal_with_fuel(spec_run, 7);
    }
}

} // verus!
