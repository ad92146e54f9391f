//! The executor: a task machine that lowers AST nodes into machine
//! operations, one small step at a time.
//!
//! Every AST node is executed by pushing tasks onto a task stack; a step
//! pops one task and either performs a machine operation or schedules the
//! tasks of the node's parts.  A step that needs the host (the filesystem,
//! the console) pauses the machine and hands back a [`HostReq`]; the caller
//! performs the effect and resumes.  The ghost function [`spec_step`] is the
//! small-step semantics of the language: the executable `step` is proved to
//! follow it exactly.

use vstd::prelude::*;
use std::rc::Rc;
use crate::tokens::{Builtin, Expr, FnCall, Function, Identifier, Literal, Name, Suite, Value,
    rc_clone};
use crate::machine::{HeapVal, Machine, MachineModel, NativeOp, ValModel, assoc_lookup, binop_val,
    eq_val, key_of, m_assign, m_index, m_load, m_popped, m_store, m_top_num, m_top_str,
    m_top_truthy, mwf, params_model, val_wf};
use crate::render::{DISPLAY_FUEL, render_val};

verus! {

/// The depth bound of structural equality.
pub const EQ_FUEL: u64 = 64;

/// One pending piece of work.
pub enum Task {
    /// Execute a statement.
    TExpr(Rc<Expr>),
    /// Evaluate a value expression, leaving one cell on the stack.
    TValue(Rc<Value>),
    /// Push a fresh string cell.
    TPushStr(String),
    /// Push an existing cell.
    TPushCell(usize),
    /// The machine's `load`.
    TLoad,
    /// The machine's `store`.
    TStore,
    /// The machine's `index`.
    TIndex,
    /// The machine's `assign`.
    TAssign,
    /// The machine's `call`: pop a function value and enter it.
    TCall,
    /// Push a fresh closure cell.
    TClosure(Function),
    /// Re-test a while condition and re-schedule its body.
    TWhile(Rc<Value>, Rc<Suite>),
    /// Pop the condition and schedule one of the two branches.
    TBranch(Rc<Suite>, Rc<Suite>),
}

/// The mathematical value of a task.
pub ghost enum TaskM {
    TExpr(Expr),
    TValue(Value),
    TPushStr(Seq<char>),
    TPushCell(int),
    TLoad,
    TStore,
    TIndex,
    TAssign,
    TCall,
    TClosure(Seq<Seq<char>>, Suite),
    TWhile(Value, Suite),
    TBranch(Suite, Suite),
}

impl View for Task {
    type V = TaskM;

    open spec fn view(&self) -> TaskM {
        match self {
            Task::TExpr(e) => TaskM::TExpr(**e),
            Task::TValue(v) => TaskM::TValue(**v),
            Task::TPushStr(s) => TaskM::TPushStr(s@),
            Task::TPushCell(c) => TaskM::TPushCell(*c as int),
            Task::TLoad => TaskM::TLoad,
            Task::TStore => TaskM::TStore,
            Task::TIndex => TaskM::TIndex,
            Task::TAssign => TaskM::TAssign,
            Task::TCall => TaskM::TCall,
            Task::TClosure(f) => TaskM::TClosure(params_model(f.0@), *f.1),
            Task::TWhile(c, b) => TaskM::TWhile(**c, **b),
            Task::TBranch(t, e) => TaskM::TBranch(**t, **e),
        }
    }
}

/// A host effect requested by the running program.  The machine is paused
/// while the front end performs it; requests carrying a reply are answered
/// through `resume_str` or `resume_list`.
#[derive(Debug)]
pub enum HostReq {
    /// Push the current directory (reply: one string).
    Pwd,
    /// Push the child names of a directory (reply: a list of strings).
    Ls(Option<String>),
    /// Change the current directory.
    Cd(String),
    /// Rename a file or directory.
    Mv(String, String),
    /// Remove a file or directory tree.
    Rm(String),
    /// Create a directory and its parents.
    Mkdir(String),
    /// Create an empty file.
    Mkf(String),
    /// Spawn a command line.
    Sh(String),
    /// Clear the terminal.
    ClearScreen,
    /// Write text, without a newline.
    Print(String),
    /// Write one line of text.
    PrintLine(String),
    /// Prompt with the text and read a line (reply: one string).
    Input(String),
    /// Parse and run a program in a fresh shell, printing its stack.
    Eval(String),
    /// Show the banner and the machine state.
    ShowInfo,
    /// Show the logo.
    ShowLogo,
}

/// The mathematical value of a request.
pub ghost enum ReqM {
    Pwd,
    Ls(Option<Seq<char>>),
    Cd(Seq<char>),
    Mv(Seq<char>, Seq<char>),
    Rm(Seq<char>),
    Mkdir(Seq<char>),
    Mkf(Seq<char>),
    Sh(Seq<char>),
    ClearScreen,
    Print(Seq<char>),
    PrintLine(Seq<char>),
    Input(Seq<char>),
    Eval(Seq<char>),
    ShowInfo,
    ShowLogo,
}

impl View for HostReq {
    type V = ReqM;

    open spec fn view(&self) -> ReqM {
        match self {
            HostReq::Pwd => ReqM::Pwd,
            HostReq::Ls(d) => ReqM::Ls(
                match d {
                    Some(s) => Some(s@),
                    None => None,
                },
            ),
            HostReq::Cd(s) => ReqM::Cd(s@),
            HostReq::Mv(a, b) => ReqM::Mv(a@, b@),
            HostReq::Rm(s) => ReqM::Rm(s@),
            HostReq::Mkdir(s) => ReqM::Mkdir(s@),
            HostReq::Mkf(s) => ReqM::Mkf(s@),
            HostReq::Sh(s) => ReqM::Sh(s@),
            HostReq::ClearScreen => ReqM::ClearScreen,
            HostReq::Print(s) => ReqM::Print(s@),
            HostReq::PrintLine(s) => ReqM::PrintLine(s@),
            HostReq::Input(s) => ReqM::Input(s@),
            HostReq::Eval(s) => ReqM::Eval(s@),
            HostReq::ShowInfo => ReqM::ShowInfo,
            HostReq::ShowLogo => ReqM::ShowLogo,
        }
    }
}

/// The mathematical value of an optional request.
pub open spec fn req_model(r: Option<HostReq>) -> Option<ReqM> {
    match r {
        Some(req) => Some(req@),
        None => None,
    }
}

/// The executor: a machine together with its pending tasks.
pub struct Interp {
    pub machine: Machine,
    pub tasks: Vec<Task>,
}

/// The mathematical state of the executor.
pub ghost struct IState {
    pub m: MachineModel,
    pub tasks: Seq<TaskM>,
}

/// The mathematical value of a task list.
pub open spec fn tasks_model(ts: Seq<Task>) -> Seq<TaskM> {
    ts.map(|i: int, t: Task| t@)
}

impl View for Interp {
    type V = IState;

    open spec fn view(&self) -> IState {
        IState { m: self.machine@, tasks: tasks_model(self.tasks@) }
    }
}

/// The tasks of a statement sequence, first statement on top.
pub open spec fn sched_exprs(es: Seq<Rc<Expr>>) -> Seq<TaskM>
    decreases es.len(),
{
    if es.len() == 0 {
        Seq::empty()
    } else {
        sched_exprs(es.drop_first()) + seq![TaskM::TExpr(*es.first())]
    }
}

/// The tasks of a suite.
pub open spec fn sched_suite(s: Suite) -> Seq<TaskM> {
    sched_exprs(s.0@)
}

/// The tasks that bind call parameters, first parameter on top: each pops
/// one argument off the stack into the register tree.
pub open spec fn sched_binds(ps: Seq<Seq<char>>) -> Seq<TaskM>
    decreases ps.len(),
{
    if ps.len() == 0 {
        Seq::empty()
    } else {
        sched_binds(ps.drop_first()) + seq![TaskM::TStore, TaskM::TPushStr(ps.first())]
    }
}

/// The tasks of a dotted selector path, first selector on top.
pub open spec fn sched_dot(ids: Seq<Identifier>) -> Seq<TaskM>
    decreases ids.len(),
{
    if ids.len() == 0 {
        Seq::empty()
    } else {
        sched_dot(ids.drop_first()) + seq![TaskM::TIndex, TaskM::TPushStr(ids.first().0@)]
    }
}

/// The tasks of an indexed selector path, first selector on top.
pub open spec fn sched_idx(vs: Seq<Rc<Value>>) -> Seq<TaskM>
    decreases vs.len(),
{
    if vs.len() == 0 {
        Seq::empty()
    } else {
        sched_idx(vs.drop_first()) + seq![TaskM::TIndex, TaskM::TValue(*vs.first())]
    }
}

/// The argument tasks of a call: the last argument is evaluated first, so
/// the first argument's value ends on top of the stack at entry.
pub open spec fn sched_args(args: Seq<Rc<Value>>) -> Seq<TaskM> {
    args.map(|i: int, rc: Rc<Value>| TaskM::TValue(*rc))
}

/// The tasks that feed each list item through a mapped function, first item
/// on top.
pub open spec fn sched_map_items(ids: Seq<int>, f: int) -> Seq<TaskM>
    decreases ids.len(),
{
    if ids.len() == 0 {
        Seq::empty()
    } else {
        sched_map_items(ids.drop_first(), f) + seq![
            TaskM::TCall,
            TaskM::TPushCell(f),
            TaskM::TPushCell(ids.first()),
        ]
    }
}

/// The tasks that read or locate a name: the head value is evaluated and
/// each selector pushes the selected interior cell.
pub open spec fn sched_name(n: Name) -> Seq<TaskM> {
    match n {
        Name::Name(id) => seq![TaskM::TLoad, TaskM::TPushStr(id.0@)],
        Name::DotName(head, ids) => sched_dot(ids@) + seq![TaskM::TValue(*head)],
        Name::IndexName(head, vs) => sched_idx(vs@) + seq![TaskM::TValue(*head)],
    }
}

/// Push one model value onto the machine, in a fresh cell.
pub open spec fn m_push_val(m: MachineModel, v: ValModel) -> MachineModel {
    MachineModel {
        heap: m.heap.push(v),
        stack: m.stack.push(m.heap.len() as int),
        ..m
    }
}

/// One statement, lowered to tasks.
pub open spec fn step_expr(s: IState, e: Expr) -> IState {
    match e {
        Expr::Assignment(name, v) => match name {
            Name::Name(id) => IState {
                tasks: s.tasks + seq![
                    TaskM::TStore,
                    TaskM::TPushStr(id.0@),
                    TaskM::TValue(*v),
                ],
                ..s
            },
            other => IState {
                tasks: s.tasks + seq![TaskM::TAssign] + sched_name(other) + seq![
                    TaskM::TValue(*v),
                ],
                ..s
            },
        },
        Expr::WhileLoop(c, b) => IState {
            tasks: s.tasks + seq![TaskM::TWhile(*c, *b), TaskM::TValue(*c)],
            ..s
        },
        Expr::IfThenElse(c, t, e2) => IState {
            tasks: s.tasks + seq![TaskM::TBranch(*t, *e2), TaskM::TValue(*c)],
            ..s
        },
        Expr::FunctionDef(fd) => {
            let params = params_model(fd.1.0@);
            let body = *fd.1.1;
            match fd.0 {
                Name::Name(id) => IState {
                    tasks: s.tasks + seq![
                        TaskM::TStore,
                        TaskM::TPushStr(id.0@),
                        TaskM::TClosure(params, body),
                    ],
                    ..s
                },
                other => IState {
                    tasks: s.tasks + seq![TaskM::TAssign] + sched_name(other) + seq![
                        TaskM::TClosure(params, body),
                    ],
                    ..s
                },
            }
        },
        Expr::Value(v) => IState { tasks: s.tasks + seq![TaskM::TValue(*v)], ..s },
    }
}

/// One shell built-in.  The operands come off the stack here; the effect is
/// the returned request, which holds for every outcome of the host.  An
/// empty path makes `rm`, `mkdir` and `mkf` silent no-ops.
pub open spec fn step_builtin(s: IState, b: Builtin) -> (IState, Option<ReqM>) {
    match b {
        Builtin::Clear => (s, Some(ReqM::ClearScreen)),
        Builtin::List => {
            if s.m.stack.len() == 0 {
                (s, Some(ReqM::Ls(None)))
            } else {
                (
                    IState { m: m_popped(s.m), ..s },
                    Some(
                        ReqM::Ls(
                            Some(render_val(s.m.heap, s.m.stack.last(), DISPLAY_FUEL as nat)),
                        ),
                    ),
                )
            }
        },
        Builtin::ChangeDir => (
            IState { m: m_popped(s.m), ..s },
            Some(ReqM::Cd(m_top_str(s.m))),
        ),
        Builtin::Move => {
            let from = m_top_str(s.m);
            let m1 = m_popped(s.m);
            let to = m_top_str(m1);
            (IState { m: m_popped(m1), ..s }, Some(ReqM::Mv(from, to)))
        },
        Builtin::Remove => {
            let path = m_top_str(s.m);
            let s1 = IState { m: m_popped(s.m), ..s };
            if path.len() == 0 {
                (s1, None)
            } else {
                (s1, Some(ReqM::Rm(path)))
            }
        },
        Builtin::MakeDir => {
            let path = m_top_str(s.m);
            let s1 = IState { m: m_popped(s.m), ..s };
            if path.len() == 0 {
                (s1, None)
            } else {
                (s1, Some(ReqM::Mkdir(path)))
            }
        },
        Builtin::MakeFile => {
            let path = m_top_str(s.m);
            let s1 = IState { m: m_popped(s.m), ..s };
            if path.len() == 0 {
                (s1, None)
            } else {
                (s1, Some(ReqM::Mkf(path)))
            }
        },
        Builtin::ShellOut => (
            IState { m: m_popped(s.m), ..s },
            Some(ReqM::Sh(m_top_str(s.m))),
        ),
        Builtin::WorkingDir => (s, Some(ReqM::Pwd)),
        Builtin::Exit => (
            IState { m: MachineModel { done: true, ..s.m }, ..s },
            None,
        ),
    }
}

/// One host-provided primitive, entered through `call`.
pub open spec fn step_native(s: IState, op: NativeOp) -> (IState, Option<ReqM>) {
    match op {
        NativeOp::Print => {
            if s.m.stack.len() == 0 {
                (s, Some(ReqM::Print(Seq::empty())))
            } else {
                (
                    IState { m: m_popped(s.m), ..s },
                    Some(
                        ReqM::Print(render_val(s.m.heap, s.m.stack.last(), DISPLAY_FUEL as nat)),
                    ),
                )
            }
        },
        NativeOp::Println => {
            if s.m.stack.len() == 0 {
                (s, Some(ReqM::PrintLine(Seq::empty())))
            } else {
                (
                    IState { m: m_popped(s.m), ..s },
                    Some(
                        ReqM::PrintLine(
                            render_val(s.m.heap, s.m.stack.last(), DISPLAY_FUEL as nat),
                        ),
                    ),
                )
            }
        },
        NativeOp::Dict => (
            IState { m: m_push_val(s.m, ValModel::Tree(Seq::empty())), ..s },
            None,
        ),
        NativeOp::MapList => {
            if s.m.stack.len() == 0 {
                (s, None)
            } else {
                let f = s.m.stack.last();
                let m1 = m_popped(s.m);
                if m1.stack.len() == 0 {
                    (IState { m: m1, ..s }, None)
                } else {
                    let l = m1.stack.last();
                    let m2 = m_popped(m1);
                    match m2.heap[l] {
                        ValModel::List(ids) => (
                            IState { m: m2, tasks: s.tasks + sched_map_items(ids, f) },
                            None,
                        ),
                        _ => (IState { m: m2, ..s }, None),
                    }
                }
            }
        },
        NativeOp::Not => {
            if s.m.stack.len() == 0 {
                (s, None)
            } else {
                let v = if m_top_truthy(s.m) {
                    0int
                } else {
                    1int
                };
                (
                    IState { m: m_push_val(m_popped(s.m), ValModel::Num(v)), ..s },
                    None,
                )
            }
        },
        NativeOp::Eq | NativeOp::Neq => {
            let equal = if s.m.stack.len() == 0 {
                true  // two missing operands compare equal
            } else if s.m.stack.len() == 1 {
                false  // one operand present, one missing
            } else {
                eq_val(
                    s.m.heap,
                    s.m.stack.last(),
                    s.m.stack[s.m.stack.len() - 2],
                    EQ_FUEL as nat,
                )
            };
            let hit = if op == NativeOp::Eq {
                equal
            } else {
                !equal
            };
            let v = if hit {
                1int
            } else {
                0int
            };
            (
                IState {
                    m: m_push_val(m_popped(m_popped(s.m)), ValModel::Num(v)),
                    ..s
                },
                None,
            )
        },
        NativeOp::Gt | NativeOp::Lt | NativeOp::Le | NativeOp::Ge => {
            let a = m_top_num(s.m);
            let m1 = m_popped(s.m);
            let b = m_top_num(m1);
            let m2 = m_popped(m1);
            let hit = match op {
                NativeOp::Gt => a > b,
                NativeOp::Lt => a < b,
                NativeOp::Le => a <= b,
                _ => a >= b,
            };
            let v = if hit {
                1int
            } else {
                0int
            };
            (IState { m: m_push_val(m2, ValModel::Num(v)), ..s }, None)
        },
        NativeOp::Add | NativeOp::Sub | NativeOp::Mul | NativeOp::Div | NativeOp::Rem => {
            if s.m.stack.len() == 0 {
                (s, None)
            } else if s.m.stack.len() == 1 {
                (IState { m: m_popped(s.m), ..s }, None)
            } else {
                let a = s.m.stack.last();
                let b = s.m.stack[s.m.stack.len() - 2];
                let m2 = m_popped(m_popped(s.m));
                (
                    IState {
                        m: m_push_val(m2, binop_val(op, s.m.heap[a], s.m.heap[b])),
                        ..s
                    },
                    None,
                )
            }
        },
        NativeOp::Input => {
            if s.m.stack.len() == 0 {
                (s, Some(ReqM::Input(Seq::empty())))
            } else {
                (
                    IState { m: m_popped(s.m), ..s },
                    Some(
                        ReqM::Input(render_val(s.m.heap, s.m.stack.last(), DISPLAY_FUEL as nat)),
                    ),
                )
            }
        },
        NativeOp::Eval => {
            if s.m.stack.len() == 0 {
                (s, None)
            } else {
                (
                    IState { m: m_popped(s.m), ..s },
                    Some(
                        ReqM::Eval(render_val(s.m.heap, s.m.stack.last(), DISPLAY_FUEL as nat)),
                    ),
                )
            }
        },
        NativeOp::Help | NativeOp::Debug | NativeOp::Info => (s, Some(ReqM::ShowInfo)),
        NativeOp::Logo => (s, Some(ReqM::ShowLogo)),
    }
}

/// The `call` transition: pop a function value and enter it.  A closure
/// binds its parameters off the stack, first parameter first, then runs its
/// body; a native runs at once; any other value is dropped.
pub open spec fn step_call(s: IState) -> (IState, Option<ReqM>) {
    if s.m.stack.len() == 0 {
        (s, None)
    } else {
        let f = s.m.stack.last();
        let s1 = IState { m: m_popped(s.m), ..s };
        match s.m.heap[f] {
            ValModel::Closure(params, body) => (
                IState {
                    tasks: s1.tasks + sched_suite(body) + sched_binds(params),
                    ..s1
                },
                None,
            ),
            ValModel::Native(op) => step_native(s1, op),
            _ => (s1, None),
        }
    }
}

/// One value expression.
pub open spec fn step_value(s: IState, v: Value) -> (IState, Option<ReqM>) {
    match v {
        Value::Literal(Literal::String(txt)) => (
            IState { m: m_push_val(s.m, ValModel::Str(txt@)), ..s },
            None,
        ),
        Value::Literal(Literal::Number(n)) => (
            IState { m: m_push_val(s.m, ValModel::Num(n as int)), ..s },
            None,
        ),
        Value::Name(n) => (IState { tasks: s.tasks + sched_name(n), ..s }, None),
        Value::FnCall(FnCall(callee, args)) => {
            let tail = if *callee matches Value::Builtin(_) {
                seq![TaskM::TValue(*callee)]
            } else {
                seq![TaskM::TCall, TaskM::TValue(*callee)]
            };
            (
                IState { tasks: s.tasks + tail + sched_args(args@), ..s },
                None,
            )
        },
        Value::Builtin(b) => step_builtin(s, b),
        Value::Function(f) => (
            IState {
                m: m_push_val(s.m, ValModel::Closure(params_model(f.0@), *f.1)),
                ..s
            },
            None,
        ),
    }
}

/// The small-step semantics: pop the top task and perform it.  A finished
/// or task-less machine does not move.
pub open spec fn spec_step(s: IState) -> (IState, Option<ReqM>) {
    if s.tasks.len() == 0 {
        (s, None)
    } else {
        let t = s.tasks.last();
        let s0 = IState { m: s.m, tasks: s.tasks.drop_last() };
        match t {
            TaskM::TExpr(e) => (step_expr(s0, e), None),
            TaskM::TValue(v) => step_value(s0, v),
            TaskM::TPushStr(txt) => (
                IState { m: m_push_val(s0.m, ValModel::Str(txt)), ..s0 },
                None,
            ),
            TaskM::TPushCell(c) => {
                if 0 <= c < s0.m.heap.len() {
                    (
                        IState { m: MachineModel { stack: s0.m.stack.push(c), ..s0.m }, ..s0 },
                        None,
                    )
                } else {
                    (s0, None)
                }
            },
            TaskM::TLoad => (IState { m: m_load(s0.m), ..s0 }, None),
            TaskM::TStore => (IState { m: m_store(s0.m), ..s0 }, None),
            TaskM::TIndex => (IState { m: m_index(s0.m), ..s0 }, None),
            TaskM::TAssign => (IState { m: m_assign(s0.m), ..s0 }, None),
            TaskM::TCall => step_call(s0),
            TaskM::TClosure(params, body) => (
                IState { m: m_push_val(s0.m, ValModel::Closure(params, body)), ..s0 },
                None,
            ),
            TaskM::TWhile(c, b) => {
                let tr = m_top_truthy(s0.m);
                let s1 = IState { m: m_popped(s0.m), ..s0 };
                if tr {
                    (
                        IState {
                            tasks: s1.tasks + seq![TaskM::TWhile(c, b), TaskM::TValue(c)]
                                + sched_suite(b),
                            ..s1
                        },
                        None,
                    )
                } else {
                    (s1, None)
                }
            },
            TaskM::TBranch(t2, e2) => {
                let tr = m_top_truthy(s0.m);
                let s1 = IState { m: m_popped(s0.m), ..s0 };
                if tr {
                    (IState { tasks: s1.tasks + sched_suite(t2), ..s1 }, None)
                } else {
                    (IState { tasks: s1.tasks + sched_suite(e2), ..s1 }, None)
                }
            },
        }
    }
}

/// Append one task; the task list's value grows by the task's value.
fn push_task(tasks: &mut Vec<Task>, t: Task)
    ensures
        tasks_model(final(tasks)@) == tasks_model(old(tasks)@).push(t@),
{
    let ghost prev = tasks@;
    let ghost tm = t@;
    tasks.push(t);
    proof {
        assert(tasks_model(tasks@) =~= tasks_model(prev).push(tm));
    }
}

/// Append the tasks of a statement sequence.
fn sched_exprs_exec(tasks: &mut Vec<Task>, es: &Vec<Rc<Expr>>)
    ensures
        tasks_model(final(tasks)@) == tasks_model(old(tasks)@) + sched_exprs(es@),
{
    let ghost orig = tasks_model(old(tasks)@);
    let mut i: usize = es.len();
    proof {
        assert(tasks_model(tasks@) =~= orig + sched_exprs(es@.skip(i as int)));
    }
    while i > 0
        invariant
            i <= es.len(),
            tasks_model(tasks@) == orig + sched_exprs(es@.skip(i as int)),
        decreases i,
    {
        i = i - 1;
        push_task(tasks, Task::TExpr(rc_clone(&es[i])));
        proof {
            assert(es@.skip(i as int).drop_first() =~= es@.skip(i as int + 1));
            assert(es@.skip(i as int).first() == es@[i as int]);
            assert(sched_exprs(es@.skip(i as int)) == sched_exprs(es@.skip(i as int + 1))
                + seq![TaskM::TExpr(*es@[i as int])]);
            assert(tasks_model(tasks@) =~= orig + sched_exprs(es@.skip(i as int)));
        }
    }
    proof {
        assert(es@.skip(0) =~= es@);
    }
}

/// Append the parameter-binding tasks of a call.
fn sched_binds_exec(tasks: &mut Vec<Task>, params: &Vec<Identifier>)
    ensures
        tasks_model(final(tasks)@) == tasks_model(old(tasks)@) + sched_binds(
            params_model(params@),
        ),
{
    let ghost orig = tasks_model(old(tasks)@);
    let ghost ps = params_model(params@);
    let mut i: usize = params.len();
    proof {
        assert(tasks_model(tasks@) =~= orig + sched_binds(ps.skip(i as int)));
    }
    while i > 0
        invariant
            i <= params.len(),
            ps == params_model(params@),
            tasks_model(tasks@) == orig + sched_binds(ps.skip(i as int)),
        decreases i,
    {
        i = i - 1;
        push_task(tasks, Task::TStore);
        push_task(tasks, Task::TPushStr(params[i].0.clone()));
        proof {
            assert(ps.skip(i as int).drop_first() =~= ps.skip(i as int + 1));
            assert(ps.skip(i as int).first() == params@[i as int].0@);
            assert(sched_binds(ps.skip(i as int)) == sched_binds(ps.skip(i as int + 1)) + seq![
                TaskM::TStore,
                TaskM::TPushStr(ps[i as int]),
            ]);
            assert(tasks_model(tasks@) =~= orig + sched_binds(ps.skip(i as int)));
        }
    }
    proof {
        assert(ps.skip(0) =~= ps);
    }
}

/// Append the selector tasks of a dotted path.
fn sched_dot_exec(tasks: &mut Vec<Task>, ids: &Vec<Identifier>)
    ensures
        tasks_model(final(tasks)@) == tasks_model(old(tasks)@) + sched_dot(ids@),
{
    let ghost orig = tasks_model(old(tasks)@);
    let mut i: usize = ids.len();
    proof {
        assert(tasks_model(tasks@) =~= orig + sched_dot(ids@.skip(i as int)));
    }
    while i > 0
        invariant
            i <= ids.len(),
            tasks_model(tasks@) == orig + sched_dot(ids@.skip(i as int)),
        decreases i,
    {
        i = i - 1;
        push_task(tasks, Task::TIndex);
        push_task(tasks, Task::TPushStr(ids[i].0.clone()));
        proof {
            assert(ids@.skip(i as int).drop_first() =~= ids@.skip(i as int + 1));
            assert(ids@.skip(i as int).first() == ids@[i as int]);
            assert(sched_dot(ids@.skip(i as int)) == sched_dot(ids@.skip(i as int + 1)) + seq![
                TaskM::TIndex,
                TaskM::TPushStr(ids@[i as int].0@),
            ]);
            assert(tasks_model(tasks@) =~= orig + sched_dot(ids@.skip(i as int)));
        }
    }
    proof {
        assert(ids@.skip(0) =~= ids@);
    }
}

/// Append the selector tasks of an indexed path.
fn sched_idx_exec(tasks: &mut Vec<Task>, vs: &Vec<Rc<Value>>)
    ensures
        tasks_model(final(tasks)@) == tasks_model(old(tasks)@) + sched_idx(vs@),
{
    let ghost orig = tasks_model(old(tasks)@);
    let mut i: usize = vs.len();
    proof {
        assert(tasks_model(tasks@) =~= orig + sched_idx(vs@.skip(i as int)));
    }
    while i > 0
        invariant
            i <= vs.len(),
            tasks_model(tasks@) == orig + sched_idx(vs@.skip(i as int)),
        decreases i,
    {
        i = i - 1;
        push_task(tasks, Task::TIndex);
        push_task(tasks, Task::TValue(rc_clone(&vs[i])));
        proof {
            assert(vs@.skip(i as int).drop_first() =~= vs@.skip(i as int + 1));
            assert(vs@.skip(i as int).first() == vs@[i as int]);
            assert(sched_idx(vs@.skip(i as int)) == sched_idx(vs@.skip(i as int + 1)) + seq![
                TaskM::TIndex,
                TaskM::TValue(*vs@[i as int]),
            ]);
            assert(tasks_model(tasks@) =~= orig + sched_idx(vs@.skip(i as int)));
        }
    }
    proof {
        assert(vs@.skip(0) =~= vs@);
    }
}

/// Append the argument tasks of a call, in source order: the task at the
/// top evaluates the last argument, so the first argument is evaluated
/// last and its value ends on top.
fn sched_args_exec(tasks: &mut Vec<Task>, args: &Vec<Rc<Value>>)
    ensures
        tasks_model(final(tasks)@) == tasks_model(old(tasks)@) + sched_args(args@),
{
    let ghost orig = tasks_model(old(tasks)@);
    let mut i: usize = 0;
    proof {
        assert(sched_args(args@.subrange(0, 0)) =~= Seq::<TaskM>::empty());
        assert(tasks_model(tasks@) =~= orig + sched_args(args@.subrange(0, 0)));
    }
    while i < args.len()
        invariant
            i <= args.len(),
            tasks_model(tasks@) == orig + sched_args(args@.subrange(0, i as int)),
        decreases args.len() - i,
    {
        push_task(tasks, Task::TValue(rc_clone(&args[i])));
        proof {
            assert(sched_args(args@.subrange(0, i as int + 1)) =~= sched_args(
                args@.subrange(0, i as int),
            ) + seq![TaskM::TValue(*args@[i as int])]);
            assert(tasks_model(tasks@) =~= orig + sched_args(args@.subrange(0, i as int + 1)));
        }
        i = i + 1;
    }
    proof {
        assert(args@.subrange(0, args@.len() as int) =~= args@);
    }
}

/// Append the tasks that feed list items through a mapped function.
fn sched_map_exec(tasks: &mut Vec<Task>, ids: &Vec<usize>, f: usize)
    ensures
        tasks_model(final(tasks)@) == tasks_model(old(tasks)@) + sched_map_items(
            ids@.map(|i: int, c: usize| c as int),
            f as int,
        ),
{
    let ghost orig = tasks_model(old(tasks)@);
    let ghost idm = ids@.map(|i: int, c: usize| c as int);
    let mut i: usize = ids.len();
    proof {
        assert(tasks_model(tasks@) =~= orig + sched_map_items(idm.skip(i as int), f as int));
    }
    while i > 0
        invariant
            i <= ids.len(),
            idm == ids@.map(|j: int, c: usize| c as int),
            tasks_model(tasks@) == orig + sched_map_items(idm.skip(i as int), f as int),
        decreases i,
    {
        i = i - 1;
        push_task(tasks, Task::TCall);
        push_task(tasks, Task::TPushCell(f));
        push_task(tasks, Task::TPushCell(ids[i]));
        proof {
            assert(idm.skip(i as int).drop_first() =~= idm.skip(i as int + 1));
            assert(idm.skip(i as int).first() == idm[i as int]);
            assert(sched_map_items(idm.skip(i as int), f as int) == sched_map_items(
                idm.skip(i as int + 1),
                f as int,
            ) + seq![TaskM::TCall, TaskM::TPushCell(f as int), TaskM::TPushCell(idm[i as int])]);
            assert(tasks_model(tasks@) =~= orig + sched_map_items(idm.skip(i as int), f as int));
        }
    }
    proof {
        assert(idm.skip(0) =~= idm);
    }
}

/// Append the tasks that read or locate a name.
fn sched_name_exec(tasks: &mut Vec<Task>, n: &Name)
    ensures
        tasks_model(final(tasks)@) == tasks_model(old(tasks)@) + sched_name(*n),
{
    match n {
        Name::Name(id) => {
            push_task(tasks, Task::TLoad);
            push_task(tasks, Task::TPushStr(id.0.clone()));
            proof {
                assert(tasks_model(tasks@) =~= tasks_model(old(tasks)@) + sched_name(*n));
            }
        },
        Name::DotName(head, ids) => {
            sched_dot_exec(tasks, ids);
            push_task(tasks, Task::TValue(rc_clone(head)));
            proof {
                assert(tasks_model(tasks@) =~= tasks_model(old(tasks)@) + sched_name(*n));
            }
        },
        Name::IndexName(head, vs) => {
            sched_idx_exec(tasks, vs);
            push_task(tasks, Task::TValue(rc_clone(head)));
            proof {
                assert(tasks_model(tasks@) =~= tasks_model(old(tasks)@) + sched_name(*n));
            }
        },
    }
}

/// Whether a string is empty.
fn str_is_empty(s: &String) -> (r: bool)
    ensures
        r == (s@.len() == 0),
{
    vstd::string::StrSliceExecFns::unicode_len(s.as_str()) == 0
}

impl Interp {
    /// A fresh executor: a new machine and nothing to do.
    pub fn new() -> (r: Interp)
        ensures
            r@.m == crate::machine::initial_model(),
            r@.tasks.len() == 0,
            mwf(r@.m),
    {
        let r = Interp { machine: Machine::new(), tasks: Vec::new() };
        proof {
            assert(tasks_model(r.tasks@) =~= Seq::<TaskM>::empty());
        }
        r
    }

    /// Schedule a parsed program for execution.
    pub fn start(&mut self, program: &Suite)
        ensures
            final(self)@.m == old(self)@.m,
            final(self)@.tasks == old(self)@.tasks + sched_suite(*program),
    {
        sched_exprs_exec(&mut self.tasks, &program.0);
    }

    /// One statement, lowered to tasks.
    fn do_expr(&mut self, e: &Rc<Expr>)
        ensures
            final(self)@ == step_expr(old(self)@, **e),
    {
        match &**e {
            Expr::Assignment(name, v) => match name {
                Name::Name(id) => {
                    push_task(&mut self.tasks, Task::TStore);
                    push_task(&mut self.tasks, Task::TPushStr(id.0.clone()));
                    push_task(&mut self.tasks, Task::TValue(rc_clone(v)));
                    proof {
                        assert(self@.tasks =~= old(self)@.tasks + seq![
                            TaskM::TStore,
                            TaskM::TPushStr(id.0@),
                            TaskM::TValue(**v),
                        ]);
                    }
                },
                other => {
                    push_task(&mut self.tasks, Task::TAssign);
                    sched_name_exec(&mut self.tasks, other);
                    push_task(&mut self.tasks, Task::TValue(rc_clone(v)));
                    proof {
                        assert(self@.tasks =~= old(self)@.tasks + seq![TaskM::TAssign]
                            + sched_name(*other) + seq![TaskM::TValue(**v)]);
                    }
                },
            },
            Expr::WhileLoop(c, b) => {
                push_task(&mut self.tasks, Task::TWhile(rc_clone(c), rc_clone(b)));
                push_task(&mut self.tasks, Task::TValue(rc_clone(c)));
                proof {
                    assert(self@.tasks =~= old(self)@.tasks + seq![
                        TaskM::TWhile(**c, **b),
                        TaskM::TValue(**c),
                    ]);
                }
            },
            Expr::IfThenElse(c, t, e2) => {
                push_task(&mut self.tasks, Task::TBranch(rc_clone(t), rc_clone(e2)));
                push_task(&mut self.tasks, Task::TValue(rc_clone(c)));
                proof {
                    assert(self@.tasks =~= old(self)@.tasks + seq![
                        TaskM::TBranch(**t, **e2),
                        TaskM::TValue(**c),
                    ]);
                }
            },
            Expr::FunctionDef(fd) => {
                let func = fd.1.clone();
                match &fd.0 {
                    Name::Name(id) => {
                        push_task(&mut self.tasks, Task::TStore);
                        push_task(&mut self.tasks, Task::TPushStr(id.0.clone()));
                        push_task(&mut self.tasks, Task::TClosure(func));
                        proof {
                            assert(self@.tasks =~= old(self)@.tasks + seq![
                                TaskM::TStore,
                                TaskM::TPushStr(id.0@),
                                TaskM::TClosure(params_model(fd.1.0@), *fd.1.1),
                            ]);
                        }
                    },
                    other => {
                        push_task(&mut self.tasks, Task::TAssign);
                        sched_name_exec(&mut self.tasks, other);
                        push_task(&mut self.tasks, Task::TClosure(func));
                        proof {
                            assert(self@.tasks =~= old(self)@.tasks + seq![TaskM::TAssign]
                                + sched_name(*other) + seq![
                                TaskM::TClosure(params_model(fd.1.0@), *fd.1.1),
                            ]);
                        }
                    },
                }
            },
            Expr::Value(v) => {
                push_task(&mut self.tasks, Task::TValue(rc_clone(v)));
                proof {
                    assert(self@.tasks =~= old(self)@.tasks + seq![TaskM::TValue(**v)]);
                }
            },
        }
    }

    /// One shell built-in.
    fn do_builtin(&mut self, b: Builtin) -> (r: Option<HostReq>)
        requires
            mwf(old(self)@.m),
        ensures
            mwf(final(self)@.m),
            (final(self)@, req_model(r)) == step_builtin(old(self)@, b),
    {
        match b {
            Builtin::Clear => Some(HostReq::ClearScreen),
            Builtin::List => match self.machine.pop() {
                None => Some(HostReq::Ls(None)),
                Some(c) => {
                    let txt = crate::render::display_cell(&self.machine, c);
                    Some(HostReq::Ls(Some(txt)))
                },
            },
            Builtin::ChangeDir => {
                let p = self.machine.get_arg_str();
                Some(HostReq::Cd(p))
            },
            Builtin::Move => {
                let from = self.machine.get_arg_str();
                let to = self.machine.get_arg_str();
                Some(HostReq::Mv(from, to))
            },
            Builtin::Remove => {
                let p = self.machine.get_arg_str();
                if str_is_empty(&p) {
                    None
                } else {
                    Some(HostReq::Rm(p))
                }
            },
            Builtin::MakeDir => {
                let p = self.machine.get_arg_str();
                if str_is_empty(&p) {
                    None
                } else {
                    Some(HostReq::Mkdir(p))
                }
            },
            Builtin::MakeFile => {
                let p = self.machine.get_arg_str();
                if str_is_empty(&p) {
                    None
                } else {
                    Some(HostReq::Mkf(p))
                }
            },
            Builtin::ShellOut => {
                let p = self.machine.get_arg_str();
                Some(HostReq::Sh(p))
            },
            Builtin::WorkingDir => Some(HostReq::Pwd),
            Builtin::Exit => {
                self.machine.done = true;
                proof {
                    assert(final(self)@.m.heap =~= old(self)@.m.heap);
                    assert(final(self)@.m.stack =~= old(self)@.m.stack);
                    assert(final(self)@.m.regs =~= old(self)@.m.regs);
                    assert(final(self)@.tasks =~= old(self)@.tasks);
                }
                None
            },
        }
    }

    /// One host-provided primitive.
    fn do_native(&mut self, op: NativeOp) -> (r: Option<HostReq>)
        requires
            mwf(old(self)@.m),
        ensures
            mwf(final(self)@.m),
            (final(self)@, req_model(r)) == step_native(old(self)@, op),
    {
        match op {
            NativeOp::Print => match self.machine.pop() {
                None => Some(HostReq::Print(String::new())),
                Some(c) => Some(HostReq::Print(crate::render::display_cell(&self.machine, c))),
            },
            NativeOp::Println => match self.machine.pop() {
                None => Some(HostReq::PrintLine(String::new())),
                Some(c) => Some(
                    HostReq::PrintLine(crate::render::display_cell(&self.machine, c)),
                ),
            },
            NativeOp::Dict => {
                let fresh_tree = HeapVal::Tree(Vec::new());
                proof {
                    assert(fresh_tree@ == ValModel::Tree(Seq::<(Seq<char>, int)>::empty())) by {
                        assert(crate::machine::entries_model(fresh_tree->Tree_0@) =~= Seq::<(
                            Seq<char>,
                            int,
                        )>::empty());
                    }
                }
                self.machine.push(fresh_tree);
                None
            },
            NativeOp::MapList => {
                let f = match self.machine.pop() {
                    None => {
                        return None;
                    },
                    Some(f) => f,
                };
                let l = match self.machine.pop() {
                    None => {
                        return None;
                    },
                    Some(l) => l,
                };
                match &self.machine.heap[l] {
                    HeapVal::List(ids) => {
                        sched_map_exec(&mut self.tasks, ids, f);
                        proof {
                            assert(self@.tasks =~= old(self)@.tasks + sched_map_items(
                                self.machine.heap[l as int]->List_0@.map(
                                    |i: int, c: usize| c as int,
                                ),
                                f as int,
                            ));
                        }
                    },
                    _ => {},
                }
                None
            },
            NativeOp::Not => {
                if self.machine.stack.len() == 0 {
                    return None;
                }
                let tr = self.machine.pop_truthy();
                self.machine.push(
                    HeapVal::Num(
                        if tr {
                            0
                        } else {
                            1
                        },
                    ),
                );
                None
            },
            NativeOp::Eq | NativeOp::Neq => {
                let a_opt = self.machine.pop();
                let b_opt = self.machine.pop();
                let equal: bool = match (a_opt, b_opt) {
                    (Some(a), Some(b)) => self.machine.eq_cells(a, b, EQ_FUEL),
                    (Some(_), None) => false,
                    (None, _) => true,
                };
                let hit: bool = match op {
                    NativeOp::Eq => equal,
                    _ => !equal,
                };
                self.machine.push(
                    HeapVal::Num(
                        if hit {
                            1
                        } else {
                            0
                        },
                    ),
                );
                None
            },
            NativeOp::Gt | NativeOp::Lt | NativeOp::Le | NativeOp::Ge => {
                let a = self.machine.get_arg_num();
                let b = self.machine.get_arg_num();
                let hit: bool = match op {
                    NativeOp::Gt => a > b,
                    NativeOp::Lt => a < b,
                    NativeOp::Le => a <= b,
                    _ => a >= b,
                };
                self.machine.push(
                    HeapVal::Num(
                        if hit {
                            1
                        } else {
                            0
                        },
                    ),
                );
                None
            },
            NativeOp::Add | NativeOp::Sub | NativeOp::Mul | NativeOp::Div | NativeOp::Rem => {
                let a = match self.machine.pop() {
                    None => {
                        return None;
                    },
                    Some(a) => a,
                };
                let b = match self.machine.pop() {
                    None => {
                        return None;
                    },
                    Some(b) => b,
                };
                let val = crate::machine::binop_cells(op, &self.machine.heap[a], &self.machine.heap[b]);
                proof {
                    crate::machine::lemma_val_wf_grow(val@, 0, self@.m.heap.len() as int);
                }
                self.machine.push(val);
                None
            },
            NativeOp::Input => match self.machine.pop() {
                None => Some(HostReq::Input(String::new())),
                Some(c) => Some(HostReq::Input(crate::render::display_cell(&self.machine, c))),
            },
            NativeOp::Eval => match self.machine.pop() {
                None => None,
                Some(c) => Some(HostReq::Eval(crate::render::display_cell(&self.machine, c))),
            },
            NativeOp::Help | NativeOp::Debug | NativeOp::Info => Some(HostReq::ShowInfo),
            NativeOp::Logo => Some(HostReq::ShowLogo),
        }
    }

    /// The `call` transition.
    fn do_call(&mut self) -> (r: Option<HostReq>)
        requires
            mwf(old(self)@.m),
        ensures
            mwf(final(self)@.m),
            (final(self)@, req_model(r)) == step_call(old(self)@),
    {
        let f = match self.machine.pop() {
            None => {
                return None;
            },
            Some(f) => f,
        };
        let clos: Option<Function> = match &self.machine.heap[f] {
            HeapVal::Closure(fc) => Some(fc.clone()),
            _ => None,
        };
        match clos {
            Some(g) => {
                sched_exprs_exec(&mut self.tasks, &g.1.0);
                sched_binds_exec(&mut self.tasks, &g.0);
                proof {
                    assert(self.machine@.heap[f as int] == ValModel::Closure(
                        params_model(g.0@),
                        *g.1,
                    ));
                    assert(self@.tasks =~= old(self)@.tasks + sched_suite(*g.1) + sched_binds(
                        params_model(g.0@),
                    ));
                }
                None
            },
            None => {
                let natop: Option<NativeOp> = match &self.machine.heap[f] {
                    HeapVal::Native(o) => Some(*o),
                    _ => None,
                };
                match natop {
                    Some(o) => self.do_native(o),
                    None => None,
                }
            },
        }
    }

    /// One value expression.
    fn do_value(&mut self, v: &Rc<Value>) -> (r: Option<HostReq>)
        requires
            mwf(old(self)@.m),
        ensures
            mwf(final(self)@.m),
            (final(self)@, req_model(r)) == step_value(old(self)@, **v),
    {
        match &**v {
            Value::Literal(Literal::String(txt)) => {
                self.machine.push(HeapVal::Str(txt.clone()));
                None
            },
            Value::Literal(Literal::Number(n)) => {
                self.machine.push(HeapVal::Num(*n));
                None
            },
            Value::Name(n) => {
                sched_name_exec(&mut self.tasks, n);
                None
            },
            Value::FnCall(FnCall(callee, args)) => {
                let is_builtin: bool = match &**callee {
                    Value::Builtin(_) => true,
                    _ => false,
                };
                if !is_builtin {
                    push_task(&mut self.tasks, Task::TCall);
                }
                push_task(&mut self.tasks, Task::TValue(rc_clone(callee)));
                sched_args_exec(&mut self.tasks, args);
                proof {
                    if is_builtin {
                        assert(self@.tasks =~= old(self)@.tasks + seq![TaskM::TValue(**callee)]
                            + sched_args(args@));
                    } else {
                        assert(self@.tasks =~= old(self)@.tasks + seq![
                            TaskM::TCall,
                            TaskM::TValue(**callee),
                        ] + sched_args(args@));
                    }
                }
                None
            },
            Value::Builtin(b) => {
                let bb = *b;
                self.do_builtin(bb)
            },
            Value::Function(f) => {
                let g = f.clone();
                self.machine.push(HeapVal::Closure(g));
                None
            },
        }
    }

    /// One small step: pop the top task and perform it, following
    /// `spec_step` exactly.
    pub fn step(&mut self) -> (r: Option<HostReq>)
        requires
            mwf(old(self)@.m),
        ensures
            mwf(final(self)@.m),
            (final(self)@, req_model(r)) == spec_step(old(self)@),
    {
        let t = match self.tasks.pop() {
            None => {
                proof {
                    assert(old(self)@.tasks.len() == 0);
                    assert(final(self)@ == old(self)@);
                }
                return None;
            },
            Some(t) => t,
        };
        proof {
            assert(old(self)@.tasks.len() > 0);
            assert(t@ == old(self)@.tasks.last());
            assert(tasks_model(self.tasks@) =~= old(self)@.tasks.drop_last());
        }
        match t {
            Task::TExpr(e) => {
                self.do_expr(&e);
                None
            },
            Task::TValue(v) => self.do_value(&v),
            Task::TPushStr(txt) => {
                self.machine.push(HeapVal::Str(txt));
                None
            },
            Task::TPushCell(c) => {
                if c < self.machine.heap.len() {
                    self.machine.push_cell(c);
                }
                None
            },
            Task::TLoad => {
                self.machine.load();
                None
            },
            Task::TStore => {
                self.machine.store();
                None
            },
            Task::TIndex => {
                self.machine.index();
                None
            },
            Task::TAssign => {
                self.machine.assign();
                None
            },
            Task::TCall => self.do_call(),
            Task::TClosure(f) => {
                self.machine.push(HeapVal::Closure(f));
                None
            },
            Task::TWhile(c, b) => {
                let tr = self.machine.pop_truthy();
                if tr {
                    push_task(&mut self.tasks, Task::TWhile(rc_clone(&c), rc_clone(&b)));
                    push_task(&mut self.tasks, Task::TValue(rc_clone(&c)));
                    sched_exprs_exec(&mut self.tasks, &b.0);
                    proof {
                        assert(self@.tasks =~= old(self)@.tasks.drop_last() + seq![
                            TaskM::TWhile(**&c, **&b),
                            TaskM::TValue(**&c),
                        ] + sched_suite(**&b));
                    }
                }
                None
            },
            Task::TBranch(tb, eb) => {
                let tr = self.machine.pop_truthy();
                if tr {
                    sched_exprs_exec(&mut self.tasks, &tb.0);
                } else {
                    sched_exprs_exec(&mut self.tasks, &eb.0);
                }
                None
            },
        }
    }
}

/// `spec_step` iterated until the machine finishes, asks for the host, or
/// the fuel runs out.
pub open spec fn spec_run(s: IState, fuel: nat) -> (IState, Option<ReqM>)
    decreases fuel,
{
    if s.m.done || s.tasks.len() == 0 || fuel == 0 {
        (s, None)
    } else {
        let (s1, r) = spec_step(s);
        match r {
            Some(req) => (s1, Some(req)),
            None => spec_run(s1, (fuel - 1) as nat),
        }
    }
}

impl Interp {
    /// Step until the program finishes, the `exit` built-in has been run, a
    /// host effect is requested, or `budget` steps have passed.  `Some` is a
    /// pause: perform the effect, reply if it asks for one, and run again.
    /// `None` with tasks left and the machine not done means the budget ran
    /// out: simply run again.
    pub fn run(&mut self, budget: u64) -> (r: Option<HostReq>)
        requires
            mwf(old(self)@.m),
        ensures
            mwf(final(self)@.m),
            (final(self)@, req_model(r)) == spec_run(old(self)@, budget as nat),
    {
        let ghost s_init = old(self)@;
        let mut left: u64 = budget;
        loop
            invariant
                s_init == old(self)@,
                mwf(self@.m),
                spec_run(s_init, budget as nat) == spec_run(self@, left as nat),
            decreases left,
        {
            if self.machine.done || self.tasks.len() == 0 || left == 0 {
                proof {
                    assert(spec_run(self@, left as nat) == (self@, None::<ReqM>));
                }
                return None;
            }
            let ghost before = self@;
            let ghost left0 = left;
            let r = self.step();
            proof {
                assert(spec_run(before, left0 as nat) == (match req_model(r) {
                    Some(req) => (self@, Some(req)),
                    None => spec_run(self@, (left0 - 1) as nat),
                }));
            }
            match r {
                Some(req) => {
                    return Some(req);
                },
                None => {},
            }
            left = left - 1;
        }
    }

    /// Whether any task is pending.
    pub fn pending(&self) -> (r: bool)
        ensures
            r == (self@.tasks.len() > 0),
    {
        self.tasks.len() > 0
    }

    /// Raise the terminator flag, as the `exit` built-in would: the next
    /// `run` stops at once.
    pub fn halt(&mut self)
        ensures
            final(self)@ == (IState {
                m: MachineModel { done: true, ..old(self)@.m },
                ..old(self)@
            }),
            mwf(old(self)@.m) ==> mwf(final(self)@.m),
    {
        self.machine.done = true;
        proof {
            assert(final(self)@.m.heap =~= old(self)@.m.heap);
            assert(final(self)@.m.stack =~= old(self)@.m.stack);
            assert(final(self)@.m.regs =~= old(self)@.m.regs);
            assert(final(self)@.tasks =~= old(self)@.tasks);
        }
    }

    /// Whether the `exit` built-in has been run.
    pub fn is_done(&self) -> (r: bool)
        ensures
            r == self@.m.done,
    {
        self.machine.done
    }

    /// Answer a request with one string: the value is pushed in a fresh
    /// cell.
    pub fn resume_str(&mut self, s: String)
        ensures
            final(self)@.m == m_push_val(old(self)@.m, ValModel::Str(s@)),
            final(self)@.tasks == old(self)@.tasks,
            mwf(old(self)@.m) ==> mwf(final(self)@.m),
    {
        self.machine.push(HeapVal::Str(s));
    }

    /// Answer a request with a list of strings: each string is pushed in a
    /// fresh cell and a fresh list cell referencing them ends on the stack.
    pub fn resume_list(&mut self, items: Vec<String>)
        requires
            mwf(old(self)@.m),
        ensures
            mwf(final(self)@.m),
            final(self)@.tasks == old(self)@.tasks,
            final(self)@.m.regs == old(self)@.m.regs,
            final(self)@.m.done == old(self)@.m.done,
            final(self)@.m.stack == old(self)@.m.stack.push(
                old(self)@.m.heap.len() + items@.len() as int,
            ),
            final(self)@.m.heap.len() == old(self)@.m.heap.len() + items@.len() + 1,
            final(self)@.m.heap.last() matches ValModel::List(ids) && ids.len() == items@.len(),
            (forall|i: int|
                0 <= i < items@.len() ==> final(self)@.m.heap[old(self)@.m.heap.len() + i]
                    == ValModel::Str(items@[i]@)),
            (forall|i: int|
                0 <= i < items@.len() ==> final(self)@.m.heap.last()->List_0[i] == old(
                    self,
                )@.m.heap.len() + i),
    {
        let ghost m0 = self@.m;
        let n = items.len();
        let mut ids: Vec<usize> = Vec::new();
        let mut i: usize = 0;
        while i < n
            invariant
                i <= n,
                n == items@.len(),
                mwf(self@.m),
                self@.m.regs == m0.regs,
                self@.m.stack == m0.stack,
                self@.m.done == m0.done,
                self@.m.heap.len() == m0.heap.len() + i,
                self@.tasks == old(self)@.tasks,
                ids@.len() == i as int,
                forall|j: int| 0 <= j < i ==> ids@[j] as int == m0.heap.len() + j,
                forall|j: int|
                    0 <= j < i ==> self@.m.heap[m0.heap.len() + j] == ValModel::Str(
                        items@[j]@,
                    ),
            decreases n - i,
        {
            let c = self.machine.alloc_cell(HeapVal::Str(items[i].clone()));
            ids.push(c);
            i = i + 1;
        }
        proof {
            assert(val_wf(
                ValModel::List(ids@.map(|j: int, c: usize| c as int)),
                self@.m.heap.len() as int,
            ));
        }
        let l = self.machine.alloc_cell(HeapVal::List(ids));
        proof {
            assert(self.machine.heap@.len() == self@.m.heap.len());
        }
        self.machine.push_cell(l);
    }

    /// Pop every value off the stack, top first, and hand back their
    /// display texts: the stack is empty afterwards, and the texts are those
    /// of the popped cells in pop order.
    pub fn drain_display(&mut self) -> (out: Vec<String>)
        requires
            mwf(old(self)@.m),
        ensures
            mwf(final(self)@.m),
            final(self)@.m.stack.len() == 0,
            final(self)@.m.heap == old(self)@.m.heap,
            final(self)@.m.regs == old(self)@.m.regs,
            final(self)@.m.done == old(self)@.m.done,
            final(self)@.tasks == old(self)@.tasks,
            out@.len() == old(self)@.m.stack.len(),
            forall|i: int|
                0 <= i < out@.len() ==> out@[i]@ == render_val(
                    old(self)@.m.heap,
                    old(self)@.m.stack[old(self)@.m.stack.len() - 1 - i],
                    DISPLAY_FUEL as nat,
                ),
    {
        let ghost m0 = self@.m;
        let mut out: Vec<String> = Vec::new();
        loop
            invariant
                m0 == old(self)@.m,
                mwf(self@.m),
                self@.m.heap == m0.heap,
                self@.m.regs == m0.regs,
                self@.m.done == m0.done,
                self@.tasks == old(self)@.tasks,
                out@.len() <= m0.stack.len(),
                self@.m.stack == m0.stack.take(m0.stack.len() - out@.len()),
                forall|i: int|
                    0 <= i < out@.len() ==> out@[i]@ == render_val(
                        m0.heap,
                        m0.stack[m0.stack.len() - 1 - i],
                        DISPLAY_FUEL as nat,
                    ),
            decreases self@.m.stack.len(),
        {
            match self.machine.pop() {
                None => {
                    proof {
                        assert(self@.m.stack =~= Seq::<int>::empty());
                    }
                    return out;
                },
                Some(c) => {
                    let txt = crate::render::display_cell(&self.machine, c);
                    proof {
                        assert(c as int == m0.stack[m0.stack.len() - 1 - out@.len()]);
                    }
                    out.push(txt);
                    proof {
                        assert(self@.m.stack =~= m0.stack.take(m0.stack.len() - out@.len()));
                    }
                },
            }
        }
    }

    /// Pop everything off the stack.
    pub fn clear_stack(&mut self)
        requires
            mwf(old(self)@.m),
        ensures
            mwf(final(self)@.m),
            final(self)@.m.stack.len() == 0,
            final(self)@.m.heap == old(self)@.m.heap,
            final(self)@.m.regs == old(self)@.m.regs,
            final(self)@.m.done == old(self)@.m.done,
            final(self)@.tasks == old(self)@.tasks,
    {
        loop
            invariant
                mwf(self@.m),
                self@.m.heap == old(self)@.m.heap,
                self@.m.regs == old(self)@.m.regs,
                self@.m.done == old(self)@.m.done,
                self@.tasks == old(self)@.tasks,
            decreases self@.m.stack.len(),
        {
            match self.machine.pop() {
                None => {
                    proof {
                        assert(self@.m.stack =~= Seq::<int>::empty());
                    }
                    return ;
                },
                Some(_) => {},
            }
        }
    }

    /// The number of values on the evaluation stack.
    pub fn stack_height(&self) -> (r: usize)
        ensures
            r as int == self@.m.stack.len(),
    {
        self.machine.stack.len()
    }
}

} // verus!
