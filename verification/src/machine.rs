//! The stack-based virtual machine.
//!
//! Runtime values live in an arena (`heap`); the evaluation stack and the
//! register tree hold arena indices, so several holders can share one cell
//! and an assignment through one of them is observable through all — the
//! reference semantics of the language.  Every operation is total:
//! a missing operand or a mismatched type makes it a no-op or yields a
//! default, never a panic.

use vstd::prelude::*;
use vstd::string::StrSliceExecFns;
use vstd::string::StringExecFns;
use crate::tokens::{Function, Identifier};

verus! {

/// A runtime value as stored in one arena cell.
///
/// Numbers are 64-bit signed integers: the machine's arithmetic is exact
/// integer arithmetic (wrapping on overflow), the one place where this
/// design narrows the customary double-precision number tower.
#[derive(Debug)]
pub enum HeapVal {
    Num(i64),
    Str(String),
    List(Vec<usize>),
    Tree(Vec<Entry>),
    Closure(Function),
    Native(NativeOp),
}

/// One binding of an ordered string-keyed map: used both for the register
/// tree and for the interior of a `Tree` value.
#[derive(Debug)]
pub struct Entry {
    pub name: String,
    pub cell: usize,
}

impl Clone for Entry {
    fn clone(&self) -> (r: Self)
        ensures
            r == *self,
    {
        Entry { name: self.name.clone(), cell: self.cell }
    }
}

/// The host-provided primitives that are registered into the register tree
/// when a machine is built.
#[derive(Debug, Clone, Copy, PartialEq, Eq, Structural)]
pub enum NativeOp {
    Print,
    Println,
    Dict,
    MapList,
    Not,
    Eq,
    Neq,
    Gt,
    Lt,
    Le,
    Ge,
    Add,
    Sub,
    Mul,
    Div,
    Rem,
    Input,
    Eval,
    Help,
    Debug,
    Info,
    Logo,
}

/// The mathematical value of one arena cell.
pub ghost enum ValModel {
    Num(int),
    Str(Seq<char>),
    List(Seq<int>),
    Tree(Seq<(Seq<char>, int)>),
    Closure(Seq<Seq<char>>, crate::tokens::Suite),
    Native(NativeOp),
}

/// The names of a parameter list.
pub open spec fn params_model(params: Seq<Identifier>) -> Seq<Seq<char>> {
    params.map(|i: int, id: Identifier| id.0@)
}

/// The entries of an ordered map, as pairs of key and cell.
pub open spec fn entries_model(entries: Seq<Entry>) -> Seq<(Seq<char>, int)> {
    entries.map(|i: int, e: Entry| (e.name@, e.cell as int))
}

impl View for HeapVal {
    type V = ValModel;

    open spec fn view(&self) -> ValModel {
        match self {
            HeapVal::Num(n) => ValModel::Num(*n as int),
            HeapVal::Str(s) => ValModel::Str(s@),
            HeapVal::List(ids) => ValModel::List(ids@.map(|i: int, c: usize| c as int)),
            HeapVal::Tree(entries) => ValModel::Tree(entries_model(entries@)),
            HeapVal::Closure(f) => ValModel::Closure(params_model(f.0@), *f.1),
            HeapVal::Native(op) => ValModel::Native(*op),
        }
    }
}

/// The machine: evaluation stack, register tree, value arena, and the
/// terminator flag that the `exit` built-in raises.
#[derive(Debug)]
pub struct Machine {
    pub heap: Vec<HeapVal>,
    pub stack: Vec<usize>,
    pub registers: Vec<Entry>,
    pub done: bool,
}

/// The mathematical state of a machine.
pub ghost struct MachineModel {
    pub heap: Seq<ValModel>,
    pub stack: Seq<int>,
    pub regs: Seq<(Seq<char>, int)>,
    pub done: bool,
}

impl View for Machine {
    type V = MachineModel;

    open spec fn view(&self) -> MachineModel {
        MachineModel {
            heap: self.heap@.map(|i: int, v: HeapVal| v@),
            stack: self.stack@.map(|i: int, c: usize| c as int),
            regs: entries_model(self.registers@),
            done: self.done,
        }
    }
}

/// Every arena index reachable from a value lies inside the arena.
pub open spec fn val_wf(v: ValModel, h: int) -> bool {
    match v {
        ValModel::List(ids) => forall|i: int| 0 <= i < ids.len() ==> 0 <= #[trigger] ids[i] < h,
        ValModel::Tree(es) => forall|i: int| 0 <= i < es.len() ==> 0 <= (#[trigger] es[i]).1 < h,
        _ => true,
    }
}

/// Every arena index reachable from any cell lies inside the arena.
pub open spec fn heap_wf(heap: Seq<ValModel>) -> bool {
    forall|i: int| 0 <= i < heap.len() ==> val_wf(#[trigger] heap[i], heap.len() as int)
}

/// Every arena index held by the machine lies inside the arena.
pub open spec fn mwf(m: MachineModel) -> bool {
    &&& heap_wf(m.heap)
    &&& forall|i: int| 0 <= i < m.stack.len() ==> 0 <= #[trigger] m.stack[i] < m.heap.len()
    &&& forall|i: int| 0 <= i < m.regs.len() ==> 0 <= (#[trigger] m.regs[i]).1 < m.heap.len()
}

/// The index of the first entry bound to `name`, searching from `from`.
pub open spec fn assoc_find(es: Seq<(Seq<char>, int)>, name: Seq<char>, from: int) -> Option<int>
    decreases es.len() - from,
{
    if from < 0 || from >= es.len() {
        None
    } else if es[from].0 == name {
        Some(from)
    } else {
        assoc_find(es, name, from + 1)
    }
}

/// The cell bound to `name`, if any.
pub open spec fn assoc_lookup(es: Seq<(Seq<char>, int)>, name: Seq<char>) -> Option<int> {
    match assoc_find(es, name, 0) {
        Some(i) => Some(es[i].1),
        None => None,
    }
}

/// Bind `name` to `cell`: the first entry already carrying `name` is
/// overwritten in place, a fresh name is appended, so insertion order is
/// kept.
pub open spec fn assoc_set(es: Seq<(Seq<char>, int)>, name: Seq<char>, cell: int) -> Seq<
    (Seq<char>, int),
> {
    match assoc_find(es, name, 0) {
        Some(i) => es.update(i, (name, cell)),
        None => es.push((name, cell)),
    }
}

impl Machine {
    /// Register one value under `name`, appending to both arena and
    /// register tree.
    fn add_entry(&mut self, v: HeapVal, name: &str)
        requires
            val_wf(v@, old(self)@.heap.len() as int),
        ensures
            final(self)@.heap == old(self)@.heap.push(v@),
            final(self)@.regs == old(self)@.regs.push((name@, old(self)@.heap.len() as int)),
            final(self)@.stack == old(self)@.stack,
            final(self)@.done == old(self)@.done,
    {
        let c = self.alloc_cell(v);
        self.registers.push(Entry { name: name.to_owned(), cell: c });
        proof {
            assert(entries_model(self.registers@) =~= old(self)@.regs.push((name@, c as int)));
            assert(final(self)@.stack =~= old(self)@.stack);
        }
    }

    /// A fresh machine: empty stack, and the constants `true` and `false`
    /// and the host-provided primitives bound in the register tree.
    pub fn new() -> (m: Machine)
        ensures
            m@ == initial_model(),
            mwf(m@),
    {
        let mut m = Machine {
            heap: Vec::new(),
            stack: Vec::new(),
            registers: Vec::new(),
            done: false,
        };
        proof {
            assert(m@.heap =~= Seq::<ValModel>::empty());
            assert(m@.stack =~= Seq::<int>::empty());
            assert(m@.regs =~= Seq::<(Seq<char>, int)>::empty());
        }
        m.add_entry(HeapVal::Num(1), "true");
        m.add_entry(HeapVal::Num(0), "false");
        m.add_entry(HeapVal::Native(NativeOp::Print), "print");
        m.add_entry(HeapVal::Native(NativeOp::Println), "println");
        m.add_entry(HeapVal::Native(NativeOp::Dict), "dict");
        m.add_entry(HeapVal::Native(NativeOp::MapList), "map");
        m.add_entry(HeapVal::Native(NativeOp::Not), "not");
        m.add_entry(HeapVal::Native(NativeOp::Eq), "eq");
        m.add_entry(HeapVal::Native(NativeOp::Neq), "neq");
        m.add_entry(HeapVal::Native(NativeOp::Gt), "gt");
        m.add_entry(HeapVal::Native(NativeOp::Lt), "lt");
        m.add_entry(HeapVal::Native(NativeOp::Le), "le");
        m.add_entry(HeapVal::Native(NativeOp::Ge), "ge");
        m.add_entry(HeapVal::Native(NativeOp::Add), "add");
        m.add_entry(HeapVal::Native(NativeOp::Sub), "sub");
        m.add_entry(HeapVal::Native(NativeOp::Mul), "mul");
        m.add_entry(HeapVal::Native(NativeOp::Div), "div");
        m.add_entry(HeapVal::Native(NativeOp::Rem), "rem");
        m.add_entry(HeapVal::Native(NativeOp::Input), "input");
        m.add_entry(HeapVal::Native(NativeOp::Eval), "eval");
        m.add_entry(HeapVal::Native(NativeOp::Help), "help");
        m.add_entry(HeapVal::Native(NativeOp::Debug), "debug");
        m.add_entry(HeapVal::Native(NativeOp::Info), "info");
        m.add_entry(HeapVal::Native(NativeOp::Logo), "logo");
        proof {
            assert(m@.heap =~= initial_heap());
            assert(m@.regs =~= initial_regs());
            assert(m@.stack =~= Seq::<int>::empty());
            assert forall|i: int| 0 <= i < m@.heap.len() implies val_wf(
                #[trigger] m@.heap[i],
                m@.heap.len() as int,
            ) by {
                assert(!(m@.heap[i] is List) && !(m@.heap[i] is Tree));
            }
            assert forall|i: int| 0 <= i < m@.regs.len() implies 0 <= (#[trigger] m@.regs[i]).1
                < m@.heap.len() by {}
        }
        m
    }

    /// Append a fresh cell holding `v` and hand back its index.
    pub fn alloc_cell(&mut self, v: HeapVal) -> (c: usize)
        requires
            val_wf(v@, old(self)@.heap.len() as int),
        ensures
            final(self)@.heap == old(self)@.heap.push(v@),
            final(self)@.stack == old(self)@.stack,
            final(self)@.regs == old(self)@.regs,
            final(self)@.done == old(self)@.done,
            c as int == old(self)@.heap.len(),
            mwf(old(self)@) ==> mwf(final(self)@),
    {
        let c = self.heap.len();
        self.heap.push(v);
        proof {
            assert(final(self)@.heap =~= old(self)@.heap.push(v@));
            assert(final(self)@.stack =~= old(self)@.stack);
            assert(final(self)@.regs =~= old(self)@.regs);
            if mwf(old(self)@) {
                assert forall|i: int|
                    0 <= i < final(self)@.heap.len() implies val_wf(
                    #[trigger] final(self)@.heap[i],
                    final(self)@.heap.len() as int,
                ) by {
                    if i < old(self)@.heap.len() {
                        assert(val_wf(old(self)@.heap[i], old(self)@.heap.len() as int));
                        lemma_val_wf_grow(old(self)@.heap[i], old(self)@.heap.len() as int,
                            final(self)@.heap.len() as int);
                    } else {
                        lemma_val_wf_grow(v@, old(self)@.heap.len() as int,
                            final(self)@.heap.len() as int);
                    }
                }
            }
        }
        c
    }

    /// Push the cell index `c` onto the evaluation stack.
    pub fn push_cell(&mut self, c: usize)
        requires
            c < old(self).heap.len(),
        ensures
            final(self)@ == (MachineModel {
                stack: old(self)@.stack.push(c as int),
                ..old(self)@
            }),
            mwf(old(self)@) ==> mwf(final(self)@),
    {
        self.stack.push(c);
        proof {
            assert(final(self)@.stack =~= old(self)@.stack.push(c as int));
            assert(final(self)@.heap =~= old(self)@.heap);
            assert(final(self)@.regs =~= old(self)@.regs);
        }
    }

    /// Allocate a fresh cell for `v` and push it: the machine's `push`.
    pub fn push(&mut self, v: HeapVal)
        requires
            val_wf(v@, old(self)@.heap.len() as int),
        ensures
            final(self)@ == (MachineModel {
                heap: old(self)@.heap.push(v@),
                stack: old(self)@.stack.push(old(self)@.heap.len() as int),
                ..old(self)@
            }),
            mwf(old(self)@) ==> mwf(final(self)@),
    {
        let c = self.alloc_cell(v);
        proof {
            assert(self.heap@.len() == self@.heap.len());
        }
        self.push_cell(c);
    }

    /// Remove and return the top cell of the evaluation stack.
    pub fn pop(&mut self) -> (r: Option<usize>)
        ensures
            (final(self)@ == (MachineModel { stack: old(self)@.stack.drop_last(), ..old(self)@ })
                || (old(self)@.stack.len() == 0 && final(self)@ == old(self)@)),
            (r matches Some(c) ==> old(self)@.stack.len() > 0 && c as int == old(
                self,
            )@.stack.last() && final(self)@.stack == old(self)@.stack.drop_last()),
            (r is None ==> old(self)@.stack.len() == 0 && final(self)@ == old(self)@),
            mwf(old(self)@) ==> mwf(final(self)@),
            (mwf(old(self)@) ==> (r matches Some(c) ==> c < final(self)@.heap.len())),
    {
        let r = self.stack.pop();
        proof {
            assert(final(self)@.heap =~= old(self)@.heap);
            assert(final(self)@.regs =~= old(self)@.regs);
            if old(self).stack@.len() > 0 {
                assert(final(self)@.stack =~= old(self)@.stack.drop_last());
                assert(old(self)@.stack.last() == old(self)@.stack[old(self)@.stack.len() - 1]);
                if mwf(old(self)@) {
                    assert(0 <= old(self)@.stack[old(self)@.stack.len() - 1]
                        < old(self)@.heap.len());
                }
            } else {
                assert(final(self)@.stack =~= old(self)@.stack);
            }
        }
        r
    }
}

/// An element of a well-formed list value lies inside the arena.
pub proof fn lemma_list_elem_wf(v: ValModel, h: int, j: int)
    requires
        val_wf(v, h),
        v is List,
        0 <= j < v->List_0.len(),
    ensures
        0 <= v->List_0[j] < h,
{
    assert(0 <= v->List_0[j] < h);
}

/// An entry of a well-formed tree value lies inside the arena.
pub proof fn lemma_tree_elem_wf(v: ValModel, h: int, j: int)
    requires
        val_wf(v, h),
        v is Tree,
        0 <= j < v->Tree_0.len(),
    ensures
        0 <= v->Tree_0[j].1 < h,
{
    assert(0 <= (v->Tree_0[j]).1 < h);
}

/// The arena of a fresh machine: the two boolean constants followed by the
/// host-provided primitives, in registration order.
pub open spec fn initial_heap() -> Seq<ValModel> {
    seq![
        ValModel::Num(1),
        ValModel::Num(0),
        ValModel::Native(NativeOp::Print),
        ValModel::Native(NativeOp::Println),
        ValModel::Native(NativeOp::Dict),
        ValModel::Native(NativeOp::MapList),
        ValModel::Native(NativeOp::Not),
        ValModel::Native(NativeOp::Eq),
        ValModel::Native(NativeOp::Neq),
        ValModel::Native(NativeOp::Gt),
        ValModel::Native(NativeOp::Lt),
        ValModel::Native(NativeOp::Le),
        ValModel::Native(NativeOp::Ge),
        ValModel::Native(NativeOp::Add),
        ValModel::Native(NativeOp::Sub),
        ValModel::Native(NativeOp::Mul),
        ValModel::Native(NativeOp::Div),
        ValModel::Native(NativeOp::Rem),
        ValModel::Native(NativeOp::Input),
        ValModel::Native(NativeOp::Eval),
        ValModel::Native(NativeOp::Help),
        ValModel::Native(NativeOp::Debug),
        ValModel::Native(NativeOp::Info),
        ValModel::Native(NativeOp::Logo),
    ]
}

/// The register tree of a fresh machine.
pub open spec fn initial_regs() -> Seq<(Seq<char>, int)> {
    seq![
        ("true"@, 0int),
        ("false"@, 1int),
        ("print"@, 2int),
        ("println"@, 3int),
        ("dict"@, 4int),
        ("map"@, 5int),
        ("not"@, 6int),
        ("eq"@, 7int),
        ("neq"@, 8int),
        ("gt"@, 9int),
        ("lt"@, 10int),
        ("le"@, 11int),
        ("ge"@, 12int),
        ("add"@, 13int),
        ("sub"@, 14int),
        ("mul"@, 15int),
        ("div"@, 16int),
        ("rem"@, 17int),
        ("input"@, 18int),
        ("eval"@, 19int),
        ("help"@, 20int),
        ("debug"@, 21int),
        ("info"@, 22int),
        ("logo"@, 23int),
    ]
}

/// The state of a fresh machine: an empty stack, the native registry, and
/// the terminator flag down.
pub open spec fn initial_model() -> MachineModel {
    MachineModel { heap: initial_heap(), stack: Seq::empty(), regs: initial_regs(), done: false }
}

/// A value well-formed for a small arena stays well-formed when the arena
/// grows.
pub proof fn lemma_val_wf_grow(v: ValModel, h1: int, h2: int)
    requires
        val_wf(v, h1),
        h1 <= h2,
    ensures
        val_wf(v, h2),
{
}

/// The key text of the cell `c`: the text of a string value, and empty for
/// every other value (the fail-silent coercion of the machine).
pub open spec fn key_of(m: MachineModel, c: int) -> Seq<char> {
    match m.heap[c] {
        ValModel::Str(s) => s,
        _ => Seq::empty(),
    }
}

/// The machine after one `pop`, ignoring the popped cell.
pub open spec fn m_popped(m: MachineModel) -> MachineModel {
    if m.stack.len() == 0 {
        m
    } else {
        MachineModel { stack: m.stack.drop_last(), ..m }
    }
}

/// The `load` transition: pop a key, push the register bound to it, or a
/// fresh empty tree (left unbound) when the key is not bound.
pub open spec fn m_load(m: MachineModel) -> MachineModel {
    if m.stack.len() == 0 {
        m
    } else {
        let name = key_of(m, m.stack.last());
        let m1 = m_popped(m);
        match assoc_lookup(m.regs, name) {
            Some(c) => MachineModel { stack: m1.stack.push(c), ..m1 },
            None => MachineModel {
                heap: m1.heap.push(ValModel::Tree(Seq::empty())),
                stack: m1.stack.push(m1.heap.len() as int),
                ..m1
            },
        }
    }
}

/// The `store` transition: pop a key, pop a cell, bind the key to the cell
/// in the register tree.  A missing operand makes the rest a no-op.
pub open spec fn m_store(m: MachineModel) -> MachineModel {
    if m.stack.len() == 0 {
        m
    } else if m.stack.len() == 1 {
        m_popped(m)
    } else {
        let name = key_of(m, m.stack.last());
        let v = m.stack[m.stack.len() - 2];
        MachineModel {
            stack: m.stack.drop_last().drop_last(),
            regs: assoc_set(m.regs, name, v),
            ..m
        }
    }
}

/// The `index` transition: pop a key, pop a container, and push the interior
/// cell the key selects, by reference.  A tree grows a fresh empty subtree
/// under an absent key; every other miss pushes a fresh unbound empty tree.
pub open spec fn m_index(m: MachineModel) -> MachineModel {
    if m.stack.len() == 0 {
        m
    } else if m.stack.len() == 1 {
        m_popped(m)
    } else {
        let k = m.stack.last();
        let c = m.stack[m.stack.len() - 2];
        let st0 = m.stack.drop_last().drop_last();
        match m.heap[c] {
            ValModel::Tree(es) => {
                let name = key_of(m, k);
                match assoc_lookup(es, name) {
                    Some(cc) => MachineModel { stack: st0.push(cc), ..m },
                    None => {
                        let fresh = m.heap.len() as int;
                        MachineModel {
                            heap: m.heap.push(ValModel::Tree(Seq::empty())).update(
                                c,
                                ValModel::Tree(es.push((name, fresh))),
                            ),
                            stack: st0.push(fresh),
                            ..m
                        }
                    },
                }
            },
            ValModel::List(ids) => {
                match m.heap[k] {
                    ValModel::Num(n) => {
                        if 0 <= n < ids.len() {
                            MachineModel { stack: st0.push(ids[n]), ..m }
                        } else {
                            MachineModel {
                                heap: m.heap.push(ValModel::Tree(Seq::empty())),
                                stack: st0.push(m.heap.len() as int),
                                ..m
                            }
                        }
                    },
                    _ => MachineModel {
                        heap: m.heap.push(ValModel::Tree(Seq::empty())),
                        stack: st0.push(m.heap.len() as int),
                        ..m
                    },
                }
            },
            _ => MachineModel {
                heap: m.heap.push(ValModel::Tree(Seq::empty())),
                stack: st0.push(m.heap.len() as int),
                ..m
            },
        }
    }
}

/// The `assign` transition: pop a target cell, pop a source cell, and
/// overwrite the target cell with the source cell's value in place, so every
/// holder of the target cell observes the write.
pub open spec fn m_assign(m: MachineModel) -> MachineModel {
    if m.stack.len() == 0 {
        m
    } else if m.stack.len() == 1 {
        m_popped(m)
    } else {
        let t = m.stack.last();
        let v = m.stack[m.stack.len() - 2];
        MachineModel {
            heap: m.heap.update(t, m.heap[v]),
            stack: m.stack.drop_last().drop_last(),
            ..m
        }
    }
}

/// Truth of a value: zero, the empty string, the empty list and the empty
/// tree are false; everything else, functions included, is true.
pub open spec fn truthy(v: ValModel) -> bool {
    match v {
        ValModel::Num(n) => n != 0,
        ValModel::Str(s) => s.len() != 0,
        ValModel::List(ids) => ids.len() != 0,
        ValModel::Tree(es) => es.len() != 0,
        ValModel::Closure(_, _) => true,
        ValModel::Native(_) => true,
    }
}

/// Truth of the top of the stack; an empty stack counts as false.
pub open spec fn m_top_truthy(m: MachineModel) -> bool {
    if m.stack.len() == 0 {
        false
    } else {
        truthy(m.heap[m.stack.last()])
    }
}

/// The string argument on top of the stack, under the fail-silent coercion:
/// a missing operand or a non-string yields the empty string.
pub open spec fn m_top_str(m: MachineModel) -> Seq<char> {
    if m.stack.len() == 0 {
        Seq::empty()
    } else {
        key_of(m, m.stack.last())
    }
}

/// The number argument on top of the stack; a missing operand or a
/// non-number yields zero.
pub open spec fn m_top_num(m: MachineModel) -> int {
    if m.stack.len() == 0 {
        0
    } else {
        match m.heap[m.stack.last()] {
            ValModel::Num(n) => n,
            _ => 0,
        }
    }
}

/// Structural equality of two cells, to a bounded depth: numbers, strings
/// and natives by value, lists and trees element for element, functions
/// never equal, exhausted fuel unequal.
pub open spec fn eq_val(h: Seq<ValModel>, a: int, b: int, fuel: nat) -> bool
    decreases fuel,
{
    if fuel == 0 {
        false
    } else if !(0 <= a < h.len()) || !(0 <= b < h.len()) {
        false
    } else {
        match (h[a], h[b]) {
            (ValModel::Num(x), ValModel::Num(y)) => x == y,
            (ValModel::Str(x), ValModel::Str(y)) => x == y,
            (ValModel::List(xs), ValModel::List(ys)) => xs.len() == ys.len() && (forall|i: int|
                0 <= i < xs.len() ==> eq_val(h, #[trigger] xs[i], ys[i], (fuel - 1) as nat)),
            (ValModel::Tree(xs), ValModel::Tree(ys)) => xs.len() == ys.len() && (forall|i: int|
                0 <= i < xs.len() ==> (#[trigger] xs[i]).0 == ys[i].0 && eq_val(
                    h,
                    xs[i].1,
                    ys[i].1,
                    (fuel - 1) as nat,
                )),
            (ValModel::Native(x), ValModel::Native(y)) => x == y,
            _ => false,
        }
    }
}

/// The magnitude of an integer.
pub open spec fn abs_i(x: int) -> int {
    if x < 0 {
        -x
    } else {
        x
    }
}

/// Truncating division, the division of the machine's numbers: the quotient
/// of the magnitudes, carrying the sign; division by zero yields zero.
pub open spec fn t_div(x: int, y: int) -> int {
    if y == 0 {
        0
    } else if (x < 0) != (y < 0) {
        -(abs_i(x) / abs_i(y))
    } else {
        abs_i(x) / abs_i(y)
    }
}

/// The value of a quotient cell: truncating division, with the one
/// wrapping case of the most negative number divided by minus one.
pub open spec fn div_val(x: int, y: int) -> int {
    if x == i64::MIN as int && y == -1 {
        i64::MIN as int
    } else {
        t_div(x, y)
    }
}

/// Truncating remainder, carrying the sign of the dividend; a zero divisor
/// yields zero.
pub open spec fn rem_val(x: int, y: int) -> int {
    if y == 0 {
        0
    } else if x < 0 {
        -(abs_i(x) % abs_i(y))
    } else {
        abs_i(x) % abs_i(y)
    }
}

/// The value of an arithmetic native on two operands.  Numbers use exact
/// 64-bit wrapping arithmetic; addition of two strings concatenates them;
/// every other combination yields zero.
pub open spec fn binop_val(op: NativeOp, a: ValModel, b: ValModel) -> ValModel {
    match (a, b) {
        (ValModel::Num(x), ValModel::Num(y)) => match op {
            NativeOp::Add => ValModel::Num(
                vstd::wrapping::i64_specs::wrapping_add(x as i64, y as i64) as int,
            ),
            NativeOp::Sub => ValModel::Num(
                vstd::wrapping::i64_specs::wrapping_sub(x as i64, y as i64) as int,
            ),
            NativeOp::Mul => ValModel::Num(
                vstd::wrapping::i64_specs::wrapping_mul(x as i64, y as i64) as int,
            ),
            NativeOp::Div => ValModel::Num(div_val(x, y)),
            NativeOp::Rem => ValModel::Num(rem_val(x, y)),
            _ => ValModel::Num(0),
        },
        (ValModel::Str(x), ValModel::Str(y)) => match op {
            NativeOp::Add => ValModel::Str(x + y),
            _ => ValModel::Num(0),
        },
        _ => ValModel::Num(0),
    }
}

/// Truncating 64-bit division with the single wrapping case.
pub fn num_div(a: i64, b: i64) -> (r: i64)
    ensures
        r as int == div_val(a as int, b as int),
{
    if b == 0 {
        return 0;
    }
    let ua: u64 = if a == i64::MIN {
        9223372036854775808u64
    } else if a < 0 {
        (-a) as u64
    } else {
        a as u64
    };
    let ub: u64 = if b == i64::MIN {
        9223372036854775808u64
    } else if b < 0 {
        (-b) as u64
    } else {
        b as u64
    };
    proof {
        assert(ua as int == abs_i(a as int));
        assert(ub as int == abs_i(b as int));
        assert(ub >= 1);
    }
    let q: u64 = ua / ub;
    proof {
        if a == i64::MIN && b == -1 {
            assert(ub == 1);
            assert(ua as int / ub as int == ua as int) by {
                vstd::arithmetic::div_mod::lemma_div_basics_2(ua as int);
            }
        }
    }
    if q >= 9223372036854775808u64 {
        proof {
            assert(q as int <= ua as int) by {
                vstd::arithmetic::div_mod::lemma_div_basics_5(ua as int, ub as int);
            }
            assert(ua == 9223372036854775808u64);
            assert(a == i64::MIN);
            if ub >= 2 {
                assert(q as int <= ua as int / 2) by {
                    vstd::arithmetic::div_mod::lemma_div_is_ordered_by_denominator(
                        ua as int,
                        2,
                        ub as int,
                    );
                }
                assert(false);
            }
            assert(ub == 1);
            assert(b == 1 || b == -1);
            assert(abs_i(a as int) / abs_i(b as int) == ua as int) by {
                vstd::arithmetic::div_mod::lemma_div_basics_2(ua as int);
            }
        }
        i64::MIN
    } else if (a < 0) != (b < 0) {
        -(q as i64)
    } else {
        q as i64
    }
}

/// Truncating 64-bit remainder, the sign of the dividend.
pub fn num_rem(a: i64, b: i64) -> (r: i64)
    ensures
        r as int == rem_val(a as int, b as int),
{
    if b == 0 {
        return 0;
    }
    let ua: u64 = if a == i64::MIN {
        9223372036854775808u64
    } else if a < 0 {
        (-a) as u64
    } else {
        a as u64
    };
    let ub: u64 = if b == i64::MIN {
        9223372036854775808u64
    } else if b < 0 {
        (-b) as u64
    } else {
        b as u64
    };
    proof {
        assert(ua as int == abs_i(a as int));
        assert(ub as int == abs_i(b as int));
        assert(ub >= 1);
    }
    let rm: u64 = ua % ub;
    proof {
        assert(rm < ub) by {
            vstd::arithmetic::div_mod::lemma_mod_bound(ua as int, ub as int);
        }
    }
    if a < 0 {
        -(rm as i64)
    } else {
        rm as i64
    }
}

/// The arithmetic native `op` applied to the values of two cells.
pub fn binop_cells(op: NativeOp, a: &HeapVal, b: &HeapVal) -> (r: HeapVal)
    ensures
        r@ == binop_val(op, a@, b@),
        val_wf(r@, 0),
{
    match (a, b) {
        (HeapVal::Num(x), HeapVal::Num(y)) => match op {
            NativeOp::Add => HeapVal::Num(x.wrapping_add(*y)),
            NativeOp::Sub => HeapVal::Num(x.wrapping_sub(*y)),
            NativeOp::Mul => HeapVal::Num(x.wrapping_mul(*y)),
            NativeOp::Div => HeapVal::Num(num_div(*x, *y)),
            NativeOp::Rem => HeapVal::Num(num_rem(*x, *y)),
            _ => HeapVal::Num(0),
        },
        (HeapVal::Str(x), HeapVal::Str(y)) => match op {
            NativeOp::Add => HeapVal::Str(x.clone().concat(y.as_str())),
            _ => HeapVal::Num(0),
        },
        _ => HeapVal::Num(0),
    }
}

impl Clone for HeapVal {
    fn clone(&self) -> (r: Self)
        ensures
            r@ == self@,
    {
        match self {
            HeapVal::Num(n) => HeapVal::Num(*n),
            HeapVal::Str(s) => HeapVal::Str(s.clone()),
            HeapVal::List(ids) => {
                let r = ids.clone();
                proof {
                    assert forall|i: int| 0 <= i < ids@.len() implies r@[i] == ids@[i] by {
                        assert(vstd::pervasive::cloned::<usize>(ids[i], r[i]));
                    }
                    assert(r@ =~= ids@);
                }
                HeapVal::List(r)
            },
            HeapVal::Tree(es) => {
                let r = es.clone();
                proof {
                    assert forall|i: int| 0 <= i < es@.len() implies r@[i] == es@[i] by {
                        assert(vstd::pervasive::cloned::<Entry>(es[i], r[i]));
                    }
                    assert(r@ =~= es@);
                }
                HeapVal::Tree(r)
            },
            HeapVal::Closure(f) => {
                let g = f.clone();
                proof {
                    assert(params_model(g.0@) == params_model(f.0@));
                }
                HeapVal::Closure(g)
            },
            HeapVal::Native(op) => HeapVal::Native(*op),
        }
    }
}

impl Machine {
    /// The key text held by cell `k`.
    pub fn key_at(&self, k: usize) -> (s: String)
        requires
            k < self.heap.len(),
        ensures
            s@ == key_of(self@, k as int),
    {
        match &self.heap[k] {
            HeapVal::Str(s) => s.clone(),
            _ => String::new(),
        }
    }

    /// The index of the first register entry named `name`.
    fn find_index(entries: &Vec<Entry>, name: &String) -> (r: Option<usize>)
        ensures
            assoc_find(entries_model(entries@), name@, 0) == (match r {
                Some(i) => Some(i as int),
                None => None::<int>,
            }),
            (r matches Some(i) ==> i < entries@.len()),
    {
        let ghost em = entries_model(entries@);
        let mut i: usize = 0;
        loop
            invariant
                i <= entries@.len(),
                em == entries_model(entries@),
                assoc_find(em, name@, 0) == assoc_find(em, name@, i as int),
            decreases entries@.len() - i,
        {
            if i >= entries.len() {
                proof {
                    assert(assoc_find(em, name@, i as int) is None);
                }
                return None;
            }
            proof {
                assert(em[i as int] == (entries@[i as int].name@, entries@[i as int].cell as int));
            }
            if entries[i].name == *name {
                proof {
                    assert(assoc_find(em, name@, i as int) == Some(i as int));
                }
                return Some(i);
            }
            proof {
                assert(assoc_find(em, name@, i as int) == assoc_find(em, name@, i as int + 1));
            }
            i = i + 1;
        }
    }

    /// The `load` operation of the machine.
    pub fn load(&mut self)
        requires
            mwf(old(self)@),
        ensures
            final(self)@ == m_load(old(self)@),
            mwf(final(self)@),
    {
        let k = match self.pop() {
            None => {
                return ;
            },
            Some(k) => k,
        };
        let name = self.key_at(k);
        match Self::find_index(&self.registers, &name) {
            Some(i) => {
                let c = self.registers[i].cell;
                proof {
                    assert(entries_model(self.registers@)[i as int].1 == c as int);
                    assert(assoc_lookup(self@.regs, name@) == Some(c as int));
                }
                self.push_cell(c);
            },
            None => {
                let fresh_tree = HeapVal::Tree(Vec::new());
                proof {
                    assert(fresh_tree@ == ValModel::Tree(Seq::<(Seq<char>, int)>::empty())) by {
                        assert(entries_model(fresh_tree->Tree_0@) =~= Seq::<(
                            Seq<char>,
                            int,
                        )>::empty());
                    }
                }
                self.push(fresh_tree);
            },
        }
    }

    /// The `store` operation of the machine.
    pub fn store(&mut self)
        requires
            mwf(old(self)@),
        ensures
            final(self)@ == m_store(old(self)@),
            mwf(final(self)@),
    {
        let k = match self.pop() {
            None => {
                return ;
            },
            Some(k) => k,
        };
        let name = self.key_at(k);
        let v = match self.pop() {
            None => {
                return ;
            },
            Some(v) => v,
        };
        match Self::find_index(&self.registers, &name) {
            Some(i) => {
                self.registers[i] = Entry { name, cell: v };
                proof {
                    assert(entries_model(self.registers@) =~= assoc_set(
                        old(self)@.regs,
                        key_of(old(self)@, k as int),
                        v as int,
                    ));
                }
            },
            None => {
                self.registers.push(Entry { name, cell: v });
                proof {
                    assert(entries_model(self.registers@) =~= assoc_set(
                        old(self)@.regs,
                        key_of(old(self)@, k as int),
                        v as int,
                    ));
                }
            },
        }
        proof {
            assert(final(self)@.heap =~= old(self)@.heap);
            assert(final(self)@.stack =~= old(self)@.stack.drop_last().drop_last());
        }
    }

    /// The `assign` operation of the machine.
    pub fn assign(&mut self)
        requires
            mwf(old(self)@),
        ensures
            final(self)@ == m_assign(old(self)@),
            mwf(final(self)@),
    {
        let t = match self.pop() {
            None => {
                return ;
            },
            Some(t) => t,
        };
        let v = match self.pop() {
            None => {
                return ;
            },
            Some(v) => v,
        };
        let val = self.heap[v].clone();
        self.heap[t] = val;
        proof {
            assert(final(self)@.heap =~= old(self)@.heap.update(
                t as int,
                old(self)@.heap[v as int],
            ));
            assert(final(self)@.stack =~= old(self)@.stack.drop_last().drop_last());
            assert(final(self)@.regs =~= old(self)@.regs);
            assert(mwf(final(self)@));
        }
    }

    /// The `index` operation of the machine.
    pub fn index(&mut self)
        requires
            mwf(old(self)@),
        ensures
            final(self)@ == m_index(old(self)@),
            mwf(final(self)@),
    {
        let k = match self.pop() {
            None => {
                return ;
            },
            Some(k) => k,
        };
        let c = match self.pop() {
            None => {
                return ;
            },
            Some(c) => c,
        };
        let ghost m0 = old(self)@;
        let kind: usize = match &self.heap[c] {
            HeapVal::Tree(_) => 0,
            HeapVal::List(_) => 1,
            _ => 2,
        };
        if kind == 0 {
            let name = self.key_at(k);
            let found: Option<usize> = match &self.heap[c] {
                HeapVal::Tree(es) => {
                    let f = Self::find_index(es, &name);
                    match f {
                        Some(i) => Some(es[i].cell),
                        None => None,
                    }
                },
                _ => None,
            };
            match found {
                Some(cc) => {
                    proof {
                        let es = self@.heap[c as int]->Tree_0;
                        assert(assoc_lookup(es, name@) == Some(cc as int));
                        assert(0 <= cc < self@.heap.len());
                    }
                    self.push_cell(cc);
                },
                None => {
                    let mut es2: Vec<Entry> = match &self.heap[c] {
                        HeapVal::Tree(es) => es.clone(),
                        _ => Vec::new(),
                    };
                    proof {
                        let es = m0.heap[c as int]->Tree_0;
                        assert forall|i: int| 0 <= i < es2@.len() implies es2@[i]
                            == self.heap[c as int]->Tree_0@[i] by {
                            assert(vstd::pervasive::cloned::<Entry>(
                                self.heap[c as int]->Tree_0[i],
                                es2[i],
                            ));
                        }
                        assert(es2@ =~= self.heap[c as int]->Tree_0@);
                        assert(entries_model(es2@) == es);
                    }
                    let fresh_tree = HeapVal::Tree(Vec::new());
                    proof {
                        assert(fresh_tree@ == ValModel::Tree(Seq::<(Seq<char>, int)>::empty()))
                            by {
                            assert(entries_model(fresh_tree->Tree_0@) =~= Seq::<(
                                Seq<char>,
                                int,
                            )>::empty());
                        }
                    }
                    let fresh = self.alloc_cell(fresh_tree);
                    es2.push(Entry { name, cell: fresh });
                    proof {
                        assert(self.heap@.len() == self@.heap.len());
                        assert((c as int) < m0.heap.len());
                        assert((c as int) < self@.heap.len());
                    }
                    self.heap[c] = HeapVal::Tree(es2);
                    proof {
                        assert(self.heap@.len() == self@.heap.len());
                        assert((fresh as int) < self@.heap.len());
                    }
                    self.push_cell(fresh);
                    proof {
                        let es = m0.heap[c as int]->Tree_0;
                        let name_s = key_of(m0, k as int);
                        assert(entries_model(es2@) =~= es.push((name_s, fresh as int)));
                        assert(final(self)@.heap =~= m0.heap.push(
                            ValModel::Tree(Seq::empty()),
                        ).update(c as int, ValModel::Tree(es.push((name_s, fresh as int)))));
                        assert(final(self)@.stack =~= m0.stack.drop_last().drop_last().push(
                            fresh as int,
                        ));
                        assert(final(self)@.regs =~= m0.regs);
                        assert(final(self)@ == m_index(m0));
                        assert forall|i: int|
                            0 <= i < final(self)@.heap.len() implies val_wf(
                            #[trigger] final(self)@.heap[i],
                            final(self)@.heap.len() as int,
                        ) by {
                            if i < m0.heap.len() && i != c as int {
                                lemma_val_wf_grow(m0.heap[i], m0.heap.len() as int,
                                    final(self)@.heap.len() as int);
                            }
                        }
                        assert(mwf(final(self)@));
                    }
                },
            }
        } else if kind == 1 {
            let n: Option<usize> = match &self.heap[k] {
                HeapVal::Num(n) => {
                    let ids_len = match &self.heap[c] {
                        HeapVal::List(ids) => ids.len(),
                        _ => 0,
                    };
                    if 0 <= *n && (*n as u64) < (ids_len as u64) {
                        Some(*n as usize)
                    } else {
                        None
                    }
                },
                _ => None,
            };
            match n {
                Some(i) => {
                    let cc = match &self.heap[c] {
                        HeapVal::List(ids) => ids[i],
                        _ => 0,
                    };
                    proof {
                        let ids = m0.heap[c as int]->List_0;
                        assert(ids[i as int] == cc as int);
                        assert(0 <= cc < self@.heap.len());
                    }
                    self.push_cell(cc);
                },
                None => {
                    let fresh_tree = HeapVal::Tree(Vec::new());
                    proof {
                        assert(fresh_tree@ == ValModel::Tree(Seq::<(Seq<char>, int)>::empty()))
                            by {
                            assert(entries_model(fresh_tree->Tree_0@) =~= Seq::<(
                                Seq<char>,
                                int,
                            )>::empty());
                        }
                    }
                    self.push(fresh_tree);
                },
            }
        } else {
            let fresh_tree = HeapVal::Tree(Vec::new());
            proof {
                assert(fresh_tree@ == ValModel::Tree(Seq::<(Seq<char>, int)>::empty())) by {
                    assert(entries_model(fresh_tree->Tree_0@) =~= Seq::<(
                        Seq<char>,
                        int,
                    )>::empty());
                }
            }
            self.push(fresh_tree);
        }
    }

    /// Pop a cell and test its truth; an empty stack is false.
    pub fn pop_truthy(&mut self) -> (r: bool)
        requires
            mwf(old(self)@),
        ensures
            final(self)@ == m_popped(old(self)@),
            mwf(final(self)@),
            r == m_top_truthy(old(self)@),
    {
        match self.pop() {
            None => false,
            Some(c) => match &self.heap[c] {
                HeapVal::Num(n) => *n != 0,
                HeapVal::Str(s) => s.as_str().unicode_len() != 0,
                HeapVal::List(ids) => ids.len() != 0,
                HeapVal::Tree(es) => es.len() != 0,
                HeapVal::Closure(_) => true,
                HeapVal::Native(_) => true,
            },
        }
    }

    /// Pop a string argument, with the fail-silent coercion.
    pub fn get_arg_str(&mut self) -> (r: String)
        requires
            mwf(old(self)@),
        ensures
            final(self)@ == m_popped(old(self)@),
            mwf(final(self)@),
            r@ == m_top_str(old(self)@),
    {
        match self.pop() {
            None => String::new(),
            Some(c) => self.key_at(c),
        }
    }

    /// Compare two cells structurally, to a bounded depth.  Numbers, strings
    /// and natives compare by value, lists and trees element for element;
    /// function values never compare equal; exhausted fuel compares unequal,
    /// so a cyclic value is reported unequal rather than looping.
    pub fn eq_cells(&self, a: usize, b: usize, fuel: u64) -> (r: bool)
        requires
            mwf(self@),
            a < self.heap.len(),
            b < self.heap.len(),
        ensures
            r == eq_val(self@.heap, a as int, b as int, fuel as nat),
        decreases fuel,
    {
        if fuel == 0 {
            return false;
        }
        match (&self.heap[a], &self.heap[b]) {
            (HeapVal::Num(x), HeapVal::Num(y)) => *x == *y,
            (HeapVal::Str(x), HeapVal::Str(y)) => *x == *y,
            (HeapVal::List(xs), HeapVal::List(ys)) => {
                if xs.len() != ys.len() {
                    return false;
                }
                let ghost xsm = self@.heap[a as int]->List_0;
                let ghost ysm = self@.heap[b as int]->List_0;
                let mut i: usize = 0;
                loop
                    invariant
                        mwf(self@),
                        a < self.heap.len(),
                        b < self.heap.len(),
                        self@.heap[a as int] == ValModel::List(xsm),
                        self@.heap[b as int] == ValModel::List(ysm),
                        xs == self.heap[a as int]->List_0,
                        ys == self.heap[b as int]->List_0,
                        xsm.len() == ysm.len(),
                        i <= xsm.len(),
                        fuel >= 1,
                        forall|j: int|
                            0 <= j < i ==> eq_val(
                                self@.heap,
                                #[trigger] xsm[j],
                                ysm[j],
                                (fuel - 1) as nat,
                            ),
                    decreases xsm.len() - i,
                {
                    if i >= xs.len() {
                        return true;
                    }
                    proof {
                        assert(xsm == xs@.map(|j: int, c: usize| c as int));
                        assert(ysm == ys@.map(|j: int, c: usize| c as int));
                        assert(i < xsm.len());
                        assert(xsm[i as int] == xs@[i as int] as int);
                        assert(ysm[i as int] == ys@[i as int] as int);
                        assert(val_wf(self@.heap[a as int], self@.heap.len() as int));
                        assert(val_wf(self@.heap[b as int], self@.heap.len() as int));
                        lemma_list_elem_wf(ValModel::List(xsm), self@.heap.len() as int, i as int);
                        lemma_list_elem_wf(ValModel::List(ysm), self@.heap.len() as int, i as int);
                    }
                    if !self.eq_cells(xs[i], ys[i], fuel - 1) {
                        return false;
                    }
                    i = i + 1;
                }
            },
            (HeapVal::Tree(xs), HeapVal::Tree(ys)) => {
                if xs.len() != ys.len() {
                    return false;
                }
                let ghost xsm = self@.heap[a as int]->Tree_0;
                let ghost ysm = self@.heap[b as int]->Tree_0;
                let mut i: usize = 0;
                loop
                    invariant
                        mwf(self@),
                        a < self.heap.len(),
                        b < self.heap.len(),
                        self@.heap[a as int] == ValModel::Tree(xsm),
                        self@.heap[b as int] == ValModel::Tree(ysm),
                        xs == self.heap[a as int]->Tree_0,
                        ys == self.heap[b as int]->Tree_0,
                        xsm.len() == ysm.len(),
                        i <= xsm.len(),
                        fuel >= 1,
                        forall|j: int|
                            0 <= j < i ==> (#[trigger] xsm[j]).0 == ysm[j].0 && eq_val(
                                self@.heap,
                                xsm[j].1,
                                ysm[j].1,
                                (fuel - 1) as nat,
                            ),
                    decreases xsm.len() - i,
                {
                    if i >= xs.len() {
                        return true;
                    }
                    proof {
                        assert(xsm == entries_model(xs@));
                        assert(ysm == entries_model(ys@));
                        assert(i < xsm.len());
                        assert(xsm[i as int] == (xs@[i as int].name@, xs@[i as int].cell as int));
                        assert(ysm[i as int] == (ys@[i as int].name@, ys@[i as int].cell as int));
                        assert(val_wf(self@.heap[a as int], self@.heap.len() as int));
                        assert(val_wf(self@.heap[b as int], self@.heap.len() as int));
                        lemma_tree_elem_wf(ValModel::Tree(xsm), self@.heap.len() as int, i as int);
                        lemma_tree_elem_wf(ValModel::Tree(ysm), self@.heap.len() as int, i as int);
                    }
                    if xs[i].name != ys[i].name {
                        return false;
                    }
                    if !self.eq_cells(xs[i].cell, ys[i].cell, fuel - 1) {
                        return false;
                    }
                    i = i + 1;
                }
            },
            (HeapVal::Native(x), HeapVal::Native(y)) => *x == *y,
            _ => false,
        }
    }

    /// Pop a number argument, with the fail-silent coercion.
    pub fn get_arg_num(&mut self) -> (r: i64)
        requires
            mwf(old(self)@),
        ensures
            final(self)@ == m_popped(old(self)@),
            mwf(final(self)@),
            r as int == m_top_num(old(self)@),
    {
        match self.pop() {
            None => 0,
            Some(c) => match &self.heap[c] {
                HeapVal::Num(n) => *n,
                _ => 0,
            },
        }
    }
}

} // verus!
