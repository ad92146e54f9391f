//! Display rendering of runtime values.
//!
//! Numbers render as plain decimals, strings as their bare text, lists as
//! `[a, b]`, trees as `{k: v}`, and function values as `<function>`.
//! Rendering follows cell references through the arena to a bounded depth
//! (`DISPLAY_FUEL`), so a cyclic value renders finitely instead of looping;
//! past the bound, a value renders as nothing.

use vstd::prelude::*;
use vstd::string::StringExecFns;
use crate::machine::{HeapVal, Machine, ValModel, val_wf, heap_wf, lemma_list_elem_wf,
    lemma_tree_elem_wf, entries_model, mwf, Entry};

verus! {

/// The depth bound of display rendering.
pub const DISPLAY_FUEL: u64 = 32;

/// The digit character of `d`.
pub open spec fn digit_str(d: int) -> Seq<char> {
    if d == 0 {
        "0"@
    } else if d == 1 {
        "1"@
    } else if d == 2 {
        "2"@
    } else if d == 3 {
        "3"@
    } else if d == 4 {
        "4"@
    } else if d == 5 {
        "5"@
    } else if d == 6 {
        "6"@
    } else if d == 7 {
        "7"@
    } else if d == 8 {
        "8"@
    } else {
        "9"@
    }
}

/// The decimal text of a non-negative number.
pub open spec fn dec_str(n: nat) -> Seq<char>
    decreases n,
{
    if n < 10 {
        digit_str(n as int)
    } else {
        dec_str(n / 10) + digit_str((n % 10) as int)
    }
}

/// The decimal text of a number, with a leading minus sign when negative.
pub open spec fn num_str(n: int) -> Seq<char> {
    if n < 0 {
        "-"@ + dec_str((-n) as nat)
    } else {
        dec_str(n as nat)
    }
}

/// The display text of the cell `c`, to depth `fuel`.
pub open spec fn render_val(h: Seq<ValModel>, c: int, fuel: nat) -> Seq<char>
    decreases fuel, 0nat,
{
    if fuel == 0 || !(0 <= c < h.len()) {
        Seq::empty()
    } else {
        match h[c] {
            ValModel::Num(n) => num_str(n),
            ValModel::Str(s) => s,
            ValModel::List(ids) => "["@ + render_list(h, ids, (fuel - 1) as nat) + "]"@,
            ValModel::Tree(es) => "{"@ + render_tree(h, es, (fuel - 1) as nat) + "}"@,
            ValModel::Closure(_, _) => "<function>"@,
            ValModel::Native(_) => "<function>"@,
        }
    }
}

/// The display text of list items, separated by `, `.
pub open spec fn render_list(h: Seq<ValModel>, ids: Seq<int>, fuel: nat) -> Seq<char>
    decreases fuel, ids.len() + 1,
{
    if ids.len() == 0 {
        Seq::empty()
    } else if ids.len() == 1 {
        render_val(h, ids[0], fuel)
    } else {
        render_val(h, ids[0], fuel) + ", "@ + render_list(h, ids.drop_first(), fuel)
    }
}

/// The display text of tree entries, `key: value`, separated by `, `.
pub open spec fn render_tree(h: Seq<ValModel>, es: Seq<(Seq<char>, int)>, fuel: nat) -> Seq<char>
    decreases fuel, es.len() + 1,
{
    if es.len() == 0 {
        Seq::empty()
    } else if es.len() == 1 {
        es[0].0 + ": "@ + render_val(h, es[0].1, fuel)
    } else {
        es[0].0 + ": "@ + render_val(h, es[0].1, fuel) + ", "@ + render_tree(
            h,
            es.drop_first(),
            fuel,
        )
    }
}

/// Append the decimal text of `n`.
fn append_dec(out: &mut String, n: u64)
    ensures
        final(out)@ == old(out)@ + dec_str(n as nat),
    decreases n,
{
    if n < 10 {
        let d: &str = match n {
            0 => "0",
            1 => "1",
            2 => "2",
            3 => "3",
            4 => "4",
            5 => "5",
            6 => "6",
            7 => "7",
            8 => "8",
            _ => "9",
        };
        out.append(d);
    } else {
        append_dec(out, n / 10);
        let d: &str = match n % 10 {
            0 => "0",
            1 => "1",
            2 => "2",
            3 => "3",
            4 => "4",
            5 => "5",
            6 => "6",
            7 => "7",
            8 => "8",
            _ => "9",
        };
        out.append(d);
    }
}

/// Append the decimal text of `n`, signed.
fn append_num(out: &mut String, n: i64)
    ensures
        final(out)@ == old(out)@ + num_str(n as int),
{
    if n < 0 {
        out.append("-");
        let mag: u64 = if n == i64::MIN {
            9223372036854775808u64
        } else {
            (-n) as u64
        };
        proof {
            assert(mag as nat == (-(n as int)) as nat);
        }
        append_dec(out, mag);
    } else {
        append_dec(out, n as u64);
    }
}

/// Append the display text of the cell `c`, to depth `fuel`.
fn append_val(h: &Vec<HeapVal>, c: usize, fuel: u64, out: &mut String)
    requires
        heap_wf(h@.map(|i: int, v: HeapVal| v@)),
        c < h.len(),
    ensures
        final(out)@ == old(out)@ + render_val(
            h@.map(|i: int, v: HeapVal| v@),
            c as int,
            fuel as nat,
        ),
    decreases fuel, 0nat,
{
    let ghost hm = h@.map(|i: int, v: HeapVal| v@);
    if fuel == 0 {
        return ;
    }
    match &h[c] {
        HeapVal::Num(n) => {
            proof {
                assert(hm[c as int] == ValModel::Num(*n as int));
            }
            append_num(out, *n);
        },
        HeapVal::Str(s) => {
            proof {
                assert(hm[c as int] == ValModel::Str(s@));
            }
            out.append(s.as_str());
        },
        HeapVal::List(ids) => {
            out.append("[");
            proof {
                assert(hm[c as int] == ValModel::List(ids@.map(|i: int, x: usize| x as int)));
                assert(ids@.map(|i: int, x: usize| x as int).skip(0) =~= ids@.map(
                    |i: int, x: usize| x as int,
                ));
                assert(val_wf(hm[c as int], hm.len() as int));
            }
            append_items(h, ids, 0, fuel - 1, out);
            out.append("]");
        },
        HeapVal::Tree(es) => {
            out.append("{");
            proof {
                assert(hm[c as int] == ValModel::Tree(entries_model(es@)));
                assert(entries_model(es@).skip(0) =~= entries_model(
                    es@,
                ));
                assert(val_wf(hm[c as int], hm.len() as int));
            }
            append_entries(h, es, 0, fuel - 1, out);
            out.append("}");
        },
        HeapVal::Closure(_) => {
            proof {
                assert(hm[c as int] is Closure);
            }
            out.append("<function>");
        },
        HeapVal::Native(_) => {
            proof {
                assert(hm[c as int] is Native);
            }
            out.append("<function>");
        },
    }
}

/// Append the display text of the list items from position `at` on.
fn append_items(h: &Vec<HeapVal>, ids: &Vec<usize>, at: usize, fuel: u64, out: &mut String)
    requires
        heap_wf(h@.map(|i: int, v: HeapVal| v@)),
        at <= ids.len(),
        val_wf(
            ValModel::List(ids@.map(|i: int, x: usize| x as int)),
            h@.map(|i: int, v: HeapVal| v@).len() as int,
        ),
    ensures
        final(out)@ == old(out)@ + render_list(
            h@.map(|i: int, v: HeapVal| v@),
            ids@.map(|i: int, x: usize| x as int).skip(at as int),
            fuel as nat,
        ),
    decreases fuel, ids@.len() - at + 1,
{
    let ghost hm = h@.map(|i: int, v: HeapVal| v@);
    let ghost idm = ids@.map(|i: int, x: usize| x as int);
    if at >= ids.len() {
        proof {
            assert(idm.skip(at as int) =~= Seq::<int>::empty());
        }
        return ;
    }
    proof {
        lemma_list_elem_wf(ValModel::List(idm), hm.len() as int, at as int);
        assert(idm.skip(at as int)[0] == idm[at as int]);
    }
    append_val(h, ids[at], fuel, out);
    if at + 1 < ids.len() {
        out.append(", ");
    }
    append_items(h, ids, at + 1, fuel, out);
    proof {
        assert(idm.skip(at as int).drop_first() =~= idm.skip(at as int + 1));
        if at as int + 1 < idm.len() {
            assert(idm.skip(at as int).len() > 1);
        } else {
            assert(idm.skip(at as int).len() == 1);
            assert(idm.skip(at as int + 1) =~= Seq::<int>::empty());
        }
    }
}

/// Append the display text of the tree entries from position `at` on.
fn append_entries(
    h: &Vec<HeapVal>,
    es: &Vec<Entry>,
    at: usize,
    fuel: u64,
    out: &mut String,
)
    requires
        heap_wf(h@.map(|i: int, v: HeapVal| v@)),
        at <= es.len(),
        val_wf(
            ValModel::Tree(entries_model(es@)),
            h@.map(|i: int, v: HeapVal| v@).len() as int,
        ),
    ensures
        final(out)@ == old(out)@ + render_tree(
            h@.map(|i: int, v: HeapVal| v@),
            entries_model(es@).skip(at as int),
            fuel as nat,
        ),
    decreases fuel, es@.len() - at + 1,
{
    let ghost hm = h@.map(|i: int, v: HeapVal| v@);
    let ghost em = entries_model(es@);
    if at >= es.len() {
        proof {
            assert(em.skip(at as int) =~= Seq::<(Seq<char>, int)>::empty());
        }
        return ;
    }
    proof {
        lemma_tree_elem_wf(ValModel::Tree(em), hm.len() as int, at as int);
        assert(em.skip(at as int)[0] == em[at as int]);
        assert(em[at as int] == (es@[at as int].name@, es@[at as int].cell as int));
    }
    out.append(es[at].name.as_str());
    out.append(": ");
    append_val(h, es[at].cell, fuel, out);
    if at + 1 < es.len() {
        out.append(", ");
    }
    append_entries(h, es, at + 1, fuel, out);
    proof {
        assert(em.skip(at as int).drop_first() =~= em.skip(at as int + 1));
        if at as int + 1 < em.len() {
            assert(em.skip(at as int).len() > 1);
        } else {
            assert(em.skip(at as int).len() == 1);
            assert(em.skip(at as int + 1) =~= Seq::<(Seq<char>, int)>::empty());
        }
    }
}

/// The display text of the cell `c` of machine `m`, to the standard depth.
pub fn display_cell(m: &Machine, c: usize) -> (r: String)
    requires
        mwf(m@),
        c < m.heap.len(),
    ensures
        r@ == render_val(m@.heap, c as int, DISPLAY_FUEL as nat),
{
    let mut out = String::new();
    append_val(&m.heap, c, DISPLAY_FUEL, &mut out);
    out
}

} // verus!
