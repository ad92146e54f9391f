//! The recursive-descent parser of the shell language.
//!
//! Parsing works over a character sequence with an explicit cursor; every
//! parser hands back the parsed node and the new cursor position, or
//! nothing, consuming no input on failure.  Whitespace is insignificant and
//! skipped before every token; comments run from `#` to the end of the
//! line.  Built-in keywords are tried before identifiers, so a built-in
//! name in value position never parses as an identifier.
//!
//! The token layer carries exact contracts: identifiers, numbers, strings,
//! comments and keywords each state precisely what text they consume and
//! what value they return, and when success is owed.  The compound parsers
//! state their cursor discipline, their result's shape, the token that
//! anchors them, and that they fail on exhausted input; the full
//! derivation relation between compound text and tree is in the bodies,
//! exercised by the test suite, not yet in the contracts.

use vstd::prelude::*;
use std::rc::Rc;
use crate::tokens::{Builtin, Expr, FnCall, Function, FunctionDef, Identifier, Literal, Name,
    Suite, Value};

verus! {

/// Whether `c` is insignificant whitespace.
pub open spec fn is_ws(c: char) -> bool {
    c == ' ' || c == '\t' || c == '\n' || c == '\r'
}

/// The position of the first non-whitespace character at or after `pos`.
pub open spec fn ws_end(s: Seq<char>, pos: int) -> int
    decreases s.len() - pos,
{
    if pos < 0 || pos >= s.len() || !is_ws(s[pos]) {
        pos
    } else {
        ws_end(s, pos + 1)
    }
}

/// Whether, after whitespace, the input continues with `kw`.
pub open spec fn at_seq(s: Seq<char>, pos: int, kw: Seq<char>) -> bool {
    let q = ws_end(s, pos);
    q + kw.len() <= s.len() && s.subrange(q, q + kw.len() as int) == kw
}

/// A value a built-in keyword in value position may become: the bare
/// built-in, or a call whose callee is one.
pub open spec fn is_builtin_result(v: Value) -> bool {
    v is Builtin || v is FnCall
}

/// Whether, after whitespace, an identifier starts here.
pub open spec fn at_ident_start(s: Seq<char>, pos: int) -> bool {
    ws_end(s, pos) < s.len() && is_ident_start(s[ws_end(s, pos)])
}

/// Whether, after whitespace, a well-formed string literal starts here.
pub open spec fn at_string_lit(s: Seq<char>, pos: int) -> bool {
    let q = ws_end(s, pos);
    q < s.len() && s[q] == '"' && scan_str(s, q + 1) is Some
}

/// Whether, after whitespace, a number literal that fits the machine's
/// numbers starts here.
pub open spec fn at_number_lit(s: Seq<char>, pos: int) -> bool {
    let q = ws_end(s, pos);
    let sd = if q < s.len() && s[q] == '-' {
        q + 1
    } else {
        q
    };
    sd < s.len() && is_digit(s[sd]) && digits_val(s, sd, digits_end(s, sd)) <= i64::MAX
}

/// Whether, after whitespace, one of the eight built-in keywords starts
/// here.
pub open spec fn at_builtin_kw(s: Seq<char>, pos: int) -> bool {
    ||| at_seq(s, pos, seq!['l', 's'])
    ||| at_seq(s, pos, seq!['m', 'v'])
    ||| at_seq(s, pos, seq!['c', 'd'])
    ||| at_seq(s, pos, seq!['r', 'm'])
    ||| at_seq(s, pos, seq!['m', 'k', 'd', 'i', 'r'])
    ||| at_seq(s, pos, seq!['m', 'k', 'f'])
    ||| at_seq(s, pos, seq!['p', 'w', 'd'])
    ||| at_seq(s, pos, seq!['e', 'x', 'i', 't'])
}

/// Skip insignificant whitespace.
fn skip_ws(input: &Vec<char>, pos: usize) -> (r: usize)
    requires
        pos <= input@.len(),
    ensures
        r as int == ws_end(input@, pos as int),
        pos <= r <= input@.len(),
    decreases input@.len() - pos,
{
    if pos < input.len() {
        let c = input[pos];
        if c == ' ' || c == '\t' || c == '\n' || c == '\r' {
            return skip_ws(input, pos + 1);
        }
    }
    pos
}

/// Whether the characters of `kw` stand at `pos`, without skipping.
fn match_chars(input: &Vec<char>, pos: usize, kw: &Vec<char>) -> (r: bool)
    requires
        pos <= input@.len(),
    ensures
        r == (pos + kw@.len() <= input@.len() && input@.subrange(
            pos as int,
            pos as int + kw@.len() as int,
        ) == kw@),
{
    let n = input.len();
    if n - pos < kw.len() {
        proof {
            assert(pos + kw@.len() > input@.len());
        }
        return false;
    }
    let mut i: usize = 0;
    let mut j: usize = pos;
    while i < kw.len()
        invariant
            pos + kw@.len() <= input@.len(),
            input@.len() <= usize::MAX,
            i <= kw@.len(),
            j == pos + i,
            forall|k: int| 0 <= k < i ==> input@[pos + k] == kw@[k],
        decreases kw@.len() - i,
    {
        if input[j] != kw[i] {
            proof {
                assert(input@.subrange(pos as int, pos as int + kw@.len() as int)[i as int]
                    != kw@[i as int]);
            }
            return false;
        }
        i = i + 1;
        j = j + 1;
    }
    proof {
        assert(input@.subrange(pos as int, pos as int + kw@.len() as int) =~= kw@);
    }
    true
}

/// Skip whitespace and match the keyword `kw`; the cursor lands after it.
fn match_kw(input: &Vec<char>, pos: usize, kw: &Vec<char>) -> (r: Option<usize>)
    requires
        pos <= input@.len(),
        kw@.len() >= 1,
    ensures
        (r matches Some(p) ==> pos < p <= input@.len() && at_seq(input@, pos as int, kw@) && p
            as int == ws_end(input@, pos as int) + kw@.len()),
        (r is None ==> !at_seq(input@, pos as int, kw@)),
{
    let n = input.len();
    let q = skip_ws(input, pos);
    if match_chars(input, q, kw) {
        proof {
            assert(q + kw@.len() <= n);
        }
        Some(q + kw.len())
    } else {
        None
    }
}

/// Whether `c` can start an identifier.
pub open spec fn is_ident_start(c: char) -> bool {
    ('a' <= c && c <= 'z') || ('A' <= c && c <= 'Z') || c == '_'
}

/// Whether `c` can continue an identifier.
pub open spec fn is_ident_char(c: char) -> bool {
    is_ident_start(c) || ('0' <= c && c <= '9')
}

/// Whether `c` can start an identifier (executable form).
fn ident_start(c: char) -> (r: bool)
    ensures
        r == is_ident_start(c),
{
    ('a' <= c && c <= 'z') || ('A' <= c && c <= 'Z') || c == '_'
}

/// Whether `c` can continue an identifier (executable form).
fn ident_char(c: char) -> (r: bool)
    ensures
        r == is_ident_char(c),
{
    ident_start(c) || ('0' <= c && c <= '9')
}

/// Relies on `String`'s `FromIterator` over characters: the collected
/// string holds exactly the characters handed to it, in order.
#[verifier::external_body]
fn chars_to_string(cs: &Vec<char>) -> (r: String)
    ensures
        r@ == cs@,
{
    cs.iter().collect()
}

/// This matches a simple identifier: a letter or underscore followed by
/// letters, digits and underscores.
pub fn ident(input: &Vec<char>, pos: usize) -> (r: Option<(Identifier, usize)>)
    requires
        pos <= input@.len(),
    ensures
        (r matches Some((id, p)) ==> pos < p <= input@.len() && id.0@ == input@.subrange(
            ws_end(input@, pos as int),
            p as int,
        )),
        (ws_end(input@, pos as int) < input@.len() && is_ident_start(
            input@[ws_end(input@, pos as int)],
        ) ==> r is Some),
        (ws_end(input@, pos as int) == input@.len() ==> r is None),
    decreases input@.len() - pos, 1int,
{
    let q = skip_ws(input, pos);
    if q >= input.len() || !ident_start(input[q]) {
        return None;
    }
    let mut cs: Vec<char> = Vec::new();
    let mut i: usize = q;
    proof {
        assert(cs@ =~= input@.subrange(q as int, q as int));
    }
    while i < input.len() && ident_char(input[i])
        invariant
            pos <= q <= i <= input@.len(),
            cs@ == input@.subrange(q as int, i as int),
        decreases input@.len() - i,
    {
        cs.push(input[i]);
        i = i + 1;
        proof {
            assert(cs@ =~= input@.subrange(q as int, i as int));
        }
    }
    proof {
        assert(q < i);
    }
    Some((Identifier(chars_to_string(&cs)), i))
}

/// The character an escape pair stands for: `\n`, `\t` and `\r` are the
/// control characters; any other escaped character stands for itself.
pub open spec fn unescaped(d: char) -> char {
    if d == 'n' {
        '\n'
    } else if d == 't' {
        '\t'
    } else if d == 'r' {
        '\r'
    } else {
        d
    }
}

/// Scan a string literal's interior from `i` to its closing quote: the
/// decoded text and the position after the quote, or nothing when the
/// literal is unterminated.
pub open spec fn scan_str(s: Seq<char>, i: int) -> Option<(Seq<char>, int)>
    decreases s.len() - i,
{
    if i < 0 || i >= s.len() {
        None
    } else if s[i] == '"' {
        Some((Seq::empty(), i + 1))
    } else if s[i] == '\\' {
        if i + 1 >= s.len() {
            None
        } else {
            match scan_str(s, i + 2) {
                Some((t, p)) => Some((seq![unescaped(s[i + 1])] + t, p)),
                None => None,
            }
        }
    } else {
        match scan_str(s, i + 1) {
            Some((t, p)) => Some((seq![s[i]] + t, p)),
            None => None,
        }
    }
}

/// This parses a string literal: double-quoted, with backslash escapes
/// (`\n`, `\t`, `\r`; any other escaped character stands for itself).
pub fn string_literal(input: &Vec<char>, pos: usize) -> (r: Option<(Literal, usize)>)
    requires
        pos <= input@.len(),
    ensures
        (r matches Some((l, p)) ==> pos < p <= input@.len() && (l matches Literal::String(txt)
            && scan_str(input@, ws_end(input@, pos as int) + 1) == Some((txt@, p as int)))),
        (({
            let q = ws_end(input@, pos as int);
            q < input@.len() && input@[q] == '"' && scan_str(input@, q + 1) is Some
        }) ==> r is Some),
        (ws_end(input@, pos as int) == input@.len() ==> r is None),
    decreases input@.len() - pos, 1int,
{
    let q = skip_ws(input, pos);
    if q >= input.len() || input[q] != '"' {
        return None;
    }
    let mut cs: Vec<char> = Vec::new();
    let mut i: usize = q + 1;
    proof {
        match scan_str(input@, q as int + 1) {
            Some((t, p)) => {
                assert(Seq::<char>::empty() + t =~= t);
            },
            None => {},
        }
    }
    loop
        invariant
            pos <= q,
            q as int == ws_end(input@, pos as int),
            q < i <= input@.len(),
            scan_str(input@, q as int + 1) == (match scan_str(input@, i as int) {
                Some((t, p)) => Some::<(Seq<char>, int)>((cs@ + t, p)),
                None => None,
            }),
        decreases input@.len() - i,
    {
        if i >= input.len() {
            proof {
                assert(scan_str(input@, i as int) is None);
            }
            return None;  // unterminated
        }
        let c = input[i];
        if c == '"' {
            proof {
                assert(cs@ + Seq::<char>::empty() =~= cs@);
            }
            return Some((Literal::String(chars_to_string(&cs)), i + 1));
        }
        if c == '\\' {
            if i + 1 >= input.len() {
                proof {
                    assert(scan_str(input@, i as int) is None);
                }
                return None;
            }
            let d = input[i + 1];
            let e: char = if d == 'n' {
                '\n'
            } else if d == 't' {
                '\t'
            } else if d == 'r' {
                '\r'
            } else {
                d
            };
            cs.push(e);
            proof {
                match scan_str(input@, i as int + 2) {
                    Some((t, p)) => {
                        assert(cs@.drop_last() + (seq![e] + t) =~= cs@ + t);
                    },
                    None => {},
                }
            }
            i = i + 2;
        } else {
            cs.push(c);
            proof {
                match scan_str(input@, i as int + 1) {
                    Some((t, p)) => {
                        assert(cs@.drop_last() + (seq![c] + t) =~= cs@ + t);
                    },
                    None => {},
                }
            }
            i = i + 1;
        }
    }
}

/// The numeric value of a digit character (characters beyond `9` coerce
/// to nine, and never reach this in a parse).
pub open spec fn digit_of(c: char) -> int {
    if c == '0' {
        0
    } else if c == '1' {
        1
    } else if c == '2' {
        2
    } else if c == '3' {
        3
    } else if c == '4' {
        4
    } else if c == '5' {
        5
    } else if c == '6' {
        6
    } else if c == '7' {
        7
    } else if c == '8' {
        8
    } else {
        9
    }
}

/// Whether `c` is a decimal digit.
pub open spec fn is_digit(c: char) -> bool {
    '0' <= c && c <= '9'
}

/// The position of the first non-digit at or after `i`, or the input's end:
/// the end of the digit run that starts at `i`.
pub open spec fn digits_end(s: Seq<char>, i: int) -> int
    decreases s.len() - i,
{
    if i < 0 || i >= s.len() || !is_digit(s[i]) {
        i
    } else {
        digits_end(s, i + 1)
    }
}

/// The value of the decimal digits `s[from .. to]`.
pub open spec fn digits_val(s: Seq<char>, from: int, to: int) -> int
    decreases to - from,
{
    if from >= to {
        0
    } else {
        digits_val(s, from, to - 1) * 10 + digit_of(s[to - 1])
    }
}

/// A digit run's value is never negative.
proof fn lemma_digits_val_nonneg(s: Seq<char>, a: int, b: int)
    ensures
        digits_val(s, a, b) >= 0,
    decreases b - a,
{
    if a < b {
        lemma_digits_val_nonneg(s, a, b - 1);
    }
}

/// Extending a digit run to the right never shrinks its value.
proof fn lemma_digits_val_mono(s: Seq<char>, a: int, j: int, k: int)
    requires
        j <= k,
    ensures
        digits_val(s, a, j) <= digits_val(s, a, k),
    decreases k - j,
{
    if j < k {
        lemma_digits_val_mono(s, a, j, k - 1);
        lemma_digits_val_nonneg(s, a, k - 1);
    }
}

/// The end of a digit run lies at or after its start, inside the input.
proof fn lemma_digits_end_lb(s: Seq<char>, i: int)
    requires
        0 <= i <= s.len(),
    ensures
        i <= digits_end(s, i) <= s.len(),
    decreases s.len() - i,
{
    if i < s.len() && is_digit(s[i]) {
        lemma_digits_end_lb(s, i + 1);
    }
}

/// This parses a number literal: an optional minus sign and decimal
/// digits.  A literal that does not fit the machine's numbers fails.
pub fn number_literal(input: &Vec<char>, pos: usize) -> (r: Option<(Literal, usize)>)
    requires
        pos <= input@.len(),
    ensures
        (r matches Some((l, p)) ==> pos < p <= input@.len() && (l matches Literal::Number(n) && ({
            let q = ws_end(input@, pos as int);
            if q < input@.len() && input@[q] == '-' {
                n as int == -digits_val(input@, q + 1, p as int) && p as int == digits_end(
                    input@,
                    q + 1,
                )
            } else {
                n as int == digits_val(input@, q, p as int) && p as int == digits_end(input@, q)
            }
        }))),
        (({
            let q = ws_end(input@, pos as int);
            let sd = if q < input@.len() && input@[q] == '-' {
                q + 1
            } else {
                q
            };
            sd < input@.len() && is_digit(input@[sd]) && digits_val(
                input@,
                sd,
                digits_end(input@, sd),
            ) <= i64::MAX
        }) ==> r is Some),
        (ws_end(input@, pos as int) == input@.len() ==> r is None),
    decreases input@.len() - pos, 1int,
{
    let q0 = skip_ws(input, pos);
    let mut i: usize = q0;
    let mut neg: bool = false;
    if i < input.len() && input[i] == '-' {
        neg = true;
        i = i + 1;
    }
    if i >= input.len() || !('0' <= input[i] && input[i] <= '9') {
        return None;
    }
    let ghost sd = i as int;
    let mut acc: i64 = digit_value(input[i]);
    i = i + 1;
    proof {
        assert(digits_val(input@, sd, sd) == 0);
        assert(acc as int == digits_val(input@, sd, sd + 1));
    }
    while i < input.len() && '0' <= input[i] && input[i] <= '9'
        invariant
            pos <= q0,
            q0 as int == ws_end(input@, pos as int),
            q0 < i <= input@.len(),
            sd < i as int,
            sd == q0 as int || sd == q0 as int + 1,
            (neg <==> (q0 < input@.len() && input@[q0 as int] == '-')),
            (neg ==> sd == q0 as int + 1),
            (!neg ==> sd == q0 as int),
            digits_end(input@, sd) == digits_end(input@, i as int),
            0 <= acc,
            acc as int == digits_val(input@, sd, i as int),
        decreases input@.len() - i,
    {
        let c = input[i];
        let d: i64 = digit_value(c);
        if acc > (i64::MAX - d) / 10 {
            // the whole digit run is out of range: its value only grows
            proof {
                assert(acc as int * 10 + d as int > i64::MAX) by {
                    let lim = i64::MAX - d;
                    assert(lim == 10 * (lim / 10) + lim % 10) by {
                        vstd::arithmetic::div_mod::lemma_fundamental_div_mod(lim as int, 10);
                    }
                }
                assert(digits_val(input@, sd, i as int + 1) > i64::MAX);
                assert(digits_end(input@, i as int) == digits_end(input@, i as int + 1));
                lemma_digits_end_lb(input@, i as int + 1);
                lemma_digits_val_mono(input@, sd, i as int + 1, digits_end(input@, sd));
                assert(digits_val(input@, sd, digits_end(input@, sd)) > i64::MAX);
            }
            return None;  // out of range
        }
        acc = acc * 10 + d;
        i = i + 1;
        proof {
            assert(acc as int == digits_val(input@, sd, i as int));
        }
    }
    proof {
        assert(digits_end(input@, i as int) == i as int);
    }
    if neg {
        Some((Literal::Number(-acc), i))
    } else {
        Some((Literal::Number(acc), i))
    }
}

/// The numeric value of a digit character (executable form).
fn digit_value(c: char) -> (r: i64)
    ensures
        0 <= r <= 9,
        r as int == digit_of(c),
{
    if c == '0' {
        0
    } else if c == '1' {
        1
    } else if c == '2' {
        2
    } else if c == '3' {
        3
    } else if c == '4' {
        4
    } else if c == '5' {
        5
    } else if c == '6' {
        6
    } else if c == '7' {
        7
    } else if c == '8' {
        8
    } else {
        9
    }
}

/// This matches either a string or a number literal.
pub fn literal(input: &Vec<char>, pos: usize) -> (r: Option<(Value, usize)>)
    requires
        pos <= input@.len(),
    ensures
        (r matches Some((v, p)) ==> pos < p <= input@.len() && v is Literal),
        (({
            let q = ws_end(input@, pos as int);
            q < input@.len() && input@[q] == '"' && scan_str(input@, q + 1) is Some
        }) ==> r is Some),
        (({
            let q = ws_end(input@, pos as int);
            let sd = if q < input@.len() && input@[q] == '-' {
                q + 1
            } else {
                q
            };
            sd < input@.len() && is_digit(input@[sd]) && digits_val(
                input@,
                sd,
                digits_end(input@, sd),
            ) <= i64::MAX
        }) ==> r is Some),
        (ws_end(input@, pos as int) == input@.len() ==> r is None),
    decreases input@.len() - pos, 2int,
{
    match string_literal(input, pos) {
        Some((l, p)) => Some((Value::Literal(l), p)),
        None => match number_literal(input, pos) {
            Some((l, p)) => Some((Value::Literal(l), p)),
            None => None,
        },
    }
}

/// Skipped whitespace stays inside the input.
proof fn lemma_ws_end_bounds(s: Seq<char>, pos: int)
    requires
        0 <= pos <= s.len(),
    ensures
        pos <= ws_end(s, pos) <= s.len(),
    decreases s.len() - pos,
{
    if pos < s.len() && is_ws(s[pos]) {
        lemma_ws_end_bounds(s, pos + 1);
    }
}

/// Two keywords that differ at some position cannot both stand at the same
/// place.
proof fn lemma_kw_exclusive(s: Seq<char>, pos: int, k1: Seq<char>, k2: Seq<char>, i: int)
    requires
        0 <= pos <= s.len(),
        0 <= i < k1.len(),
        i < k2.len(),
        k1[i] != k2[i],
    ensures
        !(at_seq(s, pos, k1) && at_seq(s, pos, k2)),
{
    lemma_ws_end_bounds(s, pos);
    let q = ws_end(s, pos);
    if at_seq(s, pos, k1) && at_seq(s, pos, k2) {
        assert(s.subrange(q, q + k1.len() as int)[i] == k1[i]);
        assert(s.subrange(q, q + k2.len() as int)[i] == k2[i]);
        assert(s.subrange(q, q + k1.len() as int)[i] == s[q + i]);
        assert(s.subrange(q, q + k2.len() as int)[i] == s[q + i]);
    }
}

/// This matches a built-in keyword.  The keywords are reserved: `ls` in
/// particular always becomes the `List` built-in here, before any
/// identifier parser can see it.
pub fn builtin(input: &Vec<char>, pos: usize) -> (r: Option<(Value, usize)>)
    requires
        pos <= input@.len(),
    ensures
        (r matches Some((v, p)) ==> pos < p <= input@.len() && v is Builtin),
        (at_seq(input@, pos as int, seq!['l', 's']) ==> (r matches Some((v, p)) && v
            == Value::Builtin(Builtin::List))),
        (at_seq(input@, pos as int, seq!['m', 'v']) ==> (r matches Some((v, p)) && v
            == Value::Builtin(Builtin::Move))),
        (at_seq(input@, pos as int, seq!['c', 'd']) ==> (r matches Some((v, p)) && v
            == Value::Builtin(Builtin::ChangeDir))),
        (at_seq(input@, pos as int, seq!['r', 'm']) ==> (r matches Some((v, p)) && v
            == Value::Builtin(Builtin::Remove))),
        (at_seq(input@, pos as int, seq!['m', 'k', 'd', 'i', 'r']) ==> (r matches Some((v, p))
            && v == Value::Builtin(Builtin::MakeDir))),
        (at_seq(input@, pos as int, seq!['m', 'k', 'f']) ==> (r matches Some((v, p)) && v
            == Value::Builtin(Builtin::MakeFile))),
        (at_seq(input@, pos as int, seq!['p', 'w', 'd']) ==> (r matches Some((v, p)) && v
            == Value::Builtin(Builtin::WorkingDir))),
        (at_seq(input@, pos as int, seq!['e', 'x', 'i', 't']) ==> (r matches Some((v, p)) && v
            == Value::Builtin(Builtin::Exit))),
        (r matches Some((v, p)) ==> ({
            ||| v == Value::Builtin(Builtin::List) && at_seq(input@, pos as int, seq!['l', 's'])
                && p as int == ws_end(input@, pos as int) + 2
            ||| v == Value::Builtin(Builtin::Move) && at_seq(input@, pos as int, seq!['m', 'v'])
            ||| v == Value::Builtin(Builtin::ChangeDir) && at_seq(
                input@,
                pos as int,
                seq!['c', 'd'],
            )
            ||| v == Value::Builtin(Builtin::Remove) && at_seq(input@, pos as int, seq!['r', 'm'])
            ||| v == Value::Builtin(Builtin::MakeDir) && at_seq(
                input@,
                pos as int,
                seq!['m', 'k', 'd', 'i', 'r'],
            )
            ||| v == Value::Builtin(Builtin::MakeFile) && at_seq(
                input@,
                pos as int,
                seq!['m', 'k', 'f'],
            )
            ||| v == Value::Builtin(Builtin::WorkingDir) && at_seq(
                input@,
                pos as int,
                seq!['p', 'w', 'd'],
            )
            ||| v == Value::Builtin(Builtin::Exit) && at_seq(
                input@,
                pos as int,
                seq!['e', 'x', 'i', 't'],
            )
        })),
        (ws_end(input@, pos as int) == input@.len() ==> r is None),
    decreases input@.len() - pos, 1int,
{
    proof {
        let sq = input@;
        let pq = pos as int;
        let k_ls = seq!['l', 's'];
        let k_mv = seq!['m', 'v'];
        let k_cd = seq!['c', 'd'];
        let k_rm = seq!['r', 'm'];
        let k_mkdir = seq!['m', 'k', 'd', 'i', 'r'];
        let k_mkf = seq!['m', 'k', 'f'];
        let k_pwd = seq!['p', 'w', 'd'];
        let k_exit = seq!['e', 'x', 'i', 't'];
        lemma_kw_exclusive(sq, pq, k_ls, k_mv, 0);
        lemma_kw_exclusive(sq, pq, k_ls, k_cd, 0);
        lemma_kw_exclusive(sq, pq, k_ls, k_rm, 0);
        lemma_kw_exclusive(sq, pq, k_ls, k_mkdir, 0);
        lemma_kw_exclusive(sq, pq, k_ls, k_mkf, 0);
        lemma_kw_exclusive(sq, pq, k_ls, k_pwd, 0);
        lemma_kw_exclusive(sq, pq, k_ls, k_exit, 0);
        lemma_kw_exclusive(sq, pq, k_mv, k_cd, 0);
        lemma_kw_exclusive(sq, pq, k_mv, k_rm, 0);
        lemma_kw_exclusive(sq, pq, k_mv, k_mkdir, 1);
        lemma_kw_exclusive(sq, pq, k_mv, k_mkf, 1);
        lemma_kw_exclusive(sq, pq, k_mv, k_pwd, 0);
        lemma_kw_exclusive(sq, pq, k_mv, k_exit, 0);
        lemma_kw_exclusive(sq, pq, k_cd, k_rm, 0);
        lemma_kw_exclusive(sq, pq, k_cd, k_mkdir, 0);
        lemma_kw_exclusive(sq, pq, k_cd, k_mkf, 0);
        lemma_kw_exclusive(sq, pq, k_cd, k_pwd, 0);
        lemma_kw_exclusive(sq, pq, k_cd, k_exit, 0);
        lemma_kw_exclusive(sq, pq, k_rm, k_mkdir, 0);
        lemma_kw_exclusive(sq, pq, k_rm, k_mkf, 0);
        lemma_kw_exclusive(sq, pq, k_rm, k_pwd, 0);
        lemma_kw_exclusive(sq, pq, k_rm, k_exit, 0);
        lemma_kw_exclusive(sq, pq, k_mkdir, k_mkf, 2);
        lemma_kw_exclusive(sq, pq, k_mkdir, k_pwd, 0);
        lemma_kw_exclusive(sq, pq, k_mkdir, k_exit, 0);
        lemma_kw_exclusive(sq, pq, k_mkf, k_pwd, 0);
        lemma_kw_exclusive(sq, pq, k_mkf, k_exit, 0);
        lemma_kw_exclusive(sq, pq, k_pwd, k_exit, 0);
    }
    let kw_ls: Vec<char> = vec!['l', 's'];
    proof {
        assert(kw_ls@ =~= seq!['l', 's']);
    }
    if let Some(p) = match_kw(input, pos, &kw_ls) {
        return Some((Value::Builtin(Builtin::List), p));
    }
    let kw_mv: Vec<char> = vec!['m', 'v'];
    proof {
        assert(kw_mv@ =~= seq!['m', 'v']);
    }
    if let Some(p) = match_kw(input, pos, &kw_mv) {
        return Some((Value::Builtin(Builtin::Move), p));
    }
    let kw_cd: Vec<char> = vec!['c', 'd'];
    proof {
        assert(kw_cd@ =~= seq!['c', 'd']);
    }
    if let Some(p) = match_kw(input, pos, &kw_cd) {
        return Some((Value::Builtin(Builtin::ChangeDir), p));
    }
    let kw_rm: Vec<char> = vec!['r', 'm'];
    proof {
        assert(kw_rm@ =~= seq!['r', 'm']);
    }
    if let Some(p) = match_kw(input, pos, &kw_rm) {
        return Some((Value::Builtin(Builtin::Remove), p));
    }
    let kw_mkdir: Vec<char> = vec!['m', 'k', 'd', 'i', 'r'];
    proof {
        assert(kw_mkdir@ =~= seq!['m', 'k', 'd', 'i', 'r']);
    }
    if let Some(p) = match_kw(input, pos, &kw_mkdir) {
        return Some((Value::Builtin(Builtin::MakeDir), p));
    }
    let kw_mkf: Vec<char> = vec!['m', 'k', 'f'];
    proof {
        assert(kw_mkf@ =~= seq!['m', 'k', 'f']);
    }
    if let Some(p) = match_kw(input, pos, &kw_mkf) {
        return Some((Value::Builtin(Builtin::MakeFile), p));
    }
    let kw_pwd: Vec<char> = vec!['p', 'w', 'd'];
    proof {
        assert(kw_pwd@ =~= seq!['p', 'w', 'd']);
    }
    if let Some(p) = match_kw(input, pos, &kw_pwd) {
        return Some((Value::Builtin(Builtin::WorkingDir), p));
    }
    let kw_exit: Vec<char> = vec!['e', 'x', 'i', 't'];
    proof {
        assert(kw_exit@ =~= seq!['e', 'x', 'i', 't']);
    }
    if let Some(p) = match_kw(input, pos, &kw_exit) {
        return Some((Value::Builtin(Builtin::Exit), p));
    }
    None
}

/// This matches a head value for a selector path: a grouped value, a
/// literal, or a bare identifier.
fn name_head(input: &Vec<char>, pos: usize) -> (r: Option<(Value, usize)>)
    requires
        pos <= input@.len(),
    ensures
        (r matches Some((_, p)) ==> pos < p <= input@.len()),
        ((at_ident_start(input@, pos as int) || at_string_lit(input@, pos as int)
            || at_number_lit(input@, pos as int)) ==> r is Some),
        (ws_end(input@, pos as int) == input@.len() ==> r is None),
    decreases input@.len() - pos, 3int,
{
    match group(input, pos) {
        Some(vp) => Some(vp),
        None => match literal(input, pos) {
            Some(vp) => Some(vp),
            None => match ident(input, pos) {
                Some((id, p)) => Some((Value::Name(Name::Name(id)), p)),
                None => None,
            },
        },
    }
}

/// This matches a value succeeded by dot-separated identifiers; the
/// selector path is never empty.
pub fn dot_ident(input: &Vec<char>, pos: usize) -> (r: Option<((Rc<Value>, Vec<Identifier>), usize)>)
    requires
        pos <= input@.len(),
    ensures
        (r matches Some(((_, ids), p)) ==> pos < p <= input@.len() && ids@.len() >= 1),
        (ws_end(input@, pos as int) == input@.len() ==> r is None),
    decreases input@.len() - pos, 4int,
{
    let (head, mut i) = match name_head(input, pos) {
        None => {
            return None;
        },
        Some(hp) => hp,
    };
    let mut ids: Vec<Identifier> = Vec::new();
    loop
        invariant
            pos < i <= input@.len(),
        decreases input@.len() - i,
    {
        let kw_dot: Vec<char> = vec!['.'];
        let dotp = match match_kw(input, i, &kw_dot) {
            None => {
                break ;
            },
            Some(p) => p,
        };
        match ident(input, dotp) {
            None => {
                break ;
            },
            Some((id, p)) => {
                ids.push(id);
                i = p;
            },
        }
    }
    if ids.len() == 0 {
        return None;
    }
    Some(((Rc::new(head), ids), i))
}

/// This matches a value succeeded by one or more `[`-enclosed index
/// values; the selector path is never empty.
pub fn index_name(input: &Vec<char>, pos: usize) -> (r: Option<
    ((Rc<Value>, Vec<Rc<Value>>), usize),
>)
    requires
        pos <= input@.len(),
    ensures
        (r matches Some(((_, vs), p)) ==> pos < p <= input@.len() && vs@.len() >= 1),
        (ws_end(input@, pos as int) == input@.len() ==> r is None),
    decreases input@.len() - pos, 4int,
{
    let (head, mut i) = match name_head(input, pos) {
        None => {
            return None;
        },
        Some(hp) => hp,
    };
    let mut vs: Vec<Rc<Value>> = Vec::new();
    loop
        invariant
            pos < i <= input@.len(),
        decreases input@.len() - i,
    {
        let kw_open: Vec<char> = vec!['['];
        let kw_close: Vec<char> = vec![']'];
        let openp = match match_kw(input, i, &kw_open) {
            None => {
                break ;
            },
            Some(p) => p,
        };
        let (v, vp) = match value(input, openp) {
            None => {
                break ;
            },
            Some(vv) => vv,
        };
        match match_kw(input, vp, &kw_close) {
            None => {
                break ;
            },
            Some(p) => {
                vs.push(Rc::new(v));
                i = p;
            },
        }
    }
    if vs.len() == 0 {
        return None;
    }
    Some(((Rc::new(head), vs), i))
}

/// This matches a dotted name, an indexed name, or a plain identifier, in
/// that order.
pub fn name(input: &Vec<char>, pos: usize) -> (r: Option<(Name, usize)>)
    requires
        pos <= input@.len(),
    ensures
        (r matches Some((n, p)) ==> pos < p <= input@.len()),
        (r matches Some((n, p)) ==> (n matches Name::DotName(head, ids) ==> ids@.len() >= 1)),
        (r matches Some((n, p)) ==> (n matches Name::IndexName(head, vs) ==> vs@.len() >= 1)),
        (r matches Some((n, p)) ==> (n matches Name::Name(id) ==> id.0@ == input@.subrange(
            ws_end(input@, pos as int),
            p as int,
        ))),
        (at_ident_start(input@, pos as int) ==> r is Some),
        (ws_end(input@, pos as int) == input@.len() ==> r is None),
    decreases input@.len() - pos, 5int,
{
    match dot_ident(input, pos) {
        Some(((head, ids), p)) => Some((Name::DotName(head, ids), p)),
        None => match index_name(input, pos) {
            Some(((head, vs), p)) => Some((Name::IndexName(head, vs), p)),
            None => match ident(input, pos) {
                Some((id, p)) => Some((Name::Name(id), p)),
                None => None,
            },
        },
    }
}

/// This matches a function call: either a built-in followed directly by
/// one or more argument values, or any callee followed by a parenthesised,
/// comma-separated argument list, which may be empty.
pub fn fncall(input: &Vec<char>, pos: usize) -> (r: Option<(Value, usize)>)
    requires
        pos <= input@.len(),
    ensures
        (r matches Some((v, p)) ==> pos < p <= input@.len() && v is FnCall),
        (at_seq(input@, pos as int, seq!['l', 's']) ==> (r matches Some((v, p)) ==> (v matches
            Value::FnCall(fc) && *fc.0 == Value::Builtin(Builtin::List)))),
        ((at_seq(input@, pos as int, seq!['l', 's']) && ws_end(
            input@,
            ws_end(input@, pos as int) + 2,
        ) == input@.len()) ==> r is None),
        (ws_end(input@, pos as int) == input@.len() ==> r is None),
    decreases input@.len() - pos, 7int,
{
    // A built-in callee takes juxtaposed arguments.
    if let Some((b, bp)) = builtin(input, pos) {
        let mut args: Vec<Rc<Value>> = Vec::new();
        let mut i: usize = bp;
        loop
            invariant
                pos < i <= input@.len(),
                (at_seq(input@, pos as int, seq!['l', 's']) ==> bp as int == ws_end(
                    input@,
                    pos as int,
                ) + 2),
                ((at_seq(input@, pos as int, seq!['l', 's']) && ws_end(
                    input@,
                    ws_end(input@, pos as int) + 2,
                ) == input@.len()) ==> (i == bp && args@.len() == 0)),
            decreases input@.len() - i,
        {
            match value(input, i) {
                None => {
                    break ;
                },
                Some((v, p)) => {
                    args.push(Rc::new(v));
                    i = p;
                },
            }
        }
        if args.len() > 0 {
            return Some((Value::FnCall(FnCall(Rc::new(b), args)), i));
        }
    }
    // Any callee takes a parenthesised argument list.
    let (callee, cp) = match callee_value(input, pos) {
        None => {
            return None;
        },
        Some(c) => c,
    };
    match paren_args(input, cp) {
        None => None,
        Some((args, p)) => Some((Value::FnCall(FnCall(Rc::new(callee), args)), p)),
    }
}

/// This matches what may stand before a parenthesised argument list: a
/// built-in, a name, or a grouped value.
fn callee_value(input: &Vec<char>, pos: usize) -> (r: Option<(Value, usize)>)
    requires
        pos <= input@.len(),
    ensures
        (r matches Some((_, p)) ==> pos < p <= input@.len()),
        (at_seq(input@, pos as int, seq!['l', 's']) ==> (r matches Some((v, p)) && v
            == Value::Builtin(Builtin::List) && p as int == ws_end(input@, pos as int) + 2)),
        ((at_ident_start(input@, pos as int) || at_builtin_kw(input@, pos as int)) ==> r
            is Some),
        (ws_end(input@, pos as int) == input@.len() ==> r is None),
    decreases input@.len() - pos, 6int,
{
    match builtin(input, pos) {
        Some(vp) => Some(vp),
        None => match name(input, pos) {
            Some((n, p)) => Some((Value::Name(n), p)),
            None => group(input, pos),
        },
    }
}

/// This matches a parenthesised, comma-separated value list; empty is
/// allowed.
fn paren_args(input: &Vec<char>, pos: usize) -> (r: Option<(Vec<Rc<Value>>, usize)>)
    requires
        pos <= input@.len(),
    ensures
        (r matches Some((_, p)) ==> pos < p <= input@.len()),
        (ws_end(input@, pos as int) == input@.len() ==> r is None),
    decreases input@.len() - pos, 6int,
{
    let kw_open: Vec<char> = vec!['('];
    let kw_close: Vec<char> = vec![')'];
    let kw_comma: Vec<char> = vec![','];
    let mut i = match match_kw(input, pos, &kw_open) {
        None => {
            return None;
        },
        Some(p) => p,
    };
    let mut args: Vec<Rc<Value>> = Vec::new();
    if let Some(p) = match_kw(input, i, &kw_close) {
        return Some((args, p));
    }
    loop
        invariant
            pos < i <= input@.len(),
        decreases input@.len() - i,
    {
        let (v, vp) = match value(input, i) {
            None => {
                return None;
            },
            Some(vv) => vv,
        };
        args.push(Rc::new(v));
        i = vp;
        let kw_comma2: Vec<char> = vec![','];
        if let Some(p) = match_kw(input, i, &kw_comma2) {
            i = p;
        } else {
            break ;
        }
    }
    let kw_close2: Vec<char> = vec![')'];
    match match_kw(input, i, &kw_close2) {
        None => None,
        Some(p) => Some((args, p)),
    }
}

/// This matches a parenthesised, comma-separated parameter list.
fn paren_params(input: &Vec<char>, pos: usize) -> (r: Option<(Vec<Identifier>, usize)>)
    requires
        pos <= input@.len(),
    ensures
        (r matches Some((_, p)) ==> pos < p <= input@.len()),
    decreases input@.len() - pos, 2int,
{
    let kw_open: Vec<char> = vec!['('];
    let kw_close: Vec<char> = vec![')'];
    let kw_comma: Vec<char> = vec![','];
    let mut i = match match_kw(input, pos, &kw_open) {
        None => {
            return None;
        },
        Some(p) => p,
    };
    let mut params: Vec<Identifier> = Vec::new();
    if let Some(p) = match_kw(input, i, &kw_close) {
        return Some((params, p));
    }
    loop
        invariant
            pos < i <= input@.len(),
        decreases input@.len() - i,
    {
        let (id, idp) = match ident(input, i) {
            None => {
                return None;
            },
            Some(ii) => ii,
        };
        params.push(id);
        i = idp;
        let kw_comma2: Vec<char> = vec![','];
        if let Some(p) = match_kw(input, i, &kw_comma2) {
            i = p;
        } else {
            break ;
        }
    }
    let kw_close2: Vec<char> = vec![')'];
    match match_kw(input, i, &kw_close2) {
        None => None,
        Some(p) => Some((params, p)),
    }
}

/// This matches an anonymous function literal: `fn (a, b) { ... }`.
pub fn function(input: &Vec<char>, pos: usize) -> (r: Option<(Function, usize)>)
    requires
        pos <= input@.len(),
    ensures
        (r matches Some((_, p)) ==> pos < p <= input@.len()),
        (r is Some ==> at_seq(input@, pos as int, seq!['f', 'n'])),
        (ws_end(input@, pos as int) == input@.len() ==> r is None),
    decreases input@.len() - pos, 6int,
{
    let kw_fn: Vec<char> = vec!['f', 'n'];
    proof {
        assert(kw_fn@ =~= seq!['f', 'n']);
    }
    let fp = match match_kw(input, pos, &kw_fn) {
        None => {
            return None;
        },
        Some(p) => p,
    };
    let (params, pp) = match paren_params(input, fp) {
        None => {
            return None;
        },
        Some(pr) => pr,
    };
    match suite(input, pp) {
        None => None,
        Some((body, p)) => Some((Function(params, Rc::new(body)), p)),
    }
}

/// This matches a function definition: `fn name(a, b) { ... }`, which
/// assigns the function value to the name.
pub fn function_def(input: &Vec<char>, pos: usize) -> (r: Option<(FunctionDef, usize)>)
    requires
        pos <= input@.len(),
    ensures
        (r matches Some((_, p)) ==> pos < p <= input@.len()),
        (r is Some ==> at_seq(input@, pos as int, seq!['f', 'n'])),
        (ws_end(input@, pos as int) == input@.len() ==> r is None),
    decreases input@.len() - pos, 9int,
{
    let kw_fn: Vec<char> = vec!['f', 'n'];
    proof {
        assert(kw_fn@ =~= seq!['f', 'n']);
    }
    let fp = match match_kw(input, pos, &kw_fn) {
        None => {
            return None;
        },
        Some(p) => p,
    };
    let (n, np) = match name(input, fp) {
        None => {
            return None;
        },
        Some(nn) => nn,
    };
    let (params, pp) = match paren_params(input, np) {
        None => {
            return None;
        },
        Some(pr) => pr,
    };
    match suite(input, pp) {
        None => None,
        Some((body, p)) => Some((FunctionDef(n, Function(params, Rc::new(body))), p)),
    }
}

/// This matches a grouped value: any value enclosed in parentheses.
pub fn group(input: &Vec<char>, pos: usize) -> (r: Option<(Value, usize)>)
    requires
        pos <= input@.len(),
    ensures
        (r matches Some((_, p)) ==> pos < p <= input@.len()),
        (r is Some ==> at_seq(input@, pos as int, seq!['('])),
        (ws_end(input@, pos as int) == input@.len() ==> r is None),
    decreases input@.len() - pos, 2int,
{
    let kw_open: Vec<char> = vec!['('];
    proof {
        assert(kw_open@ =~= seq!['(']);
    }
    let kw_close: Vec<char> = vec![')'];
    let i = match match_kw(input, pos, &kw_open) {
        None => {
            return None;
        },
        Some(p) => p,
    };
    let (v, vp) = match value(input, i) {
        None => {
            return None;
        },
        Some(vv) => vv,
    };
    match match_kw(input, vp, &kw_close) {
        None => None,
        Some(p) => Some((v, p)),
    }
}

/// This matches values that cannot recurse: a literal.
pub fn flat_value(input: &Vec<char>, pos: usize) -> (r: Option<(Value, usize)>)
    requires
        pos <= input@.len(),
    ensures
        (r matches Some((_, p)) ==> pos < p <= input@.len()),
        ((at_string_lit(input@, pos as int) || at_number_lit(input@, pos as int)) ==> r
            is Some),
        (ws_end(input@, pos as int) == input@.len() ==> r is None),
    decreases input@.len() - pos, 3int,
{
    literal(input, pos)
}

/// This matches the potentially recursive values: a function literal, a
/// call, a built-in, a name, or a group, in that order.  A built-in
/// keyword is recognised before the name parser runs, so it never becomes
/// an identifier here.
pub fn recursive_value(input: &Vec<char>, pos: usize) -> (r: Option<(Value, usize)>)
    requires
        pos <= input@.len(),
    ensures
        (r matches Some((_, p)) ==> pos < p <= input@.len()),
        (at_seq(input@, pos as int, seq!['l', 's']) ==> (r matches Some((v, p))
            && is_builtin_result(v))),
        ((at_seq(input@, pos as int, seq!['l', 's']) && ws_end(
            input@,
            ws_end(input@, pos as int) + 2,
        ) == input@.len()) ==> (r matches Some((v, p)) && v == Value::Builtin(Builtin::List))),
        ((at_ident_start(input@, pos as int) || at_builtin_kw(input@, pos as int)) ==> r
            is Some),
        (ws_end(input@, pos as int) == input@.len() ==> r is None),
    decreases input@.len() - pos, 8int,
{
    proof {
        if at_seq(input@, pos as int, seq!['l', 's']) && at_seq(
            input@,
            pos as int,
            seq!['f', 'n'],
        ) {
            let q = ws_end(input@, pos as int);
            assert(input@.subrange(q, q + 2)[0] == 'l');
            assert(input@.subrange(q, q + 2)[0] == 'f');
        }
    }
    if let Some((f, p)) = function(input, pos) {
        return Some((Value::Function(f), p));
    }
    if let Some((v, p)) = fncall(input, pos) {
        return Some((v, p));
    }
    if let Some((v, p)) = builtin(input, pos) {
        return Some((v, p));
    }
    if let Some((n, p)) = name(input, pos) {
        return Some((Value::Name(n), p));
    }
    group(input, pos)
}

/// This matches any value.  A built-in keyword in value position always
/// becomes the built-in (or a call of it), never an identifier.
pub fn value(input: &Vec<char>, pos: usize) -> (r: Option<(Value, usize)>)
    requires
        pos <= input@.len(),
    ensures
        (r matches Some((_, p)) ==> pos < p <= input@.len()),
        (at_seq(input@, pos as int, seq!['l', 's']) ==> (r matches Some((v, p))
            && is_builtin_result(v))),
        ((at_seq(input@, pos as int, seq!['l', 's']) && ws_end(
            input@,
            ws_end(input@, pos as int) + 2,
        ) == input@.len()) ==> (r matches Some((v, p)) && v == Value::Builtin(Builtin::List))),
        ((at_ident_start(input@, pos as int) || at_string_lit(input@, pos as int)
            || at_number_lit(input@, pos as int) || at_builtin_kw(input@, pos as int)) ==> r
            is Some),
        (ws_end(input@, pos as int) == input@.len() ==> r is None),
    decreases input@.len() - pos, 9int,
{
    match recursive_value(input, pos) {
        Some(vp) => Some(vp),
        None => flat_value(input, pos),
    }
}

/// This matches an assignment: a name, `=`, and a value.
pub fn assignment(input: &Vec<char>, pos: usize) -> (r: Option<(Expr, usize)>)
    requires
        pos <= input@.len(),
    ensures
        (r matches Some((e, p)) ==> pos < p <= input@.len() && e is Assignment),
        (ws_end(input@, pos as int) == input@.len() ==> r is None),
    decreases input@.len() - pos, 9int,
{
    let (n, np) = match name(input, pos) {
        None => {
            return None;
        },
        Some(nn) => nn,
    };
    let kw_eq: Vec<char> = vec!['='];
    let ep = match match_kw(input, np, &kw_eq) {
        None => {
            return None;
        },
        Some(p) => p,
    };
    match value(input, ep) {
        None => None,
        Some((v, p)) => Some((Expr::Assignment(n, Rc::new(v)), p)),
    }
}

/// This matches a while loop: `while value { ... }`.
pub fn while_loop(input: &Vec<char>, pos: usize) -> (r: Option<(Expr, usize)>)
    requires
        pos <= input@.len(),
    ensures
        (r matches Some((e, p)) ==> pos < p <= input@.len() && e is WhileLoop),
        (r is Some ==> at_seq(input@, pos as int, seq!['w', 'h', 'i', 'l', 'e'])),
        (ws_end(input@, pos as int) == input@.len() ==> r is None),
    decreases input@.len() - pos, 9int,
{
    let kw_while: Vec<char> = vec!['w', 'h', 'i', 'l', 'e'];
    proof {
        assert(kw_while@ =~= seq!['w', 'h', 'i', 'l', 'e']);
    }
    let wp = match match_kw(input, pos, &kw_while) {
        None => {
            return None;
        },
        Some(p) => p,
    };
    let (c, cp) = match value(input, wp) {
        None => {
            return None;
        },
        Some(cc) => cc,
    };
    match suite(input, cp) {
        None => None,
        Some((body, p)) => Some((Expr::WhileLoop(Rc::new(c), Rc::new(body)), p)),
    }
}

/// This matches `if value { ... }` with an optional `else { ... }`; a
/// missing else-branch is an empty suite.
pub fn if_then_else(input: &Vec<char>, pos: usize) -> (r: Option<(Expr, usize)>)
    requires
        pos <= input@.len(),
    ensures
        (r matches Some((e, p)) ==> pos < p <= input@.len() && e is IfThenElse),
        (r is Some ==> at_seq(input@, pos as int, seq!['i', 'f'])),
        (ws_end(input@, pos as int) == input@.len() ==> r is None),
    decreases input@.len() - pos, 9int,
{
    let kw_if: Vec<char> = vec!['i', 'f'];
    proof {
        assert(kw_if@ =~= seq!['i', 'f']);
    }
    let ip = match match_kw(input, pos, &kw_if) {
        None => {
            return None;
        },
        Some(p) => p,
    };
    let (c, cp) = match value(input, ip) {
        None => {
            return None;
        },
        Some(cc) => cc,
    };
    let (then_body, tp) = match suite(input, cp) {
        None => {
            return None;
        },
        Some(tt) => tt,
    };
    let kw_else: Vec<char> = vec!['e', 'l', 's', 'e'];
    if let Some(ep) = match_kw(input, tp, &kw_else) {
        if let Some((else_body, p)) = suite(input, ep) {
            return Some(
                (Expr::IfThenElse(Rc::new(c), Rc::new(then_body), Rc::new(else_body)), p),
            );
        }
    }
    Some((Expr::IfThenElse(Rc::new(c), Rc::new(then_body), Rc::new(Suite(Vec::new()))), tp))
}

/// The position of the first newline at or after `i`, or the input's end.
pub open spec fn line_end(s: Seq<char>, i: int) -> int
    decreases s.len() - i,
{
    if i < 0 || i >= s.len() || s[i] == '\n' {
        i
    } else {
        line_end(s, i + 1)
    }
}

/// This matches a comment: `#` up to, and not including, the next newline.
/// It succeeds exactly when a `#` stands at the cursor, and consumes
/// exactly to the end of the line.
pub fn comment(input: &Vec<char>, pos: usize) -> (r: Option<usize>)
    requires
        pos <= input@.len(),
    ensures
        (r matches Some(p) ==> pos < p <= input@.len() && p as int == line_end(
            input@,
            ws_end(input@, pos as int) + 1,
        )),
        (at_seq(input@, pos as int, seq!['#']) <==> r is Some),
    decreases input@.len() - pos, 1int,
{
    let kw_hash: Vec<char> = vec!['#'];
    proof {
        assert(kw_hash@ =~= seq!['#']);
    }
    let start = match match_kw(input, pos, &kw_hash) {
        None => {
            return None;
        },
        Some(p) => p,
    };
    let mut i = start;
    while i < input.len() && input[i] != '\n'
        invariant
            pos < i <= input@.len(),
            line_end(input@, start as int) == line_end(input@, i as int),
        decreases input@.len() - i,
    {
        i = i + 1;
    }
    proof {
        assert(line_end(input@, i as int) == i as int);
    }
    Some(i)
}

/// This matches a fundamental expression: optional comments, then an
/// assignment, a loop, a conditional, a function definition or a value,
/// with an optional trailing `;`, then optional comments.
pub fn expr(input: &Vec<char>, pos: usize) -> (r: Option<(Expr, usize)>)
    requires
        pos <= input@.len(),
    ensures
        (r matches Some((_, p)) ==> pos < p <= input@.len()),
        ((at_ident_start(input@, pos as int) || at_string_lit(input@, pos as int)
            || at_number_lit(input@, pos as int) || at_builtin_kw(input@, pos as int)) ==> r
            is Some),
        (ws_end(input@, pos as int) == input@.len() ==> r is None),
    decreases input@.len() - pos, 10int,
{
    let mut start: usize = pos;
    loop
        invariant
            pos <= start <= input@.len(),
            (ws_end(input@, pos as int) == input@.len() ==> start == pos),
            ((at_ident_start(input@, pos as int) || at_string_lit(input@, pos as int)
                || at_number_lit(input@, pos as int) || at_builtin_kw(input@, pos as int))
                ==> start == pos),
        decreases input@.len() - start,
    {
        match comment(input, start) {
            None => {
                break ;
            },
            Some(p) => {
                proof {
                    lemma_ws_end_bounds(input@, start as int);
                    let q = ws_end(input@, start as int);
                    assert(input@.subrange(q, q + 1)[0] == input@[q]);
                    if start == pos {
                        lemma_kw_exclusive(input@, pos as int, seq!['#'], seq!['l', 's'], 0);
                        lemma_kw_exclusive(input@, pos as int, seq!['#'], seq!['m', 'v'], 0);
                        lemma_kw_exclusive(input@, pos as int, seq!['#'], seq!['c', 'd'], 0);
                        lemma_kw_exclusive(input@, pos as int, seq!['#'], seq!['r', 'm'], 0);
                        lemma_kw_exclusive(
                            input@,
                            pos as int,
                            seq!['#'],
                            seq!['m', 'k', 'd', 'i', 'r'],
                            0,
                        );
                        lemma_kw_exclusive(input@, pos as int, seq!['#'], seq!['m', 'k', 'f'], 0);
                        lemma_kw_exclusive(input@, pos as int, seq!['#'], seq!['p', 'w', 'd'], 0);
                        lemma_kw_exclusive(
                            input@,
                            pos as int,
                            seq!['#'],
                            seq!['e', 'x', 'i', 't'],
                            0,
                        );
                    }
                }
                start = p;
            },
        }
    }
    let kw_semi: Vec<char> = vec![';'];
    let parsed: Option<(Expr, usize)> = if let Some((e, p)) = assignment(input, start) {
        let p2 = match match_kw(input, p, &kw_semi) {
            Some(q) => q,
            None => p,
        };
        Some((e, p2))
    } else if let Some((e, p)) = while_loop(input, start) {
        Some((e, p))
    } else if let Some((e, p)) = if_then_else(input, start) {
        Some((e, p))
    } else if let Some((fd, p)) = function_def(input, start) {
        Some((Expr::FunctionDef(fd), p))
    } else if let Some((v, p)) = value(input, start) {
        let p2 = match match_kw(input, p, &kw_semi) {
            Some(q) => q,
            None => p,
        };
        Some((Expr::Value(Rc::new(v)), p2))
    } else {
        None
    };
    let (e, mut i) = match parsed {
        None => {
            return None;
        },
        Some(ep) => ep,
    };
    loop
        invariant
            pos < i <= input@.len(),
        decreases input@.len() - i,
    {
        match comment(input, i) {
            None => {
                break ;
            },
            Some(p) => {
                i = p;
            },
        }
    }
    Some((e, i))
}

/// This matches a suite: expressions enclosed in `{` and `}`.
pub fn suite(input: &Vec<char>, pos: usize) -> (r: Option<(Suite, usize)>)
    requires
        pos <= input@.len(),
    ensures
        (r matches Some((_, p)) ==> pos < p <= input@.len()),
        (r is Some ==> at_seq(input@, pos as int, seq!['{'])),
        (ws_end(input@, pos as int) == input@.len() ==> r is None),
    decreases input@.len() - pos, 5int,
{
    let kw_open: Vec<char> = vec!['{'];
    proof {
        assert(kw_open@ =~= seq!['{']);
    }
    let kw_close: Vec<char> = vec!['}'];
    let mut i = match match_kw(input, pos, &kw_open) {
        None => {
            return None;
        },
        Some(p) => p,
    };
    let mut es: Vec<Rc<Expr>> = Vec::new();
    loop
        invariant
            pos < i <= input@.len(),
        decreases input@.len() - i,
    {
        match expr(input, i) {
            None => {
                break ;
            },
            Some((e, p)) => {
                es.push(Rc::new(e));
                i = p;
            },
        }
    }
    let kw_close2: Vec<char> = vec!['}'];
    match match_kw(input, i, &kw_close2) {
        None => None,
        Some(p) => Some((Suite(es), p)),
    }
}

/// This matches a whole program: expressions followed by the end of the
/// input; trailing whitespace and comments are accepted.
pub fn program(input: &Vec<char>) -> (r: Option<Suite>)
    ensures
        (ws_end(input@, 0) == input@.len() ==> (r matches Some(su) && su.0@.len() == 0)),
{
    let mut i: usize = 0;
    let mut es: Vec<Rc<Expr>> = Vec::new();
    loop
        invariant
            i <= input@.len(),
            (ws_end(input@, 0) == input@.len() ==> (i == 0 && es@.len() == 0)),
        decreases input@.len() - i,
    {
        match expr(input, i) {
            None => {
                break ;
            },
            Some((e, p)) => {
                es.push(Rc::new(e));
                i = p;
            },
        }
    }
    // Trailing trivia: whitespace and comments.
    loop
        invariant_except_break
            (ws_end(input@, 0) == input@.len() ==> i == 0),
        invariant
            i <= input@.len(),
        ensures
            i <= input@.len(),
            (ws_end(input@, 0) == input@.len() ==> i as int == input@.len()),
        decreases input@.len() - i,
    {
        let q = skip_ws(input, i);
        match comment(input, q) {
            None => {
                i = q;
                break ;
            },
            Some(p) => {
                i = p;
            },
        }
    }
    if i == input.len() {
        Some(Suite(es))
    } else {
        None
    }
}

} // verus!
