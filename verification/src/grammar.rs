//! The expression grammar's structural shapes, as spec functions over the
//! raw text.  Dispatch order is load-bearing: assignment, then the balanced
//! plus split, then function call, string literal, integer literal, bare
//! variable, empty text.

use vstd::prelude::*;
use vstd::string::StrSliceExecFns;
use crate::text::{
    blank_run, blank_start, digit_run, find_char, is_blank, is_digit, is_name_char, is_name_start,
    last_rparen, name_run, paren_bal, plus_from,
};
use crate::text;
use crate::number::digits_value;

verus! {

/// The text begins with an identifier character.
pub open spec fn ident_ok(s: Seq<char>) -> bool {
    s.len() > 0 && is_name_start(s[0])
}

/// End of the maximal identifier anchored at the start.
pub open spec fn ident_end(s: Seq<char>) -> nat {
    name_run(s, 1)
}

/// `s` is exactly one identifier.
pub open spec fn is_identifier(s: Seq<char>) -> bool {
    ident_ok(s) && forall|i: int| 1 <= i < s.len() ==> is_name_char(#[trigger] s[i])
}

// --- assignment: identifier, optional blanks, `=`, optional blanks, rest ---

pub open spec fn assign_eq_pos(s: Seq<char>) -> nat {
    blank_run(s, ident_end(s))
}

pub open spec fn assign_rhs_start(s: Seq<char>) -> nat {
    blank_run(s, assign_eq_pos(s) + 1)
}

pub open spec fn assign_match(s: Seq<char>) -> bool {
    ident_ok(s) && assign_eq_pos(s) < s.len() && s[assign_eq_pos(s) as int] == '='
        && assign_rhs_start(s) < s.len()
}

pub open spec fn assign_name(s: Seq<char>) -> Seq<char> {
    s.subrange(0, ident_end(s) as int)
}

pub open spec fn assign_rhs(s: Seq<char>) -> Seq<char> {
    s.subrange(assign_rhs_start(s) as int, s.len() as int)
}

// --- binary plus: first usable `+`, blanks stripped next to it ---

/// The first `+` that has at least one character before it and one after it.
pub open spec fn plus_pos(s: Seq<char>) -> nat {
    plus_from(s, 1)
}

pub open spec fn plus_match(s: Seq<char>) -> bool {
    plus_pos(s) < s.len()
}

/// Left operand: everything before the blank run that precedes the `+`,
/// but never empty.
pub open spec fn plus_left_end(s: Seq<char>) -> nat {
    let j = blank_start(s, plus_pos(s));
    if j < 1 {
        1
    } else {
        j
    }
}

pub open spec fn plus_left(s: Seq<char>) -> Seq<char> {
    s.subrange(0, plus_left_end(s) as int)
}

/// Right operand: everything after the blank run that follows the `+`,
/// but never empty.
pub open spec fn plus_right_start(s: Seq<char>) -> nat {
    let e = blank_run(s, plus_pos(s) + 1);
    if e < s.len() {
        e
    } else {
        (s.len() - 1) as nat
    }
}

pub open spec fn plus_right(s: Seq<char>) -> Seq<char> {
    s.subrange(plus_right_start(s) as int, s.len() as int)
}

/// The split is honored only when both sides are parenthesis-balanced;
/// otherwise the `+` is presumed nested and dispatch falls through.
pub open spec fn plus_active(s: Seq<char>) -> bool {
    plus_match(s) && paren_bal(plus_left(s)) == 0 && paren_bal(plus_right(s)) == 0
}

// --- function call: identifier, `(`, maximal args up to the last `)` ---

pub open spec fn call_match(s: Seq<char>) -> bool {
    ident_ok(s) && ident_end(s) < s.len() && s[ident_end(s) as int] == '(' && last_rparen(s)
        > ident_end(s)
}

pub open spec fn call_name(s: Seq<char>) -> Seq<char> {
    s.subrange(0, ident_end(s) as int)
}

pub open spec fn call_args(s: Seq<char>) -> Seq<char> {
    s.subrange(ident_end(s) as int + 1, last_rparen(s))
}

// --- string literal: quoted at the start, up to the first closing quote ---

pub open spec fn dq_match(s: Seq<char>) -> bool {
    s.len() > 0 && s[0] == '"' && find_char(s, 1, '"') < s.len()
}

pub open spec fn dq_body(s: Seq<char>) -> Seq<char> {
    s.subrange(1, find_char(s, 1, '"') as int)
}

pub open spec fn sq_match(s: Seq<char>) -> bool {
    s.len() > 0 && s[0] == '\'' && find_char(s, 1, '\'') < s.len()
}

pub open spec fn sq_body(s: Seq<char>) -> Seq<char> {
    s.subrange(1, find_char(s, 1, '\'') as int)
}

// --- integer literal: optional `-`, then a maximal digit run ---

pub open spec fn num_match(s: Seq<char>) -> bool {
    s.len() > 0 && (is_digit(s[0]) || (s[0] == '-' && s.len() > 1 && is_digit(s[1])))
}

pub open spec fn num_digits_start(s: Seq<char>) -> nat {
    if s[0] == '-' {
        1
    } else {
        0
    }
}

pub open spec fn num_digits(s: Seq<char>) -> Seq<char> {
    s.subrange(num_digits_start(s) as int, digit_run(s, num_digits_start(s)) as int)
}

pub open spec fn num_value(s: Seq<char>) -> int {
    if s[0] == '-' {
        -digits_value(num_digits(s))
    } else {
        digits_value(num_digits(s))
    }
}

pub open spec fn num_in_range(s: Seq<char>) -> bool {
    i128::MIN <= num_value(s) <= i128::MAX
}

// --- bare variable: the maximal identifier anchored at the start ---

pub open spec fn var_name(s: Seq<char>) -> Seq<char> {
    s.subrange(0, ident_end(s) as int)
}

// --- bounds of the captured parts; every capture is strictly shorter ---

pub proof fn lemma_ident_end(s: Seq<char>)
    requires
        ident_ok(s),
    ensures
        1 <= ident_end(s) <= s.len(),
        forall|i: int| 1 <= i < ident_end(s) ==> is_name_char(s[i]),
        ident_end(s) < s.len() ==> !is_name_char(s[ident_end(s) as int]),
{
    crate::text::lemma_run_end(s, 1, |c: char| is_name_char(c));
}

pub proof fn lemma_assign_parts(s: Seq<char>)
    requires
        assign_match(s),
    ensures
        1 <= ident_end(s) <= assign_eq_pos(s) < s.len(),
        assign_eq_pos(s) + 1 <= assign_rhs_start(s) < s.len(),
        assign_name(s).len() == ident_end(s),
        assign_rhs(s).len() < s.len(),
        assign_rhs(s).len() > 0,
{
    lemma_ident_end(s);
    crate::text::lemma_run_end(s, ident_end(s), |c: char| is_blank(c));
    crate::text::lemma_run_end(s, assign_eq_pos(s) + 1, |c: char| is_blank(c));
}

pub proof fn lemma_plus_parts(s: Seq<char>)
    requires
        plus_match(s),
    ensures
        1 <= plus_pos(s) && plus_pos(s) + 1 < s.len(),
        s[plus_pos(s) as int] == '+',
        1 <= plus_left_end(s) < s.len(),
        1 <= plus_right_start(s) < s.len(),
        plus_left(s).len() < s.len(),
        plus_right(s).len() < s.len(),
        plus_left(s).len() > 0,
        plus_right(s).len() > 0,
{
    crate::text::lemma_plus_from(s, 1);
    crate::text::lemma_blank_start(s, plus_pos(s));
    crate::text::lemma_run_end(s, plus_pos(s) + 1, |c: char| is_blank(c));
}

pub proof fn lemma_call_parts(s: Seq<char>)
    requires
        call_match(s),
    ensures
        1 <= ident_end(s) < s.len(),
        ident_end(s) < last_rparen(s) < s.len(),
        call_args(s).len() < s.len(),
{
    lemma_ident_end(s);
    crate::text::lemma_last_rparen(s);
}

// ---------------------------------------------------------------------------
// Executable recognizers, one per rule, proved against the shapes above.
// ---------------------------------------------------------------------------

/// Recognize the assignment shape; yields the identifier's end and the
/// right-hand side's start.
pub fn match_assign(s: &str) -> (r: Option<(usize, usize)>)
    ensures
        match r {
            Some(p) => assign_match(s@) && p.0 == ident_end(s@) && p.1 == assign_rhs_start(s@),
            None => !assign_match(s@),
        },
{
    let len = s.unicode_len();
    if len == 0 {
        return None;
    }
    if !text::name_start_char(s.get_char(0)) {
        return None;
    }
    let i = text::scan_name_run(s, 1);
    proof {
        text::lemma_run_end(s@, 1, |c: char| is_name_char(c));
    }
    let j = text::scan_blank_run(s, i);
    proof {
        text::lemma_run_end(s@, i as nat, |c: char| is_blank(c));
    }
    if j >= len {
        return None;
    }
    if s.get_char(j) != '=' {
        return None;
    }
    let k = text::scan_blank_run(s, j + 1);
    if k >= len {
        return None;
    }
    Some((i, k))
}

/// Recognize the binary-plus shape; yields the end of the left capture and
/// the start of the right capture.  The parenthesis-balance gate is applied
/// by the caller.
pub fn match_plus(s: &str) -> (r: Option<(usize, usize)>)
    ensures
        match r {
            Some(p) => plus_match(s@) && p.0 == plus_left_end(s@) && p.1 == plus_right_start(s@),
            None => !plus_match(s@),
        },
{
    let len = s.unicode_len();
    let p = text::scan_plus_from(s, 1);
    if p >= len {
        return None;
    }
    proof {
        text::lemma_plus_from(s@, 1);
    }
    let j0 = text::scan_blank_start(s, p);
    let j = if j0 < 1 {
        1
    } else {
        j0
    };
    let e = text::scan_blank_run(s, p + 1);
    let k = if e < len {
        e
    } else {
        len - 1
    };
    Some((j, k))
}

/// Recognize the function-call shape; yields the identifier's end and the
/// index of the last closing parenthesis.
pub fn match_call(s: &str) -> (r: Option<(usize, usize)>)
    ensures
        match r {
            Some(p) => call_match(s@) && p.0 == ident_end(s@) && p.1 as int == last_rparen(s@),
            None => !call_match(s@),
        },
{
    let len = s.unicode_len();
    if len == 0 {
        return None;
    }
    if !text::name_start_char(s.get_char(0)) {
        return None;
    }
    let i = text::scan_name_run(s, 1);
    proof {
        text::lemma_run_end(s@, 1, |c: char| is_name_char(c));
    }
    if i >= len {
        return None;
    }
    if s.get_char(i) != '(' {
        return None;
    }
    match text::scan_last_rparen(s) {
        Some(q) => if q > i {
            Some((i, q))
        } else {
            None
        },
        None => None,
    }
}

/// Recognize a double-quoted literal; yields the closing quote's index.
pub fn match_dq(s: &str) -> (r: Option<usize>)
    ensures
        match r {
            Some(e) => dq_match(s@) && e == find_char(s@, 1, '"'),
            None => !dq_match(s@),
        },
{
    let len = s.unicode_len();
    if len == 0 {
        return None;
    }
    if s.get_char(0) != '"' {
        return None;
    }
    let e = text::scan_find_char(s, 1, '"');
    if e < len {
        Some(e)
    } else {
        None
    }
}

/// Recognize a single-quoted literal; yields the closing quote's index.
pub fn match_sq(s: &str) -> (r: Option<usize>)
    ensures
        match r {
            Some(e) => sq_match(s@) && e == find_char(s@, 1, '\''),
            None => !sq_match(s@),
        },
{
    let len = s.unicode_len();
    if len == 0 {
        return None;
    }
    if s.get_char(0) != '\'' {
        return None;
    }
    let e = text::scan_find_char(s, 1, '\'');
    if e < len {
        Some(e)
    } else {
        None
    }
}

/// Recognize the integer-literal shape.
pub fn match_num(s: &str) -> (b: bool)
    ensures
        b == num_match(s@),
{
    let len = s.unicode_len();
    if len == 0 {
        return false;
    }
    let c0 = s.get_char(0);
    if text::digit_char_at(c0) {
        return true;
    }
    c0 == '-' && len > 1 && text::digit_char_at(s.get_char(1))
}

/// Recognize a bare variable reference; yields the identifier's end.
pub fn match_var(s: &str) -> (r: Option<usize>)
    ensures
        match r {
            Some(i) => ident_ok(s@) && i == ident_end(s@),
            None => !ident_ok(s@),
        },
{
    let len = s.unicode_len();
    if len == 0 {
        return None;
    }
    if !text::name_start_char(s.get_char(0)) {
        return None;
    }
    Some(text::scan_name_run(s, 1))
}

} // verus!
