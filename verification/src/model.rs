//! The spec-level interpreter: a recursive mathematical definition of what
//! evaluating an expression, a statement, or a whole script does to the
//! environment and to the output, and which value or error it yields.  The
//! executable interpreter is proved to follow these functions exactly.

use vstd::prelude::*;
use crate::grammar::{
    assign_match, assign_name, assign_rhs, call_args, call_match, call_name, dq_body, dq_match,
    ident_ok, lemma_assign_parts, lemma_call_parts, lemma_plus_parts, num_in_range, num_match,
    num_value, plus_active, plus_left, plus_match, plus_right, sq_body, sq_match, var_name,
};
use crate::text::comment_match;
use crate::value::{add_values, apply_fn, SpecError, SpecValue};

verus! {

/// The interpreter's abstract state: the variable environment and the lines
/// written to the output sink so far.
pub struct SpecState {
    pub env: Map<Seq<char>, SpecValue>,
    pub out: Seq<Seq<char>>,
}

/// Evaluate an expression.  Dispatch tries, in fixed priority order,
/// assignment, balanced binary plus, and then the remaining forms
/// (`eval_tail`); the first structural match wins.
pub open spec fn eval_expr(st: SpecState, s: Seq<char>) -> (SpecState, Result<
    SpecValue,
    SpecError,
>)
    decreases s.len(), 1int,
    via eval_expr_dec
{
    if assign_match(s) {
        // Evaluate the right-hand side, bind the identifier to the result,
        // and yield the result: assignment is itself an expression.
        let r1 = eval_expr(st, assign_rhs(s));
        match r1.1 {
            Ok(v) => (
                SpecState { env: r1.0.env.insert(assign_name(s), v), out: r1.0.out },
                Ok(v),
            ),
            Err(e) => r1,
        }
    } else if plus_active(s) {
        // Both sides of the split are parenthesis-balanced: evaluate left,
        // then right, then add.
        let l = eval_expr(st, plus_left(s));
        match l.1 {
            Ok(v1) => {
                let r = eval_expr(l.0, plus_right(s));
                match r.1 {
                    Ok(v2) => (r.0, add_values(v1, v2)),
                    Err(e) => r,
                }
            },
            Err(e) => l,
        }
    } else {
        eval_tail(st, s)
    }
}

#[via_fn]
proof fn eval_expr_dec(st: SpecState, s: Seq<char>) {
    if assign_match(s) {
        lemma_assign_parts(s);
    }
    if plus_match(s) {
        lemma_plus_parts(s);
    }
}

/// The forms tried after assignment and plus, against the whole text:
/// function call, string literal, integer literal, bare variable, empty.
pub open spec fn eval_tail(st: SpecState, s: Seq<char>) -> (SpecState, Result<
    SpecValue,
    SpecError,
>)
    decreases s.len(), 0int,
    via eval_tail_dec
{
    if call_match(s) {
        eval_call(st, call_name(s), call_args(s))
    } else if dq_match(s) {
        (st, Ok(SpecValue::Str(dq_body(s))))
    } else if sq_match(s) {
        (st, Ok(SpecValue::Str(sq_body(s))))
    } else if num_match(s) {
        if num_in_range(s) {
            (st, Ok(SpecValue::Int(num_value(s) as i128)))
        } else {
            (st, Err(SpecError::ParseFailure(s)))
        }
    } else if ident_ok(s) {
        let n = var_name(s);
        if st.env.contains_key(n) {
            (st, Ok(st.env[n]))
        } else {
            (st, Err(SpecError::UndefinedName(n)))
        }
    } else if s.len() == 0 {
        (st, Ok(SpecValue::Null))
    } else {
        (st, Err(SpecError::ParseFailure(s)))
    }
}

#[via_fn]
proof fn eval_tail_dec(st: SpecState, s: Seq<char>) {
    if call_match(s) {
        lemma_call_parts(s);
    }
}

/// A function call: evaluate the argument text eagerly, then look the callee
/// up (the argument may have rebound it) and invoke it.
pub open spec fn eval_call(st: SpecState, name: Seq<char>, args: Seq<char>) -> (SpecState, Result<
    SpecValue,
    SpecError,
>)
    decreases args.len(), 2int,
{
    let a = eval_expr(st, args);
    match a.1 {
        Ok(v) => if a.0.env.contains_key(name) {
            let r = apply_fn(a.0.out, a.0.env[name], v);
            (SpecState { env: a.0.env, out: r.0 }, r.1)
        } else {
            (a.0, Err(SpecError::UndefinedName(name)))
        },
        Err(e) => a,
    }
}

/// A statement: a line containing `//` anywhere is a comment and only echoes
/// a notice; any other line is evaluated as an expression.
pub open spec fn eval_stmt(st: SpecState, line: Seq<char>) -> (SpecState, Result<(), SpecError>) {
    if comment_match(line) {
        (SpecState { env: st.env, out: st.out.push("Comment: "@ + line) }, Ok(()))
    } else {
        let r = eval_expr(st, line);
        (
            r.0,
            match r.1 {
                Ok(v) => Ok(()),
                Err(e) => Err(e),
            },
        )
    }
}

/// A whole script: statements run in order; the first error aborts the run
/// with the state it was raised in.
pub open spec fn run_lines(st: SpecState, lines: Seq<Seq<char>>) -> (SpecState, Result<
    (),
    SpecError,
>)
    decreases lines.len(),
{
    if lines.len() == 0 {
        (st, Ok(()))
    } else {
        let r = eval_stmt(st, lines[0]);
        match r.1 {
            Ok(v) => run_lines(r.0, lines.drop_first()),
            Err(e) => (r.0, Err(e)),
        }
    }
}

} // verus!
