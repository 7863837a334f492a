//! Proved properties of the evaluator: literal round trips, assignment
//! followed by a read, the typing of addition, and the fatality of unknown
//! names.  Each law is stated over the spec-level interpreter that the
//! executable methods are proved to follow.

use vstd::prelude::*;
use vstd::wrapping::i128_specs;
use crate::grammar::{
    assign_eq_pos, assign_match, assign_name, call_args, call_match, call_name, dq_body, dq_match,
    ident_end, ident_ok, is_identifier, lemma_assign_parts, lemma_ident_end, num_digits,
    num_match, num_value, plus_active, plus_match, sq_body, sq_match, var_name,
};
use crate::model::{eval_call, eval_expr, eval_tail, SpecState};
use crate::number::{dec_digits, int_text, lemma_dec_digits_shape, lemma_digits_value_of_dec_digits};
use crate::text::{
    digit_run, find_char, is_blank, is_digit, is_name_char, is_name_start, last_rparen,
    lemma_find_char, lemma_plus_from, lemma_run_end, lemma_run_end_full, plus_from, run_end,
};
use crate::value::{add_values, stringify, SpecError, SpecValue};

verus! {

// --- character-class facts used to rule grammar shapes out ---

proof fn lemma_name_char_plain(c: char)
    requires
        is_name_char(c),
    ensures
        c != '+' && c != '(' && c != ')' && c != '=' && c != '"' && c != '\'' && !is_blank(c),
{
}

proof fn lemma_name_start_plain(c: char)
    requires
        is_name_start(c),
    ensures
        !is_digit(c) && c != '-' && c != '"' && c != '\'' && c != '+' && c != '(',
{
}

proof fn lemma_digit_plain(c: char)
    requires
        is_digit(c),
    ensures
        !is_name_start(c) && c != '+' && c != '-' && c != '"' && c != '\'' && c != '(' && !is_blank(
            c,
        ),
{
}

/// A text with no usable `+` never takes the plus split.
proof fn lemma_no_plus(s: Seq<char>)
    requires
        forall|j: int| 1 <= j < s.len() ==> s[j] != '+',
    ensures
        plus_from(s, 1) == s.len(),
        !plus_match(s),
        !plus_active(s),
{
    lemma_plus_from(s, 1);
}

/// A run over a predicate that holds up to `e` and fails at `e` ends at `e`.
proof fn lemma_run_end_exact(s: Seq<char>, i: nat, p: spec_fn(char) -> bool, e: nat)
    requires
        i <= e <= s.len(),
        forall|j: int| i <= j < e ==> p(s[j]),
        e < s.len() ==> !p(s[e as int]),
    ensures
        run_end(s, i, p) == e,
{
    lemma_run_end(s, i, p);
    if e < s.len() {
        if run_end(s, i, p) > e {
            assert(p(s[e as int]));
        }
    } else {
        lemma_run_end_full(s, i, p);
    }
}

/// Evaluating a bare identifier: dispatch reaches the variable rule, which
/// looks the whole name up and leaves the state unchanged.
proof fn lemma_identifier_eval(st: SpecState, n: Seq<char>)
    requires
        is_identifier(n),
    ensures
        eval_expr(st, n) == (if st.env.contains_key(n) {
            (st, Ok::<SpecValue, SpecError>(st.env[n]))
        } else {
            (st, Err::<SpecValue, SpecError>(SpecError::UndefinedName(n)))
        }),
{
    assert forall|j: int| 1 <= j < n.len() implies n[j] != '+' by {
        lemma_name_char_plain(n[j]);
    }
    lemma_no_plus(n);
    lemma_run_end_exact(n, 1, |c: char| is_name_char(c), n.len());
    assert(ident_end(n) == n.len());
    lemma_run_end_exact(n, n.len(), |c: char| is_blank(c), n.len());
    assert(assign_eq_pos(n) == n.len());
    assert(!assign_match(n));
    assert(!call_match(n));
    lemma_name_start_plain(n[0]);
    assert(!dq_match(n));
    assert(!sq_match(n));
    assert(!num_match(n));
    assert(var_name(n) =~= n);
    assert(eval_expr(st, n) == eval_tail(st, n));
}

/// An assignment binds the identifier to the produced value, so re-reading
/// the identifier immediately afterwards yields the same value and changes
/// nothing: assignment is idempotent on re-evaluation of its result.
pub proof fn lemma_assignment_then_read(st: SpecState, s: Seq<char>)
    requires
        assign_match(s),
        eval_expr(st, s).1 is Ok,
    ensures
        eval_expr(eval_expr(st, s).0, assign_name(s)) == (
            eval_expr(st, s).0,
            eval_expr(st, s).1,
        ),
{
    lemma_assign_parts(s);
    lemma_ident_end(s);
    let n = assign_name(s);
    let st1 = eval_expr(st, s).0;
    let v = eval_expr(st, s).1->Ok_0;
    assert(st1.env == eval_expr(st, crate::grammar::assign_rhs(s)).0.env.insert(n, v));
    assert(is_identifier(n)) by {
        assert(is_name_start(n[0]));
        assert(forall|i: int| 1 <= i < n.len() ==> is_name_char(#[trigger] n[i]));
    }
    lemma_identifier_eval(st1, n);
    assert(st1.env.contains_key(n) && st1.env[n] == v);
}

/// Addition is defined exactly between two integers; an integer left
/// operand with a non-integer right operand is a type mismatch, and any
/// other left operand cannot be summed at all.
pub proof fn lemma_addition_only_integers(a: SpecValue, b: SpecValue)
    ensures
        add_values(a, b) is Ok <==> (a is Int && b is Int),
        a is Int && b is Int ==> add_values(a, b) == Ok::<SpecValue, SpecError>(
            SpecValue::Int(i128_specs::wrapping_add(a->Int_0, b->Int_0)),
        ),
        a is Int && !(b is Int) ==> add_values(a, b) == Err::<SpecValue, SpecError>(
            SpecError::TypeMismatch,
        ),
        !(a is Int) ==> add_values(a, b) == Err::<SpecValue, SpecError>(SpecError::NotSummable),
{
}

/// The parenthesis-balance gate: when the text contains a usable `+` but
/// the split's sides are not both parenthesis-balanced, the `+` is presumed
/// nested, the split is not honored, and dispatch falls through to the
/// remaining rules applied to the entire original text.  This is what lets
/// a call like `print(1 + 2)` reach the call rule whole, so that the sum is
/// evaluated as the nested argument.
pub proof fn lemma_paren_balance_gating(st: SpecState, s: Seq<char>)
    requires
        !assign_match(s),
        plus_match(s),
        !plus_active(s),
    ensures
        eval_expr(st, s) == eval_tail(st, s),
{
}

/// Referencing an identifier with no binding is fatal: evaluation yields the
/// undefined-name error carrying the name, and changes nothing.
pub proof fn lemma_undefined_variable(st: SpecState, n: Seq<char>)
    requires
        is_identifier(n),
        !st.env.contains_key(n),
    ensures
        eval_expr(st, n) == (st, Err::<SpecValue, SpecError>(SpecError::UndefinedName(n))),
{
    lemma_identifier_eval(st, n);
}

/// Calling an identifier with no binding, with empty arguments, is fatal in
/// the same way: the argument evaluates first, then the lookup fails.
pub proof fn lemma_undefined_call(st: SpecState, n: Seq<char>)
    requires
        is_identifier(n),
        !st.env.contains_key(n),
    ensures
        eval_expr(st, n + seq!['(', ')']) == (
            st,
            Err::<SpecValue, SpecError>(SpecError::UndefinedName(n)),
        ),
{
    let s = n + seq!['(', ')'];
    assert(s[0] == n[0]);
    assert forall|j: int| 1 <= j < s.len() implies s[j] != '+' by {
        if j < n.len() {
            lemma_name_char_plain(n[j]);
        }
    }
    lemma_no_plus(s);
    assert(s[n.len() as int] == '(');
    assert(s[n.len() as int + 1] == ')');
    lemma_run_end_exact(s, 1, |c: char| is_name_char(c), n.len());
    assert(ident_end(s) == n.len());
    lemma_run_end_exact(s, n.len(), |c: char| is_blank(c), n.len());
    assert(assign_eq_pos(s) == n.len());
    assert(!assign_match(s));
    assert(last_rparen(s) == s.len() - 1) by {
        assert(s.last() == ')');
    }
    assert(call_match(s));
    assert(call_name(s) =~= n);
    let args = call_args(s);
    assert(args =~= Seq::<char>::empty());
    assert(eval_tail(st, args) == (st, Ok::<SpecValue, SpecError>(SpecValue::Null))) by {
        assert(!ident_ok(args));
        assert(!assign_match(args));
        assert(plus_from(args, 1) == 0);
        assert(!plus_match(args));
        assert(!call_match(args));
        assert(!dq_match(args));
        assert(!sq_match(args));
        assert(!num_match(args));
    }
    assert(eval_expr(st, args) == eval_tail(st, args)) by {
        assert(!assign_match(args));
        assert(!plus_active(args));
    }
    assert(eval_call(st, n, args) == (
        st,
        Err::<SpecValue, SpecError>(SpecError::UndefinedName(n)),
    ));
    assert(eval_tail(st, s) == eval_call(st, call_name(s), call_args(s)));
    assert(eval_expr(st, s) == eval_tail(st, s));
}

/// A double-quoted literal whose body holds no double quote evaluates to a
/// string value that stringifies back to the body, and changes nothing.
/// (A body holding a usable `+` is split by the earlier plus rule instead
/// and fails; such bodies are excluded.)
pub proof fn lemma_string_literal_roundtrip_double(st: SpecState, x: Seq<char>)
    requires
        forall|i: int| 0 <= i < x.len() ==> x[i] != '"',
        !plus_active(seq!['"'] + x + seq!['"']),
    ensures
        eval_expr(st, seq!['"'] + x + seq!['"']) == (
            st,
            Ok::<SpecValue, SpecError>(SpecValue::Str(x)),
        ),
        stringify(SpecValue::Str(x)) == x,
{
    let s = seq!['"'] + x + seq!['"'];
    assert(s.len() == x.len() + 2);
    assert(s[0] == '"');
    assert(s.last() == '"');
    assert(forall|j: int| 1 <= j < s.len() - 1 ==> s[j] == x[j - 1]);
    assert(!ident_ok(s));
    assert(!assign_match(s));
    assert(!call_match(s));
    lemma_find_char(s, 1, '"');
    let f = find_char(s, 1, '"');
    assert(f == x.len() + 1) by {
        if f < x.len() + 1 {
            assert(s[f as int] == '"');
            assert(s[f as int] == x[f - 1]);
        }
        if f > x.len() + 1 {
            assert(s[x.len() as int + 1] == '"');
        }
    }
    assert(dq_match(s));
    assert(dq_body(s) =~= x);
    assert(eval_tail(st, s) == (st, Ok::<SpecValue, SpecError>(SpecValue::Str(x))));
    assert(eval_expr(st, s) == eval_tail(st, s));
}

/// The single-quoted twin of the round trip above.
pub proof fn lemma_string_literal_roundtrip_single(st: SpecState, x: Seq<char>)
    requires
        forall|i: int| 0 <= i < x.len() ==> x[i] != '\'',
        !plus_active(seq!['\''] + x + seq!['\'']),
    ensures
        eval_expr(st, seq!['\''] + x + seq!['\'']) == (
            st,
            Ok::<SpecValue, SpecError>(SpecValue::Str(x)),
        ),
        stringify(SpecValue::Str(x)) == x,
{
    let s = seq!['\''] + x + seq!['\''];
    assert(s.len() == x.len() + 2);
    assert(s[0] == '\'');
    assert(s.last() == '\'');
    assert(forall|j: int| 1 <= j < s.len() - 1 ==> s[j] == x[j - 1]);
    assert(!ident_ok(s));
    assert(!assign_match(s));
    assert(!call_match(s));
    assert(!dq_match(s));
    lemma_find_char(s, 1, '\'');
    let f = find_char(s, 1, '\'');
    assert(f == x.len() + 1) by {
        if f < x.len() + 1 {
            assert(s[f as int] == '\'');
            assert(s[f as int] == x[f - 1]);
        }
        if f > x.len() + 1 {
            assert(s[x.len() as int + 1] == '\'');
        }
    }
    assert(sq_match(s));
    assert(sq_body(s) =~= x);
    assert(eval_tail(st, s) == (st, Ok::<SpecValue, SpecError>(SpecValue::Str(x))));
    assert(eval_expr(st, s) == eval_tail(st, s));
}

/// The decimal text of any representable integer evaluates to that integer,
/// whose stringified form is the same text again, with nothing changed.
pub proof fn lemma_integer_literal_roundtrip(st: SpecState, n: i128)
    ensures
        eval_expr(st, int_text(n as int)) == (
            st,
            Ok::<SpecValue, SpecError>(SpecValue::Int(n)),
        ),
        stringify(SpecValue::Int(n)) == int_text(n as int),
{
    let s = int_text(n as int);
    if n >= 0 {
        lemma_dec_digits_shape(n as int);
        assert(s == dec_digits(n as int));
        assert(is_digit(s[0]));
        lemma_digit_plain(s[0]);
        assert forall|j: int| 1 <= j < s.len() implies s[j] != '+' by {
            lemma_digit_plain(s[j]);
        }
        lemma_no_plus(s);
        assert(!ident_ok(s));
        assert(!assign_match(s));
        assert(!call_match(s));
        assert(!dq_match(s));
        assert(!sq_match(s));
        assert(num_match(s));
        assert(crate::grammar::num_digits_start(s) == 0);
        lemma_run_end_full(s, 0, |c: char| is_digit(c));
        assert(digit_run(s, 0) == s.len());
        assert(num_digits(s) =~= s);
        lemma_digits_value_of_dec_digits(n as int);
        assert(num_value(s) == n as int);
        assert(eval_tail(st, s) == (st, Ok::<SpecValue, SpecError>(SpecValue::Int(n))));
        assert(eval_expr(st, s) == eval_tail(st, s));
    } else {
        let m = -(n as int);
        lemma_dec_digits_shape(m);
        assert(s == seq!['-'] + dec_digits(m));
        assert(s[0] == '-');
        assert(forall|j: int| 1 <= j < s.len() ==> s[j] == dec_digits(m)[j - 1]);
        assert forall|j: int| 1 <= j < s.len() implies s[j] != '+' && is_digit(s[j]) by {
            lemma_digit_plain(dec_digits(m)[j - 1]);
        }
        lemma_no_plus(s);
        assert(!ident_ok(s));
        assert(!assign_match(s));
        assert(!call_match(s));
        assert(!dq_match(s));
        assert(!sq_match(s));
        assert(is_digit(s[1]));
        assert(num_match(s));
        assert(crate::grammar::num_digits_start(s) == 1);
        lemma_run_end_full(s, 1, |c: char| is_digit(c));
        assert(digit_run(s, 1) == s.len());
        assert(num_digits(s) =~= dec_digits(m));
        lemma_digits_value_of_dec_digits(m);
        assert(num_value(s) == n as int);
        assert(eval_tail(st, s) == (st, Ok::<SpecValue, SpecError>(SpecValue::Int(n))));
        assert(eval_expr(st, s) == eval_tail(st, s));
    }
}

} // verus!
