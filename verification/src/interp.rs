//! The interpreter: a variable environment (name to owned value, keys
//! unique, later assignment overwrites) and the fused recursive
//! recognizer-evaluator.  Every public method is proved to follow the
//! spec-level interpreter in `model` exactly; errors, which the language
//! treats as fatal, are returned to the caller, who aborts the run.

use vstd::prelude::*;
use vstd::string::StrSliceExecFns;
use vstd::string::StringExecFns;
use crate::grammar;
use crate::grammar::{lemma_assign_parts, lemma_call_parts, lemma_plus_parts, plus_active};
use crate::model::{eval_call, eval_expr, eval_stmt, eval_tail, run_lines, SpecState};
use crate::number;
use crate::text;
use crate::value::{lines_view, res_view, Error, NativeFn, SpecValue, Value};

verus! {

/// The environment list as a mapping: later entries overwrite earlier ones.
pub open spec fn env_map(l: Seq<(String, Value)>) -> Map<Seq<char>, SpecValue>
    decreases l.len(),
{
    if l.len() == 0 {
        Map::empty()
    } else {
        env_map(l.drop_last()).insert(l.last().0@, l.last().1@)
    }
}

/// Keys are unique, so the list is a function of names.
pub open spec fn keys_unique(l: Seq<(String, Value)>) -> bool {
    forall|i: int, j: int| 0 <= i < j < l.len() ==> (#[trigger] l[i]).0@ != (#[trigger] l[j]).0@
}

/// A name is in the mapping exactly when some entry holds it.
proof fn lemma_env_map_key(l: Seq<(String, Value)>, k: Seq<char>)
    ensures
        env_map(l).contains_key(k) <==> exists|i: int| 0 <= i < l.len() && (#[trigger] l[i]).0@
            == k,
    decreases l.len(),
{
    if l.len() > 0 {
        lemma_env_map_key(l.drop_last(), k);
        if l.last().0@ == k {
            assert(l[l.len() - 1].0@ == k);
        } else {
            if env_map(l).contains_key(k) {
                let d = l.drop_last();
                let i = choose|i: int| 0 <= i < d.len() && (#[trigger] d[i]).0@ == k;
                assert(l[i].0@ == k);
            }
            if exists|i: int| 0 <= i < l.len() && (#[trigger] l[i]).0@ == k {
                let i = choose|i: int| 0 <= i < l.len() && (#[trigger] l[i]).0@ == k;
                assert(l.drop_last()[i].0@ == k);
            }
        }
    }
}

/// With unique keys, the mapping returns the entry's own value.
proof fn lemma_env_map_lookup(l: Seq<(String, Value)>, i: int)
    requires
        keys_unique(l),
        0 <= i < l.len(),
    ensures
        env_map(l).contains_key(l[i].0@),
        env_map(l)[l[i].0@] == l[i].1@,
    decreases l.len(),
{
    if i == l.len() - 1 {
    } else {
        assert(l[i].0@ != l.last().0@);
        assert(keys_unique(l.drop_last())) by {
            assert(forall|a: int, b: int|
                0 <= a < b < l.drop_last().len() ==> (#[trigger] l.drop_last()[a]).0@ == l[a].0@
                    && (#[trigger] l.drop_last()[b]).0@ == l[b].0@);
        }
        assert(l.drop_last()[i] == l[i]);
        lemma_env_map_lookup(l.drop_last(), i);
    }
}

/// Removing the entry that holds a name removes the name from the mapping.
proof fn lemma_env_map_remove(l: Seq<(String, Value)>, i: int)
    requires
        keys_unique(l),
        0 <= i < l.len(),
    ensures
        env_map(l.remove(i)) == env_map(l).remove(l[i].0@),
    decreases l.len(),
{
    let k = l[i].0@;
    if i == l.len() - 1 {
        assert(l.remove(i) =~= l.drop_last());
        lemma_env_map_key(l.drop_last(), k);
        assert(forall|a: int|
            0 <= a < l.drop_last().len() ==> (#[trigger] l.drop_last()[a]).0@ == l[a].0@);
        assert(!env_map(l.drop_last()).contains_key(k));
        assert(env_map(l).remove(k) =~= env_map(l.drop_last()));
    } else {
        assert(keys_unique(l.drop_last())) by {
            assert(forall|a: int, b: int|
                0 <= a < b < l.drop_last().len() ==> (#[trigger] l.drop_last()[a]).0@ == l[a].0@
                    && (#[trigger] l.drop_last()[b]).0@ == l[b].0@);
        }
        assert(l.drop_last()[i] == l[i]);
        lemma_env_map_remove(l.drop_last(), i);
        assert(l.remove(i).drop_last() =~= l.drop_last().remove(i));
        assert(l.remove(i).last() == l.last());
        assert(env_map(l.remove(i)) == env_map(l.drop_last().remove(i)).insert(
            l.last().0@,
            l.last().1@,
        ));
        assert(l.last().0@ != k);
        assert(env_map(l.drop_last()).remove(k).insert(l.last().0@, l.last().1@) =~= env_map(
            l.drop_last(),
        ).insert(l.last().0@, l.last().1@).remove(k));
    }
}

/// The interpreter instance: the one mutable environment and the output
/// lines produced so far.  Created with `print` pre-bound.
pub struct Interpreter {
    vars: Vec<(String, Value)>,
    output: Vec<String>,
}

impl View for Interpreter {
    type V = SpecState;

    closed spec fn view(&self) -> SpecState {
        SpecState { env: env_map(self.vars@), out: lines_view(self.output@) }
    }
}

impl Interpreter {
    /// The environment's well-formedness: one entry per name.
    pub closed spec fn wf(&self) -> bool {
        keys_unique(self.vars@)
    }

    /// A fresh interpreter: empty output, and `print` bound to the one
    /// built-in native function.
    pub fn new() -> (r: Interpreter)
        ensures
            r.wf(),
            r@.env == Map::<Seq<char>, SpecValue>::empty().insert(
                "print"@,
                SpecValue::Func(NativeFn::Print),
            ),
            r@.out == Seq::<Seq<char>>::empty(),
    {
        let mut vars: Vec<(String, Value)> = Vec::new();
        vars.push((String::from_str("print"), Value::Func(NativeFn::Print)));
        let r = Interpreter { vars, output: Vec::new() };
        proof {
            assert(r.vars@.drop_last() =~= Seq::<(String, Value)>::empty());
            assert(env_map(Seq::<(String, Value)>::empty()) =~= Map::<Seq<char>, SpecValue>::empty());
            assert(r.vars@.last().0@ == "print"@);
            assert(lines_view(r.output@) =~= Seq::<Seq<char>>::empty());
            assert(r@.env =~= Map::<Seq<char>, SpecValue>::empty().insert(
                "print"@,
                SpecValue::Func(NativeFn::Print),
            ));
        }
        r
    }

    /// Index of the entry bound to `name`, if any.
    fn find_var(&self, name: &str) -> (r: Option<usize>)
        requires
            self.wf(),
        ensures
            match r {
                Some(i) => i < self.vars@.len() && self.vars@[i as int].0@ == name@
                    && self@.env.contains_key(name@) && self@.env[name@]
                    == self.vars@[i as int].1@,
                None => !self@.env.contains_key(name@),
            },
    {
        let n = self.vars.len();
        let mut i: usize = 0;
        while i < n
            invariant
                self.wf(),
                i <= n == self.vars@.len(),
                forall|j: int| 0 <= j < i ==> (#[trigger] self.vars@[j]).0@ != name@,
            decreases n - i,
        {
            if text::str_eq(self.vars[i].0.as_str(), name) {
                proof {
                    lemma_env_map_lookup(self.vars@, i as int);
                }
                return Some(i);
            }
            i = i + 1;
        }
        proof {
            lemma_env_map_key(self.vars@, name@);
        }
        None
    }

    /// An owned copy of the value bound to `name`, if any.
    fn get_var(&self, name: &str) -> (r: Option<Value>)
        requires
            self.wf(),
        ensures
            match r {
                Some(v) => self@.env.contains_key(name@) && v@ == self@.env[name@],
                None => !self@.env.contains_key(name@),
            },
    {
        match self.find_var(name) {
            Some(i) => Some(self.vars[i].1.cloned()),
            None => None,
        }
    }

    /// Bind `name` to `val`, overwriting any earlier binding.
    fn insert_var(&mut self, name: String, val: Value)
        requires
            old(self).wf(),
        ensures
            final(self).wf(),
            final(self)@.env == old(self)@.env.insert(name@, val@),
            final(self)@.out == old(self)@.out,
    {
        let ghost l0 = self.vars@;
        match self.find_var(name.as_str()) {
            Some(i) => {
                proof {
                    lemma_env_map_remove(l0, i as int);
                }
                self.vars.remove(i);
                let ghost l1 = self.vars@;
                proof {
                    assert(keys_unique(l1)) by {
                        assert(forall|a: int|
                            0 <= a < l1.len() ==> #[trigger] l1[a] == if a < i as int {
                                l0[a]
                            } else {
                                l0[a + 1]
                            });
                    }
                    assert(forall|a: int| 0 <= a < l1.len() ==> (#[trigger] l1[a]).0@ != name@)
                        by {
                        assert(forall|a: int|
                            0 <= a < l1.len() ==> #[trigger] l1[a] == if a < i as int {
                                l0[a]
                            } else {
                                l0[a + 1]
                            });
                    }
                }
                self.vars.push((name, val));
                proof {
                    assert(self.vars@.drop_last() =~= l1);
                    assert(keys_unique(self.vars@)) by {
                        assert(forall|a: int|
                            0 <= a < l1.len() ==> #[trigger] self.vars@[a] == l1[a]);
                    }
                    assert(env_map(l1).insert(name@, val@) =~= env_map(l0).insert(name@, val@));
                }
            },
            None => {
                proof {
                    lemma_env_map_key(l0, name@);
                }
                self.vars.push((name, val));
                proof {
                    assert(self.vars@.drop_last() =~= l0);
                    assert(keys_unique(self.vars@)) by {
                        assert(forall|a: int|
                            0 <= a < l0.len() ==> #[trigger] self.vars@[a] == l0[a]);
                    }
                }
            },
        }
    }

    /// The lines written to the output sink so far, in order.
    pub fn output(&self) -> (r: &Vec<String>)
        ensures
            lines_view(r@) == self@.out,
    {
        &self.output
    }

    /// Evaluate one expression against the environment, following
    /// `model::eval_expr` exactly.
    pub fn interpret_expression(&mut self, expr: &str) -> (res: Result<Value, Error>)
        requires
            old(self).wf(),
        ensures
            final(self).wf(),
            ({
                let r = eval_expr(old(self)@, expr@);
                final(self)@ == r.0 && res_view(res) == r.1
            }),
        decreases expr@.len(), 1int,
    {
        let len = expr.unicode_len();
        if let Some(pair) = grammar::match_assign(expr) {
            proof {
                lemma_assign_parts(expr@);
            }
            let rhs = expr.substring_char(pair.1, len);
            match self.interpret_expression(rhs) {
                Ok(v) => {
                    let name = expr.substring_char(0, pair.0);
                    let cl = v.cloned();
                    self.insert_var(String::from_str(name), cl);
                    Ok(v)
                },
                Err(e) => Err(e),
            }
        } else if let Some(pair) = grammar::match_plus(expr) {
            proof {
                lemma_plus_parts(expr@);
            }
            let left = expr.substring_char(0, pair.0);
            let right = expr.substring_char(pair.1, len);
            let bal_ok = text::scan_paren_bal_zero(left) && text::scan_paren_bal_zero(right);
            if bal_ok {
                proof {
                    assert(plus_active(expr@));
                }
                match self.interpret_expression(left) {
                    Ok(v1) => match self.interpret_expression(right) {
                        Ok(v2) => v1.plus(v2),
                        Err(e) => Err(e),
                    },
                    Err(e) => Err(e),
                }
            } else {
                proof {
                    assert(!plus_active(expr@));
                }
                self.interpret_tail(expr)
            }
        } else {
            self.interpret_tail(expr)
        }
    }

    /// The dispatch arms tried after assignment and plus: function call,
    /// string literal, integer literal, bare variable, empty text.
    fn interpret_tail(&mut self, expr: &str) -> (res: Result<Value, Error>)
        requires
            old(self).wf(),
        ensures
            final(self).wf(),
            ({
                let r = eval_tail(old(self)@, expr@);
                final(self)@ == r.0 && res_view(res) == r.1
            }),
        decreases expr@.len(), 0int,
    {
        let len = expr.unicode_len();
        if let Some(pair) = grammar::match_call(expr) {
            proof {
                lemma_call_parts(expr@);
            }
            let name = expr.substring_char(0, pair.0);
            let args = expr.substring_char(pair.0 + 1, pair.1);
            self.interpret_functioncall(name, args)
        } else if let Some(e) = grammar::match_dq(expr) {
            proof {
                text::lemma_find_char(expr@, 1, '"');
            }
            let body = expr.substring_char(1, e);
            Ok(Value::Str(String::from_str(body)))
        } else if let Some(e) = grammar::match_sq(expr) {
            proof {
                text::lemma_find_char(expr@, 1, '\'');
            }
            let body = expr.substring_char(1, e);
            Ok(Value::Str(String::from_str(body)))
        } else if grammar::match_num(expr) {
            match number::parse_literal(expr) {
                Some(n) => Ok(Value::Int(n)),
                None => Err(Error::ParseFailure(String::from_str(expr))),
            }
        } else if let Some(iend) = grammar::match_var(expr) {
            proof {
                grammar::lemma_ident_end(expr@);
            }
            let name = expr.substring_char(0, iend);
            match self.get_var(name) {
                Some(v) => Ok(v),
                None => Err(Error::UndefinedName(String::from_str(name))),
            }
        } else if len == 0 {
            Ok(Value::Null)
        } else {
            Err(Error::ParseFailure(String::from_str(expr)))
        }
    }

    /// A function call: the argument text is evaluated eagerly, then the
    /// callee is looked up and invoked with the result.
    pub fn interpret_functioncall(&mut self, function: &str, args: &str) -> (res: Result<
        Value,
        Error,
    >)
        requires
            old(self).wf(),
        ensures
            final(self).wf(),
            ({
                let r = eval_call(old(self)@, function@, args@);
                final(self)@ == r.0 && res_view(res) == r.1
            }),
        decreases args@.len(), 2int,
    {
        match self.interpret_expression(args) {
            Err(e) => Err(e),
            Ok(argv) => match self.get_var(function) {
                Some(f) => f.call(argv, &mut self.output),
                None => Err(Error::UndefinedName(String::from_str(function))),
            },
        }
    }

    /// One statement: a line containing `//` anywhere is echoed as a
    /// comment notice; any other line is evaluated as an expression.
    pub fn interpret_statement(&mut self, line: &str) -> (res: Result<(), Error>)
        requires
            old(self).wf(),
        ensures
            final(self).wf(),
            ({
                let r = eval_stmt(old(self)@, line@);
                final(self)@ == r.0 && (match res {
                    Ok(u) => r.1 == Ok::<(), crate::value::SpecError>(()),
                    Err(e) => r.1 == Err::<(), crate::value::SpecError>(e@),
                })
            }),
    {
        if text::scan_comment(line) {
            let mut msg = String::from_str("Comment: ");
            msg.append(line);
            self.output.push(msg);
            proof {
                assert(lines_view(self.output@) =~= lines_view(old(self).output@).push(
                    "Comment: "@ + line@,
                ));
            }
            Ok(())
        } else {
            match self.interpret_expression(line) {
                Ok(_) => Ok(()),
                Err(e) => Err(e),
            }
        }
    }

    /// A whole script, one statement per line, stopping at the first error
    /// as the fatal-by-default design demands.
    pub fn execute_lines(&mut self, lines: &Vec<String>) -> (res: Result<(), Error>)
        requires
            old(self).wf(),
        ensures
            final(self).wf(),
            ({
                let r = run_lines(old(self)@, lines_view(lines@));
                final(self)@ == r.0 && (match res {
                    Ok(u) => r.1 == Ok::<(), crate::value::SpecError>(()),
                    Err(e) => r.1 == Err::<(), crate::value::SpecError>(e@),
                })
            }),
    {
        let n = lines.len();
        let mut i: usize = 0;
        proof {
            assert(lines_view(lines@).subrange(0, n as int) =~= lines_view(lines@));
        }
        while i < n
            invariant
                self.wf(),
                i <= n == lines@.len(),
                run_lines(old(self)@, lines_view(lines@)) == run_lines(
                    self@,
                    lines_view(lines@).subrange(i as int, n as int),
                ),
            decreases n - i,
        {
            let ghost pre = self@;
            let ghost rem = lines_view(lines@).subrange(i as int, n as int);
            proof {
                assert(rem[0] == lines@[i as int]@);
            }
            match self.interpret_statement(lines[i].as_str()) {
                Ok(_) => {},
                Err(e) => {
                    proof {
                        assert(run_lines(pre, rem).0 == self@);
                    }
                    return Err(e);
                },
            }
            proof {
                assert(rem.drop_first() =~= lines_view(lines@).subrange(i + 1, n as int));
            }
            i = i + 1;
        }
        proof {
            assert(lines_view(lines@).subrange(n as int, n as int) =~= Seq::<Seq<char>>::empty());
        }
        Ok(())
    }
}

} // verus!
