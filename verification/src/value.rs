//! The dynamically typed value model: string, none, integer and
//! native-function values, with the shared capability set (stringify,
//! coerce-to-integer, invoke, clone, add, type tag).  Failures are returned
//! as `Error` values; the statement driver decides that they abort the run.

use vstd::prelude::*;
use vstd::string::StringExecFns;
use crate::number::{int_text, int_to_string};

verus! {

/// The built-in native functions.  `print` is the only one.
#[derive(Clone, Copy, PartialEq, Eq, Structural)]
pub enum NativeFn {
    Print,
}

/// A runtime value of the interpreted language.
pub enum Value {
    Str(String),
    Null,
    Int(i128),
    Func(NativeFn),
}

/// The mathematical model of a value.
pub enum SpecValue {
    Str(Seq<char>),
    Null,
    Int(i128),
    Func(NativeFn),
}

impl View for Value {
    type V = SpecValue;

    open spec fn view(&self) -> SpecValue {
        match self {
            Value::Str(s) => SpecValue::Str(s@),
            Value::Null => SpecValue::Null,
            Value::Int(i) => SpecValue::Int(*i),
            Value::Func(f) => SpecValue::Func(*f),
        }
    }
}

/// The error kinds; every one is fatal for the run.
#[derive(Debug)]
pub enum Error {
    /// The text matched none of the recognized expression forms.
    ParseFailure(String),
    /// An identifier with no binding was referenced or called.
    UndefinedName(String),
    /// `invoke` on a value that is not a native function.
    NotCallable,
    /// `add` on a left operand that does not support addition.
    NotSummable,
    /// `add` between two values of different type tags.
    TypeMismatch,
}

pub enum SpecError {
    ParseFailure(Seq<char>),
    UndefinedName(Seq<char>),
    NotCallable,
    NotSummable,
    TypeMismatch,
}

impl View for Error {
    type V = SpecError;

    open spec fn view(&self) -> SpecError {
        match self {
            Error::ParseFailure(s) => SpecError::ParseFailure(s@),
            Error::UndefinedName(s) => SpecError::UndefinedName(s@),
            Error::NotCallable => SpecError::NotCallable,
            Error::NotSummable => SpecError::NotSummable,
            Error::TypeMismatch => SpecError::TypeMismatch,
        }
    }
}

/// View of an evaluation result.
pub open spec fn res_view(r: Result<Value, Error>) -> Result<SpecValue, SpecError> {
    match r {
        Ok(v) => Ok(v@),
        Err(e) => Err(e@),
    }
}

/// The text form of a value: a string's payload, the fixed texts for none
/// and functions, decimal text for integers.
pub open spec fn stringify(v: SpecValue) -> Seq<char> {
    match v {
        SpecValue::Str(s) => s,
        SpecValue::Null => "None"@,
        SpecValue::Int(i) => int_text(i as int),
        SpecValue::Func(_) => "Function"@,
    }
}

/// The integer reading of a value; variants without a natural one default
/// silently to zero.
pub open spec fn coerce_int(v: SpecValue) -> i128 {
    match v {
        SpecValue::Int(i) => i,
        _ => 0,
    }
}

/// The fixed type tag of a value.
pub open spec fn type_tag(v: SpecValue) -> Seq<char> {
    match v {
        SpecValue::Str(_) => "string"@,
        SpecValue::Null => "none"@,
        SpecValue::Int(_) => "int"@,
        SpecValue::Func(_) => "function"@,
    }
}

/// What `add` yields: only integer plus integer is meaningful; a non-integer
/// right operand is a type mismatch, a non-integer left operand cannot be
/// summed at all.  The integer sum wraps around the `i128` range.
pub open spec fn add_values(a: SpecValue, b: SpecValue) -> Result<SpecValue, SpecError> {
    match a {
        SpecValue::Int(x) => match b {
            SpecValue::Int(y) => Ok(
                SpecValue::Int(vstd::wrapping::i128_specs::wrapping_add(x, y)),
            ),
            _ => Err(SpecError::TypeMismatch),
        },
        _ => Err(SpecError::NotSummable),
    }
}

/// What invoking a value does to the output: `print` appends the argument's
/// text form and yields none; everything else is not callable.
pub open spec fn apply_fn(out: Seq<Seq<char>>, f: SpecValue, arg: SpecValue) -> (Seq<Seq<char>>,
    Result<SpecValue, SpecError>) {
    match f {
        SpecValue::Func(NativeFn::Print) => (out.push(stringify(arg)), Ok(SpecValue::Null)),
        _ => (out, Err(SpecError::NotCallable)),
    }
}

/// View of an output buffer as the sequence of line texts.
pub open spec fn lines_view(l: Seq<String>) -> Seq<Seq<char>> {
    l.map_values(|s: String| s@)
}

impl Value {
    /// Stringification; never fails.
    pub fn to_string(&self) -> (r: String)
        ensures
            r@ == stringify(self@),
    {
        match self {
            Value::Str(s) => s.clone(),
            Value::Null => String::from_str("None"),
            Value::Int(i) => int_to_string(*i),
            Value::Func(_) => String::from_str("Function"),
        }
    }

    /// Integer coercion; never fails, defaults to zero.
    pub fn to_int(&self) -> (r: i128)
        ensures
            r == coerce_int(self@),
    {
        match self {
            Value::Int(i) => *i,
            _ => 0,
        }
    }

    /// An independent copy with the same model.
    pub fn cloned(&self) -> (r: Value)
        ensures
            r@ == self@,
    {
        match self {
            Value::Str(s) => Value::Str(s.clone()),
            Value::Null => Value::Null,
            Value::Int(i) => Value::Int(*i),
            Value::Func(f) => Value::Func(*f),
        }
    }

    /// The type tag used by `add`'s equality check.
    pub fn cog_type(&self) -> (r: &'static str)
        ensures
            r@ == type_tag(self@),
    {
        match self {
            Value::Str(_) => "string",
            Value::Null => "none",
            Value::Int(_) => "int",
            Value::Func(_) => "function",
        }
    }

    /// Addition, defined only between two integers; wraps on overflow.
    pub fn plus(&self, other: Value) -> (res: Result<Value, Error>)
        ensures
            res_view(res) == add_values(self@, other@),
    {
        match self {
            Value::Int(a) => match other {
                Value::Int(b) => Ok(Value::Int(a.wrapping_add(b))),
                _ => Err(Error::TypeMismatch),
            },
            _ => Err(Error::NotSummable),
        }
    }

    /// Invocation: applies a native function to the argument, appending any
    /// printed text to `out`; fails for every other variant.
    pub fn call(&self, arg: Value, out: &mut Vec<String>) -> (res: Result<Value, Error>)
        ensures
            ({
                let r = apply_fn(lines_view(old(out)@), self@, arg@);
                lines_view(final(out)@) == r.0 && res_view(res) == r.1
            }),
    {
        match self {
            Value::Func(f) => match f {
                NativeFn::Print => Ok(cog_print(arg, out)),
            },
            _ => {
                proof {
                    assert(lines_view(out@) =~= lines_view(old(out)@));
                }
                Err(Error::NotCallable)
            },
        }
    }
}

/// The `print` built-in: appends the argument's text form to the output and
/// yields none.
pub fn cog_print(arg: Value, out: &mut Vec<String>) -> (r: Value)
    ensures
        lines_view(final(out)@) == lines_view(old(out)@).push(stringify(arg@)),
        r@ == SpecValue::Null,
{
    let line = arg.to_string();
    out.push(line);
    proof {
        assert(lines_view(out@) =~= lines_view(old(out)@).push(stringify(arg@)));
    }
    Value::Null
}

} // verus!
