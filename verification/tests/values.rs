use cogscript::value::{cog_print, Error, NativeFn, Value};

#[test]
fn stringify_each_variant() {
    assert_eq!(Value::Str("abc".to_string()).to_string(), "abc");
    assert_eq!(Value::Null.to_string(), "None");
    assert_eq!(Value::Int(0).to_string(), "0");
    assert_eq!(Value::Int(-7).to_string(), "-7");
    assert_eq!(Value::Func(NativeFn::Print).to_string(), "Function");
}

#[test]
fn stringify_integer_extremes() {
    assert_eq!(
        Value::Int(i128::MAX).to_string(),
        "170141183460469231731687303715884105727"
    );
    assert_eq!(
        Value::Int(i128::MIN).to_string(),
        "-170141183460469231731687303715884105728"
    );
}

#[test]
fn coerce_to_integer_defaults_to_zero() {
    assert_eq!(Value::Str("9".to_string()).to_int(), 0);
    assert_eq!(Value::Null.to_int(), 0);
    assert_eq!(Value::Func(NativeFn::Print).to_int(), 0);
    assert_eq!(Value::Int(31).to_int(), 31);
}

#[test]
fn type_tags() {
    assert_eq!(Value::Str(String::new()).cog_type(), "string");
    assert_eq!(Value::Null.cog_type(), "none");
    assert_eq!(Value::Int(1).cog_type(), "int");
    assert_eq!(Value::Func(NativeFn::Print).cog_type(), "function");
}

#[test]
fn cloned_is_equal_and_independent() {
    let a = Value::Str("data".to_string());
    let b = a.cloned();
    drop(a);
    assert_eq!(b.to_string(), "data");
}

#[test]
fn plus_adds_integers() {
    let v = Value::Int(2).plus(Value::Int(40)).unwrap();
    assert_eq!(v.to_string(), "42");
}

#[test]
fn plus_wraps_on_overflow() {
    let v = Value::Int(i128::MAX).plus(Value::Int(1)).unwrap();
    assert_eq!(v.to_string(), "-170141183460469231731687303715884105728");
}

#[test]
fn plus_rejects_mixed_and_non_integers() {
    assert!(matches!(
        Value::Int(1).plus(Value::Str("x".to_string())),
        Err(Error::TypeMismatch)
    ));
    assert!(matches!(Value::Int(1).plus(Value::Null), Err(Error::TypeMismatch)));
    assert!(matches!(
        Value::Str("a".to_string()).plus(Value::Str("b".to_string())),
        Err(Error::NotSummable)
    ));
    assert!(matches!(Value::Null.plus(Value::Null), Err(Error::NotSummable)));
}

#[test]
fn call_on_non_function_fails() {
    let mut out: Vec<String> = Vec::new();
    assert!(matches!(
        Value::Int(3).call(Value::Null, &mut out),
        Err(Error::NotCallable)
    ));
    assert!(out.is_empty());
}

#[test]
fn call_on_print_writes_and_returns_none() {
    let mut out: Vec<String> = Vec::new();
    let r = Value::Func(NativeFn::Print).call(Value::Int(5), &mut out).unwrap();
    assert!(matches!(r, Value::Null));
    assert_eq!(out, vec!["5".to_string()]);
}

#[test]
fn cog_print_builtin() {
    let mut out: Vec<String> = Vec::new();
    let r = cog_print(Value::Str("line".to_string()), &mut out);
    assert!(matches!(r, Value::Null));
    assert_eq!(out, vec!["line".to_string()]);
}
