use cogscript::interp::Interpreter;
use cogscript::value::{Error, Value};

fn eval(interp: &mut Interpreter, expr: &str) -> Result<Value, Error> {
    interp.interpret_expression(expr)
}

#[test]
fn string_literal_double_quotes() {
    let mut it = Interpreter::new();
    let v = eval(&mut it, "\"hello\"").unwrap();
    assert_eq!(v.to_string(), "hello");
    assert!(matches!(v, Value::Str(_)));
}

#[test]
fn string_literal_single_quotes() {
    let mut it = Interpreter::new();
    let v = eval(&mut it, "'world'").unwrap();
    assert_eq!(v.to_string(), "world");
}

#[test]
fn string_literal_empty() {
    let mut it = Interpreter::new();
    let v = eval(&mut it, "''").unwrap();
    assert_eq!(v.to_string(), "");
}

#[test]
fn string_literal_trailing_text_ignored() {
    let mut it = Interpreter::new();
    let v = eval(&mut it, "\"ab\"rest").unwrap();
    assert_eq!(v.to_string(), "ab");
}

#[test]
fn unclosed_string_is_parse_failure() {
    let mut it = Interpreter::new();
    match eval(&mut it, "\"abc") {
        Err(Error::ParseFailure(s)) => assert_eq!(s, "\"abc"),
        other => panic!("expected parse failure, got {:?}", other.map(|v| v.to_string())),
    }
}

#[test]
fn integer_literal() {
    let mut it = Interpreter::new();
    let v = eval(&mut it, "12345").unwrap();
    assert_eq!(v.to_string(), "12345");
    assert!(matches!(v, Value::Int(12345)));
}

#[test]
fn integer_literal_negative() {
    let mut it = Interpreter::new();
    let v = eval(&mut it, "-42").unwrap();
    assert_eq!(v.to_string(), "-42");
}

#[test]
fn integer_literal_extreme_values() {
    let mut it = Interpreter::new();
    let v = eval(&mut it, "170141183460469231731687303715884105727").unwrap();
    assert_eq!(v.to_string(), "170141183460469231731687303715884105727");
    let v = eval(&mut it, "-170141183460469231731687303715884105728").unwrap();
    assert_eq!(v.to_string(), "-170141183460469231731687303715884105728");
}

#[test]
fn integer_literal_overflow_is_parse_failure() {
    let mut it = Interpreter::new();
    assert!(matches!(
        eval(&mut it, "170141183460469231731687303715884105728"),
        Err(Error::ParseFailure(_))
    ));
}

#[test]
fn integer_literal_trailing_text_ignored() {
    let mut it = Interpreter::new();
    let v = eval(&mut it, "42abc").unwrap();
    assert_eq!(v.to_string(), "42");
}

#[test]
fn assignment_yields_value_and_rereads() {
    let mut it = Interpreter::new();
    let v = eval(&mut it, "x = 5").unwrap();
    assert_eq!(v.to_string(), "5");
    let r = eval(&mut it, "x").unwrap();
    assert_eq!(r.to_string(), "5");
}

#[test]
fn assignment_overwrites() {
    let mut it = Interpreter::new();
    eval(&mut it, "x = 1").unwrap();
    eval(&mut it, "x = 2").unwrap();
    assert_eq!(eval(&mut it, "x").unwrap().to_string(), "2");
}

#[test]
fn assignment_chained() {
    let mut it = Interpreter::new();
    eval(&mut it, "x = y = 7").unwrap();
    assert_eq!(eval(&mut it, "x").unwrap().to_string(), "7");
    assert_eq!(eval(&mut it, "y").unwrap().to_string(), "7");
}

#[test]
fn addition_of_integers() {
    let mut it = Interpreter::new();
    let v = eval(&mut it, "1 + 2").unwrap();
    assert_eq!(v.to_string(), "3");
}

#[test]
fn addition_of_strings_is_not_summable() {
    let mut it = Interpreter::new();
    assert!(matches!(eval(&mut it, "\"a\" + \"b\""), Err(Error::NotSummable)));
}

#[test]
fn addition_of_mixed_types_is_mismatch() {
    let mut it = Interpreter::new();
    assert!(matches!(eval(&mut it, "1 + \"b\""), Err(Error::TypeMismatch)));
}

#[test]
fn addition_wraps_at_the_integer_limit() {
    let mut it = Interpreter::new();
    let v = eval(&mut it, "170141183460469231731687303715884105727 + 1").unwrap();
    assert_eq!(v.to_string(), "-170141183460469231731687303715884105728");
}

#[test]
fn paren_balance_gates_the_plus_split() {
    let mut it = Interpreter::new();
    let v = eval(&mut it, "print(1 + 2)").unwrap();
    assert!(matches!(v, Value::Null));
    assert_eq!(it.output().len(), 1);
    assert_eq!(it.output()[0], "3");
}

#[test]
fn undefined_variable_is_fatal() {
    let mut it = Interpreter::new();
    match eval(&mut it, "undefined_var") {
        Err(Error::UndefinedName(n)) => assert_eq!(n, "undefined_var"),
        other => panic!("expected undefined name, got {:?}", other.map(|v| v.to_string())),
    }
}

#[test]
fn undefined_function_call_is_fatal() {
    let mut it = Interpreter::new();
    match eval(&mut it, "undefined_fn()") {
        Err(Error::UndefinedName(n)) => assert_eq!(n, "undefined_fn"),
        other => panic!("expected undefined name, got {:?}", other.map(|v| v.to_string())),
    }
}

#[test]
fn empty_expression_is_none() {
    let mut it = Interpreter::new();
    let v = eval(&mut it, "").unwrap();
    assert!(matches!(v, Value::Null));
    assert_eq!(v.to_string(), "None");
}

#[test]
fn garbage_is_parse_failure() {
    let mut it = Interpreter::new();
    assert!(matches!(eval(&mut it, "?!"), Err(Error::ParseFailure(_))));
}

#[test]
fn print_writes_argument_text() {
    let mut it = Interpreter::new();
    eval(&mut it, "print(\"Hello\")").unwrap();
    assert_eq!(it.output().as_slice(), &["Hello".to_string()]);
}

#[test]
fn assignment_as_call_argument() {
    let mut it = Interpreter::new();
    eval(&mut it, "print(y = 3)").unwrap();
    assert_eq!(it.output()[0], "3");
    assert_eq!(eval(&mut it, "y").unwrap().to_string(), "3");
}

#[test]
fn variable_can_shadow_print() {
    let mut it = Interpreter::new();
    eval(&mut it, "print = 5").unwrap();
    assert!(matches!(eval(&mut it, "print(1)"), Err(Error::NotCallable)));
}

#[test]
fn function_value_can_be_rebound_and_called() {
    let mut it = Interpreter::new();
    eval(&mut it, "f = print").unwrap();
    eval(&mut it, "f(8)").unwrap();
    assert_eq!(it.output()[0], "8");
}

#[test]
fn print_of_function_value() {
    let mut it = Interpreter::new();
    eval(&mut it, "print(print)").unwrap();
    assert_eq!(it.output()[0], "Function");
}

#[test]
fn comment_statement_echoes_notice() {
    let mut it = Interpreter::new();
    it.interpret_statement("// header").unwrap();
    assert_eq!(it.output().as_slice(), &["Comment: // header".to_string()]);
}

#[test]
fn comment_anywhere_in_line_wins() {
    let mut it = Interpreter::new();
    it.interpret_statement("undefined_var // still a comment").unwrap();
    assert_eq!(it.output()[0], "Comment: undefined_var // still a comment");
}

#[test]
fn functioncall_entry_point() {
    let mut it = Interpreter::new();
    let v = it.interpret_functioncall("print", "\"direct\"").unwrap();
    assert!(matches!(v, Value::Null));
    assert_eq!(it.output()[0], "direct");
}

#[test]
fn end_to_end_script() {
    let mut it = Interpreter::new();
    let lines: Vec<String> = vec![
        "// header".to_string(),
        "print('')".to_string(),
        "print(\"Hello world\")".to_string(),
        "x = 5".to_string(),
        "print(x)".to_string(),
    ];
    it.execute_lines(&lines).unwrap();
    assert_eq!(
        it.output().as_slice(),
        &[
            "Comment: // header".to_string(),
            "".to_string(),
            "Hello world".to_string(),
            "5".to_string(),
        ]
    );
}

#[test]
fn script_stops_at_first_error() {
    let mut it = Interpreter::new();
    let lines: Vec<String> =
        vec!["print(1)".to_string(), "nope".to_string(), "print(2)".to_string()];
    assert!(matches!(it.execute_lines(&lines), Err(Error::UndefinedName(_))));
    assert_eq!(it.output().as_slice(), &["1".to_string()]);
}

#[test]
fn nested_call_arguments_are_whole() {
    let mut it = Interpreter::new();
    eval(&mut it, "print(print(7))").unwrap();
    assert_eq!(it.output().as_slice(), &["7".to_string(), "None".to_string()]);
}

#[test]
fn assignment_with_blanks_around_equals() {
    let mut it = Interpreter::new();
    eval(&mut it, "a_b-c   =   9").unwrap();
    assert_eq!(eval(&mut it, "a_b-c").unwrap().to_string(), "9");
}

#[test]
fn double_equals_fails_on_the_rest() {
    let mut it = Interpreter::new();
    // `x == 5` parses as an assignment whose right-hand side is `= 5`,
    // which matches no expression form.
    match eval(&mut it, "x == 5") {
        Err(Error::ParseFailure(s)) => assert_eq!(s, "= 5"),
        other => panic!("expected parse failure, got {:?}", other.map(|v| v.to_string())),
    }
}

#[test]
fn unknown_operator_text_reads_the_leading_variable() {
    let mut it = Interpreter::new();
    eval(&mut it, "x = 1").unwrap();
    // `-=` is no operator; the bare-variable rule consumes the leading
    // identifier and the rest of the text is ignored.
    let v = eval(&mut it, "x -= 5").unwrap();
    assert_eq!(v.to_string(), "1");
}

#[test]
fn blanks_around_plus_are_stripped() {
    let mut it = Interpreter::new();
    assert_eq!(eval(&mut it, "1    +    2").unwrap().to_string(), "3");
}

#[test]
fn plus_at_the_end_is_no_split() {
    let mut it = Interpreter::new();
    // A `+` with nothing after it cannot split; the integer rule matches
    // the leading digits instead.
    assert_eq!(eval(&mut it, "1 +").unwrap().to_string(), "1");
}

#[test]
fn plus_with_unbalanced_left_falls_through() {
    let mut it = Interpreter::new();
    // The split would cut inside the call; the balance gate rejects it and
    // the call rule consumes the whole text instead.
    eval(&mut it, "print(40 + 2)").unwrap();
    assert_eq!(it.output()[0], "42");
}
