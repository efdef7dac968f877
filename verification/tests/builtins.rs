use boa::ast::{BinaryOp, DeclarationKind, Declarator, Expression, Literal, Statement};
use boa::error::EvaluatorError;
use boa::exec::Interpreter;
use boa::json::{read_json, write_json, Json};
use boa::value::{Callable, HostFunction, Value};

fn num(text: &str) -> Expression {
    Expression::Literal(Literal::Number(text.to_string()))
}

fn text(source: &str) -> Expression {
    Expression::Literal(Literal::String(source.to_string()))
}

fn ident(name: &str) -> Expression {
    Expression::Identifier(name.to_string())
}

fn call(callee: Expression, args: Vec<Expression>) -> Expression {
    Expression::Call { callee: Box::new(callee), args }
}

fn member(object: Expression, property: &str) -> Expression {
    Expression::Member { object: Box::new(object), property: property.to_string() }
}

fn method(object: &str, name: &str, args: Vec<Expression>) -> Expression {
    call(member(ident(object), name), args)
}

fn var(name: &str, init: Expression) -> Statement {
    Statement::Declaration {
        kind: DeclarationKind::Var,
        declarators: vec![Declarator { name: name.to_string(), init: Some(init) }],
    }
}

fn assign(target: Expression, value: Expression) -> Statement {
    Statement::Expression(Expression::Binary {
        op: BinaryOp::Assign,
        left: Box::new(target),
        right: Box::new(value),
    })
}

fn eval(engine: &mut Interpreter, e: Expression) -> Result<Value, EvaluatorError> {
    engine.run_expr(&e)
}

fn number_of(engine: &mut Interpreter, e: Expression) -> f64 {
    match eval(engine, e) {
        Ok(Value::Number(bits)) => f64::from_bits(bits),
        other => panic!("not a number: {:?}", other),
    }
}

fn string_of(engine: &mut Interpreter, e: Expression) -> String {
    match eval(engine, e) {
        Ok(Value::String(s)) => s,
        other => panic!("not a string: {:?}", other),
    }
}

#[test]
fn the_global_object_holds_the_built_ins() {
    let engine = Interpreter::new();
    for name in ["Object", "console", "Math", "Function", "JSON"] {
        assert!(matches!(engine.get_global(name.to_string()), Value::Object(_)), "{}", name);
    }
    assert_eq!(
        engine.get_global("Array".to_string()),
        Value::Function(Callable::Host(HostFunction::ArrayNew))
    );
    assert_eq!(
        engine.get_global("String".to_string()),
        Value::Function(Callable::Host(HostFunction::StringNew))
    );
    assert_eq!(engine.get_global("nothing".to_string()), Value::Undefined);
}

#[test]
fn console_log_joins_its_arguments_with_spaces() {
    let mut engine = Interpreter::new();
    let r = eval(&mut engine, method("console", "log", vec![text("'a'"), num("1"), num("2.5")]));
    assert_eq!(r, Ok(Value::Undefined));
    eval(&mut engine, method("console", "log", vec![])).unwrap();
    eval(&mut engine, method("console", "log", vec![ident("missing"), Expression::Literal(Literal::Null)])).unwrap();
    assert_eq!(
        engine.take_output(),
        vec!["a 1 2.5".to_string(), "".to_string(), "undefined null".to_string()]
    );
    assert_eq!(engine.take_output(), Vec::<String>::new());
}

#[test]
fn math_functions_coerce_their_arguments() {
    let mut engine = Interpreter::new();
    assert_eq!(number_of(&mut engine, method("Math", "abs", vec![num("-3")])), 3.0);
    assert_eq!(number_of(&mut engine, method("Math", "abs", vec![text("'-2.5'")])), 2.5);
    assert_eq!(number_of(&mut engine, method("Math", "floor", vec![num("2.7")])), 2.0);
    assert_eq!(number_of(&mut engine, method("Math", "floor", vec![num("-2.1")])), -3.0);
    assert_eq!(number_of(&mut engine, method("Math", "ceil", vec![num("2.1")])), 3.0);
    assert_eq!(number_of(&mut engine, method("Math", "ceil", vec![num("-2.7")])), -2.0);
    assert_eq!(number_of(&mut engine, method("Math", "round", vec![num("2.5")])), 3.0);
    assert_eq!(number_of(&mut engine, method("Math", "round", vec![num("2.4")])), 2.0);
    assert_eq!(number_of(&mut engine, method("Math", "round", vec![num("-2.5")])), -2.0);
    assert_eq!(number_of(&mut engine, method("Math", "round", vec![num("-2.6")])), -3.0);
    assert_eq!(number_of(&mut engine, method("Math", "round", vec![num("0.49999999999999994")])), 0.0);
    assert_eq!(number_of(&mut engine, method("Math", "round", vec![num("4503599627370497")])), 4503599627370497.0);
    assert_eq!(number_of(&mut engine, method("Math", "round", vec![num("1e300")])), 1e300);
    assert_eq!(number_of(&mut engine, method("Math", "round", vec![text("'Infinity'")])), f64::INFINITY);
    assert!(number_of(&mut engine, method("Math", "round", vec![text("'x'")])).is_nan());
    assert_eq!(number_of(&mut engine, method("Math", "sqrt", vec![num("16")])), 4.0);
    assert_eq!(number_of(&mut engine, method("Math", "sqrt", vec![num("2")])), 2f64.sqrt());
    assert_eq!(number_of(&mut engine, method("Math", "pow", vec![num("2"), num("10")])), 1024.0);
    assert_eq!(number_of(&mut engine, method("Math", "pow", vec![num("2"), num("-2")])), 0.25);
    assert!(number_of(&mut engine, method("Math", "abs", vec![])).is_nan());
    assert!(number_of(&mut engine, method("Math", "sqrt", vec![num("-1")])).is_nan());
    assert!(number_of(&mut engine, method("Math", "pow", vec![num("2")])).is_nan());
}

#[test]
fn math_pow_with_a_fractional_exponent_fails() {
    let mut engine = Interpreter::new();
    assert_eq!(
        eval(&mut engine, method("Math", "pow", vec![num("2"), num("0.5")])),
        Err(EvaluatorError::UnsupportedForm { what: "Math.pow".to_string() })
    );
}

#[test]
fn math_min_and_max_take_any_number_of_arguments() {
    let mut engine = Interpreter::new();
    assert_eq!(number_of(&mut engine, method("Math", "min", vec![num("3"), num("1"), num("2")])), 1.0);
    assert_eq!(number_of(&mut engine, method("Math", "max", vec![num("3"), num("1"), num("7")])), 7.0);
    assert_eq!(number_of(&mut engine, method("Math", "min", vec![])), f64::INFINITY);
    assert_eq!(number_of(&mut engine, method("Math", "max", vec![])), f64::NEG_INFINITY);
    assert!(number_of(&mut engine, method("Math", "min", vec![num("1"), text("'x'")])).is_nan());
    assert!(number_of(&mut engine, method("Math", "max", vec![ident("nothing"), num("1")])).is_nan());
    assert_eq!(number_of(&mut engine, method("Math", "max", vec![num("-1"), text("'4'")])), 4.0);
}

#[test]
fn math_random_is_in_the_unit_interval_and_marks_the_run() {
    let mut engine = Interpreter::new();
    assert!(!engine.drew_random());
    for _ in 0..200 {
        let x = number_of(&mut engine, method("Math", "random", vec![]));
        assert!(0.0 <= x && x < 1.0, "{}", x);
    }
    assert!(engine.drew_random());
    engine.run(&Statement::Empty).unwrap();
    assert!(!engine.drew_random());
    engine
        .run_program(&vec![
            Statement::Expression(method("Math", "random", vec![])),
            Statement::Empty,
        ])
        .unwrap();
    assert!(engine.drew_random());
}

#[test]
fn array_makes_numbered_slots_and_a_length() {
    let mut engine = Interpreter::new();
    engine.run(&var("a", call(ident("Array"), vec![num("3")]))).unwrap();
    assert_eq!(number_of(&mut engine, member(ident("a"), "length")), 3.0);
    assert_eq!(eval(&mut engine, member(ident("a"), "0")), Ok(Value::Undefined));
    let keys = string_of(
        &mut engine,
        call(ident("String"), vec![member(method("Object", "keys", vec![ident("a")]), "length")]),
    );
    assert_eq!(keys, "4");
    engine.run(&var("k", method("Object", "keys", vec![ident("a")]))).unwrap();
    assert_eq!(string_of(&mut engine, member(ident("k"), "0")), "0");
    assert_eq!(string_of(&mut engine, member(ident("k"), "2")), "2");
    assert_eq!(string_of(&mut engine, member(ident("k"), "3")), "length");
    engine.run(&var("e", call(ident("Array"), vec![num("0")]))).unwrap();
    assert_eq!(number_of(&mut engine, member(ident("e"), "length")), 0.0);
}

#[test]
fn array_refuses_what_is_no_length() {
    let mut engine = Interpreter::new();
    let refused = Err(EvaluatorError::UnsupportedForm { what: "Array".to_string() });
    assert_eq!(eval(&mut engine, call(ident("Array"), vec![])), refused);
    assert_eq!(eval(&mut engine, call(ident("Array"), vec![num("2.5")])), refused);
    assert_eq!(eval(&mut engine, call(ident("Array"), vec![num("-1")])), refused);
    assert_eq!(eval(&mut engine, call(ident("Array"), vec![text("'3'")])), refused);
    assert_eq!(eval(&mut engine, call(ident("Array"), vec![num("4294967296")])), refused);
}

#[test]
fn object_keys_lists_names_in_the_order_of_their_first_setting() {
    let mut engine = Interpreter::new();
    engine.run(&var("k", method("Object", "keys", vec![ident("Math")]))).unwrap();
    assert_eq!(number_of(&mut engine, member(ident("k"), "length")), 9.0);
    assert_eq!(string_of(&mut engine, member(ident("k"), "0")), "abs");
    assert_eq!(string_of(&mut engine, member(ident("k"), "8")), "random");
    engine.run(&var("n", method("Object", "keys", vec![num("1")]))).unwrap();
    assert_eq!(number_of(&mut engine, member(ident("n"), "length")), 0.0);
}

#[test]
fn string_gives_the_text_of_its_argument() {
    let mut engine = Interpreter::new();
    assert_eq!(string_of(&mut engine, call(ident("String"), vec![num("12")])), "12");
    assert_eq!(string_of(&mut engine, call(ident("String"), vec![num("0.5")])), "0.5");
    assert_eq!(string_of(&mut engine, call(ident("String"), vec![])), "");
    assert_eq!(string_of(&mut engine, call(ident("String"), vec![ident("nothing")])), "undefined");
    assert_eq!(string_of(&mut engine, call(ident("String"), vec![ident("Math")])), "[object Object]");
    assert_eq!(
        string_of(&mut engine, call(ident("String"), vec![Expression::Literal(Literal::True)])),
        "true"
    );
}

#[test]
fn json_stringify_writes_values() {
    let mut engine = Interpreter::new();
    assert_eq!(string_of(&mut engine, method("JSON", "stringify", vec![num("1")])), "1");
    assert_eq!(string_of(&mut engine, method("JSON", "stringify", vec![num("2.5")])), "2.5");
    assert_eq!(string_of(&mut engine, method("JSON", "stringify", vec![text("'a\"b'")])), "\"a\\\"b\"");
    assert_eq!(
        string_of(&mut engine, method("JSON", "stringify", vec![Expression::Literal(Literal::Null)])),
        "null"
    );
    assert_eq!(
        string_of(&mut engine, method("JSON", "stringify", vec![Expression::Literal(Literal::False)])),
        "false"
    );
    assert_eq!(string_of(&mut engine, method("JSON", "stringify", vec![])), "null");
    assert_eq!(
        string_of(
            &mut engine,
            method("JSON", "stringify", vec![Expression::Binary {
                op: BinaryOp::Divide,
                left: Box::new(num("1")),
                right: Box::new(num("0")),
            }])
        ),
        "null"
    );
    engine.run(&var("o", method("JSON", "parse", vec![text("'{}'")]))).unwrap();
    engine.run(&assign(member(ident("o"), "b"), num("1"))).unwrap();
    engine.run(&assign(member(ident("o"), "a"), text("'x'"))).unwrap();
    assert_eq!(
        string_of(&mut engine, method("JSON", "stringify", vec![ident("o")])),
        "{\"a\":\"x\",\"b\":1}"
    );
}

#[test]
fn json_parse_reads_values() {
    let mut engine = Interpreter::new();
    assert_eq!(number_of(&mut engine, method("JSON", "parse", vec![text("'12'")])), 12.0);
    assert_eq!(number_of(&mut engine, method("JSON", "parse", vec![text("'-2.5e3'")])), -2500.0);
    assert_eq!(string_of(&mut engine, method("JSON", "parse", vec![text("'\"hi\"'")])), "hi");
    assert_eq!(
        eval(&mut engine, method("JSON", "parse", vec![text("'true'")])),
        Ok(Value::Boolean(true))
    );
    assert_eq!(eval(&mut engine, method("JSON", "parse", vec![text("'null'")])), Ok(Value::Null));
    engine
        .run(&var("o", method("JSON", "parse", vec![text("'{\"a\": [1, 2, {\"b\": null}], \"c\": \"d\"}'")])))
        .unwrap();
    assert_eq!(string_of(&mut engine, member(ident("o"), "c")), "d");
    assert_eq!(number_of(&mut engine, member(member(ident("o"), "a"), "length")), 3.0);
    assert_eq!(number_of(&mut engine, member(member(ident("o"), "a"), "1")), 2.0);
    assert_eq!(
        eval(&mut engine, member(member(member(ident("o"), "a"), "2"), "b")),
        Ok(Value::Null)
    );
}

#[test]
fn json_parse_refuses_what_is_not_json() {
    let mut engine = Interpreter::new();
    for bad in ["'{'", "''", "'[1,]'", "'undefined'", "'{a: 1}'", "'1 2'"] {
        assert_eq!(
            eval(&mut engine, method("JSON", "parse", vec![text(bad)])),
            Err(EvaluatorError::JsonSyntax),
            "{}",
            bad
        );
    }
}

#[test]
fn json_stringify_refuses_a_value_that_contains_itself() {
    let mut engine = Interpreter::new();
    engine.run(&var("o", method("JSON", "parse", vec![text("'{\"inner\": {}}'")]))).unwrap();
    engine.run(&assign(member(member(ident("o"), "inner"), "back"), ident("o"))).unwrap();
    assert_eq!(
        eval(&mut engine, method("JSON", "stringify", vec![ident("o")])),
        Err(EvaluatorError::JsonCycle)
    );
    engine.run(&var("p", method("JSON", "parse", vec![text("'{}'")]))).unwrap();
    engine.run(&assign(member(ident("p"), "self"), ident("p"))).unwrap();
    assert_eq!(
        eval(&mut engine, method("JSON", "stringify", vec![ident("p")])),
        Err(EvaluatorError::JsonCycle)
    );
}

#[test]
fn json_stringify_writes_a_shared_object_twice() {
    let mut engine = Interpreter::new();
    engine.run(&var("s", method("JSON", "parse", vec![text("'{\"n\": 1}'")]))).unwrap();
    engine.run(&var("o", method("JSON", "parse", vec![text("'{}'")]))).unwrap();
    engine.run(&assign(member(ident("o"), "x"), ident("s"))).unwrap();
    engine.run(&assign(member(ident("o"), "y"), ident("s"))).unwrap();
    assert_eq!(
        string_of(&mut engine, method("JSON", "stringify", vec![ident("o")])),
        "{\"x\":{\"n\":1},\"y\":{\"n\":1}}"
    );
}

#[test]
fn json_parse_of_json_stringify_gives_an_equal_value() {
    let mut engine = Interpreter::new();
    let source = "'{\"a\":1,\"b\":\"two\",\"c\":{\"d\":true,\"e\":null,\"f\":0.1},\"g\":-3.5e+50}'";
    engine.run(&var("v", method("JSON", "parse", vec![text(source)]))).unwrap();
    engine.run(&var("t", method("JSON", "stringify", vec![ident("v")]))).unwrap();
    engine.run(&var("w", method("JSON", "parse", vec![ident("t")]))).unwrap();
    engine.run(&var("u", method("JSON", "stringify", vec![ident("w")]))).unwrap();
    assert_eq!(eval(&mut engine, ident("t")), eval(&mut engine, ident("u")));
    assert_eq!(number_of(&mut engine, member(ident("w"), "a")), 1.0);
    assert_eq!(string_of(&mut engine, member(ident("w"), "b")), "two");
    assert_eq!(eval(&mut engine, member(member(ident("w"), "c"), "d")), Ok(Value::Boolean(true)));
    assert_eq!(eval(&mut engine, member(member(ident("w"), "c"), "e")), Ok(Value::Null));
    assert_eq!(number_of(&mut engine, member(member(ident("w"), "c"), "f")), 0.1);
    assert_eq!(number_of(&mut engine, member(ident("w"), "g")), -3.5e50);
}

#[test]
fn documents_are_written_and_read() {
    let doc = Json::Object(vec![
        ("k".to_string(), Json::Array(vec![Json::Number("1".to_string()), Json::Bool(true)])),
        ("s".to_string(), Json::String("a\nb".to_string())),
        ("n".to_string(), Json::Null),
    ]);
    let text = write_json(&doc);
    assert_eq!(text, "{\"k\":[1,true],\"n\":null,\"s\":\"a\\nb\"}");
    let back = read_json(&text).unwrap();
    assert_eq!(
        back,
        Json::Object(vec![
            ("k".to_string(), Json::Array(vec![Json::Number("1".to_string()), Json::Bool(true)])),
            ("n".to_string(), Json::Null),
            ("s".to_string(), Json::String("a\nb".to_string())),
        ])
    );
    assert_eq!(read_json("[1.50, 2e3]"), Some(Json::Array(vec![
        Json::Number("1.50".to_string()),
        Json::Number("2e+3".to_string()),
    ])));
    assert_eq!(read_json("nope"), None);
    assert_eq!(write_json(&Json::Number("not a number".to_string())), "null");
}
