use boa::ast::{BinaryOp, DeclarationKind, Declarator, Expression, Literal, Statement};
use boa::exec::Interpreter;
use boa::value::Value;
use std::rc::Rc;

fn num(text: &str) -> Expression {
    Expression::Literal(Literal::Number(text.to_string()))
}

fn text(source: &str) -> Expression {
    Expression::Literal(Literal::String(source.to_string()))
}

fn ident(name: &str) -> Expression {
    Expression::Identifier(name.to_string())
}

fn bin(op: BinaryOp, left: Expression, right: Expression) -> Expression {
    Expression::Binary { op, left: Box::new(left), right: Box::new(right) }
}

fn call(callee: Expression, args: Vec<Expression>) -> Expression {
    Expression::Call { callee: Box::new(callee), args }
}

fn member(object: Expression, property: &str) -> Expression {
    Expression::Member { object: Box::new(object), property: property.to_string() }
}

fn var(name: &str, init: Expression) -> Statement {
    Statement::Declaration {
        kind: DeclarationKind::Var,
        declarators: vec![Declarator { name: name.to_string(), init: Some(init) }],
    }
}

fn log(arg: Expression) -> Statement {
    Statement::Expression(call(member(ident("console"), "log"), vec![arg]))
}

fn run_all(program: &[Statement]) -> Vec<String> {
    let mut engine = Interpreter::new();
    for statement in program {
        engine.run(statement).unwrap();
    }
    engine.take_output()
}

#[test]
fn one_plus_two_prints_three() {
    let program = vec![Statement::Expression(bin(BinaryOp::Add, num("1"), num("2")))];
    assert_eq!(run_all(&program), vec!["3".to_string()]);
}

#[test]
fn plus_appends_the_right_side_to_a_string_on_the_left() {
    let program = vec![Statement::Expression(bin(
        BinaryOp::Add,
        bin(BinaryOp::Add, text("\"hello\""), text("\" \"")),
        text("\"world\""),
    ))];
    assert_eq!(run_all(&program), vec!["hello world".to_string()]);
}

#[test]
fn ten_divided_by_four_prints_two_and_a_half() {
    let program = vec![
        var("x", num("10")),
        var("y", num("4")),
        Statement::Expression(bin(BinaryOp::Divide, ident("x"), ident("y"))),
    ];
    assert_eq!(run_all(&program), vec!["2.5".to_string()]);
}

#[test]
fn if_runs_the_consequent_when_the_test_holds() {
    let program = vec![Statement::If {
        test: bin(BinaryOp::Less, num("1"), num("2")),
        consequent: Box::new(Statement::Block(vec![log(text("\"yes\""))])),
        alternate: Some(Box::new(Statement::Block(vec![log(text("\"no\""))]))),
    }];
    assert_eq!(run_all(&program), vec!["yes".to_string()]);
}

#[test]
fn while_counts_from_zero_to_two() {
    let program = vec![
        var("i", num("0")),
        Statement::While {
            test: bin(BinaryOp::Less, ident("i"), num("3")),
            body: Box::new(Statement::Block(vec![
                log(ident("i")),
                Statement::Expression(bin(
                    BinaryOp::Assign,
                    ident("i"),
                    bin(BinaryOp::Add, ident("i"), num("1")),
                )),
            ])),
        },
    ];
    assert_eq!(run_all(&program), vec!["0".to_string(), "1".to_string(), "2".to_string()]);
}

#[test]
fn a_declared_function_multiplies_its_arguments() {
    let program = vec![
        Statement::Function {
            name: "f".to_string(),
            params: Rc::new(vec!["a".to_string(), "b".to_string()]),
            body: Rc::new(vec![Statement::Return(Some(bin(
                BinaryOp::Multiply,
                ident("a"),
                ident("b"),
            )))]),
        },
        Statement::Expression(call(ident("f"), vec![num("3"), num("4")])),
    ];
    assert_eq!(run_all(&program), vec!["12".to_string()]);
}

#[test]
fn a_declaration_is_mirrored_to_the_global_object() {
    let mut engine = Interpreter::new();
    engine.run(&var("x", num("1"))).unwrap();
    assert_eq!(engine.get_global("x".to_string()), Value::Number(0x3FF0_0000_0000_0000));
}
