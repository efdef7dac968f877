//! What evaluation means: the value and the next state of every expression
//! and statement, as functions of the state before.
//!
//! Evaluation is bounded in two ways.  A call of a declared function runs
//! its body with one less of `depth`, and fails with `Interrupted` at depth
//! zero; a loop runs its body at most as often as the state's loop limit
//! says, and fails with `Interrupted` where its test still holds after that.
//!
//! The meaning of an evaluation ends where a random number is drawn: what
//! follows depends on the number, and the meaning says nothing of it.  It
//! marks the state and ends with the failure `Drawn`, as every failure ends
//! what encloses it.

use vstd::prelude::*;
use crate::ast::{BinaryOp, Declarator, Expression, Literal, Statement, UnaryOp};
use crate::builtins::host_call;
use crate::error::ErrorView;
use crate::number::{
    ieee_difference, ieee_product, ieee_quotient, ieee_remainder, ieee_sum, number_of_integer,
    shifted_left, shifted_right, signed_word, spec_equal, spec_less, spec_negate, word_of,
};
use crate::state::{bind_parameters, State, UserFunction};
use crate::text::parse_number;
use crate::value::{field, stored, to_number, to_text, truthy, Callable, ValueView};

verus! {

/// A state with what the evaluation gave: a value or a failure.
pub type Outcome = (State, Result<ValueView, ErrorView>);

/// A state with the values of arguments, or a failure.
pub type Arguments = (State, Result<Seq<ValueView>, ErrorView>);

/// `text` without its enclosing quotes, where it stands between two equal quotes.
pub open spec fn unquoted(text: Seq<char>) -> Seq<char> {
    if text.len() >= 2 && text[0] == text[text.len() - 1] && (text[0] == '"' || text[0] == '\'') {
        text.subrange(1, text.len() - 1)
    } else {
        text
    }
}

/// The value of a literal.  A number that cannot be read, and a regular
/// expression, are `Undefined`.
pub open spec fn literal_value(literal: Literal) -> ValueView {
    match literal {
        Literal::Undefined => ValueView::Undefined,
        Literal::Null => ValueView::Null,
        Literal::True => ValueView::Boolean(true),
        Literal::False => ValueView::Boolean(false),
        Literal::Number(text) => match parse_number(text@) {
            Some(bits) => ValueView::Number(bits),
            None => ValueView::Undefined,
        },
        Literal::Binary(text) => match parse_number(text@) {
            Some(bits) => ValueView::Number(bits),
            None => ValueView::Undefined,
        },
        Literal::String(text) => ValueView::String(unquoted(text@)),
        Literal::RegEx(_) => ValueView::Undefined,
    }
}

/// `==`: `Undefined` and `Null` equal each other and nothing else; two
/// values of one kind are compared as that kind; an object or a function
/// equals no value of another kind; numbers, strings and booleans of
/// different kinds are compared as numbers.
pub open spec fn loosely_equal(left: ValueView, right: ValueView) -> bool {
    match (left, right) {
        (ValueView::Undefined, _) => right is Undefined || right is Null,
        (ValueView::Null, _) => right is Undefined || right is Null,
        (_, ValueView::Undefined) => false,
        (_, ValueView::Null) => false,
        (ValueView::String(a), ValueView::String(b)) => a == b,
        (ValueView::Boolean(a), ValueView::Boolean(b)) => a == b,
        (ValueView::Object(a), ValueView::Object(b)) => a == b,
        (ValueView::Function(a), ValueView::Function(b)) => a == b,
        (ValueView::Object(_), _) => false,
        (_, ValueView::Object(_)) => false,
        (ValueView::Function(_), _) => false,
        (_, ValueView::Function(_)) => false,
        _ => spec_equal(to_number(left), to_number(right)),
    }
}

/// Whether `a` comes before `b` in the order of the dictionary, from place
/// `i` on: at the first place where they differ `a` has the lesser
/// character, or `a` ends there and `b` goes on.
pub open spec fn text_before(a: Seq<char>, b: Seq<char>, i: int) -> bool
    decreases a.len() - i,
{
    if i < 0 || i >= b.len() {
        false
    } else if i >= a.len() {
        true
    } else if a[i] != b[i] {
        a[i] < b[i]
    } else {
        text_before(a, b, i + 1)
    }
}

/// `left < right`: two strings are compared in the order of the
/// dictionary, any other two values as numbers.
pub open spec fn comes_before(left: ValueView, right: ValueView) -> bool {
    match (left, right) {
        (ValueView::String(a), ValueView::String(b)) => text_before(a, b, 0),
        _ => spec_less(to_number(left), to_number(right)),
    }
}

/// `left <= right`: for two strings, that `right` does not come before
/// `left`; for any other two values, as numbers.
pub open spec fn comes_not_after(left: ValueView, right: ValueView) -> bool {
    match (left, right) {
        (ValueView::String(a), ValueView::String(b)) => !text_before(b, a, 0),
        _ => spec_less(to_number(left), to_number(right)) || spec_equal(
            to_number(left),
            to_number(right),
        ),
    }
}

/// The number of a word that a bitwise operator gave.
pub open spec fn word_value(w: int) -> ValueView {
    ValueView::Number(number_of_integer(signed_word(w)))
}

/// `===`: two values of one kind that are equal as that kind.
pub open spec fn strictly_equal(left: ValueView, right: ValueView) -> bool {
    match (left, right) {
        (ValueView::Undefined, ValueView::Undefined) => true,
        (ValueView::Null, ValueView::Null) => true,
        (ValueView::Number(a), ValueView::Number(b)) => spec_equal(a, b),
        (ValueView::String(a), ValueView::String(b)) => a == b,
        (ValueView::Boolean(a), ValueView::Boolean(b)) => a == b,
        (ValueView::Object(a), ValueView::Object(b)) => a == b,
        (ValueView::Function(a), ValueView::Function(b)) => a == b,
        _ => false,
    }
}

/// The value of a unary operator on a value.
pub open spec fn unary_value(op: UnaryOp, operand: ValueView) -> ValueView {
    match op {
        UnaryOp::Not => ValueView::Boolean(!truthy(operand)),
        UnaryOp::Minus => ValueView::Number(spec_negate(to_number(operand))),
        UnaryOp::Plus => ValueView::Number(to_number(operand)),
        UnaryOp::BitNot => word_value((word_of(to_number(operand)) as u32 ^ 0xFFFF_FFFFu32) as int),
        UnaryOp::Other => ValueView::Undefined,
    }
}

/// The value of a binary operator on two values.  `+` adds two numbers and
/// appends the text of the right side to a string on the left; on other
/// operands it is `Undefined`.  The other arithmetic operators work on the
/// numbers of their operands, the bitwise operators on the words of those
/// numbers.  The operators that decide themselves whether the right side is
/// evaluated have no value here.
pub open spec fn binary_value(op: BinaryOp, left: ValueView, right: ValueView) -> ValueView {
    let a = to_number(left);
    let b = to_number(right);
    match op {
        BinaryOp::Add => match (left, right) {
            (ValueView::Number(x), ValueView::Number(y)) => ValueView::Number(ieee_sum(x, y)),
            (ValueView::String(x), _) => ValueView::String(x + to_text(right)),
            _ => ValueView::Undefined,
        },
        BinaryOp::Subtract => ValueView::Number(ieee_difference(a, b)),
        BinaryOp::Multiply => ValueView::Number(ieee_product(a, b)),
        BinaryOp::Divide => ValueView::Number(ieee_quotient(a, b)),
        BinaryOp::Remainder => ValueView::Number(ieee_remainder(a, b)),
        BinaryOp::Equal => ValueView::Boolean(loosely_equal(left, right)),
        BinaryOp::NotEqual => ValueView::Boolean(!loosely_equal(left, right)),
        BinaryOp::StrictEqual => ValueView::Boolean(strictly_equal(left, right)),
        BinaryOp::StrictNotEqual => ValueView::Boolean(!strictly_equal(left, right)),
        BinaryOp::Less => ValueView::Boolean(comes_before(left, right)),
        BinaryOp::LessEqual => ValueView::Boolean(comes_not_after(left, right)),
        BinaryOp::Greater => ValueView::Boolean(comes_before(right, left)),
        BinaryOp::GreaterEqual => ValueView::Boolean(comes_not_after(right, left)),
        BinaryOp::BitAnd => word_value((word_of(a) as u32 & word_of(b) as u32) as int),
        BinaryOp::BitOr => word_value((word_of(a) as u32 | word_of(b) as u32) as int),
        BinaryOp::BitXor => word_value((word_of(a) as u32 ^ word_of(b) as u32) as int),
        BinaryOp::ShiftLeft => word_value(shifted_left(word_of(a), word_of(b))),
        BinaryOp::ShiftRight => word_value(shifted_right(word_of(a), word_of(b))),
        _ => ValueView::Undefined,
    }
}

/// The failure of a call of something that is no function.
pub open spec fn not_callable(callee: Expression) -> ErrorView {
    match callee {
        Expression::Identifier(name) => ErrorView::BadName { identifier: name@ },
        _ => ErrorView::UnsupportedForm { what: "call"@ },
    }
}

/// The outcome with `Undefined` in place of a value.
pub open spec fn without_value(outcome: Outcome) -> Outcome {
    match outcome.1 {
        Ok(_) => (outcome.0, Ok(ValueView::Undefined)),
        Err(e) => outcome,
    }
}

/// The state in which the body of the declared function at place `k` runs:
/// a scope of its own is pushed, with `this` and a fresh object for the
/// variables, the parameters are bound there, and no `return` is pending.
pub open spec fn before_call(s: State, k: int, this: ValueView, args: Seq<ValueView>) -> State {
    bind_parameters(s.enter(this), s.functions[k].params@, args, 0).settled()
}

/// What a call gives once the body has run: the scope is popped and the
/// pending `return` taken, whatever came of the body; the call gives the
/// value of that `return`, or `Undefined` where the body ended without one.
pub open spec fn after_call(body: Outcome) -> Outcome {
    let s = body.0.leave().settled();
    match body.1 {
        Ok(_) => match body.0.pending {
            Some(v) => (s, Ok(v)),
            None => (s, Ok(ValueView::Undefined)),
        },
        Err(e) => (s, Err(e)),
    }
}

/// The value of an expression and the state after its evaluation.  In a
/// call, the callee is evaluated first, then the arguments from left to
/// right; a function that is called as a property of a value gets that
/// value as `this`, any other function the global object.
pub open spec fn eval_expr(s: State, e: Expression, depth: nat) -> Outcome
    decreases depth, e, 0nat,
{
    match e {
        Expression::Literal(literal) => (s, Ok(literal_value(literal))),
        Expression::Identifier(name) => (s, Ok(s.lookup(name@))),
        Expression::This => (s, Ok(s.current().this)),
        Expression::Unsupported(what) => (s, Err(ErrorView::UnsupportedForm { what: what@ })),
        Expression::Function { params, body } => (
            s.define(UserFunction { params, body }),
            Ok(s.defined()),
        ),
        Expression::Member { object, property } => {
            let (s1, r1) = eval_expr(s, *object, depth);
            match r1 {
                Ok(target) => (s1, Ok(field(s1.heap, target, property@))),
                Err(e) => (s1, Err(e)),
            }
        },
        Expression::Unary { op, operand } => {
            let (s1, r1) = eval_expr(s, *operand, depth);
            match r1 {
                Ok(v) => (s1, Ok(unary_value(op, v))),
                Err(e) => (s1, Err(e)),
            }
        },
        Expression::Binary { op, left, right } => match op {
            BinaryOp::Assign => match *left {
                Expression::Identifier(name) => {
                    let (s1, r1) = eval_expr(s, *right, depth);
                    match r1 {
                        Ok(v) => (s1.bind(name@, v), Ok(v)),
                        Err(e) => (s1, Err(e)),
                    }
                },
                Expression::Member { object, property } => {
                    let (s1, r1) = eval_expr(s, *object, depth);
                    match r1 {
                        Ok(target) => {
                            let (s2, r2) = eval_expr(s1, *right, depth);
                            match r2 {
                                Ok(v) => (
                                    s2.store(target, property@, v),
                                    Ok(stored(s2.heap, target, v)),
                                ),
                                Err(e) => (s2, Err(e)),
                            }
                        },
                        Err(e) => (s1, Err(e)),
                    }
                },
                _ => (s, Err(ErrorView::UnsupportedForm { what: "assignment"@ })),
            },
            BinaryOp::And => {
                let (s1, r1) = eval_expr(s, *left, depth);
                match r1 {
                    Ok(v) => if truthy(v) {
                        eval_expr(s1, *right, depth)
                    } else {
                        (s1, Ok(v))
                    },
                    Err(e) => (s1, Err(e)),
                }
            },
            BinaryOp::Or => {
                let (s1, r1) = eval_expr(s, *left, depth);
                match r1 {
                    Ok(v) => if truthy(v) {
                        (s1, Ok(v))
                    } else {
                        eval_expr(s1, *right, depth)
                    },
                    Err(e) => (s1, Err(e)),
                }
            },
            _ => {
                let (s1, r1) = eval_expr(s, *left, depth);
                match r1 {
                    Ok(a) => {
                        let (s2, r2) = eval_expr(s1, *right, depth);
                        match r2 {
                            Ok(b) => (s2, Ok(binary_value(op, a, b))),
                            Err(e) => (s2, Err(e)),
                        }
                    },
                    Err(e) => (s1, Err(e)),
                }
            },
        },
        Expression::Call { callee, args } => {
            let (s1, r1, this) = match *callee {
                Expression::Member { object, property } => {
                    let (s0, r0) = eval_expr(s, *object, depth);
                    match r0 {
                        Ok(target) => (s0, Ok(field(s0.heap, target, property@)), target),
                        Err(e) => (s0, Err(e), ValueView::Undefined),
                    }
                },
                _ => {
                    let (s0, r0) = eval_expr(s, *callee, depth);
                    (s0, r0, s0.global)
                },
            };
            match r1 {
                Ok(f) => if f is Function {
                    let (s2, r2) = eval_args(s1, args@, 0, Seq::<ValueView>::empty(), depth);
                    match r2 {
                        Ok(values) => match f->Function_0 {
                            Callable::Host(h) => host_call(s2, h, values),
                            Callable::User(k) => if k >= s2.functions.len() {
                                (s2, Err(ErrorView::UnsupportedForm { what: "function"@ }))
                            } else if depth == 0 {
                                (s2, Err(ErrorView::Interrupted))
                            } else {
                                after_call(
                                    exec_block(
                                        before_call(s2, k as int, this, values),
                                        s2.functions[k as int].body@,
                                        0,
                                        (depth - 1) as nat,
                                    ),
                                )
                            },
                        },
                        Err(e) => (s2, Err(e)),
                    }
                } else {
                    (s1, Err(not_callable(*callee)))
                },
                Err(e) => (s1, Err(e)),
            }
        },
    }
}

/// The values of the arguments from place `i` on, appended to `values`, and
/// the state after their evaluation from left to right.
pub open spec fn eval_args(
    s: State,
    args: Seq<Expression>,
    i: int,
    values: Seq<ValueView>,
    depth: nat,
) -> Arguments
    decreases depth, args, args.len() - i,
{
    if i < 0 || i >= args.len() {
        (s, Ok(values))
    } else {
        let (s1, r1) = eval_expr(s, args[i], depth);
        match r1 {
            Ok(v) => eval_args(s1, args, i + 1, values.push(v), depth),
            Err(e) => (s1, Err(e)),
        }
    }
}

/// What running a statement gives: the value of an expression statement,
/// `Undefined` for every other statement, and the state after it.
pub open spec fn exec_stmt(s: State, stmt: Statement, depth: nat) -> Outcome
    decreases depth, stmt, s.loop_limit + 1,
{
    match stmt {
        Statement::Expression(e) => eval_expr(s, e, depth),
        Statement::Declaration { kind, declarators } => exec_declarators(s, declarators@, 0, depth),
        Statement::Block(body) => exec_block(s, body@, 0, depth),
        Statement::If { test, consequent, alternate } => {
            let (s1, r1) = eval_expr(s, test, depth);
            match r1 {
                Ok(v) => if truthy(v) {
                    without_value(exec_stmt(s1, *consequent, depth))
                } else {
                    match alternate {
                        Some(other) => without_value(exec_stmt(s1, *other, depth)),
                        None => (s1, Ok(ValueView::Undefined)),
                    }
                },
                Err(e) => (s1, Err(e)),
            }
        },
        Statement::While { test, body } => exec_while(s, stmt, depth, s.loop_limit),
        Statement::Function { name, params, body } => (
            s.define(UserFunction { params, body }).bind(name@, s.defined()),
            Ok(ValueView::Undefined),
        ),
        Statement::Return(value) => match value {
            Some(e) => {
                let (s1, r1) = eval_expr(s, e, depth);
                match r1 {
                    Ok(v) => (s1.returning(v), Ok(ValueView::Undefined)),
                    Err(e) => (s1, Err(e)),
                }
            },
            None => (s.returning(ValueView::Undefined), Ok(ValueView::Undefined)),
        },
        Statement::Empty => (s, Ok(ValueView::Undefined)),
        Statement::Unsupported(what) => (s, Err(ErrorView::UnsupportedForm { what: what@ })),
    }
}

/// What running the statements from place `i` on gives.  The run stops at
/// the first failure and at the first statement that leaves a `return`
/// pending.
pub open spec fn exec_block(s: State, body: Seq<Statement>, i: int, depth: nat) -> Outcome
    decreases depth, body, body.len() - i,
{
    if i < 0 || i >= body.len() {
        (s, Ok(ValueView::Undefined))
    } else {
        let (s1, r1) = exec_stmt(s, body[i], depth);
        match r1 {
            Ok(_) => if s1.pending is Some {
                (s1, Ok(ValueView::Undefined))
            } else {
                exec_block(s1, body, i + 1, depth)
            },
            Err(e) => (s1, Err(e)),
        }
    }
}

/// What binding the declarators from place `i` on gives: each initializer
/// is evaluated, `Undefined` standing in for a missing one, and its value
/// bound to the name.
pub open spec fn exec_declarators(s: State, declarators: Seq<Declarator>, i: int, depth: nat) -> Outcome
    decreases depth, declarators, declarators.len() - i,
{
    if i < 0 || i >= declarators.len() {
        (s, Ok(ValueView::Undefined))
    } else {
        match declarators[i].init {
            Some(e) => {
                let (s1, r1) = eval_expr(s, e, depth);
                match r1 {
                    Ok(v) => exec_declarators(
                        s1.bind(declarators[i].name@, v),
                        declarators,
                        i + 1,
                        depth,
                    ),
                    Err(e) => (s1, Err(e)),
                }
            },
            None => exec_declarators(
                s.bind(declarators[i].name@, ValueView::Undefined),
                declarators,
                i + 1,
                depth,
            ),
        }
    }
}

/// What running the loop `stmt` gives when its body may still run
/// `remaining` times.
pub open spec fn exec_while(s: State, stmt: Statement, depth: nat, remaining: nat) -> Outcome
    decreases depth, stmt, remaining,
{
    match stmt {
        Statement::While { test, body } => {
            let (s1, r1) = eval_expr(s, test, depth);
            match r1 {
                Ok(v) => if !truthy(v) {
                    (s1, Ok(ValueView::Undefined))
                } else if remaining == 0 {
                    (s1, Err(ErrorView::Interrupted))
                } else {
                    let (s2, r2) = exec_stmt(s1, *body, depth);
                    match r2 {
                        Ok(_) => if s2.pending is Some {
                            (s2, Ok(ValueView::Undefined))
                        } else {
                            exec_while(s2, stmt, depth, (remaining - 1) as nat)
                        },
                        Err(e) => (s2, Err(e)),
                    }
                },
                Err(e) => (s1, Err(e)),
            }
        },
        _ => (s, Ok(ValueView::Undefined)),
    }
}

/// What running one statement of a program gives.  The mark of random
/// numbers and a pending `return` are cleared before it runs; for an
/// expression statement the text of its value is written as a line; a
/// `return` outside every function is dropped.
pub open spec fn run_statement(s: State, stmt: Statement, depth: nat) -> Outcome {
    let (s1, r1) = exec_stmt(s.undrawn().settled(), stmt, depth);
    match (stmt, r1) {
        (Statement::Expression(_), Ok(v)) => (s1.settled().print(to_text(v)), r1),
        _ => (s1.settled(), r1),
    }
}

} // verus!
