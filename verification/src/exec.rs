//! The interpreter: its state, its scopes, and the evaluation of
//! expressions and statements.

use vstd::prelude::*;
use vstd::string::StringExecFns;
use std::rc::Rc;
use crate::ast::{BinaryOp, Declarator, Expression, Literal, Statement, UnaryOp};
use crate::builtins::{
    init_array, init_console, init_function, init_json, init_math, init_object, init_string,
    initial_heap,
};
use crate::error::{ErrorView, EvaluatorError};
use crate::json::{
    document_of, document_view, from_document, to_document, value_of, Json,
};
use crate::number::{
    equal, from_word, ieee_add, ieee_divide, ieee_modulo, ieee_multiply, ieee_subtract, less,
    negate, shift_left, shift_right, to_word,
};
use crate::semantics::{
    binary_value, comes_before, comes_not_after, eval_args, eval_expr, exec_block,
    exec_declarators, exec_stmt, exec_while, literal_value, loosely_equal, not_callable,
    run_statement, strictly_equal, text_before, unary_value, unquoted,
};
use crate::state::{bind_parameters, ScopeView, State, UserFunction};
use crate::text::{characters, push_char, read_number};
use crate::value::{properties_of, views, Callable, Heap, Object, Value, ValueView};

verus! {

/// How deep calls of declared functions nest in a new interpreter.
pub const DEFAULT_DEPTH: u64 = 128;

/// How often one loop runs its body in a new interpreter.
pub const DEFAULT_LOOP_LIMIT: u64 = 1_000_000;

/// A variable scope.
#[derive(Debug)]
pub struct Scope {
    /// The value of `this` in the scope.
    pub this: Value,
    /// The object that holds the variables declared in the scope.
    pub vars: Value,
}

impl View for Scope {
    type V = ScopeView;

    open spec fn view(&self) -> ScopeView {
        ScopeView { this: self.this@, vars: self.vars@ }
    }
}

impl Clone for Scope {
    fn clone(&self) -> (r: Scope)
        ensures
            r@ == self@,
    {
        Scope { this: self.this.clone(), vars: self.vars.clone() }
    }
}

/// The mathematical content of what an evaluation returns.
pub open spec fn outcome(r: Result<Value, EvaluatorError>) -> Result<ValueView, ErrorView> {
    match r {
        Ok(v) => Ok(v@),
        Err(e) => Err(e@),
    }
}

/// Calls std's `Rc::clone`, which makes another handle to the same value.
#[verifier::external_body]
pub(crate) fn share<T>(rc: &Rc<T>) -> (r: Rc<T>)
    ensures
        r == *rc,
{
    Rc::clone(rc)
}

/// The state of a new interpreter: the built-in objects installed, the
/// global scope as the only scope, nothing written and nothing pending.
pub open spec fn initial_state() -> State {
    State {
        heap: initial_heap(),
        global: ValueView::Object(0),
        scopes: seq![ScopeView { this: ValueView::Object(0), vars: ValueView::Object(0) }],
        functions: Seq::<UserFunction>::empty(),
        output: Seq::<Seq<char>>::empty(),
        pending: None,
        random: false,
        loop_limit: DEFAULT_LOOP_LIMIT as nat,
    }
}

/// What an evaluation keeps, whatever it does: the state stays well
/// formed; the scopes, the global object and the loop limit are those of
/// before; no object and no function is lost.
pub open spec fn keeps(before: State, after: State) -> bool {
    &&& after.wf()
    &&& after.scopes == before.scopes
    &&& after.global == before.global
    &&& after.loop_limit == before.loop_limit
    &&& after.heap.len() >= before.heap.len()
    &&& after.functions.len() >= before.functions.len()
}

/// What holds of the state after an evaluation and of what it returned,
/// given the state before and what the evaluation means.  The evaluation
/// kept what every evaluation keeps, and a random number once drawn stays
/// drawn.  Where none was drawn before: one was drawn only where the
/// meaning ends at a draw; and where none was drawn, the state and the
/// result are exactly what the meaning says.
pub open spec fn agrees<T>(
    before: State,
    after: State,
    result: Result<T, ErrorView>,
    meaning: (State, Result<T, ErrorView>),
) -> bool {
    &&& keeps(before, after)
    &&& before.random ==> after.random
    &&& !before.random ==> {
        &&& after.random ==> ended(meaning)
        &&& !after.random ==> (after, result) == meaning
    }
}

/// Whether a meaning ends where a random number is drawn: its state has
/// one drawn and its result is a failure.
pub open spec fn ended<T>(meaning: (State, Result<T, ErrorView>)) -> bool {
    meaning.0.random && meaning.1 is Err
}

/// What holds of the state after a statement of a program was run and of
/// what the run returned, given the state before and what the run means.
/// The run kept what every evaluation keeps; a random number was drawn
/// during the run only where the meaning ends at a draw; and where none
/// was drawn, the state and the result are exactly what the meaning says.
pub open spec fn ran<T>(
    before: State,
    after: State,
    result: Result<T, ErrorView>,
    meaning: (State, Result<T, ErrorView>),
) -> bool {
    &&& keeps(before, after)
    &&& after.random ==> ended(meaning)
    &&& !after.random ==> (after, result) == meaning
}

/// The mathematical content of the values that an evaluation of arguments returns.
pub open spec fn outcomes(r: Result<Vec<Value>, EvaluatorError>) -> Result<
    Seq<ValueView>,
    ErrorView,
> {
    match r {
        Ok(values) => Ok(views(values@)),
        Err(e) => Err(e@),
    }
}

/// The text without its enclosing quotes.
pub fn unquote(text: &String) -> (r: String)
    ensures
        r@ == unquoted(text@),
{
    let chars: Vec<char> = characters(text.as_str());
    let n: usize = chars.len();
    if n >= 2 && chars[0] == chars[n - 1] && (chars[0] == '"' || chars[0] == '\'') {
        let mut r = String::new();
        let mut i: usize = 1;
        while i < n - 1
            invariant
                2 <= n == chars@.len(),
                1 <= i <= n - 1,
                r@ == chars@.subrange(1, i as int),
            decreases n - i,
        {
            push_char(&mut r, chars[i]);
            i = i + 1;
            assert(r@ =~= chars@.subrange(1, i as int));
        }
        r
    } else {
        text.clone()
    }
}

/// The value of a literal.
pub fn literal_to_value(literal: &Literal) -> (r: Value)
    ensures
        r@ == literal_value(*literal),
{
    match literal {
        Literal::Undefined => Value::Undefined,
        Literal::Null => Value::Null,
        Literal::True => Value::Boolean(true),
        Literal::False => Value::Boolean(false),
        Literal::Number(text) => match read_number(text.as_str()) {
            Some(bits) => Value::Number(bits),
            None => Value::Undefined,
        },
        Literal::Binary(text) => match read_number(text.as_str()) {
            Some(bits) => Value::Number(bits),
            None => Value::Undefined,
        },
        Literal::String(text) => Value::String(unquote(text)),
        Literal::RegEx(_) => Value::Undefined,
    }
}

/// Whether `left == right` holds in the language.
pub fn loose_equality(left: &Value, right: &Value) -> (r: bool)
    ensures
        r == loosely_equal(left@, right@),
{
    match (left, right) {
        (Value::Undefined, Value::Undefined) => true,
        (Value::Undefined, Value::Null) => true,
        (Value::Undefined, _) => false,
        (Value::Null, Value::Undefined) => true,
        (Value::Null, Value::Null) => true,
        (Value::Null, _) => false,
        (_, Value::Undefined) => false,
        (_, Value::Null) => false,
        (Value::String(a), Value::String(b)) => *a == *b,
        (Value::Boolean(a), Value::Boolean(b)) => *a == *b,
        (Value::Object(a), Value::Object(b)) => *a == *b,
        (Value::Function(a), Value::Function(b)) => *a == *b,
        (Value::Object(_), _) => false,
        (_, Value::Object(_)) => false,
        (Value::Function(_), _) => false,
        (_, Value::Function(_)) => false,
        _ => equal(left.to_num(), right.to_num()),
    }
}

/// Whether `left === right` holds in the language.
pub fn strict_equality(left: &Value, right: &Value) -> (r: bool)
    ensures
        r == strictly_equal(left@, right@),
{
    match (left, right) {
        (Value::Undefined, Value::Undefined) => true,
        (Value::Null, Value::Null) => true,
        (Value::Number(a), Value::Number(b)) => equal(*a, *b),
        (Value::String(a), Value::String(b)) => *a == *b,
        (Value::Boolean(a), Value::Boolean(b)) => *a == *b,
        (Value::Object(a), Value::Object(b)) => *a == *b,
        (Value::Function(a), Value::Function(b)) => *a == *b,
        _ => false,
    }
}

/// Whether `a` comes before `b` in the order of the dictionary.
pub fn text_precedes(a: &String, b: &String) -> (r: bool)
    ensures
        r == text_before(a@, b@, 0),
{
    let x: Vec<char> = characters(a.as_str());
    let y: Vec<char> = characters(b.as_str());
    let mut i: usize = 0;
    while i < x.len() && i < y.len()
        invariant
            0 <= i <= x@.len(),
            i <= y@.len(),
            x@ == a@,
            y@ == b@,
            text_before(a@, b@, i as int) == text_before(a@, b@, 0),
        decreases x@.len() - i,
    {
        if x[i] != y[i] {
            return x[i] < y[i];
        }
        i = i + 1;
    }
    i < y.len()
}

/// Whether `left < right` holds in the language.
pub fn precedes(left: &Value, right: &Value) -> (r: bool)
    ensures
        r == comes_before(left@, right@),
{
    match (left, right) {
        (Value::String(a), Value::String(b)) => text_precedes(a, b),
        _ => less(left.to_num(), right.to_num()),
    }
}

/// Whether `left <= right` holds in the language.
pub fn precedes_or_equals(left: &Value, right: &Value) -> (r: bool)
    ensures
        r == comes_not_after(left@, right@),
{
    match (left, right) {
        (Value::String(a), Value::String(b)) => !text_precedes(b, a),
        _ => {
            let a: u64 = left.to_num();
            let b: u64 = right.to_num();
            less(a, b) || equal(a, b)
        },
    }
}

/// The value of a unary operator on a value.
pub fn unary(op: UnaryOp, operand: &Value) -> (r: Value)
    ensures
        r@ == unary_value(op, operand@),
{
    match op {
        UnaryOp::Not => Value::Boolean(!operand.to_boolean()),
        UnaryOp::Minus => Value::Number(negate(operand.to_num())),
        UnaryOp::Plus => Value::Number(operand.to_num()),
        UnaryOp::BitNot => Value::Number(from_word(to_word(operand.to_num()) ^ 0xFFFF_FFFFu32)),
        UnaryOp::Other => Value::Undefined,
    }
}

/// The value of a binary operator on two values.
pub fn binary(op: BinaryOp, left: &Value, right: &Value) -> (r: Value)
    ensures
        r@ == binary_value(op, left@, right@),
{
    match op {
        BinaryOp::Add => match (left, right) {
            (Value::Number(x), Value::Number(y)) => Value::Number(ieee_add(*x, *y)),
            (Value::String(x), _) => {
                let tail = right.to_string();
                Value::String(x.clone().concat(tail.as_str()))
            },
            _ => Value::Undefined,
        },
        BinaryOp::Subtract => Value::Number(ieee_subtract(left.to_num(), right.to_num())),
        BinaryOp::Multiply => Value::Number(ieee_multiply(left.to_num(), right.to_num())),
        BinaryOp::Divide => Value::Number(ieee_divide(left.to_num(), right.to_num())),
        BinaryOp::Remainder => Value::Number(ieee_modulo(left.to_num(), right.to_num())),
        BinaryOp::Equal => Value::Boolean(loose_equality(left, right)),
        BinaryOp::NotEqual => Value::Boolean(!loose_equality(left, right)),
        BinaryOp::StrictEqual => Value::Boolean(strict_equality(left, right)),
        BinaryOp::StrictNotEqual => Value::Boolean(!strict_equality(left, right)),
        BinaryOp::Less => Value::Boolean(precedes(left, right)),
        BinaryOp::LessEqual => Value::Boolean(precedes_or_equals(left, right)),
        BinaryOp::Greater => Value::Boolean(precedes(right, left)),
        BinaryOp::GreaterEqual => Value::Boolean(precedes_or_equals(right, left)),
        BinaryOp::BitAnd => Value::Number(
            from_word(to_word(left.to_num()) & to_word(right.to_num())),
        ),
        BinaryOp::BitOr => Value::Number(
            from_word(to_word(left.to_num()) | to_word(right.to_num())),
        ),
        BinaryOp::BitXor => Value::Number(
            from_word(to_word(left.to_num()) ^ to_word(right.to_num())),
        ),
        BinaryOp::ShiftLeft => Value::Number(
            from_word(shift_left(to_word(left.to_num()), to_word(right.to_num()))),
        ),
        BinaryOp::ShiftRight => Value::Number(
            from_word(shift_right(to_word(left.to_num()), to_word(right.to_num()))),
        ),
        _ => Value::Undefined,
    }
}

/// The failure of a call of something that is no function.
pub fn refuse_call(callee: &Expression) -> (r: EvaluatorError)
    ensures
        r@ == not_callable(*callee),
{
    match callee {
        Expression::Identifier(name) => EvaluatorError::BadName { identifier: name.clone() },
        _ => EvaluatorError::UnsupportedForm { what: String::from_str("call") },
    }
}

/// An interpreter of the language.
pub struct Interpreter {
    /// The objects.
    pub(crate) heap: Heap,
    /// The global object.
    pub(crate) global: Value,
    /// The scopes, innermost last.
    pub(crate) scopes: Vec<Scope>,
    /// The functions that programs declared.
    pub(crate) functions: Vec<UserFunction>,
    /// The lines written and not yet taken.
    pub(crate) output: Vec<String>,
    /// The value of a `return` that no call site has taken yet.
    pub(crate) pending: Option<Value>,
    /// Whether a random number was drawn since the last statement began.
    pub(crate) random: bool,
    /// How often one loop may run its body.
    pub(crate) loop_limit: u64,
    /// How deep calls of declared functions may still nest.
    pub(crate) depth: u64,
}

impl View for Interpreter {
    type V = State;

    closed spec fn view(&self) -> State {
        State {
            heap: self.heap@,
            global: self.global@,
            scopes: Seq::new(self.scopes.len() as nat, |i: int| self.scopes[i]@),
            functions: self.functions@,
            output: Seq::new(self.output.len() as nat, |i: int| self.output[i]@),
            pending: match self.pending {
                Some(v) => Some(v@),
                None => None,
            },
            random: self.random,
            loop_limit: self.loop_limit as nat,
        }
    }
}

impl Interpreter {
    /// Make a new interpreter, with the built-in objects installed in its
    /// global object and the global scope as its only scope.
    pub fn new() -> (r: Interpreter)
        ensures
            r@ == initial_state(),
            r.wf(),
            r.depth_left() == DEFAULT_DEPTH,
    {
        let mut heap = Heap::new();
        let global = heap.allocate();
        init_object(&mut heap, &global);
        init_console(&mut heap, &global);
        init_math(&mut heap, &global);
        init_array(&mut heap, &global);
        init_function(&mut heap, &global);
        init_json(&mut heap, &global);
        init_string(&mut heap, &global);
        let mut scopes: Vec<Scope> = Vec::new();
        scopes.push(Scope { this: global.clone(), vars: global.clone() });
        let r = Interpreter {
            heap: heap,
            global: global,
            scopes: scopes,
            functions: Vec::new(),
            output: Vec::new(),
            pending: None,
            random: false,
            loop_limit: DEFAULT_LOOP_LIMIT,
            depth: DEFAULT_DEPTH,
        };
        assert(r@.heap =~= initial_heap());
        assert(r@.scopes =~= initial_state().scopes);
        assert(r@.functions =~= initial_state().functions);
        assert(r@.output =~= initial_state().output);
        r
    }

    /// Whether the interpreter is well formed: its state is.
    pub open spec fn wf(&self) -> bool {
        self@.wf()
    }

    /// How deep calls of declared functions may still nest.
    pub closed spec fn depth_left(&self) -> nat {
        self.depth as nat
    }

    /// The innermost scope.
    pub fn scope(&self) -> (r: &Scope)
        requires
            self.wf(),
        ensures
            r@ == self@.current(),
    {
        &self.scopes[self.scopes.len() - 1]
    }

    /// The lines written and not yet taken, oldest first.  They are taken:
    /// the interpreter keeps none of them.
    pub fn take_output(&mut self) -> (r: Vec<String>)
        ensures
            r@.len() == old(self)@.output.len(),
            forall|i: int| 0 <= i < r@.len() ==> r@[i]@ == old(self)@.output[i],
            final(self)@ == (State { output: Seq::<Seq<char>>::empty(), ..old(self)@ }),
            final(self).depth_left() == old(self).depth_left(),
    {
        let mut r: Vec<String> = Vec::new();
        std::mem::swap(&mut self.output, &mut r);
        assert(self@.output =~= Seq::<Seq<char>>::empty());
        r
    }

    /// Sets how deep calls of declared functions nest and how often one
    /// loop runs its body.
    pub fn set_limits(&mut self, depth: u64, loop_limit: u64)
        ensures
            final(self)@ == (State { loop_limit: loop_limit as nat, ..old(self)@ }),
            final(self).depth_left() == depth,
    {
        self.depth = depth;
        self.loop_limit = loop_limit;
    }

    /// Whether a random number was drawn since the last statement began.
    pub fn drew_random(&self) -> (r: bool)
        ensures
            r == self@.random,
    {
        self.random
    }

    /// Reads the variable `name`.
    pub(crate) fn lookup(&self, name: &String) -> (r: Value)
        requires
            self.wf(),
        ensures
            r@ == self@.lookup(name@),
    {
        let vars = &self.scopes[self.scopes.len() - 1].vars;
        if self.heap.has_field(vars, name) {
            self.heap.get_field(vars, name)
        } else {
            self.heap.get_field(&self.global, name)
        }
    }

    /// Stores `value` under `name` in `target`.
    pub(crate) fn store(&mut self, target: &Value, name: &String, value: &Value) -> (r: Value)
        requires
            old(self).wf(),
        ensures
            final(self)@ == old(self)@.store(target@, name@, value@),
            r@ == crate::value::stored(old(self)@.heap, target@, value@),
            keeps(old(self)@, final(self)@),
            final(self).depth_left() == old(self).depth_left(),
    {
        self.heap.set_field(target, name.clone(), value.clone())
    }

    /// Binds `name` to `value` in the innermost scope and in the global object.
    pub(crate) fn bind(&mut self, name: &String, value: &Value)
        requires
            old(self).wf(),
        ensures
            final(self)@ == old(self)@.bind(name@, value@),
            keeps(old(self)@, final(self)@),
            final(self).depth_left() == old(self).depth_left(),
    {
        let vars = self.scopes[self.scopes.len() - 1].vars.clone();
        self.heap.set_field(&vars, name.clone(), value.clone());
        let global = self.global.clone();
        self.heap.set_field(&global, name.clone(), value.clone());
    }

    /// Adds a function to the table and returns the value that calls it.
    pub(crate) fn define(&mut self, params: &Rc<Vec<String>>, body: &Rc<Vec<Statement>>) -> (r:
        Value)
        requires
            old(self).wf(),
        ensures
            final(self)@ == old(self)@.define(UserFunction { params: *params, body: *body }),
            r@ == old(self)@.defined(),
            keeps(old(self)@, final(self)@),
            final(self).depth_left() == old(self).depth_left(),
    {
        let k: usize = self.functions.len();
        self.functions.push(UserFunction { params: share(params), body: share(body) });
        Value::Function(Callable::User(k))
    }

    /// Writes a line.
    pub(crate) fn print(&mut self, line: String)
        requires
            old(self).wf(),
        ensures
            final(self)@ == old(self)@.print(line@),
            keeps(old(self)@, final(self)@),
            final(self).depth_left() == old(self).depth_left(),
    {
        self.output.push(line);
        assert(self@.output =~= old(self)@.output.push(line@));
    }

    /// Notes that a random number was drawn.
    pub(crate) fn draw(&mut self)
        requires
            old(self).wf(),
        ensures
            final(self)@ == old(self)@.drawn(),
            keeps(old(self)@, final(self)@),
            final(self).depth_left() == old(self).depth_left(),
    {
        self.random = true;
    }

    /// Takes an object into the heap and returns the value that refers to it.
    pub(crate) fn adopt(&mut self, object: Object) -> (r: Value)
        requires
            old(self).wf(),
        ensures
            final(self)@ == (State { heap: old(self)@.heap.push(object@), ..old(self)@ }),
            r@ == old(self)@.fresh(),
            keeps(old(self)@, final(self)@),
            final(self).depth_left() == old(self).depth_left(),
    {
        self.heap.adopt(object)
    }

    /// The number of properties of `target`; zero where it is no object of the heap.
    pub(crate) fn property_count(&self, target: &Value) -> (r: usize)
        ensures
            r == match properties_of(self@.heap, target@) {
                Some(props) => props.len(),
                None => 0,
            },
    {
        self.heap.property_count(target)
    }

    /// The name of the property at place `i` of `target`.
    pub(crate) fn property_name(&self, target: &Value, i: usize) -> (r: String)
        requires
            properties_of(self@.heap, target@) matches Some(props) && i < props.len(),
        ensures
            r@ == properties_of(self@.heap, target@)->Some_0[i as int].0,
    {
        self.heap.property_name(target, i)
    }

    /// The document of a value.
    pub(crate) fn document(&self, v: &Value) -> (r: Result<Json, EvaluatorError>)
        ensures
            document_view(r) == document_of(
                self@.heap,
                v@,
                Seq::<usize>::empty(),
                self@.heap.len(),
            ),
    {
        let mut path: Vec<usize> = Vec::new();
        to_document(&self.heap, v, &mut path, self.heap.len())
    }

    /// The value of a document, made in the heap.
    pub(crate) fn revive(&mut self, doc: &Json) -> (r: Value)
        requires
            old(self).wf(),
        ensures
            final(self)@ == (State { heap: value_of(old(self)@.heap, doc@).0, ..old(self)@ }),
            r@ == value_of(old(self)@.heap, doc@).1,
            keeps(old(self)@, final(self)@),
            final(self).depth_left() == old(self).depth_left(),
    {
        from_document(&mut self.heap, doc)
    }

    /// Create a new scope, with a fresh object for its variables, and return it.
    pub fn make_scope(&mut self, this: Value) -> (r: Scope)
        requires
            old(self).wf(),
        ensures
            final(self)@ == old(self)@.enter(this@),
            r@ == final(self)@.current(),
            final(self).wf(),
            final(self).depth_left() == old(self).depth_left(),
    {
        let vars = self.heap.allocate();
        let scope = Scope { this: this, vars: vars };
        let r = scope.clone();
        self.scopes.push(scope);
        assert(self@.scopes =~= old(self)@.scopes.push(r@));
        r
    }

    /// Destroy the innermost scope and return it.  The global scope stays.
    pub fn destroy_scope(&mut self) -> (r: Scope)
        requires
            old(self).wf(),
            old(self)@.scopes.len() > 1,
        ensures
            final(self)@ == old(self)@.leave(),
            r@ == old(self)@.current(),
            final(self).wf(),
            final(self).depth_left() == old(self).depth_left(),
    {
        let r = self.scopes.pop().unwrap();
        assert(self@.scopes =~= old(self)@.scopes.drop_last());
        r
    }

    /// Set a global variable called `name` with the value `val`.
    pub fn set_global(&mut self, name: String, val: Value) -> (r: Value)
        requires
            old(self).wf(),
        ensures
            final(self)@ == old(self)@.store(old(self)@.global, name@, val@),
            r@ == val@,
            keeps(old(self)@, final(self)@),
            final(self).depth_left() == old(self).depth_left(),
    {
        let global = self.global.clone();
        self.heap.set_field(&global, name, val)
    }

    /// Resolve the global variable `name`.
    pub fn get_global(&self, name: String) -> (r: Value)
        ensures
            r@ == crate::value::field(self@.heap, self@.global, name@),
    {
        self.heap.get_field(&self.global, &name)
    }
}

impl Interpreter {
    /// Binds the parameters to the arguments in the innermost scope.
    pub(crate) fn bind_parameters(&mut self, params: &Vec<String>, args: &Vec<Value>)
        requires
            old(self).wf(),
        ensures
            final(self)@ == bind_parameters(old(self)@, params@, views(args@), 0),
            keeps(old(self)@, final(self)@),
            final(self)@.random == old(self)@.random,
            final(self).depth_left() == old(self).depth_left(),
    {
        let mut i: usize = 0;
        while i < params.len()
            invariant
                0 <= i <= params.len(),
                keeps(old(self)@, self@),
                self@.random == old(self)@.random,
                self.depth_left() == old(self).depth_left(),
                bind_parameters(self@, params@, views(args@), i as int) == bind_parameters(
                    old(self)@,
                    params@,
                    views(args@),
                    0,
                ),
            decreases params.len() - i,
        {
            let value = if i < args.len() {
                args[i].clone()
            } else {
                Value::Undefined
            };
            let vars = self.scopes[self.scopes.len() - 1].vars.clone();
            self.store(&vars, &params[i], &value);
            i = i + 1;
        }
    }

    /// Evaluates an expression: gives its value and changes the state as the
    /// evaluation does.  The scopes afterwards are those of before,
    /// whatever was called in between.
    pub fn run_expr(&mut self, expr: &Expression) -> (r: Result<Value, EvaluatorError>)
        requires
            old(self).wf(),
        ensures
            final(self).depth_left() == old(self).depth_left(),
            agrees(
                old(self)@,
                final(self)@,
                outcome(r),
                eval_expr(old(self)@, *expr, old(self).depth_left()),
            ),
        decreases old(self).depth_left(), expr, 1nat,
    {
        match expr {
            Expression::Literal(literal) => Ok(literal_to_value(literal)),
            Expression::Identifier(name) => Ok(self.lookup(name)),
            Expression::This => Ok(self.scopes[self.scopes.len() - 1].this.clone()),
            Expression::Unsupported(what) => Err(
                EvaluatorError::UnsupportedForm { what: what.clone() },
            ),
            Expression::Function { params, body } => Ok(self.define(params, body)),
            Expression::Member { object, property } => {
                match self.run_expr(object) {
                    Ok(target) => Ok(self.heap.get_field(&target, property)),
                    Err(e) => Err(e),
                }
            },
            Expression::Unary { op, operand } => {
                match self.run_expr(operand) {
                    Ok(v) => Ok(unary(*op, &v)),
                    Err(e) => Err(e),
                }
            },
            Expression::Binary { op, left, right } => match op {
                BinaryOp::Assign => match &**left {
                    Expression::Identifier(name) => {
                        match self.run_expr(right) {
                            Ok(v) => {
                                self.bind(name, &v);
                                Ok(v)
                            },
                            Err(e) => Err(e),
                        }
                    },
                    Expression::Member { object, property } => {
                        match self.run_expr(object) {
                            Ok(target) => match self.run_expr(right) {
                                Ok(v) => Ok(self.store(&target, property, &v)),
                                Err(e) => Err(e),
                            },
                            Err(e) => Err(e),
                        }
                    },
                    _ => Err(
                        EvaluatorError::UnsupportedForm { what: String::from_str("assignment") },
                    ),
                },
                BinaryOp::And => {
                    match self.run_expr(left) {
                        Ok(v) => if v.to_boolean() {
                            self.run_expr(right)
                        } else {
                            Ok(v)
                        },
                        Err(e) => Err(e),
                    }
                },
                BinaryOp::Or => {
                    match self.run_expr(left) {
                        Ok(v) => if v.to_boolean() {
                            Ok(v)
                        } else {
                            self.run_expr(right)
                        },
                        Err(e) => Err(e),
                    }
                },
                _ => {
                    match self.run_expr(left) {
                        Ok(a) => match self.run_expr(right) {
                            Ok(b) => Ok(binary(*op, &a, &b)),
                            Err(e) => Err(e),
                        },
                        Err(e) => Err(e),
                    }
                },
            },
            Expression::Call { callee, args } => self.run_call(expr),
        }
    }

    /// Evaluates a call: the callee first, then the arguments from left to
    /// right; then the function is applied.  A declared function runs its
    /// body in a scope of its own, which is popped whatever comes of the body.
    pub(crate) fn run_call(&mut self, expr: &Expression) -> (r: Result<Value, EvaluatorError>)
        requires
            old(self).wf(),
            *expr is Call,
        ensures
            final(self).depth_left() == old(self).depth_left(),
            agrees(
                old(self)@,
                final(self)@,
                outcome(r),
                eval_expr(old(self)@, *expr, old(self).depth_left()),
            ),
        decreases old(self).depth_left(), expr, 0nat,
    {
        match expr {
            Expression::Call { callee, args } => {
                let (found, this) = match &**callee {
                    Expression::Member { object, property } => match self.run_expr(object) {
                        Ok(target) => (self.heap.get_field(&target, property), target),
                        Err(e) => {
                            return Err(e);
                        },
                    },
                    _ => match self.run_expr(callee) {
                        Ok(found) => (found, self.global.clone()),
                        Err(e) => {
                            return Err(e);
                        },
                    },
                };
                let function = match found {
                    Value::Function(function) => function,
                    _ => {
                        return Err(refuse_call(callee));
                    },
                };
                let values = match self.run_args(args) {
                    Ok(values) => values,
                    Err(e) => {
                        return Err(e);
                    },
                };
                match function {
                    Callable::Host(h) => self.call_host(h, &values),
                    Callable::User(k) => {
                        if k >= self.functions.len() {
                            return Err(
                                EvaluatorError::UnsupportedForm {
                                    what: String::from_str("function"),
                                },
                            );
                        }
                        if self.depth == 0 {
                            return Err(EvaluatorError::Interrupted);
                        }
                        let params = share(&self.functions[k].params);
                        let body = share(&self.functions[k].body);
                        self.make_scope(this);
                        self.bind_parameters(&params, &values);
                        self.pending = None;
                        self.depth = self.depth - 1;
                        let ran = self.run_block(&body);
                        self.depth = self.depth + 1;
                        self.destroy_scope();
                        assert(self@.scopes =~= old(self)@.scopes);
                        let pending = self.pending.take();
                        match ran {
                            Ok(_) => match pending {
                                Some(v) => Ok(v),
                                None => Ok(Value::Undefined),
                            },
                            Err(e) => Err(e),
                        }
                    },
                }
            },
            _ => Err(EvaluatorError::Interrupted),
        }
    }

    /// Evaluates the arguments of a call from left to right.
    pub(crate) fn run_args(&mut self, args: &Vec<Expression>) -> (r: Result<
        Vec<Value>,
        EvaluatorError,
    >)
        requires
            old(self).wf(),
        ensures
            final(self).depth_left() == old(self).depth_left(),
            agrees(
                old(self)@,
                final(self)@,
                outcomes(r),
                eval_args(old(self)@, args@, 0, Seq::<ValueView>::empty(), old(self).depth_left()),
            ),
        decreases old(self).depth_left(), args, 0nat,
    {
        let mut values: Vec<Value> = Vec::new();
        let mut i: usize = 0;
        assert(views(values@) =~= Seq::<ValueView>::empty());
        while i < args.len()
            invariant
                0 <= i <= args.len(),
                keeps(old(self)@, self@),
                old(self)@.random ==> self@.random,
                self.depth_left() == old(self).depth_left(),
                !self@.random ==> eval_args(
                    self@,
                    args@,
                    i as int,
                    views(values@),
                    self.depth_left(),
                ) == eval_args(
                    old(self)@,
                    args@,
                    0,
                    Seq::<ValueView>::empty(),
                    old(self).depth_left(),
                ),
                !old(self)@.random && self@.random ==> ended(
                    eval_args(
                        old(self)@,
                        args@,
                        0,
                        Seq::<ValueView>::empty(),
                        old(self).depth_left(),
                    ),
                ),
            decreases args.len() - i,
        {
            let ghost before = views(values@);
            match self.run_expr(&args[i]) {
                Ok(v) => {
                    values.push(v);
                    assert(views(values@) =~= before.push(v@));
                },
                Err(e) => {
                    return Err(e);
                },
            }
            i = i + 1;
        }
        Ok(values)
    }

    /// Runs the statements of a block or of a function body in order, up to
    /// the first failure or pending `return`.
    pub(crate) fn run_block(&mut self, body: &Vec<Statement>) -> (r: Result<Value, EvaluatorError>)
        requires
            old(self).wf(),
        ensures
            final(self).depth_left() == old(self).depth_left(),
            agrees(
                old(self)@,
                final(self)@,
                outcome(r),
                exec_block(old(self)@, body@, 0, old(self).depth_left()),
            ),
        decreases old(self).depth_left(), body, 0nat,
    {
        let mut i: usize = 0;
        while i < body.len()
            invariant
                0 <= i <= body.len(),
                keeps(old(self)@, self@),
                old(self)@.random ==> self@.random,
                self.depth_left() == old(self).depth_left(),
                !self@.random ==> exec_block(self@, body@, i as int, self.depth_left())
                    == exec_block(old(self)@, body@, 0, old(self).depth_left()),
                !old(self)@.random && self@.random ==> ended(
                    exec_block(old(self)@, body@, 0, old(self).depth_left()),
                ),
            decreases body.len() - i,
        {
            match self.run_nested(&body[i]) {
                Ok(_) => {
                    if self.pending.is_some() {
                        return Ok(Value::Undefined);
                    }
                },
                Err(e) => {
                    return Err(e);
                },
            }
            i = i + 1;
        }
        Ok(Value::Undefined)
    }

    /// Binds the names of a declaration, each to the value of its initializer.
    pub(crate) fn run_declarators(&mut self, declarators: &Vec<Declarator>) -> (r: Result<
        Value,
        EvaluatorError,
    >)
        requires
            old(self).wf(),
        ensures
            final(self).depth_left() == old(self).depth_left(),
            agrees(
                old(self)@,
                final(self)@,
                outcome(r),
                exec_declarators(old(self)@, declarators@, 0, old(self).depth_left()),
            ),
        decreases old(self).depth_left(), declarators, 0nat,
    {
        let mut i: usize = 0;
        while i < declarators.len()
            invariant
                0 <= i <= declarators.len(),
                keeps(old(self)@, self@),
                old(self)@.random ==> self@.random,
                self.depth_left() == old(self).depth_left(),
                !self@.random ==> exec_declarators(
                    self@,
                    declarators@,
                    i as int,
                    self.depth_left(),
                ) == exec_declarators(old(self)@, declarators@, 0, old(self).depth_left()),
                !old(self)@.random && self@.random ==> ended(
                    exec_declarators(old(self)@, declarators@, 0, old(self).depth_left()),
                ),
            decreases declarators.len() - i,
        {
            let value = match &declarators[i].init {
                Some(e) => match self.run_expr(e) {
                    Ok(v) => v,
                    Err(e) => {
                        return Err(e);
                    },
                },
                None => Value::Undefined,
            };
            self.bind(&declarators[i].name, &value);
            i = i + 1;
        }
        Ok(Value::Undefined)
    }

    /// Runs a statement that stands inside a program: gives the value of
    /// an expression statement and `Undefined` for every other statement,
    /// and writes nothing but what the program itself writes.
    pub fn run_nested(&mut self, stmt: &Statement) -> (r: Result<Value, EvaluatorError>)
        requires
            old(self).wf(),
        ensures
            final(self).depth_left() == old(self).depth_left(),
            agrees(
                old(self)@,
                final(self)@,
                outcome(r),
                exec_stmt(old(self)@, *stmt, old(self).depth_left()),
            ),
        decreases old(self).depth_left(), stmt, 0nat,
    {
        match stmt {
            Statement::Expression(e) => self.run_expr(e),
            Statement::Declaration { kind, declarators } => self.run_declarators(declarators),
            Statement::Block(body) => self.run_block(body),
            Statement::If { test, consequent, alternate } => {
                let chosen = match self.run_expr(test) {
                    Ok(v) => v.to_boolean(),
                    Err(e) => {
                        return Err(e);
                    },
                };
                if chosen {
                    match self.run_nested(consequent) {
                        Ok(_) => Ok(Value::Undefined),
                        Err(e) => Err(e),
                    }
                } else {
                    match alternate {
                        Some(other) => match self.run_nested(other) {
                            Ok(_) => Ok(Value::Undefined),
                            Err(e) => Err(e),
                        },
                        None => Ok(Value::Undefined),
                    }
                }
            },
            Statement::While { test, body } => {
                let mut remaining: u64 = self.loop_limit;
                loop
                    invariant
                        *stmt == (Statement::While { test: *test, body: *body }),
                        keeps(old(self)@, self@),
                        old(self)@.random ==> self@.random,
                        self.depth_left() == old(self).depth_left(),
                        !self@.random ==> exec_while(
                            self@,
                            *stmt,
                            self.depth_left(),
                            remaining as nat,
                        ) == exec_stmt(old(self)@, *stmt, old(self).depth_left()),
                        !old(self)@.random && self@.random ==> ended(
                            exec_stmt(old(self)@, *stmt, old(self).depth_left()),
                        ),
                    decreases remaining,
                {
                    assert(decreases_to!(*stmt => stmt->While_test));
                    assert(decreases_to!(*stmt => stmt->While_body));
                    let holds = match self.run_expr(test) {
                        Ok(v) => v.to_boolean(),
                        Err(e) => {
                            return Err(e);
                        },
                    };
                    if !holds {
                        return Ok(Value::Undefined);
                    }
                    if remaining == 0 {
                        return Err(EvaluatorError::Interrupted);
                    }
                    match self.run_nested(body) {
                        Ok(_) => {
                            if self.pending.is_some() {
                                return Ok(Value::Undefined);
                            }
                        },
                        Err(e) => {
                            return Err(e);
                        },
                    }
                    remaining = remaining - 1;
                }
            },
            Statement::Function { name, params, body } => {
                let function = self.define(params, body);
                self.bind(name, &function);
                Ok(Value::Undefined)
            },
            Statement::Return(value) => {
                let v = match value {
                    Some(e) => match self.run_expr(e) {
                        Ok(v) => v,
                        Err(e) => {
                            return Err(e);
                        },
                    },
                    None => Value::Undefined,
                };
                self.pending = Some(v);
                Ok(Value::Undefined)
            },
            Statement::Empty => Ok(Value::Undefined),
            Statement::Unsupported(what) => Err(
                EvaluatorError::UnsupportedForm { what: what.clone() },
            ),
        }
    }

    /// Runs one statement of a program.  The value of an expression
    /// statement is returned and its text written as a line; every other
    /// statement returns `Undefined`.  A `return` outside every function ends
    /// the statement and is dropped.
    pub fn run(&mut self, stmt: &Statement) -> (r: Result<Value, EvaluatorError>)
        requires
            old(self).wf(),
        ensures
            final(self).depth_left() == old(self).depth_left(),
            ran(
                old(self)@,
                final(self)@,
                outcome(r),
                run_statement(old(self)@, *stmt, old(self).depth_left()),
            ),
    {
        self.random = false;
        self.pending = None;
        let r = self.run_nested(stmt);
        self.pending = None;
        match (stmt, &r) {
            (Statement::Expression(_), Ok(v)) => {
                let line = v.to_string();
                self.print(line);
            },
            _ => {},
        }
        r
    }
}

impl Interpreter {
    /// Runs the statements of a program in order and returns the value of
    /// the last expression statement among them, or `Undefined` where there
    /// is none.  The run stops at the first failure.
    pub fn run_program(&mut self, program: &Vec<Statement>) -> (r: Result<Value, EvaluatorError>)
        requires
            old(self).wf(),
        ensures
            final(self).depth_left() == old(self).depth_left(),
            ran(
                old(self)@,
                final(self)@,
                outcome(r),
                run_statements(
                    old(self)@.undrawn(),
                    program@,
                    0,
                    ValueView::Undefined,
                    old(self).depth_left(),
                ),
            ),
    {
        let mut last = Value::Undefined;
        let mut i: usize = 0;
        self.random = false;
        while i < program.len()
            invariant
                0 <= i <= program.len(),
                keeps(old(self)@, self@),
                self.depth_left() == old(self).depth_left(),
                !self@.random ==> run_statements(
                    self@,
                    program@,
                    i as int,
                    last@,
                    self.depth_left(),
                ) == run_statements(
                    old(self)@.undrawn(),
                    program@,
                    0,
                    ValueView::Undefined,
                    old(self).depth_left(),
                ),
                self@.random ==> ended(
                    run_statements(
                        old(self)@.undrawn(),
                        program@,
                        0,
                        ValueView::Undefined,
                        old(self).depth_left(),
                    ),
                ),
            decreases program.len() - i,
        {
            let drawn: bool = self.random;
            let ghost before = self@;
            match self.run(&program[i]) {
                Ok(v) => {
                    match &program[i] {
                        Statement::Expression(_) => {
                            last = v;
                        },
                        _ => {},
                    }
                },
                Err(e) => {
                    if drawn {
                        self.draw();
                    }
                    return Err(e);
                },
            }
            if drawn {
                self.draw();
            }
            assert(!self@.random ==> before.undrawn() == before);
            i = i + 1;
        }
        Ok(last)
    }
}

/// What running the statements of a program from place `i` on gives, where
/// `last` is the value of the last expression statement before them.
pub open spec fn run_statements(
    s: State,
    program: Seq<Statement>,
    i: int,
    last: ValueView,
    depth: nat,
) -> (State, Result<ValueView, ErrorView>)
    decreases program.len() - i,
{
    if i < 0 || i >= program.len() {
        (s, Ok(last))
    } else {
        let (s1, r1) = run_statement(s, program[i], depth);
        match r1 {
            Ok(v) => run_statements(
                s1,
                program,
                i + 1,
                if program[i] is Expression { v } else { last },
                depth,
            ),
            Err(e) => (s1, Err(e)),
        }
    }
}

/// An execution engine.
pub trait Executor: Sized {
    /// The state of the engine.
    spec fn state(&self) -> State;

    /// How deep calls of declared functions may still nest.
    spec fn depth(&self) -> nat;

    /// Make a new execution engine.
    fn new() -> (r: Self)
        ensures
            r.state() == initial_state(),
            r.state().wf(),
    ;

    /// Set a global variable called `name` with the value `val`.
    fn set_global(&mut self, name: String, val: Value) -> (r: Value)
        requires
            old(self).state().wf(),
        ensures
            final(self).state() == old(self).state().store(old(self).state().global, name@, val@),
            final(self).state().wf(),
            final(self).depth() == old(self).depth(),
            r@ == val@,
    ;

    /// Resolve the global variable `name`.
    fn get_global(&self, name: String) -> (r: Value)
        ensures
            r@ == crate::value::field(self.state().heap, self.state().global, name@),
    ;

    /// Create a new scope and return it.
    fn make_scope(&mut self, this: Value) -> (r: Scope)
        requires
            old(self).state().wf(),
        ensures
            final(self).state() == old(self).state().enter(this@),
            final(self).state().wf(),
            final(self).depth() == old(self).depth(),
            r@ == final(self).state().current(),
    ;

    /// Destroy the current scope.
    fn destroy_scope(&mut self) -> (r: Scope)
        requires
            old(self).state().wf(),
            old(self).state().scopes.len() > 1,
        ensures
            final(self).state() == old(self).state().leave(),
            final(self).state().wf(),
            final(self).depth() == old(self).depth(),
            r@ == old(self).state().current(),
    ;

    /// Run a statement of a program.
    fn run(&mut self, expr: &Statement) -> (r: Result<Value, EvaluatorError>)
        requires
            old(self).state().wf(),
        ensures
            final(self).depth() == old(self).depth(),
            ran(
                old(self).state(),
                final(self).state(),
                outcome(r),
                run_statement(old(self).state(), *expr, old(self).depth()),
            ),
    ;

    /// Run an expression.
    fn run_expr(&mut self, expr: &Expression) -> (r: Result<Value, EvaluatorError>)
        requires
            old(self).state().wf(),
        ensures
            final(self).depth() == old(self).depth(),
            agrees(
                old(self).state(),
                final(self).state(),
                outcome(r),
                eval_expr(old(self).state(), *expr, old(self).depth()),
            ),
    ;
}

impl Executor for Interpreter {
    open spec fn state(&self) -> State {
        self@
    }

    open spec fn depth(&self) -> nat {
        self.depth_left()
    }

    fn new() -> (r: Interpreter) {
        Interpreter::new()
    }

    fn set_global(&mut self, name: String, val: Value) -> (r: Value) {
        Interpreter::set_global(self, name, val)
    }

    fn get_global(&self, name: String) -> (r: Value) {
        Interpreter::get_global(self, name)
    }

    fn make_scope(&mut self, this: Value) -> (r: Scope) {
        Interpreter::make_scope(self, this)
    }

    fn destroy_scope(&mut self) -> (r: Scope) {
        Interpreter::destroy_scope(self)
    }

    fn run(&mut self, expr: &Statement) -> (r: Result<Value, EvaluatorError>) {
        Interpreter::run(self, expr)
    }

    fn run_expr(&mut self, expr: &Expression) -> (r: Result<Value, EvaluatorError>) {
        Interpreter::run_expr(self, expr)
    }
}

} // verus!
