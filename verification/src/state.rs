//! The state of an interpreter as mathematics, and the steps on it that
//! evaluation is made of.

use vstd::prelude::*;
use std::rc::Rc;
use crate::ast::Statement;
use crate::value::{field, get, has, properties_of, with_field, Callable, Properties, ValueView};

verus! {

/// A scope: the value of `this`, and the object that holds the variables.
pub struct ScopeView {
    pub this: ValueView,
    pub vars: ValueView,
}

/// A function that a program declared: its parameter names and its body.
pub struct UserFunction {
    pub params: Rc<Vec<String>>,
    pub body: Rc<Vec<Statement>>,
}

/// The state of an interpreter.
pub struct State {
    /// The objects, by handle.
    pub heap: Seq<Properties>,
    /// The global object.
    pub global: ValueView,
    /// The scopes, innermost last.
    pub scopes: Seq<ScopeView>,
    /// The functions that programs declared, by their place.
    pub functions: Seq<UserFunction>,
    /// The lines written so far.
    pub output: Seq<Seq<char>>,
    /// The value of a `return` that no call site has taken yet.
    pub pending: Option<ValueView>,
    /// Whether a random number was drawn since this was last cleared.
    pub random: bool,
    /// How often one loop may run its body.
    pub loop_limit: nat,
}

/// Whether `v` refers to an object of `heap`.
pub open spec fn is_object_of(heap: Seq<Properties>, v: ValueView) -> bool {
    properties_of(heap, v).is_some()
}

impl State {
    /// Whether the state is well formed: the global object exists, there is
    /// a scope, the outermost scope is the global one, and the variables of
    /// every scope are an object of the heap.
    pub open spec fn wf(self) -> bool {
        &&& is_object_of(self.heap, self.global)
        &&& self.scopes.len() >= 1
        &&& self.scopes[0] == (ScopeView { this: self.global, vars: self.global })
        &&& forall|i: int|
            0 <= i < self.scopes.len() ==> is_object_of(self.heap, #[trigger] self.scopes[i].vars)
    }

    /// The innermost scope.
    pub open spec fn current(self) -> ScopeView {
        self.scopes.last()
    }

    /// What reading the variable `name` gives: the property of the innermost
    /// scope's variables where they hold the name, else the property of the
    /// global object, `Undefined` where that is absent too.
    pub open spec fn lookup(self, name: Seq<char>) -> ValueView {
        match properties_of(self.heap, self.current().vars) {
            Some(props) => if has(props, name) {
                get(props, name)
            } else {
                field(self.heap, self.global, name)
            },
            None => field(self.heap, self.global, name),
        }
    }

    /// The state after `name` is bound to `value`: stored in the innermost
    /// scope's variables and mirrored to the global object.
    pub open spec fn bind(self, name: Seq<char>, value: ValueView) -> State {
        State {
            heap: with_field(
                with_field(self.heap, self.current().vars, name, value),
                self.global,
                name,
                value,
            ),
            ..self
        }
    }

    /// The state after `value` is stored under `name` in `target`.
    pub open spec fn store(self, target: ValueView, name: Seq<char>, value: ValueView) -> State {
        State { heap: with_field(self.heap, target, name, value), ..self }
    }

    /// The state with one more object, without properties.
    pub open spec fn allocate(self) -> State {
        State { heap: self.heap.push(Seq::<(Seq<char>, ValueView)>::empty()), ..self }
    }

    /// The value that refers to the object that `allocate` makes.
    pub open spec fn fresh(self) -> ValueView {
        ValueView::Object(self.heap.len() as usize)
    }

    /// The state after a scope with a fresh object for its variables is pushed.
    pub open spec fn enter(self, this: ValueView) -> State {
        State {
            scopes: self.scopes.push(ScopeView { this: this, vars: self.fresh() }),
            ..self.allocate()
        }
    }

    /// The state after the innermost scope is popped.
    pub open spec fn leave(self) -> State {
        State { scopes: self.scopes.drop_last(), ..self }
    }

    /// The state after a function is added to the table.
    pub open spec fn define(self, function: UserFunction) -> State {
        State { functions: self.functions.push(function), ..self }
    }

    /// The value that calls the function that `define` adds.
    pub open spec fn defined(self) -> ValueView {
        ValueView::Function(Callable::User(self.functions.len() as usize))
    }

    /// The state after a line is written.
    pub open spec fn print(self, line: Seq<char>) -> State {
        State { output: self.output.push(line), ..self }
    }

    /// The state with a pending `return` of `value`.
    pub open spec fn returning(self, value: ValueView) -> State {
        State { pending: Some(value), ..self }
    }

    /// The state without a pending `return`.
    pub open spec fn settled(self) -> State {
        State { pending: None, ..self }
    }

    /// The state after a random number was drawn.
    pub open spec fn drawn(self) -> State {
        State { random: true, ..self }
    }

    /// The state with the mark of random numbers cleared.
    pub open spec fn undrawn(self) -> State {
        State { random: false, ..self }
    }
}

/// The state after the parameters from place `i` on are bound, in the
/// innermost scope only, to the arguments at the same places; a parameter
/// without argument is bound to `Undefined`, and arguments beyond the
/// parameters are ignored.
pub open spec fn bind_parameters(s: State, params: Seq<String>, args: Seq<ValueView>, i: int) -> State
    decreases params.len() - i,
{
    if i < 0 || i >= params.len() {
        s
    } else {
        let value = if i < args.len() { args[i] } else { ValueView::Undefined };
        bind_parameters(s.store(s.current().vars, params[i]@, value), params, args, i + 1)
    }
}

} // verus!
