//! What every evaluation keeps, proved of the meaning of expressions and
//! statements: the scopes, the global object and the loop limit stay, the
//! state stays well formed, and no object and no function is lost.

use vstd::prelude::*;
use crate::ast::{BinaryOp, Declarator, Expression, Statement};
use crate::builtins::{argument, array_length, host_call};
use crate::exec::keeps;
use crate::laws::law_binding_is_mirrored;
use crate::json::{entries_of, items_of, json_document, value_of, JsonView};
use crate::semantics::{
    after_call, before_call, eval_args, eval_expr, exec_block, exec_declarators, exec_stmt,
    exec_while, run_statement,
};
use crate::state::{bind_parameters, is_object_of, State, UserFunction};
use crate::text::decimal_digits;
use crate::value::{
    field, put, to_text, truthy, with_field, Callable, HostFunction, Properties, ValueView,
};

verus! {

/// A well-formed state stays so when only its heap changes and loses no object.
pub proof fn lemma_heap_may_grow(s: State, heap: Seq<Properties>)
    requires
        s.wf(),
        heap.len() >= s.heap.len(),
    ensures
        keeps(s, State { heap: heap, ..s }),
{
    let after = State { heap: heap, ..s };
    assert forall|i: int| 0 <= i < after.scopes.len() implies is_object_of(
        after.heap,
        #[trigger] after.scopes[i].vars,
    ) by {
        assert(is_object_of(s.heap, s.scopes[i].vars));
    }
}

/// Storing a property keeps what every evaluation keeps.
pub proof fn lemma_store_keeps(s: State, target: ValueView, name: Seq<char>, value: ValueView)
    requires
        s.wf(),
    ensures
        keeps(s, s.store(target, name, value)),
{
    lemma_heap_may_grow(s, with_field(s.heap, target, name, value));
}

/// Binding a name keeps what every evaluation keeps.
pub proof fn lemma_bind_keeps(s: State, name: Seq<char>, value: ValueView)
    requires
        s.wf(),
    ensures
        keeps(s, s.bind(name, value)),
{
    lemma_heap_may_grow(s, s.bind(name, value).heap);
}

/// Binding parameters changes nothing but the heap, and loses no object.
pub proof fn lemma_parameters_keep(s: State, params: Seq<String>, args: Seq<ValueView>, i: int)
    requires
        s.wf(),
    ensures
        keeps(s, bind_parameters(s, params, args, i)),
        bind_parameters(s, params, args, i).functions == s.functions,
    decreases params.len() - i,
{
    if 0 <= i < params.len() {
        let value = if i < args.len() { args[i] } else { ValueView::Undefined };
        let next = s.store(s.current().vars, params[i]@, value);
        lemma_store_keeps(s, s.current().vars, params[i]@, value);
        lemma_parameters_keep(next, params, args, i + 1);
    }
}

/// Making the value of a document loses no object.
pub proof fn lemma_value_of_grows(heap: Seq<Properties>, doc: JsonView)
    ensures
        value_of(heap, doc).0.len() >= heap.len(),
    decreases doc, 0nat,
{
    match doc {
        JsonView::Array(items) => {
            lemma_items_of_grow(heap, items, 0, Seq::<(Seq<char>, ValueView)>::empty());
        },
        JsonView::Object(entries) => {
            lemma_entries_of_grow(heap, entries, 0, Seq::<(Seq<char>, ValueView)>::empty());
        },
        _ => {},
    }
}

/// Making the values of items loses no object.
pub proof fn lemma_items_of_grow(heap: Seq<Properties>, items: Seq<JsonView>, i: int, props: Properties)
    ensures
        items_of(heap, items, i, props).0.len() >= heap.len(),
    decreases items, items.len() - i,
{
    if 0 <= i < items.len() {
        lemma_value_of_grows(heap, items[i]);
        let (h1, v) = value_of(heap, items[i]);
        lemma_items_of_grow(
            h1,
            items,
            i + 1,
            put(props, decimal_digits(i as nat), v),
        );
    }
}

/// Making the values of members loses no object.
pub proof fn lemma_entries_of_grow(
    heap: Seq<Properties>,
    entries: Seq<(Seq<char>, JsonView)>,
    i: int,
    props: Properties,
)
    ensures
        entries_of(heap, entries, i, props).0.len() >= heap.len(),
    decreases entries, entries.len() - i,
{
    if 0 <= i < entries.len() {
        lemma_value_of_grows(heap, entries[i].1);
        let (h1, v) = value_of(heap, entries[i].1);
        lemma_entries_of_grow(h1, entries, i + 1, put(props, entries[i].0, v));
    }
}

/// A call of a host function keeps what every evaluation keeps.
pub proof fn lemma_host_call_keeps(s: State, function: HostFunction, args: Seq<ValueView>)
    requires
        s.wf(),
    ensures
        keeps(s, host_call(s, function, args).0),
{
    let after = host_call(s, function, args).0;
    match function {
        HostFunction::JsonParse => {
            match json_document(to_text(argument(args, 0))) {
                Some(doc) => {
                    lemma_value_of_grows(s.heap, doc);
                    lemma_heap_may_grow(s, value_of(s.heap, doc).0);
                },
                None => {},
            }
        },
        HostFunction::ArrayNew => {
            if array_length(args) is Some {
                lemma_heap_may_grow(s, after.heap);
            }
        },
        HostFunction::ObjectKeys => {
            lemma_heap_may_grow(s, after.heap);
        },
        _ => {},
    }
}

/// The body of a call begins in a well-formed state whose scopes are those
/// of the caller and one more.
pub proof fn lemma_before_call(s: State, k: int, this: ValueView, args: Seq<ValueView>)
    requires
        s.wf(),
        0 <= k < s.functions.len(),
    ensures
        before_call(s, k, this, args).wf(),
        before_call(s, k, this, args).scopes.drop_last() == s.scopes,
        before_call(s, k, this, args).scopes.len() == s.scopes.len() + 1,
        before_call(s, k, this, args).global == s.global,
        before_call(s, k, this, args).loop_limit == s.loop_limit,
        before_call(s, k, this, args).heap.len() >= s.heap.len(),
        before_call(s, k, this, args).functions == s.functions,
{
    let entered = s.enter(this);
    assert(entered.wf()) by {
        assert forall|i: int| 0 <= i < entered.scopes.len() implies is_object_of(
            entered.heap,
            #[trigger] entered.scopes[i].vars,
        ) by {
            if i < s.scopes.len() {
                assert(is_object_of(s.heap, s.scopes[i].vars));
            }
        }
    }
    lemma_parameters_keep(entered, s.functions[k].params@, args, 0);
    assert(entered.scopes.drop_last() =~= s.scopes);
}

/// What the meaning of an expression keeps.
pub proof fn law_expressions_keep(s: State, e: Expression, depth: nat)
    requires
        s.wf(),
    ensures
        keeps(s, eval_expr(s, e, depth).0),
    decreases depth, e, 1nat,
{
    match e {
        Expression::Member { object, property } => {
            law_expressions_keep(s, *object, depth);
        },
        Expression::Unary { op, operand } => {
            law_expressions_keep(s, *operand, depth);
        },
        Expression::Binary { op, left, right } => match op {
            BinaryOp::Assign => match *left {
                Expression::Identifier(name) => {
                    law_expressions_keep(s, *right, depth);
                    let (s1, r1) = eval_expr(s, *right, depth);
                    if let Ok(v) = r1 {
                        lemma_bind_keeps(s1, name@, v);
                    }
                },
                Expression::Member { object, property } => {
                    law_expressions_keep(s, *object, depth);
                    let (s1, r1) = eval_expr(s, *object, depth);
                    if let Ok(target) = r1 {
                        law_expressions_keep(s1, *right, depth);
                        let (s2, r2) = eval_expr(s1, *right, depth);
                        if let Ok(v) = r2 {
                            lemma_store_keeps(s2, target, property@, v);
                        }
                    }
                },
                _ => {},
            },
            _ => {
                law_expressions_keep(s, *left, depth);
                let (s1, r1) = eval_expr(s, *left, depth);
                if r1 is Ok {
                    law_expressions_keep(s1, *right, depth);
                }
            },
        },
        Expression::Call { callee, args } => {
            lemma_calls_keep(s, e, depth);
        },
        _ => {},
    }
}

/// What the meaning of a call keeps.
proof fn lemma_calls_keep(s: State, e: Expression, depth: nat)
    requires
        s.wf(),
        e is Call,
    ensures
        keeps(s, eval_expr(s, e, depth).0),
    decreases depth, e, 0nat,
{
    match e {
        Expression::Call { callee, args } => {
            let (s1, r1, this) = match *callee {
                Expression::Member { object, property } => {
                    law_expressions_keep(s, *object, depth);
                    let (s0, r0) = eval_expr(s, *object, depth);
                    match r0 {
                        Ok(target) => (
                            s0,
                            Ok(field(s0.heap, target, property@)),
                            target,
                        ),
                        Err(e) => (s0, Err(e), ValueView::Undefined),
                    }
                },
                _ => {
                    law_expressions_keep(s, *callee, depth);
                    let (s0, r0) = eval_expr(s, *callee, depth);
                    (s0, r0, s0.global)
                },
            };
            if let Ok(f) = r1 {
                if f is Function {
                    law_arguments_keep(s1, args@, 0, Seq::<ValueView>::empty(), depth);
                    let (s2, r2) = eval_args(s1, args@, 0, Seq::<ValueView>::empty(), depth);
                    if let Ok(values) = r2 {
                        match f->Function_0 {
                            Callable::Host(h) => {
                                lemma_host_call_keeps(s2, h, values);
                            },
                            Callable::User(k) => {
                                if k < s2.functions.len() && depth > 0 {
                                    lemma_before_call(s2, k as int, this, values);
                                    let s3 = before_call(s2, k as int, this, values);
                                    law_blocks_keep(
                                        s3,
                                        s2.functions[k as int].body@,
                                        0,
                                        (depth - 1) as nat,
                                    );
                                    let body = exec_block(
                                        s3,
                                        s2.functions[k as int].body@,
                                        0,
                                        (depth - 1) as nat,
                                    );
                                    let s5 = after_call(body).0;
                                    assert(s5.scopes =~= s2.scopes);
                                    assert(s5.wf()) by {
                                        assert forall|i: int|
                                            0 <= i < s5.scopes.len() implies is_object_of(
                                            s5.heap,
                                            #[trigger] s5.scopes[i].vars,
                                        ) by {
                                            assert(is_object_of(body.0.heap, body.0.scopes[i].vars));
                                        }
                                    }
                                }
                            },
                        }
                    }
                }
            }
        },
        _ => {},
    }
}

/// What the meaning of arguments keeps.
pub proof fn law_arguments_keep(
    s: State,
    args: Seq<Expression>,
    i: int,
    values: Seq<ValueView>,
    depth: nat,
)
    requires
        s.wf(),
    ensures
        keeps(s, eval_args(s, args, i, values, depth).0),
    decreases depth, args, args.len() - i,
{
    if 0 <= i < args.len() {
        law_expressions_keep(s, args[i], depth);
        let (s1, r1) = eval_expr(s, args[i], depth);
        if let Ok(v) = r1 {
            law_arguments_keep(s1, args, i + 1, values.push(v), depth);
        }
    }
}

/// What the meaning of a statement keeps.
pub proof fn law_statements_keep(s: State, stmt: Statement, depth: nat)
    requires
        s.wf(),
    ensures
        keeps(s, exec_stmt(s, stmt, depth).0),
    decreases depth, stmt, s.loop_limit + 1,
{
    match stmt {
        Statement::Expression(e) => {
            law_expressions_keep(s, e, depth);
        },
        Statement::Declaration { kind, declarators } => {
            law_declarators_keep(s, declarators@, 0, depth);
        },
        Statement::Block(body) => {
            law_blocks_keep(s, body@, 0, depth);
        },
        Statement::If { test, consequent, alternate } => {
            law_expressions_keep(s, test, depth);
            let (s1, r1) = eval_expr(s, test, depth);
            if let Ok(v) = r1 {
                if truthy(v) {
                    law_statements_keep(s1, *consequent, depth);
                } else {
                    if let Some(other) = alternate {
                        law_statements_keep(s1, *other, depth);
                    }
                }
            }
        },
        Statement::While { test, body } => {
            law_loops_keep(s, stmt, depth, s.loop_limit);
        },
        Statement::Function { name, params, body } => {
            let defined = s.define(UserFunction { params, body });
            lemma_bind_keeps(defined, name@, s.defined());
        },
        Statement::Return(value) => {
            if let Some(e) = value {
                law_expressions_keep(s, e, depth);
            }
        },
        _ => {},
    }
}

/// What the meaning of a block keeps.
pub proof fn law_blocks_keep(s: State, body: Seq<Statement>, i: int, depth: nat)
    requires
        s.wf(),
    ensures
        keeps(s, exec_block(s, body, i, depth).0),
    decreases depth, body, body.len() - i,
{
    if 0 <= i < body.len() {
        law_statements_keep(s, body[i], depth);
        let (s1, r1) = exec_stmt(s, body[i], depth);
        if r1 is Ok && !(s1.pending is Some) {
            law_blocks_keep(s1, body, i + 1, depth);
        }
    }
}

/// What the meaning of a declaration keeps.
pub proof fn law_declarators_keep(s: State, declarators: Seq<Declarator>, i: int, depth: nat)
    requires
        s.wf(),
    ensures
        keeps(s, exec_declarators(s, declarators, i, depth).0),
    decreases depth, declarators, declarators.len() - i,
{
    if 0 <= i < declarators.len() {
        match declarators[i].init {
            Some(e) => {
                law_expressions_keep(s, e, depth);
                let (s1, r1) = eval_expr(s, e, depth);
                if let Ok(v) = r1 {
                    lemma_bind_keeps(s1, declarators[i].name@, v);
                    law_declarators_keep(
                        s1.bind(declarators[i].name@, v),
                        declarators,
                        i + 1,
                        depth,
                    );
                }
            },
            None => {
                lemma_bind_keeps(s, declarators[i].name@, ValueView::Undefined);
                law_declarators_keep(
                    s.bind(declarators[i].name@, ValueView::Undefined),
                    declarators,
                    i + 1,
                    depth,
                );
            },
        }
    }
}

/// What the meaning of a loop keeps.
pub proof fn law_loops_keep(s: State, stmt: Statement, depth: nat, remaining: nat)
    requires
        s.wf(),
    ensures
        keeps(s, exec_while(s, stmt, depth, remaining).0),
    decreases depth, stmt, remaining,
{
    match stmt {
        Statement::While { test, body } => {
            law_expressions_keep(s, test, depth);
            let (s1, r1) = eval_expr(s, test, depth);
            if let Ok(v) = r1 {
                if truthy(v) && remaining > 0 {
                    law_statements_keep(s1, *body, depth);
                    let (s2, r2) = exec_stmt(s1, *body, depth);
                    if r2 is Ok && !(s2.pending is Some) {
                        law_loops_keep(s2, stmt, depth, (remaining - 1) as nat);
                    }
                }
            }
        },
        _ => {},
    }
}

/// Scope isolation: a run of a statement of a program keeps the scopes,
/// whatever it declares and whatever it calls; it keeps the global object
/// and the state well formed, and loses no object and no function.
pub proof fn law_runs_keep(s: State, stmt: Statement, depth: nat)
    requires
        s.wf(),
    ensures
        run_statement(s, stmt, depth).0.wf(),
        run_statement(s, stmt, depth).0.scopes == s.scopes,
        run_statement(s, stmt, depth).0.global == s.global,
        run_statement(s, stmt, depth).0.heap.len() >= s.heap.len(),
        run_statement(s, stmt, depth).0.functions.len() >= s.functions.len(),
{
    law_statements_keep(s.undrawn().settled(), stmt, depth);
}

/// Declarations are mirrored: after a declaration of one name whose
/// initializer has a value, the global object holds that value under the
/// name, and the variable of that name reads as that value.
pub proof fn law_declarations_are_mirrored(s: State, stmt: Statement, depth: nat)
    requires
        s.wf(),
        stmt is Declaration,
        stmt->declarators@.len() == 1,
        stmt->declarators@[0].init is Some,
    ensures
        eval_expr(s, stmt->declarators@[0].init->Some_0, depth).1 matches Ok(v) ==> {
            let after = exec_stmt(s, stmt, depth).0;
            &&& field(after.heap, after.global, stmt->declarators@[0].name@) == v
            &&& after.lookup(stmt->declarators@[0].name@) == v
        },
{
    let declarators = stmt->declarators@;
    let init = declarators[0].init->Some_0;
    let name = declarators[0].name@;
    law_expressions_keep(s, init, depth);
    let (s1, r1) = eval_expr(s, init, depth);
    if let Ok(v) = r1 {
        law_binding_is_mirrored(s1, name, v);
        let bound = s1.bind(name, v);
        assert(exec_declarators(bound, declarators, 1, depth).0 == bound);
        assert(exec_declarators(s, declarators, 0, depth).0 == bound);
    }
}

} // verus!
