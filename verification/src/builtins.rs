//! The built-in objects of the global object, and what their functions do.

use vstd::prelude::*;
use vstd::string::StringExecFns;
use crate::error::{ErrorView, EvaluatorError};
use crate::exec::{agrees, outcome, Interpreter};
use crate::json::{document_of, json_document, json_text, read_json, value_of, write_json};
use crate::number::{
    absolute, from_natural, is_nan, less, magnitude, number_of_natural, pow, pow_bits,
    random_bits, round, round_bits, safe_integer_value, spec_is_nan, spec_less, sqrt,
    sqrt_bits, to_safe_integer, unit_interval, Rounding, INFINITY, NAN, NEG_INFINITY,
    SAFE_LIMIT,
};
use crate::state::State;
use crate::text::{integer_text, integer_to_string, push_char};
use crate::value::{
    properties_of, put, to_number, to_text, views, with_field, Callable, Heap, HostFunction,
    Object, Properties, Value, ValueView,
};

verus! {

/// The most slots that `Array` makes.
pub const ARRAY_LIMIT: u64 = 0xFFFF_FFFF;

/// The argument at place `i`, or `Undefined` where there are fewer.
pub open spec fn argument(args: Seq<ValueView>, i: int) -> ValueView {
    if 0 <= i < args.len() {
        args[i]
    } else {
        ValueView::Undefined
    }
}

/// The texts of the arguments from place `i` on, each after a space but the
/// one at place zero, appended to `line`.
pub open spec fn joined(args: Seq<ValueView>, i: int, line: Seq<char>) -> Seq<char>
    decreases args.len() - i,
{
    if i < 0 || i >= args.len() {
        line
    } else if i == 0 {
        joined(args, i + 1, line + to_text(args[i]))
    } else {
        joined(args, i + 1, line + seq![' '] + to_text(args[i]))
    }
}

/// The least of `least` and the numbers of the arguments from place `i`
/// on; a not-a-number as soon as one of them is one.
pub open spec fn least_of(args: Seq<ValueView>, i: int, least: u64) -> u64
    decreases args.len() - i,
{
    if i < 0 || i >= args.len() || spec_is_nan(least) {
        least
    } else {
        let n = to_number(args[i]);
        if spec_is_nan(n) {
            NAN
        } else if spec_less(n, least) {
            least_of(args, i + 1, n)
        } else {
            least_of(args, i + 1, least)
        }
    }
}

/// The greatest of `greatest` and the numbers of the arguments from place
/// `i` on; a not-a-number as soon as one of them is one.
pub open spec fn greatest_of(args: Seq<ValueView>, i: int, greatest: u64) -> u64
    decreases args.len() - i,
{
    if i < 0 || i >= args.len() || spec_is_nan(greatest) {
        greatest
    } else {
        let n = to_number(args[i]);
        if spec_is_nan(n) {
            NAN
        } else if spec_less(greatest, n) {
            greatest_of(args, i + 1, n)
        } else {
            greatest_of(args, i + 1, greatest)
        }
    }
}

/// `props` with `Undefined` under the decimal names of `i` up to `n`, and
/// then the number `n` under `length`.
pub open spec fn array_slots(props: Properties, i: nat, n: nat) -> Properties
    decreases n - i,
{
    if i >= n {
        put(props, "length"@, ValueView::Number(number_of_natural(n)))
    } else {
        array_slots(put(props, integer_text(i as int), ValueView::Undefined), i + 1, n)
    }
}

/// `props` with the names of `source` from place `i` on, each under the
/// decimal name of its place, and then their number under `length`.
pub open spec fn key_slots(props: Properties, source: Properties, i: nat) -> Properties
    decreases source.len() - i,
{
    if i >= source.len() {
        put(props, "length"@, ValueView::Number(number_of_natural(source.len())))
    } else {
        key_slots(
            put(props, integer_text(i as int), ValueView::String(source[i as int].0)),
            source,
            i + 1,
        )
    }
}

/// How many slots `Array` is asked for: the first argument, where it is a
/// whole number from zero up to the limit.
pub open spec fn array_length(args: Seq<ValueView>) -> Option<nat> {
    match argument(args, 0) {
        ValueView::Number(n) => match safe_integer_value(n) {
            Some(k) => if 0 <= k <= ARRAY_LIMIT {
                Some(k as nat)
            } else {
                None
            },
            None => None,
        },
        _ => None,
    }
}

/// What a call of a host function does to the state, and what it returns.
/// Of a call of `Math.random` it only says that a random number is drawn.
pub open spec fn host_call(s: State, function: HostFunction, args: Seq<ValueView>) -> (
    State,
    Result<ValueView, ErrorView>,
) {
    let x = to_number(argument(args, 0));
    match function {
        HostFunction::ConsoleLog => (
            s.print(joined(args, 0, Seq::<char>::empty())),
            Ok(ValueView::Undefined),
        ),
        HostFunction::MathAbs => (s, Ok(ValueView::Number(magnitude(x)))),
        HostFunction::MathFloor => (s, Ok(ValueView::Number(round_bits(x, Rounding::Down)))),
        HostFunction::MathCeil => (s, Ok(ValueView::Number(round_bits(x, Rounding::Up)))),
        HostFunction::MathRound => (s, Ok(ValueView::Number(round_bits(x, Rounding::Nearest)))),
        HostFunction::MathSqrt => (s, Ok(ValueView::Number(sqrt_bits(x)))),
        HostFunction::MathPow => match pow_bits(x, to_number(argument(args, 1))) {
            Some(power) => (s, Ok(ValueView::Number(power))),
            None => (s, Err(ErrorView::UnsupportedForm { what: "Math.pow"@ })),
        },
        HostFunction::MathMin => (s, Ok(ValueView::Number(least_of(args, 0, INFINITY)))),
        HostFunction::MathMax => (s, Ok(ValueView::Number(greatest_of(args, 0, NEG_INFINITY)))),
        HostFunction::MathRandom => (s.drawn(), Err(ErrorView::Drawn)),
        HostFunction::ArrayNew => match array_length(args) {
            Some(n) => (
                State {
                    heap: s.heap.push(array_slots(Seq::<(Seq<char>, ValueView)>::empty(), 0, n)),
                    ..s
                },
                Ok(s.fresh()),
            ),
            None => (s, Err(ErrorView::UnsupportedForm { what: "Array"@ })),
        },
        HostFunction::ObjectKeys => {
            let source = match properties_of(s.heap, argument(args, 0)) {
                Some(props) => props,
                None => Seq::<(Seq<char>, ValueView)>::empty(),
            };
            if source.len() >= SAFE_LIMIT {
                (s, Err(ErrorView::Interrupted))
            } else {
            (
                State {
                    heap: s.heap.push(
                        key_slots(Seq::<(Seq<char>, ValueView)>::empty(), source, 0),
                    ),
                    ..s
                },
                Ok(s.fresh()),
            )
            }
        },
        HostFunction::StringNew => if args.len() == 0 {
            (s, Ok(ValueView::String(Seq::<char>::empty())))
        } else {
            (s, Ok(ValueView::String(to_text(args[0]))))
        },
        HostFunction::JsonStringify => match document_of(
            s.heap,
            argument(args, 0),
            Seq::<usize>::empty(),
            s.heap.len(),
        ) {
            Ok(doc) => (s, Ok(ValueView::String(json_text(doc)))),
            Err(e) => (s, Err(e)),
        },
        HostFunction::JsonParse => match json_document(to_text(argument(args, 0))) {
            Some(doc) => (
                State { heap: value_of(s.heap, doc).0, ..s },
                Ok(value_of(s.heap, doc).1),
            ),
            None => (s, Err(ErrorView::JsonSyntax)),
        },
    }
}

/// The heap after an object with the properties `entries` is made and put
/// under `namespace` in the global object.
pub open spec fn with_namespace(
    heap: Seq<Properties>,
    global: ValueView,
    namespace: Seq<char>,
    entries: Properties,
) -> Seq<Properties> {
    with_field(heap.push(entries), global, namespace, ValueView::Object(heap.len() as usize))
}

/// `props` with a host function under `name`.
pub open spec fn with_host(props: Properties, name: Seq<char>, function: HostFunction) -> Properties {
    put(props, name, ValueView::Function(Callable::Host(function)))
}

/// The properties of `Object`.
pub open spec fn object_entries() -> Properties {
    with_host(Seq::<(Seq<char>, ValueView)>::empty(), "keys"@, HostFunction::ObjectKeys)
}

/// The properties of `console`.
pub open spec fn console_entries() -> Properties {
    with_host(Seq::<(Seq<char>, ValueView)>::empty(), "log"@, HostFunction::ConsoleLog)
}

/// The properties of `Math`.
pub open spec fn math_entries() -> Properties {
    let p0 = Seq::<(Seq<char>, ValueView)>::empty();
    let p1 = with_host(p0, "abs"@, HostFunction::MathAbs);
    let p2 = with_host(p1, "floor"@, HostFunction::MathFloor);
    let p3 = with_host(p2, "ceil"@, HostFunction::MathCeil);
    let p4 = with_host(p3, "round"@, HostFunction::MathRound);
    let p5 = with_host(p4, "sqrt"@, HostFunction::MathSqrt);
    let p6 = with_host(p5, "pow"@, HostFunction::MathPow);
    let p7 = with_host(p6, "min"@, HostFunction::MathMin);
    let p8 = with_host(p7, "max"@, HostFunction::MathMax);
    with_host(p8, "random"@, HostFunction::MathRandom)
}

/// The properties of `JSON`.
pub open spec fn json_entries() -> Properties {
    let p0 = Seq::<(Seq<char>, ValueView)>::empty();
    let p1 = with_host(p0, "stringify"@, HostFunction::JsonStringify);
    with_host(p1, "parse"@, HostFunction::JsonParse)
}

/// The heap of a new interpreter: the global object at handle zero, then
/// the built-in objects in the order in which they are installed.
pub open spec fn initial_heap() -> Seq<Properties> {
    let global = ValueView::Object(0);
    let none = Seq::<(Seq<char>, ValueView)>::empty();
    let h0 = seq![none];
    let h1 = with_namespace(h0, global, "Object"@, object_entries());
    let h2 = with_namespace(h1, global, "console"@, console_entries());
    let h3 = with_namespace(h2, global, "Math"@, math_entries());
    let h4 = with_field(
        h3,
        global,
        "Array"@,
        ValueView::Function(Callable::Host(HostFunction::ArrayNew)),
    );
    let h5 = with_namespace(h4, global, "Function"@, none);
    let h6 = with_namespace(h5, global, "JSON"@, json_entries());
    with_field(h6, global, "String"@, ValueView::Function(Callable::Host(HostFunction::StringNew)))
}

/// Stores a host function under `name`.
fn put_host(object: &mut Object, name: &str, function: HostFunction)
    ensures
        final(object)@ == with_host(old(object)@, name@, function),
{
    object.put(String::from_str(name), Value::Function(Callable::Host(function)));
}

/// Takes `entries` into the heap and puts them under `namespace` in `global`.
fn install(heap: &mut Heap, global: &Value, namespace: &str, entries: Object)
    ensures
        final(heap)@ == with_namespace(old(heap)@, global@, namespace@, entries@),
{
    let handle = heap.adopt(entries);
    heap.set_field(global, String::from_str(namespace), handle);
}

/// Installs `Object`, with `keys`.
pub fn init_object(heap: &mut Heap, global: &Value)
    ensures
        final(heap)@ == with_namespace(old(heap)@, global@, "Object"@, object_entries()),
{
    let mut entries = Object::new();
    put_host(&mut entries, "keys", HostFunction::ObjectKeys);
    install(heap, global, "Object", entries);
}

/// Installs `console`, with `log`.
pub fn init_console(heap: &mut Heap, global: &Value)
    ensures
        final(heap)@ == with_namespace(old(heap)@, global@, "console"@, console_entries()),
{
    let mut entries = Object::new();
    put_host(&mut entries, "log", HostFunction::ConsoleLog);
    install(heap, global, "console", entries);
}

/// Installs `Math`, with its functions.
pub fn init_math(heap: &mut Heap, global: &Value)
    ensures
        final(heap)@ == with_namespace(old(heap)@, global@, "Math"@, math_entries()),
{
    let mut entries = Object::new();
    put_host(&mut entries, "abs", HostFunction::MathAbs);
    put_host(&mut entries, "floor", HostFunction::MathFloor);
    put_host(&mut entries, "ceil", HostFunction::MathCeil);
    put_host(&mut entries, "round", HostFunction::MathRound);
    put_host(&mut entries, "sqrt", HostFunction::MathSqrt);
    put_host(&mut entries, "pow", HostFunction::MathPow);
    put_host(&mut entries, "min", HostFunction::MathMin);
    put_host(&mut entries, "max", HostFunction::MathMax);
    put_host(&mut entries, "random", HostFunction::MathRandom);
    install(heap, global, "Math", entries);
}

/// Installs `Array`, the function that makes arrays.
pub fn init_array(heap: &mut Heap, global: &Value)
    ensures
        final(heap)@ == with_field(
            old(heap)@,
            global@,
            "Array"@,
            ValueView::Function(Callable::Host(HostFunction::ArrayNew)),
        ),
{
    heap.set_field(
        global,
        String::from_str("Array"),
        Value::Function(Callable::Host(HostFunction::ArrayNew)),
    );
}

/// Installs `Function`, an object without properties.
pub fn init_function(heap: &mut Heap, global: &Value)
    ensures
        final(heap)@ == with_namespace(
            old(heap)@,
            global@,
            "Function"@,
            Seq::<(Seq<char>, ValueView)>::empty(),
        ),
{
    install(heap, global, "Function", Object::new());
}

/// Installs `JSON`, with `stringify` and `parse`.
pub fn init_json(heap: &mut Heap, global: &Value)
    ensures
        final(heap)@ == with_namespace(old(heap)@, global@, "JSON"@, json_entries()),
{
    let mut entries = Object::new();
    put_host(&mut entries, "stringify", HostFunction::JsonStringify);
    put_host(&mut entries, "parse", HostFunction::JsonParse);
    install(heap, global, "JSON", entries);
}

/// Installs `String`, the function that makes strings.
pub fn init_string(heap: &mut Heap, global: &Value)
    ensures
        final(heap)@ == with_field(
            old(heap)@,
            global@,
            "String"@,
            ValueView::Function(Callable::Host(HostFunction::StringNew)),
        ),
{
    heap.set_field(
        global,
        String::from_str("String"),
        Value::Function(Callable::Host(HostFunction::StringNew)),
    );
}

impl Interpreter {
    /// Calls a host function.
    pub(crate) fn call_host(&mut self, function: HostFunction, args: &Vec<Value>) -> (r: Result<
        Value,
        EvaluatorError,
    >)
        requires
            old(self).wf(),
        ensures
            final(self).depth_left() == old(self).depth_left(),
            agrees(
                old(self)@,
                final(self)@,
                outcome(r),
                host_call(old(self)@, function, views(args@)),
            ),
    {
        let first = if args.len() > 0 {
            args[0].clone()
        } else {
            Value::Undefined
        };
        assert(first@ == argument(views(args@), 0));
        let x: u64 = first.to_num();
        match function {
            HostFunction::ConsoleLog => {
                let mut line = String::new();
                let mut i: usize = 0;
                while i < args.len()
                    invariant
                        0 <= i <= args.len(),
                        joined(views(args@), i as int, line@) == joined(
                            views(args@),
                            0,
                            Seq::<char>::empty(),
                        ),
                    decreases args.len() - i,
                {
                    let ghost before = line@;
                    if i > 0 {
                        push_char(&mut line, ' ');
                    }
                    let text = args[i].to_string();
                    line.append(text.as_str());
                    assert(views(args@)[i as int] == args@[i as int]@);
                    assert(i > 0 ==> line@ =~= before + seq![' '] + to_text(args@[i as int]@));
                    i = i + 1;
                }
                self.print(line);
                Ok(Value::Undefined)
            },
            HostFunction::MathAbs => Ok(Value::Number(absolute(x))),
            HostFunction::MathFloor => Ok(Value::Number(round(x, Rounding::Down))),
            HostFunction::MathCeil => Ok(Value::Number(round(x, Rounding::Up))),
            HostFunction::MathRound => Ok(Value::Number(round(x, Rounding::Nearest))),
            HostFunction::MathSqrt => Ok(Value::Number(sqrt(x))),
            HostFunction::MathPow => {
                let y: u64 = if args.len() > 1 {
                    args[1].to_num()
                } else {
                    NAN
                };
                assert(y == to_number(argument(views(args@), 1)));
                match pow(x, y) {
                    Some(power) => Ok(Value::Number(power)),
                    None => Err(
                        EvaluatorError::UnsupportedForm { what: String::from_str("Math.pow") },
                    ),
                }
            },
            HostFunction::MathMin => {
                let mut least: u64 = INFINITY;
                let mut i: usize = 0;
                while i < args.len() && !is_nan(least)
                    invariant
                        0 <= i <= args.len(),
                        least_of(views(args@), i as int, least) == least_of(
                            views(args@),
                            0,
                            INFINITY,
                        ),
                    decreases args.len() - i,
                {
                    let n: u64 = args[i].to_num();
                    assert(views(args@)[i as int] == args@[i as int]@);
                    if is_nan(n) {
                        least = NAN;
                    } else if less(n, least) {
                        least = n;
                    }
                    i = i + 1;
                }
                Ok(Value::Number(least))
            },
            HostFunction::MathMax => {
                let mut greatest: u64 = NEG_INFINITY;
                let mut i: usize = 0;
                while i < args.len() && !is_nan(greatest)
                    invariant
                        0 <= i <= args.len(),
                        greatest_of(views(args@), i as int, greatest) == greatest_of(
                            views(args@),
                            0,
                            NEG_INFINITY,
                        ),
                    decreases args.len() - i,
                {
                    let n: u64 = args[i].to_num();
                    assert(views(args@)[i as int] == args@[i as int]@);
                    if is_nan(n) {
                        greatest = NAN;
                    } else if less(greatest, n) {
                        greatest = n;
                    }
                    i = i + 1;
                }
                Ok(Value::Number(greatest))
            },
            HostFunction::MathRandom => {
                self.draw();
                Ok(Value::Number(unit_interval(random_bits())))
            },
            HostFunction::ArrayNew => {
                let n: u64 = match first {
                    Value::Number(bits) => match to_safe_integer(bits) {
                        Some(k) => if 0 <= k && k <= ARRAY_LIMIT as i64 {
                            k as u64
                        } else {
                            return Err(
                                EvaluatorError::UnsupportedForm { what: String::from_str("Array") },
                            );
                        },
                        None => {
                            return Err(
                                EvaluatorError::UnsupportedForm { what: String::from_str("Array") },
                            );
                        },
                    },
                    _ => {
                        return Err(
                            EvaluatorError::UnsupportedForm { what: String::from_str("Array") },
                        );
                    },
                };
                let mut slots = Object::new();
                let mut i: u64 = 0;
                while i < n
                    invariant
                        0 <= i <= n <= ARRAY_LIMIT,
                        array_slots(slots@, i as nat, n as nat) == array_slots(
                            Seq::<(Seq<char>, ValueView)>::empty(),
                            0,
                            n as nat,
                        ),
                    decreases n - i,
                {
                    slots.put(integer_to_string(i as i64), Value::Undefined);
                    i = i + 1;
                }
                slots.put(String::from_str("length"), Value::Number(from_natural(n)));
                Ok(self.adopt(slots))
            },
            HostFunction::ObjectKeys => {
                let count: usize = self.property_count(&first);
                if count as u64 >= SAFE_LIMIT {
                    return Err(EvaluatorError::Interrupted);
                }
                let mut slots = Object::new();
                let mut i: usize = 0;
                let ghost source = match properties_of(self@.heap, first@) {
                    Some(props) => props,
                    None => Seq::<(Seq<char>, ValueView)>::empty(),
                };
                while i < count
                    invariant
                        0 <= i <= count == source.len(),
                        count < SAFE_LIMIT,
                        count > 0 ==> properties_of(self@.heap, first@) == Some(source),
                        self@ == old(self)@,
                        key_slots(slots@, source, i as nat) == key_slots(
                            Seq::<(Seq<char>, ValueView)>::empty(),
                            source,
                            0,
                        ),
                    decreases count - i,
                {
                    let name = self.property_name(&first, i);
                    slots.put(integer_to_string(i as i64), Value::String(name));
                    i = i + 1;
                }
                slots.put(String::from_str("length"), Value::Number(from_natural(count as u64)));
                Ok(self.adopt(slots))
            },
            HostFunction::StringNew => if args.len() == 0 {
                Ok(Value::String(String::new()))
            } else {
                Ok(Value::String(args[0].to_string()))
            },
            HostFunction::JsonStringify => match self.document(&first) {
                Ok(doc) => Ok(Value::String(write_json(&doc))),
                Err(e) => Err(e),
            },
            HostFunction::JsonParse => {
                let text = first.to_string();
                match read_json(text.as_str()) {
                    Some(doc) => Ok(self.revive(&doc)),
                    None => Err(EvaluatorError::JsonSyntax),
                }
            },
        }
    }
}

} // verus!
