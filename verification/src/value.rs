//! Runtime values and the objects they refer to.
//!
//! A value is a tag with its payload.  Objects are not held inside values:
//! they live in a [`Heap`], and an object value is a handle into it, so that
//! copies of a handle share one object and a change made through one copy is
//! seen through all of them.

use vstd::prelude::*;
use vstd::string::StringExecFns;
use crate::number::{NAN, ONE, ZERO};
use crate::text::{number_text, number_to_string, string_to_number, text_number};

verus! {

/// A function that the host provides.
#[derive(Clone, Copy, Debug, PartialEq, Eq, Structural)]
pub enum HostFunction {
    ConsoleLog,
    MathAbs,
    MathFloor,
    MathCeil,
    MathRound,
    MathSqrt,
    MathPow,
    MathMin,
    MathMax,
    MathRandom,
    ArrayNew,
    ObjectKeys,
    StringNew,
    JsonStringify,
    JsonParse,
}

/// What a function value calls: a function of the host, or a function that
/// the program declared, by its place in the interpreter's table.
#[derive(Clone, Copy, Debug, PartialEq, Eq, Structural)]
pub enum Callable {
    Host(HostFunction),
    User(usize),
}

/// A runtime value.  `Number` holds an IEEE-754 binary64 pattern, `Object` a
/// handle into the heap.
#[derive(Debug, PartialEq)]
pub enum Value {
    Undefined,
    Null,
    Boolean(bool),
    Number(u64),
    String(String),
    Object(usize),
    Function(Callable),
}

/// The mathematical content of a [`Value`].
pub enum ValueView {
    Undefined,
    Null,
    Boolean(bool),
    Number(u64),
    String(Seq<char>),
    Object(usize),
    Function(Callable),
}

impl View for Value {
    type V = ValueView;

    open spec fn view(&self) -> ValueView {
        match *self {
            Value::Undefined => ValueView::Undefined,
            Value::Null => ValueView::Null,
            Value::Boolean(b) => ValueView::Boolean(b),
            Value::Number(n) => ValueView::Number(n),
            Value::String(s) => ValueView::String(s@),
            Value::Object(h) => ValueView::Object(h),
            Value::Function(f) => ValueView::Function(f),
        }
    }
}

impl Clone for Value {
    fn clone(&self) -> (r: Value)
        ensures
            r@ == self@,
    {
        match self {
            Value::Undefined => Value::Undefined,
            Value::Null => Value::Null,
            Value::Boolean(b) => Value::Boolean(*b),
            Value::Number(n) => Value::Number(*n),
            Value::String(s) => Value::String(s.clone()),
            Value::Object(h) => Value::Object(*h),
            Value::Function(f) => Value::Function(*f),
        }
    }
}

/// The views of a sequence of values, in order.
pub open spec fn views(values: Seq<Value>) -> Seq<ValueView> {
    Seq::new(values.len(), |i: int| values[i]@)
}

/// The properties of an object: names with their values, in the order in
/// which the names were first set.
pub type Properties = Seq<(Seq<char>, ValueView)>;

/// The first place at or after `start` that holds `name`, or the length of
/// `props` where there is none.
pub open spec fn find_from(props: Properties, name: Seq<char>, start: int) -> int
    decreases props.len() - start,
{
    if start < 0 || start >= props.len() {
        props.len() as int
    } else if props[start].0 == name {
        start
    } else {
        find_from(props, name, start + 1)
    }
}

/// The place of `name` in `props`, or the length of `props` where it is absent.
pub open spec fn find(props: Properties, name: Seq<char>) -> int {
    find_from(props, name, 0)
}

/// Whether `props` holds `name`.
pub open spec fn has(props: Properties, name: Seq<char>) -> bool {
    find(props, name) < props.len()
}

/// The value stored under `name`, or `Undefined` where it is absent.
pub open spec fn get(props: Properties, name: Seq<char>) -> ValueView {
    if has(props, name) {
        props[find(props, name)].1
    } else {
        ValueView::Undefined
    }
}

/// `props` with `value` stored under `name`: in its old place where the name
/// was present, at the end where it was not.
pub open spec fn put(props: Properties, name: Seq<char>, value: ValueView) -> Properties {
    if has(props, name) {
        props.update(find(props, name), (name, value))
    } else {
        props.push((name, value))
    }
}

/// Whether no name occurs twice in `props`.
pub open spec fn distinct(props: Properties) -> bool {
    forall|i: int, j: int| 0 <= i < j < props.len() ==> props[i].0 != props[j].0
}

/// One named slot of an object.
pub struct Property {
    pub name: String,
    pub value: Value,
}

/// An object: a mutable list of properties in which no name occurs twice.
pub struct Object {
    props: Vec<Property>,
}

impl View for Object {
    type V = Properties;

    closed spec fn view(&self) -> Properties {
        Seq::new(self.props.len() as nat, |i: int| (self.props[i].name@, self.props[i].value@))
    }
}

impl Object {
    /// An object without properties.
    pub fn new() -> (r: Object)
        ensures
            r@ == Seq::<(Seq<char>, ValueView)>::empty(),
    {
        let r = Object { props: Vec::new() };
        assert(r@ =~= Seq::<(Seq<char>, ValueView)>::empty());
        r
    }

    /// The number of properties.
    pub fn len(&self) -> (r: usize)
        ensures
            r == self@.len(),
    {
        self.props.len()
    }

    /// The place of `name` among the properties, or their number where it is absent.
    pub fn position(&self, name: &String) -> (r: usize)
        ensures
            r == find(self@, name@),
    {
        let mut i: usize = 0;
        while i < self.props.len()
            invariant
                0 <= i <= self.props.len(),
                find_from(self@, name@, i as int) == find(self@, name@),
            decreases self.props.len() - i,
        {
            if self.props[i].name == *name {
                return i;
            }
            i = i + 1;
        }
        i
    }

    /// The value stored under `name`, or `Undefined` where it is absent.
    pub fn get(&self, name: &String) -> (r: Value)
        ensures
            r@ == get(self@, name@),
    {
        let i: usize = self.position(name);
        if i < self.props.len() {
            self.props[i].value.clone()
        } else {
            Value::Undefined
        }
    }

    /// Whether a property is stored under `name`.
    pub fn contains(&self, name: &String) -> (r: bool)
        ensures
            r == has(self@, name@),
    {
        self.position(name) < self.props.len()
    }

    /// The name of the property at place `i`.
    pub fn name_at(&self, i: usize) -> (r: String)
        requires
            i < self@.len(),
        ensures
            r@ == self@[i as int].0,
    {
        self.props[i].name.clone()
    }

    /// The value of the property at place `i`.
    pub fn value_at(&self, i: usize) -> (r: Value)
        requires
            i < self@.len(),
        ensures
            r@ == self@[i as int].1,
    {
        self.props[i].value.clone()
    }

    /// Stores `value` under `name`, replacing what was there.
    pub fn put(&mut self, name: String, value: Value)
        ensures
            final(self)@ == put(old(self)@, name@, value@),
    {
        let i: usize = self.position(&name);
        if i < self.props.len() {
            self.props[i] = Property { name, value };
            assert(self@ =~= put(old(self)@, name@, value@));
        } else {
            self.props.push(Property { name, value });
            assert(self@ =~= put(old(self)@, name@, value@));
        }
    }
}

/// The objects of one interpreter.  An object, once made, stays at its
/// handle for as long as the heap lives.
pub struct Heap {
    objects: Vec<Object>,
}

impl View for Heap {
    type V = Seq<Properties>;

    closed spec fn view(&self) -> Seq<Properties> {
        Seq::new(self.objects.len() as nat, |i: int| self.objects[i]@)
    }
}

/// The properties of the object that `target` refers to in `heap`; none
/// where `target` is no object of the heap.
pub open spec fn properties_of(heap: Seq<Properties>, target: ValueView) -> Option<Properties> {
    match target {
        ValueView::Object(h) => if h < heap.len() {
            Some(heap[h as int])
        } else {
            None
        },
        _ => None,
    }
}

/// What reading `name` from `target` gives: the stored value, or `Undefined`
/// where the name is absent or `target` is no object of the heap.
pub open spec fn field(heap: Seq<Properties>, target: ValueView, name: Seq<char>) -> ValueView {
    match properties_of(heap, target) {
        Some(props) => get(props, name),
        None => ValueView::Undefined,
    }
}

/// The heap after `value` is stored under `name` in `target`; the heap
/// itself where `target` is no object of it.
pub open spec fn with_field(
    heap: Seq<Properties>,
    target: ValueView,
    name: Seq<char>,
    value: ValueView,
) -> Seq<Properties> {
    match properties_of(heap, target) {
        Some(props) => heap.update(target->Object_0 as int, put(props, name, value)),
        None => heap,
    }
}

/// What storing into `target` returns: the stored value, or `Undefined`
/// where `target` is no object of the heap.
pub open spec fn stored(heap: Seq<Properties>, target: ValueView, value: ValueView) -> ValueView {
    match properties_of(heap, target) {
        Some(_) => value,
        None => ValueView::Undefined,
    }
}

impl Heap {
    /// A heap without objects.
    pub fn new() -> (r: Heap)
        ensures
            r@ == Seq::<Properties>::empty(),
    {
        let r = Heap { objects: Vec::new() };
        assert(r@ =~= Seq::<Properties>::empty());
        r
    }

    /// The number of objects.
    pub fn len(&self) -> (r: usize)
        ensures
            r == self@.len(),
    {
        self.objects.len()
    }

    /// Makes an object without properties and returns the value that refers to it.
    pub fn allocate(&mut self) -> (r: Value)
        ensures
            final(self)@ == old(self)@.push(Seq::<(Seq<char>, ValueView)>::empty()),
            r@ == ValueView::Object(old(self)@.len() as usize),
    {
        let h: usize = self.objects.len();
        self.objects.push(Object::new());
        assert(self@ =~= old(self)@.push(Seq::<(Seq<char>, ValueView)>::empty()));
        Value::Object(h)
    }

    /// Takes an object into the heap and returns the value that refers to it.
    pub fn adopt(&mut self, object: Object) -> (r: Value)
        ensures
            final(self)@ == old(self)@.push(object@),
            r@ == ValueView::Object(old(self)@.len() as usize),
    {
        let h: usize = self.objects.len();
        self.objects.push(object);
        assert(self@ =~= old(self)@.push(object@));
        Value::Object(h)
    }

    /// Reads the property `name` of `target`.
    pub fn get_field(&self, target: &Value, name: &String) -> (r: Value)
        ensures
            r@ == field(self@, target@, name@),
    {
        match target {
            Value::Object(h) => {
                if *h < self.objects.len() {
                    self.objects[*h].get(name)
                } else {
                    Value::Undefined
                }
            },
            _ => Value::Undefined,
        }
    }

    /// Whether `target` is an object of this heap with a property `name`.
    pub fn has_field(&self, target: &Value, name: &String) -> (r: bool)
        ensures
            r == match properties_of(self@, target@) {
                Some(props) => has(props, name@),
                None => false,
            },
    {
        match target {
            Value::Object(h) => {
                if *h < self.objects.len() {
                    self.objects[*h].contains(name)
                } else {
                    false
                }
            },
            _ => false,
        }
    }

    /// Stores `value` under `name` in `target` and returns the stored value.
    /// Where `target` is no object of this heap nothing changes and
    /// `Undefined` is returned.
    pub fn set_field(&mut self, target: &Value, name: String, value: Value) -> (r: Value)
        ensures
            final(self)@ == with_field(old(self)@, target@, name@, value@),
            r@ == stored(old(self)@, target@, value@),
    {
        match target {
            Value::Object(h) => {
                if *h < self.objects.len() {
                    let r = value.clone();
                    self.objects[*h].put(name, value);
                    assert(self@ =~= with_field(old(self)@, target@, name@, value@));
                    r
                } else {
                    Value::Undefined
                }
            },
            _ => Value::Undefined,
        }
    }

    /// The number of properties of `target`; zero where it is no object of this heap.
    pub fn property_count(&self, target: &Value) -> (r: usize)
        ensures
            r == match properties_of(self@, target@) {
                Some(props) => props.len(),
                None => 0,
            },
    {
        match target {
            Value::Object(h) => {
                if *h < self.objects.len() {
                    self.objects[*h].len()
                } else {
                    0
                }
            },
            _ => 0,
        }
    }

    /// The name of the property at place `i` of `target`.
    pub fn property_name(&self, target: &Value, i: usize) -> (r: String)
        requires
            properties_of(self@, target@) matches Some(props) && i < props.len(),
        ensures
            r@ == properties_of(self@, target@)->Some_0[i as int].0,
    {
        match target {
            Value::Object(h) => self.objects[*h].name_at(i),
            _ => String::new(),
        }
    }

    /// The value of the property at place `i` of `target`.
    pub fn property_value(&self, target: &Value, i: usize) -> (r: Value)
        requires
            properties_of(self@, target@) matches Some(props) && i < props.len(),
        ensures
            r@ == properties_of(self@, target@)->Some_0[i as int].1,
    {
        match target {
            Value::Object(h) => self.objects[*h].value_at(i),
            _ => Value::Undefined,
        }
    }
}

/// `toBoolean`: `Undefined`, `Null`, `false`, not-a-numbers, zeros and the
/// empty string are false; every other value is true.
pub open spec fn truthy(v: ValueView) -> bool {
    match v {
        ValueView::Undefined => false,
        ValueView::Null => false,
        ValueView::Boolean(b) => b,
        ValueView::Number(n) => !crate::number::spec_is_nan(n) && !crate::number::spec_is_zero(n),
        ValueView::String(s) => s.len() > 0,
        ValueView::Object(_) => true,
        ValueView::Function(_) => true,
    }
}

/// `toNumber`: `Undefined` is a not-a-number, `Null` zero, `false` zero and
/// `true` one; a number is itself; a string is the number that it spells, or
/// a not-a-number; objects and functions are not-a-numbers.
pub open spec fn to_number(v: ValueView) -> u64 {
    match v {
        ValueView::Undefined => NAN,
        ValueView::Null => ZERO,
        ValueView::Boolean(b) => if b {
            ONE
        } else {
            ZERO
        },
        ValueView::Number(n) => n,
        ValueView::String(s) => text_number(s),
        ValueView::Object(_) => NAN,
        ValueView::Function(_) => NAN,
    }
}

/// `toString`: the names of `Undefined`, `Null` and the booleans; the text
/// of a number; a string itself; a fixed text for objects and for functions.
pub open spec fn to_text(v: ValueView) -> Seq<char> {
    match v {
        ValueView::Undefined => "undefined"@,
        ValueView::Null => "null"@,
        ValueView::Boolean(b) => if b {
            "true"@
        } else {
            "false"@
        },
        ValueView::Number(n) => number_text(n),
        ValueView::String(s) => s,
        ValueView::Object(_) => "[object Object]"@,
        ValueView::Function(_) => "function"@,
    }
}

impl Value {
    /// `toNumber` of this value.
    pub fn to_num(&self) -> (r: u64)
        ensures
            r == to_number(self@),
    {
        match self {
            Value::Undefined => NAN,
            Value::Null => ZERO,
            Value::Boolean(b) => if *b {
                ONE
            } else {
                ZERO
            },
            Value::Number(n) => *n,
            Value::String(s) => string_to_number(s.as_str()),
            Value::Object(_) => NAN,
            Value::Function(_) => NAN,
        }
    }

    /// `toString` of this value.
    pub fn to_string(&self) -> (r: String)
        ensures
            r@ == to_text(self@),
    {
        match self {
            Value::Undefined => String::from_str("undefined"),
            Value::Null => String::from_str("null"),
            Value::Boolean(b) => if *b {
                String::from_str("true")
            } else {
                String::from_str("false")
            },
            Value::Number(n) => number_to_string(*n),
            Value::String(s) => s.clone(),
            Value::Object(_) => String::from_str("[object Object]"),
            Value::Function(_) => String::from_str("function"),
        }
    }

    /// `toBoolean` of this value.
    pub fn to_boolean(&self) -> (r: bool)
        ensures
            r == truthy(self@),
    {
        match self {
            Value::Undefined => false,
            Value::Null => false,
            Value::Boolean(b) => *b,
            Value::Number(n) => !crate::number::is_nan(*n) && !crate::number::is_zero(*n),
            Value::String(s) => s.as_str().unicode_len() > 0,
            Value::Object(_) => true,
            Value::Function(_) => true,
        }
    }

    /// `getField`: the value stored under `name` in the object that this
    /// value refers to, or `Undefined` where the name is absent or this
    /// value is no object of `heap`.
    pub fn get_field(&self, heap: &Heap, name: &String) -> (r: Value)
        ensures
            r@ == field(heap@, self@, name@),
    {
        heap.get_field(self, name)
    }

    /// `setField`: stores `value` under `name` in the object that this value
    /// refers to and returns the stored value.  Where this value is no
    /// object of `heap` nothing changes and `Undefined` is returned.
    pub fn set_field(&self, heap: &mut Heap, name: String, value: Value) -> (r: Value)
        ensures
            final(heap)@ == with_field(old(heap)@, self@, name@, value@),
            r@ == stored(old(heap)@, self@, value@),
    {
        heap.set_field(self, name, value)
    }

    /// Whether this value is a number.
    pub fn is_double(&self) -> (r: bool)
        ensures
            r == (self@ is Number),
    {
        match self {
            Value::Number(_) => true,
            _ => false,
        }
    }

    /// Whether this value is a string.
    pub fn is_string(&self) -> (r: bool)
        ensures
            r == (self@ is String),
    {
        match self {
            Value::String(_) => true,
            _ => false,
        }
    }

    /// Whether this value is truthy; the same as [`Value::to_boolean`].
    pub fn is_true(&self) -> (r: bool)
        ensures
            r == truthy(self@),
    {
        self.to_boolean()
    }
}

} // verus!
