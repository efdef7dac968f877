use boa::error::EvaluatorError;
use boa::value::{Callable, Heap, HostFunction, Object, Value};

fn number(x: f64) -> Value {
    Value::Number(x.to_bits())
}

fn text(s: &str) -> Value {
    Value::String(s.to_string())
}

#[test]
fn to_boolean_of_every_kind() {
    assert!(!Value::Undefined.to_boolean());
    assert!(!Value::Null.to_boolean());
    assert!(!Value::Boolean(false).to_boolean());
    assert!(Value::Boolean(true).to_boolean());
    assert!(!number(0.0).to_boolean());
    assert!(!number(-0.0).to_boolean());
    assert!(!number(f64::NAN).to_boolean());
    assert!(number(1.0).to_boolean());
    assert!(number(-0.5).to_boolean());
    assert!(number(f64::INFINITY).to_boolean());
    assert!(!text("").to_boolean());
    assert!(text("0").to_boolean());
    assert!(text("false").to_boolean());
    assert!(Value::Object(0).to_boolean());
    assert!(Value::Function(Callable::Host(HostFunction::ConsoleLog)).to_boolean());
    assert!(Value::Boolean(true).is_true());
    assert!(!Value::Null.is_true());
}

#[test]
fn to_boolean_is_stable() {
    let values = [
        Value::Undefined,
        Value::Null,
        Value::Boolean(true),
        Value::Boolean(false),
        number(0.0),
        number(3.0),
        number(f64::NAN),
        text(""),
        text("x"),
        Value::Object(1),
    ];
    for v in values.iter() {
        let chosen = if v.to_boolean() { text("yes") } else { number(0.0) };
        assert_eq!(chosen.to_boolean(), v.to_boolean());
    }
}

#[test]
fn to_number_of_every_kind() {
    assert!(f64::from_bits(Value::Undefined.to_num()).is_nan());
    assert_eq!(Value::Null.to_num(), 0f64.to_bits());
    assert_eq!(Value::Boolean(false).to_num(), 0f64.to_bits());
    assert_eq!(Value::Boolean(true).to_num(), 1f64.to_bits());
    assert_eq!(number(2.5).to_num(), 2.5f64.to_bits());
    assert_eq!(text("2.5").to_num(), 2.5f64.to_bits());
    assert_eq!(text("12").to_num(), 12f64.to_bits());
    assert!(f64::from_bits(text("twelve").to_num()).is_nan());
    assert!(f64::from_bits(text("").to_num()).is_nan());
    assert!(f64::from_bits(Value::Object(0).to_num()).is_nan());
    assert!(f64::from_bits(Value::Function(Callable::User(0)).to_num()).is_nan());
}

#[test]
fn to_string_of_every_kind() {
    assert_eq!(Value::Undefined.to_string(), "undefined");
    assert_eq!(Value::Null.to_string(), "null");
    assert_eq!(Value::Boolean(true).to_string(), "true");
    assert_eq!(Value::Boolean(false).to_string(), "false");
    assert_eq!(number(3.0).to_string(), "3");
    assert_eq!(number(2.5).to_string(), "2.5");
    assert_eq!(number(f64::NAN).to_string(), "NaN");
    assert_eq!(number(f64::INFINITY).to_string(), "Infinity");
    assert_eq!(number(f64::NEG_INFINITY).to_string(), "-Infinity");
    assert_eq!(text("héllo").to_string(), "héllo");
    assert_eq!(Value::Object(3).to_string(), "[object Object]");
    assert_eq!(Value::Function(Callable::User(0)).to_string(), "function");
}

#[test]
fn to_number_of_to_string_is_the_number() {
    let samples: [f64; 14] = [
        0.0, 1.0, -1.0, 2.5, 0.1, 1e21, 1e-7, 123456789.0, 9007199254740991.0,
        -9007199254740991.0, 5e-324, 1.7976931348623157e308, f64::INFINITY, f64::NEG_INFINITY,
    ];
    for x in samples {
        let back = text(&number(x).to_string()).to_num();
        assert_eq!(f64::from_bits(back), x, "{}", x);
    }
    assert!(f64::from_bits(text(&number(f64::NAN).to_string()).to_num()).is_nan());
    assert_eq!(f64::from_bits(text(&number(-0.0).to_string()).to_num()), 0.0);
}

#[test]
fn kinds_are_told_apart() {
    assert!(number(1.0).is_double());
    assert!(!text("1").is_double());
    assert!(text("1").is_string());
    assert!(!number(1.0).is_string());
}

#[test]
fn clone_keeps_the_value() {
    let values = [Value::Undefined, Value::Null, number(1.5), text("a"), Value::Object(2)];
    for v in values.iter() {
        assert_eq!(&v.clone(), v);
    }
}

#[test]
fn an_object_keeps_what_is_put() {
    let mut object = Object::new();
    assert_eq!(object.len(), 0);
    assert_eq!(object.get(&"a".to_string()), Value::Undefined);
    assert!(!object.contains(&"a".to_string()));
    object.put("a".to_string(), number(1.0));
    object.put("b".to_string(), number(2.0));
    assert_eq!(object.len(), 2);
    assert!(object.contains(&"a".to_string()));
    assert_eq!(object.get(&"a".to_string()), number(1.0));
    assert_eq!(object.get(&"b".to_string()), number(2.0));
    assert_eq!(object.position(&"b".to_string()), 1);
    assert_eq!(object.position(&"c".to_string()), 2);
    object.put("a".to_string(), text("changed"));
    assert_eq!(object.len(), 2);
    assert_eq!(object.get(&"a".to_string()), text("changed"));
    assert_eq!(object.get(&"b".to_string()), number(2.0));
    assert_eq!(object.name_at(0), "a");
    assert_eq!(object.name_at(1), "b");
    assert_eq!(object.value_at(1), number(2.0));
}

#[test]
fn a_heap_shares_objects_through_handles() {
    let mut heap = Heap::new();
    assert_eq!(heap.len(), 0);
    let first = heap.allocate();
    let second = heap.allocate();
    assert_eq!(first, Value::Object(0));
    assert_eq!(second, Value::Object(1));
    assert_eq!(heap.len(), 2);
    let alias = first.clone();
    assert_eq!(heap.set_field(&first, "x".to_string(), number(7.0)), number(7.0));
    assert_eq!(heap.get_field(&alias, &"x".to_string()), number(7.0));
    assert_eq!(heap.get_field(&second, &"x".to_string()), Value::Undefined);
    assert!(heap.has_field(&first, &"x".to_string()));
    assert!(!heap.has_field(&second, &"x".to_string()));
    assert_eq!(heap.property_count(&first), 1);
    assert_eq!(heap.property_name(&first, 0), "x");
    assert_eq!(heap.property_value(&first, 0), number(7.0));
}

#[test]
fn fields_of_what_is_no_object_are_undefined() {
    let mut heap = Heap::new();
    heap.allocate();
    for target in [Value::Undefined, Value::Null, number(1.0), text("s"), Value::Object(5)] {
        assert_eq!(heap.get_field(&target, &"x".to_string()), Value::Undefined);
        assert_eq!(heap.set_field(&target, "x".to_string(), number(1.0)), Value::Undefined);
        assert!(!heap.has_field(&target, &"x".to_string()));
        assert_eq!(heap.property_count(&target), 0);
    }
    assert_eq!(heap.property_count(&Value::Object(0)), 0);
}

#[test]
fn values_read_and_write_their_fields() {
    let mut heap = Heap::new();
    let object = heap.allocate();
    assert_eq!(object.get_field(&heap, &"x".to_string()), Value::Undefined);
    assert_eq!(object.set_field(&mut heap, "x".to_string(), number(1.0)), number(1.0));
    assert_eq!(object.set_field(&mut heap, "y".to_string(), text("two")), text("two"));
    assert_eq!(object.set_field(&mut heap, "x".to_string(), number(3.0)), number(3.0));
    assert_eq!(object.get_field(&heap, &"x".to_string()), number(3.0));
    assert_eq!(object.get_field(&heap, &"y".to_string()), text("two"));
    assert_eq!(heap.property_count(&object), 2);
    assert_eq!(number(1.0).set_field(&mut heap, "x".to_string(), number(1.0)), Value::Undefined);
    assert_eq!(number(1.0).get_field(&heap, &"x".to_string()), Value::Undefined);
}

#[test]
fn an_adopted_object_gets_the_next_handle() {
    let mut heap = Heap::new();
    heap.allocate();
    let mut object = Object::new();
    object.put("k".to_string(), Value::Boolean(true));
    let handle = heap.adopt(object);
    assert_eq!(handle, Value::Object(1));
    assert_eq!(heap.get_field(&handle, &"k".to_string()), Value::Boolean(true));
}

#[test]
fn messages_begin_with_the_kind() {
    assert_eq!(
        EvaluatorError::UnsupportedForm { what: "for".to_string() }.message(),
        "UnsupportedForm: for"
    );
    assert_eq!(EvaluatorError::BadName { identifier: "f".to_string() }.message(), "BadName: f");
    assert_eq!(EvaluatorError::DivisionByZero.message(), "DivisionByZero");
    assert_eq!(EvaluatorError::JsonCycle.message(), "JsonCycle");
    assert_eq!(EvaluatorError::JsonSyntax.message(), "JsonSyntax");
    assert_eq!(EvaluatorError::Interrupted.message(), "Interrupted");
}
