//! JSON documents: the tree of a document, the documents of values and the
//! values of documents.  The texts are written and read by `serde_json`.

use vstd::prelude::*;
use vstd::string::StringExecFns;
use crate::error::{ErrorView, EvaluatorError};
use crate::number::{
    from_natural, is_finite, number_of_natural, spec_is_finite, INFINITY, SAFE_LIMIT,
};
use crate::text::{
    decimal_digits, natural_to_string, number_text, number_to_string, string_to_number,
    text_number,
};
use crate::value::{properties_of, put, Heap, Object, Properties, Value, ValueView};

verus! {

/// `serde_json`'s tree of a document.
#[verifier::external_body]
pub struct Tree {
    tree: serde_json::Value,
}

/// A JSON document.  A number is held as its text.
#[derive(Debug, PartialEq)]
pub enum Json {
    Null,
    Bool(bool),
    Number(String),
    String(String),
    Array(Vec<Json>),
    Object(Vec<(String, Json)>),
}

/// The mathematical content of a [`Json`].
pub enum JsonView {
    Null,
    Bool(bool),
    Number(Seq<char>),
    String(Seq<char>),
    Array(Seq<JsonView>),
    Object(Seq<(Seq<char>, JsonView)>),
}

/// The mathematical content of a document.
pub open spec fn json_view(doc: Json) -> JsonView
    decreases doc,
{
    match doc {
        Json::Null => JsonView::Null,
        Json::Bool(b) => JsonView::Bool(b),
        Json::Number(text) => JsonView::Number(text@),
        Json::String(text) => JsonView::String(text@),
        Json::Array(items) => JsonView::Array(
            Seq::new(
                items.len() as nat,
                |i: int|
                    if 0 <= i < items.len() {
                        json_view(items[i])
                    } else {
                        JsonView::Null
                    },
            ),
        ),
        Json::Object(entries) => JsonView::Object(
            Seq::new(
                entries.len() as nat,
                |i: int|
                    if 0 <= i < entries.len() {
                        (entries[i].0@, json_view(entries[i].1))
                    } else {
                        (Seq::<char>::empty(), JsonView::Null)
                    },
            ),
        ),
    }
}

impl View for Json {
    type V = JsonView;

    open spec fn view(&self) -> JsonView {
        json_view(*self)
    }
}

/// The document that a tree of `serde_json` holds: what taking the tree
/// apart gives.
pub uninterp spec fn json_model(tree: Tree) -> JsonView;

/// A document as `serde_json` holds it: the members of an object in the
/// order of their names, one for each name, and the text of a number as
/// `serde_json` keeps it, `null` where the text is no JSON number.
pub uninterp spec fn json_held(doc: JsonView) -> JsonView;

/// The text that `serde_json` writes for a document that it holds.
pub uninterp spec fn json_written(doc: JsonView) -> Seq<char>;

/// The text of a document: what `serde_json` writes for it once it holds it.
pub open spec fn json_text(doc: JsonView) -> Seq<char> {
    json_written(json_held(doc))
}

/// The document that `serde_json` reads from a text, or nothing where the
/// text is not JSON.
pub uninterp spec fn json_document(text: Seq<char>) -> Option<JsonView>;

/// Builds `serde_json`'s tree of a document, variant by variant; a number
/// is read from its text by `serde_json::from_str`, and is `null` where
/// that text is no JSON.  The contract only names the document that the
/// tree holds.
#[verifier::external_body]
pub(crate) fn encode(doc: &Json) -> (r: Tree)
    ensures
        json_model(r) == json_held(doc@),
{
    Tree {
        tree: match doc {
            Json::Null => serde_json::Value::Null,
            Json::Bool(b) => serde_json::Value::Bool(*b),
            Json::Number(t) => serde_json::from_str(t).unwrap_or(serde_json::Value::Null),
            Json::String(s) => serde_json::Value::String(s.clone()),
            Json::Array(items) => items.iter().map(|d| encode(d).tree).collect(),
            Json::Object(entries) => entries.iter().map(|e| (e.0.clone(), encode(&e.1).tree)).collect(),
        },
    }
}

/// Takes a tree of `serde_json` apart, variant by variant; a number gives
/// the text that its `Display` writes.  What comes back is, by definition,
/// the document that the tree holds.
#[verifier::external_body]
pub(crate) fn decode(tree: Tree) -> (r: Json)
    ensures
        r@ == json_model(tree),
{
    match tree.tree {
        serde_json::Value::Null => Json::Null,
        serde_json::Value::Bool(b) => Json::Bool(b),
        serde_json::Value::Number(n) => Json::Number(n.to_string()),
        serde_json::Value::String(s) => Json::String(s),
        serde_json::Value::Array(items) => Json::Array(
            items.into_iter().map(|tree| decode(Tree { tree })).collect(),
        ),
        serde_json::Value::Object(entries) => Json::Object(
            entries.into_iter().map(|(k, tree)| (k, decode(Tree { tree }))).collect(),
        ),
    }
}

/// Calls `serde_json::to_string` on a tree.  The contract only names the
/// text that comes back.
#[verifier::external_body]
pub(crate) fn write_tree(tree: &Tree) -> (r: String)
    ensures
        r@ == json_written(json_model(*tree)),
{
    serde_json::to_string(&tree.tree).unwrap_or_default()
}

/// Calls `serde_json::from_str` for a tree.  The contract only names the
/// document that comes back, and gives nothing where `serde_json` refuses
/// the text.
#[verifier::external_body]
pub(crate) fn read_tree(text: &str) -> (r: Option<Tree>)
    ensures
        match r {
            Some(tree) => json_document(text@) == Some(json_model(tree)),
            None => json_document(text@).is_none(),
        },
{
    serde_json::from_str::<serde_json::Value>(text).ok().map(|tree| Tree { tree })
}

/// The text of a document.
pub fn write_json(doc: &Json) -> (r: String)
    ensures
        r@ == json_text(doc@),
{
    let tree = encode(doc);
    write_tree(&tree)
}

/// The document of a text, or nothing where the text is not JSON.
pub fn read_json(text: &str) -> (r: Option<Json>)
    ensures
        match r {
            Some(doc) => json_document(text@) == Some(doc@),
            None => json_document(text@).is_none(),
        },
{
    match read_tree(text) {
        Some(tree) => Some(decode(tree)),
        None => None,
    }
}

/// The document of a value.  `Undefined`, `Null`, functions, numbers that
/// are not finite and handles without an object are `null`; an object is
/// the object of its properties in their order.  `path` holds the objects
/// that are being written: a value that reaches one of them contains
/// itself, and has no document.  `fuel` bounds how deep objects nest.
pub open spec fn document_of(heap: Seq<Properties>, v: ValueView, path: Seq<usize>, fuel: nat) -> Result<
    JsonView,
    ErrorView,
>
    decreases fuel, 0nat,
{
    match v {
        ValueView::Undefined => Ok(JsonView::Null),
        ValueView::Null => Ok(JsonView::Null),
        ValueView::Function(_) => Ok(JsonView::Null),
        ValueView::Boolean(b) => Ok(JsonView::Bool(b)),
        ValueView::Number(n) => if spec_is_finite(n) {
            Ok(JsonView::Number(number_text(n)))
        } else {
            Ok(JsonView::Null)
        },
        ValueView::String(text) => Ok(JsonView::String(text)),
        ValueView::Object(h) => if h >= heap.len() {
            Ok(JsonView::Null)
        } else if path.contains(h) {
            Err(ErrorView::JsonCycle)
        } else if fuel == 0 {
            Err(ErrorView::Interrupted)
        } else {
            members_of(
                heap,
                heap[h as int],
                0,
                path.push(h),
                (fuel - 1) as nat,
                Seq::<(Seq<char>, JsonView)>::empty(),
            )
        },
    }
}

/// The object of the properties from place `i` on, after the members `done`.
pub open spec fn members_of(
    heap: Seq<Properties>,
    props: Properties,
    i: int,
    path: Seq<usize>,
    fuel: nat,
    done: Seq<(Seq<char>, JsonView)>,
) -> Result<JsonView, ErrorView>
    decreases fuel, props.len() - i + 1,
{
    if i < 0 || i >= props.len() {
        Ok(JsonView::Object(done))
    } else {
        match document_of(heap, props[i].1, path, fuel) {
            Ok(doc) => members_of(heap, props, i + 1, path, fuel, done.push((props[i].0, doc))),
            Err(e) => Err(e),
        }
    }
}

/// The number under `length` of an array of `n` items.
pub open spec fn length_value(n: nat) -> ValueView {
    if n < SAFE_LIMIT {
        ValueView::Number(number_of_natural(n))
    } else {
        ValueView::Number(INFINITY)
    }
}

/// The value of a document, and the heap with the objects made for it.  An
/// array becomes an object with its items under the decimal names of their
/// places and their number under `length`; an object becomes an object with
/// its members in their order, a later member replacing an earlier one of
/// the same name.
pub open spec fn value_of(heap: Seq<Properties>, doc: JsonView) -> (Seq<Properties>, ValueView)
    decreases doc, 0nat,
{
    match doc {
        JsonView::Null => (heap, ValueView::Null),
        JsonView::Bool(b) => (heap, ValueView::Boolean(b)),
        JsonView::Number(text) => (heap, ValueView::Number(text_number(text))),
        JsonView::String(text) => (heap, ValueView::String(text)),
        JsonView::Array(items) => {
            let (h1, props) = items_of(heap, items, 0, Seq::<(Seq<char>, ValueView)>::empty());
            (
                h1.push(put(props, "length"@, length_value(items.len()))),
                ValueView::Object(h1.len() as usize),
            )
        },
        JsonView::Object(entries) => {
            let (h1, props) = entries_of(heap, entries, 0, Seq::<(Seq<char>, ValueView)>::empty());
            (h1.push(props), ValueView::Object(h1.len() as usize))
        },
    }
}

/// The properties `props` with the values of the items from place `i` on.
pub open spec fn items_of(heap: Seq<Properties>, items: Seq<JsonView>, i: int, props: Properties) -> (
    Seq<Properties>,
    Properties,
)
    decreases items, items.len() - i,
{
    if i < 0 || i >= items.len() {
        (heap, props)
    } else {
        let (h1, v) = value_of(heap, items[i]);
        items_of(h1, items, i + 1, put(props, decimal_digits(i as nat), v))
    }
}

/// The properties `props` with the values of the members from place `i` on.
pub open spec fn entries_of(
    heap: Seq<Properties>,
    entries: Seq<(Seq<char>, JsonView)>,
    i: int,
    props: Properties,
) -> (Seq<Properties>, Properties)
    decreases entries, entries.len() - i,
{
    if i < 0 || i >= entries.len() {
        (heap, props)
    } else {
        let (h1, v) = value_of(heap, entries[i].1);
        entries_of(h1, entries, i + 1, put(props, entries[i].0, v))
    }
}

/// The mathematical content of a document or a failure.
pub open spec fn document_view(r: Result<Json, EvaluatorError>) -> Result<JsonView, ErrorView> {
    match r {
        Ok(doc) => Ok(doc@),
        Err(e) => Err(e@),
    }
}

/// The views of members.
pub open spec fn member_views(members: Seq<(String, Json)>) -> Seq<(Seq<char>, JsonView)> {
    Seq::new(members.len(), |i: int| (members[i].0@, members[i].1@))
}

/// The view of an array is the array of the views of its items.
pub proof fn lemma_array_view(doc: Json)
    requires
        doc is Array,
    ensures
        doc@ is Array,
        doc@->Array_0.len() == doc->Array_0.len(),
        forall|i: int| 0 <= i < doc->Array_0.len() ==> doc@->Array_0[i] == (#[trigger] doc->Array_0[i])@,
{
    reveal_with_fuel(json_view, 2);
}

/// The view of an object is the object of the views of its members.
pub proof fn lemma_object_view(doc: Json)
    requires
        doc is Object,
    ensures
        doc@ is Object,
        doc@->Object_0.len() == doc->Object_0.len(),
        forall|i: int|
            0 <= i < doc->Object_0.len() ==> doc@->Object_0[i] == (
                (#[trigger] doc->Object_0[i]).0@,
                doc->Object_0[i].1@,
            ),
{
    reveal_with_fuel(json_view, 2);
}

/// Whether `h` is on the path.
fn on_path(path: &Vec<usize>, h: usize) -> (r: bool)
    ensures
        r == path@.contains(h),
{
    let mut i: usize = 0;
    while i < path.len()
        invariant
            0 <= i <= path@.len(),
            forall|j: int| 0 <= j < i ==> path@[j] != h,
        decreases path@.len() - i,
    {
        if path[i] == h {
            return true;
        }
        i = i + 1;
    }
    false
}

/// The document of a value of `heap`.
pub fn to_document(heap: &Heap, v: &Value, path: &mut Vec<usize>, fuel: usize) -> (r: Result<
    Json,
    EvaluatorError,
>)
    ensures
        final(path)@ == old(path)@,
        document_view(r) == document_of(heap@, v@, old(path)@, fuel as nat),
    decreases fuel,
{
    match v {
        Value::Undefined => Ok(Json::Null),
        Value::Null => Ok(Json::Null),
        Value::Function(_) => Ok(Json::Null),
        Value::Boolean(b) => Ok(Json::Bool(*b)),
        Value::Number(n) => if is_finite(*n) {
            Ok(Json::Number(number_to_string(*n)))
        } else {
            Ok(Json::Null)
        },
        Value::String(text) => Ok(Json::String(text.clone())),
        Value::Object(h) => {
            if *h >= heap.len() {
                return Ok(Json::Null);
            }
            if on_path(path, *h) {
                return Err(EvaluatorError::JsonCycle);
            }
            if fuel == 0 {
                return Err(EvaluatorError::Interrupted);
            }
            let count: usize = heap.property_count(v);
            let ghost props = heap@[*h as int];
            let ghost outer = path@;
            path.push(*h);
            let mut members: Vec<(String, Json)> = Vec::new();
            let mut i: usize = 0;
            assert(member_views(members@) =~= Seq::<(Seq<char>, JsonView)>::empty());
            while i < count
                invariant
                    0 <= i <= count == props.len(),
                    properties_of(heap@, v@) == Some(props),
                    v@ == ValueView::Object(*h),
                    props == heap@[*h as int],
                    outer == old(path)@,
                    !outer.contains(*h),
                    path@ == outer.push(*h),
                    fuel > 0,
                    members_of(
                        heap@,
                        props,
                        i as int,
                        path@,
                        (fuel - 1) as nat,
                        member_views(members@),
                    ) == members_of(
                        heap@,
                        props,
                        0,
                        path@,
                        (fuel - 1) as nat,
                        Seq::<(Seq<char>, JsonView)>::empty(),
                    ),
                decreases count - i,
            {
                let name = heap.property_name(v, i);
                let child = heap.property_value(v, i);
                let ghost before = member_views(members@);
                match to_document(heap, &child, path, fuel - 1) {
                    Ok(doc) => {
                        members.push((name, doc));
                        assert(member_views(members@) =~= before.push((name@, doc@)));
                    },
                    Err(e) => {
                        path.pop();
                        assert(path@ =~= outer);
                        return Err(e);
                    },
                }
                i = i + 1;
            }
            path.pop();
            assert(path@ =~= outer);
            let r = Json::Object(members);
            proof {
                lemma_object_view(r);
                assert(r@->Object_0 =~= member_views(members@));
            }
            Ok(r)
        },
    }
}

/// The value of a document, made in `heap`.
pub fn from_document(heap: &mut Heap, doc: &Json) -> (r: Value)
    ensures
        final(heap)@ == value_of(old(heap)@, doc@).0,
        r@ == value_of(old(heap)@, doc@).1,
        final(heap)@.len() >= old(heap)@.len(),
    decreases doc,
{
    match doc {
        Json::Null => Value::Null,
        Json::Bool(b) => Value::Boolean(*b),
        Json::Number(text) => Value::Number(string_to_number(text.as_str())),
        Json::String(text) => Value::String(text.clone()),
        Json::Array(items) => {
            let mut object = Object::new();
            let mut i: usize = 0;
            let ghost views = doc@->Array_0;
            proof {
                lemma_array_view(*doc);
            }
            while i < items.len()
                invariant
                    0 <= i <= items.len(),
                    doc->Array_0 == *items,
                    doc is Array,
                    views.len() == items.len(),
                    forall|j: int| 0 <= j < items.len() ==> views[j] == items[j]@,
                    heap@.len() >= old(heap)@.len(),
                    items_of(heap@, views, i as int, object@) == items_of(
                        old(heap)@,
                        views,
                        0,
                        Seq::<(Seq<char>, ValueView)>::empty(),
                    ),
                decreases items.len() - i,
            {
                assert(decreases_to!(doc => doc->Array_0));
                assert(decreases_to!(*items => items[i as int]));
                let v = from_document(heap, &items[i]);
                object.put(natural_to_string(i as u64), v);
                i = i + 1;
            }
            let length = if (items.len() as u64) < SAFE_LIMIT {
                Value::Number(from_natural(items.len() as u64))
            } else {
                Value::Number(INFINITY)
            };
            object.put(String::from_str("length"), length);
            heap.adopt(object)
        },
        Json::Object(entries) => {
            let mut object = Object::new();
            let mut i: usize = 0;
            let ghost views = doc@->Object_0;
            proof {
                lemma_object_view(*doc);
            }
            while i < entries.len()
                invariant
                    0 <= i <= entries.len(),
                    doc->Object_0 == *entries,
                    doc is Object,
                    views.len() == entries.len(),
                    forall|j: int|
                        0 <= j < entries.len() ==> views[j] == (entries[j].0@, entries[j].1@),
                    heap@.len() >= old(heap)@.len(),
                    entries_of(heap@, views, i as int, object@) == entries_of(
                        old(heap)@,
                        views,
                        0,
                        Seq::<(Seq<char>, ValueView)>::empty(),
                    ),
                decreases entries.len() - i,
            {
                assert(decreases_to!(doc => doc->Object_0));
                assert(decreases_to!(*entries => entries[i as int]));
                assert(decreases_to!(entries[i as int] => entries[i as int].1));
                let v = from_document(heap, &entries[i].1);
                object.put(entries[i].0.clone(), v);
                i = i + 1;
            }
            heap.adopt(object)
        },
    }
}

} // verus!
