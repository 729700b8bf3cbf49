//! JSON values as the library holds them: the request bodies, messages,
//! tool calls and model lists that the Ollama bridge reads and rewrites.
//! Parsing JSON text and printing a value as JSON text are done by
//! `serde_json`, behind the two trusted items at the end of this file.

use vstd::prelude::*;
use crate::keyed_map::{KeyedMap, has_key};
use serde_json::Value;

verus! {

/// A JSON number: a non-negative integer, a negative integer, or any other
/// number, held by its JSON text.
#[derive(Debug)]
pub enum JsonNumber {
    PosInt(u64),
    NegInt(i64),
    Float(String),
}

/// A JSON value. Objects keep their keys in insertion order.
#[derive(Debug)]
pub enum JsonValue {
    Null,
    Bool(bool),
    Number(JsonNumber),
    Str(String),
    Array(Vec<JsonValue>),
    Object(KeyedMap<JsonValue>),
}

pub enum NumberView {
    PosInt(u64),
    NegInt(i64),
    Float(Seq<char>),
}

/// The mathematical form of a JSON value: strings as character sequences,
/// objects as maps from keys to values (the order of keys is not part of it).
pub enum JsonView {
    Null,
    Bool(bool),
    Number(NumberView),
    Str(Seq<char>),
    Array(Seq<JsonView>),
    Object(Map<Seq<char>, JsonView>),
}

pub open spec fn number_view(n: JsonNumber) -> NumberView {
    match n {
        JsonNumber::PosInt(u) => NumberView::PosInt(u),
        JsonNumber::NegInt(i) => NumberView::NegInt(i),
        JsonNumber::Float(t) => NumberView::Float(t@),
    }
}

pub open spec fn json_view(v: JsonValue) -> JsonView
    decreases v,
{
    match v {
        JsonValue::Null => JsonView::Null,
        JsonValue::Bool(b) => JsonView::Bool(b),
        JsonValue::Number(n) => JsonView::Number(number_view(n)),
        JsonValue::Str(s) => JsonView::Str(s@),
        JsonValue::Array(a) => JsonView::Array(
            Seq::new(
                a@.len(),
                |i: int|
                    if 0 <= i < a@.len() {
                        json_view(a@[i])
                    } else {
                        JsonView::Null
                    },
            ),
        ),
        JsonValue::Object(m) => {
            proof {
                m.lemma_values_decrease();
            }
            JsonView::Object(
                Map::new(
                    |k: Seq<char>| m@.dom().contains(k),
                    |k: Seq<char>|
                        if m@.dom().contains(k) {
                            json_view(m@[k])
                        } else {
                            JsonView::Null
                        },
                ),
            )
        },
    }
}

impl View for JsonValue {
    type V = JsonView;

    open spec fn view(&self) -> JsonView {
        json_view(*self)
    }
}

/// The views of the values of `a`, in order.
pub open spec fn views_of(a: Seq<JsonValue>) -> Seq<JsonView> {
    Seq::new(a.len(), |i: int| a[i]@)
}

/// The views of the values of an object map.
pub open spec fn object_view(m: Map<Seq<char>, JsonValue>) -> Map<Seq<char>, JsonView> {
    Map::new(
        |k: Seq<char>| m.dom().contains(k),
        |k: Seq<char>|
            if m.dom().contains(k) {
                m[k]@
            } else {
                JsonView::Null
            },
    )
}

pub proof fn lemma_object_view(m: KeyedMap<JsonValue>)
    ensures
        JsonValue::Object(m)@ == JsonView::Object(object_view(m@)),
{
    assert(json_view(JsonValue::Object(m))->Object_0 =~= object_view(m@));
}

pub proof fn lemma_object_view_insert(m: Map<Seq<char>, JsonValue>, k: Seq<char>, v: JsonValue)
    ensures
        object_view(m.insert(k, v)) == object_view(m).insert(k, v@),
{
    assert(object_view(m.insert(k, v)) =~= object_view(m).insert(k, v@));
}

pub proof fn lemma_object_view_remove(m: Map<Seq<char>, JsonValue>, k: Seq<char>)
    ensures
        object_view(m.remove(k)) == object_view(m).remove(k),
{
    assert(object_view(m.remove(k)) =~= object_view(m).remove(k));
}

pub proof fn lemma_array_view(a: Vec<JsonValue>)
    ensures
        JsonValue::Array(a)@ == JsonView::Array(views_of(a@)),
{
    assert(json_view(JsonValue::Array(a))->Array_0 =~= views_of(a@));
}

/// The value of key `k` in `v`, when `v` is an object that has it.
pub open spec fn vfield(v: Option<JsonView>, k: Seq<char>) -> Option<JsonView> {
    match v {
        Some(JsonView::Object(m)) => if m.dom().contains(k) {
            Some(m[k])
        } else {
            None
        },
        _ => None,
    }
}

/// The text of `v`, when it is a string.
pub open spec fn vstr(v: Option<JsonView>) -> Option<Seq<char>> {
    match v {
        Some(JsonView::Str(s)) => Some(s),
        _ => None,
    }
}

/// The elements of `v`, when it is an array.
pub open spec fn varr(v: Option<JsonView>) -> Option<Seq<JsonView>> {
    match v {
        Some(JsonView::Array(a)) => Some(a),
        _ => None,
    }
}

/// The number of `v`, when it is a non-negative integer.
pub open spec fn vu64(v: Option<JsonView>) -> Option<u64> {
    match v {
        Some(JsonView::Number(NumberView::PosInt(u))) => Some(u),
        _ => None,
    }
}

impl JsonValue {
    /// The value bound to `k` when this value is an object that has `k`.
    pub open spec fn field(self, k: Seq<char>) -> Option<JsonValue> {
        match self {
            JsonValue::Object(m) => if m@.dom().contains(k) {
                Some(m@[k])
            } else {
                None
            },
            _ => None,
        }
    }

    /// The text of a string value.
    pub open spec fn text(self) -> Option<Seq<char>> {
        match self {
            JsonValue::Str(s) => Some(s@),
            _ => None,
        }
    }

    /// The number of a non-negative integer value, as `as_u64` reads it.
    pub open spec fn unsigned(self) -> Option<u64> {
        match self {
            JsonValue::Number(JsonNumber::PosInt(u)) => Some(u),
            _ => None,
        }
    }

    /// The elements of an array value.
    pub open spec fn elements(self) -> Option<Seq<JsonValue>> {
        match self {
            JsonValue::Array(a) => Some(a@),
            _ => None,
        }
    }

    /// The string `s` as a JSON value.
    pub fn from_string(s: String) -> (r: JsonValue)
        ensures
            r == JsonValue::Str(s),
    {
        JsonValue::Str(s)
    }

    /// The value of `key` in an object, as `serde_json::Value::get` with a
    /// string index.
    pub fn get(&self, key: &str) -> (r: Option<&JsonValue>)
        ensures
            r is Some == self.field(key@) is Some,
            r matches Some(v) ==> self.field(key@) == Some(*v),
            r is Some == vfield(Some(self@), key@) is Some,
            r matches Some(v) ==> vfield(Some(self@), key@) == Some(v@),
    {
        match self {
            JsonValue::Object(m) => {
                proof {
                    lemma_object_view(*m);
                }
                m.get(key)
            },
            _ => None,
        }
    }

    /// The text of a string value.
    pub fn as_str(&self) -> (r: Option<&str>)
        ensures
            r is Some == self.text() is Some,
            r matches Some(t) ==> self.text() == Some(t@),
            r is Some == vstr(Some(self@)) is Some,
            r matches Some(t) ==> vstr(Some(self@)) == Some(t@),
    {
        match self {
            JsonValue::Str(s) => Some(s.as_str()),
            _ => None,
        }
    }

    /// The elements of an array value.
    pub fn as_array(&self) -> (r: Option<&Vec<JsonValue>>)
        ensures
            r is Some == self is Array,
            r matches Some(a) ==> *self == JsonValue::Array(*a),
            r is Some == varr(Some(self@)) is Some,
            r matches Some(a) ==> varr(Some(self@)) == Some(views_of(a@)),
    {
        match self {
            JsonValue::Array(a) => {
                proof {
                    lemma_array_view(*a);
                }
                Some(a)
            },
            _ => None,
        }
    }

    /// The map of an object value.
    pub fn as_object(&self) -> (r: Option<&KeyedMap<JsonValue>>)
        ensures
            r is Some == self is Object,
            r matches Some(m) ==> *self == JsonValue::Object(*m),
    {
        match self {
            JsonValue::Object(m) => Some(m),
            _ => None,
        }
    }

    /// The value of a boolean.
    pub fn as_bool(&self) -> (r: Option<bool>)
        ensures
            r == (match *self {
                JsonValue::Bool(b) => Some(b),
                _ => None,
            }),
    {
        match self {
            JsonValue::Bool(b) => Some(*b),
            _ => None,
        }
    }

    /// The value of a non-negative integer, as `serde_json::Value::as_u64`.
    pub fn as_u64(&self) -> (r: Option<u64>)
        ensures
            r == self.unsigned(),
            r == vu64(Some(self@)),
    {
        match self {
            JsonValue::Number(JsonNumber::PosInt(u)) => Some(*u),
            _ => None,
        }
    }

    /// Whether two values are the same JSON value: equal scalars, equal
    /// arrays, and objects with the same keys bound to the same values,
    /// whatever their order.
    pub fn same_as(&self, other: &JsonValue) -> (r: bool)
        ensures
            r == (self@ == other@),
        decreases self,
    {
        match (self, other) {
            (JsonValue::Null, JsonValue::Null) => true,
            (JsonValue::Bool(a), JsonValue::Bool(b)) => *a == *b,
            (JsonValue::Number(a), JsonValue::Number(b)) => match (a, b) {
                (JsonNumber::PosInt(x), JsonNumber::PosInt(y)) => *x == *y,
                (JsonNumber::NegInt(x), JsonNumber::NegInt(y)) => *x == *y,
                (JsonNumber::Float(x), JsonNumber::Float(y)) => crate::text::str_eq(x.as_str(), y.as_str()),
                _ => false,
            },
            (JsonValue::Str(a), JsonValue::Str(b)) => crate::text::str_eq(a.as_str(), b.as_str()),
            (JsonValue::Array(a), JsonValue::Array(b)) => {
                proof {
                    lemma_array_view(*a);
                    lemma_array_view(*b);
                    assert forall|j: int| 0 <= j < a@.len() implies #[trigger] decreases_to!(*self => a@[j]) by {
                        assert(decreases_to!(*self => *a));
                        assert(decreases_to!(*a => a[j]));
                    }
                }
                if a.len() != b.len() {
                    assert(views_of(a@).len() != views_of(b@).len());
                    return false;
                }
                let n = a.len();
                let mut i: usize = 0;
                while i < n
                    invariant
                        i <= n == a@.len() == b@.len(),
                        *self == JsonValue::Array(*a),
                        *other == JsonValue::Array(*b),
                        self@ == JsonView::Array(views_of(a@)),
                        other@ == JsonView::Array(views_of(b@)),
                        forall|j: int| 0 <= j < i ==> a@[j]@ == b@[j]@,
                        forall|j: int| 0 <= j < a@.len() ==> #[trigger] decreases_to!(*self => a@[j]),
                    decreases n - i,
                {
                    if !a[i].same_as(&b[i]) {
                        assert(views_of(a@)[i as int] != views_of(b@)[i as int]);
                        return false;
                    }
                    i = i + 1;
                }
                assert(views_of(a@) =~= views_of(b@));
                true
            },
            (JsonValue::Object(a), JsonValue::Object(b)) => {
                proof {
                    lemma_object_view(*a);
                    lemma_object_view(*b);
                    use_type_invariant(a);
                    a.lemma_items();
                    a.lemma_values_decrease();
                    assert forall|j: int| 0 <= j < a.items().len() implies #[trigger] decreases_to!(*self => a.items()[j].1) by {
                        assert(decreases_to!(*self => *a));
                        assert(a@.dom().contains(a.items()[j].0@));
                        assert(decreases_to!(*a => a@[a.items()[j].0@]));
                    }
                }
                if a.len() != b.len() {
                    proof {
                        if object_view(a@) == object_view(b@) {
                            assert(a@.dom() =~= object_view(a@).dom());
                            assert(b@.dom() =~= object_view(b@).dom());
                        }
                    }
                    return false;
                }
                let n = a.len();
                let mut i: usize = 0;
                while i < n
                    invariant
                        i <= n == a.items().len(),
                        *self == JsonValue::Object(*a),
                        *other == JsonValue::Object(*b),
                        a@.dom().len() == b@.dom().len() == n,
                        a.well_formed(),
                        forall|j: int| 0 <= j < n ==> #[trigger] a@.dom().contains(a.items()[j].0@) && a@[a.items()[j].0@] == a.items()[j].1,
                        forall|k: Seq<char>| #[trigger] a@.dom().contains(k) <==> crate::keyed_map::has_key(a.items(), k),
                        forall|j: int| 0 <= j < a.items().len() ==> #[trigger] decreases_to!(*self => a.items()[j].1),
                        forall|j: int| #![trigger a.items()[j]] 0 <= j < i ==> b@.dom().contains(a.items()[j].0@) && b@[a.items()[j].0@]@ == a.items()[j].1@,
                        JsonValue::Object(*a)@ == JsonView::Object(object_view(a@)),
                        JsonValue::Object(*b)@ == JsonView::Object(object_view(b@)),
                    decreases n - i,
                {
                    let (k, v) = a.entry_at(i);
                    match b.get(k.as_str()) {
                        None => {
                            assert(!object_view(b@).dom().contains(k@));
                            assert(object_view(a@).dom().contains(k@));
                            return false;
                        },
                        Some(w) => {
                            if !v.same_as(w) {
                                assert(object_view(a@)[k@] != object_view(b@)[k@]);
                                return false;
                            }
                            assert(b@.dom().contains(a.items()[i as int].0@) && b@[a.items()[i as int].0@]@ == a.items()[i as int].1@);
                        },
                    }
                    i = i + 1;
                }
                proof {
                    assert(a@.dom().subset_of(b@.dom())) by {
                        assert forall|k: Seq<char>| a@.dom().contains(k) implies b@.dom().contains(k) by {
                            let j = choose|j: int| 0 <= j < a.items().len() && a.items()[j].0@ == k;
                            assert(b@.dom().contains(a.items()[j].0@));
                        }
                    }
                    use_type_invariant(b);
                    b.lemma_items();
                    crate::keyed_map::lemma_map_of_len(a.items());
                    crate::keyed_map::lemma_map_of_len(b.items());
                    vstd::set_lib::lemma_subset_equality(a@.dom(), b@.dom());
                    assert(object_view(a@) =~= object_view(b@)) by {
                        assert forall|k: Seq<char>| #[trigger] object_view(a@).dom().contains(k) implies object_view(a@)[k] == object_view(b@)[k] by {
                            let j = choose|j: int| 0 <= j < a.items().len() && a.items()[j].0@ == k;
                            assert(b@[a.items()[j].0@]@ == a.items()[j].1@);
                        }
                    }
                }
                true
            },
            _ => false,
        }
    }

    /// A copy of this value.
    pub fn duplicate(&self) -> (r: JsonValue)
        ensures
            r@ == self@,
        decreases self,
    {
        match self {
            JsonValue::Null => JsonValue::Null,
            JsonValue::Bool(b) => JsonValue::Bool(*b),
            JsonValue::Number(n) => JsonValue::Number(
                match n {
                    JsonNumber::PosInt(u) => JsonNumber::PosInt(*u),
                    JsonNumber::NegInt(i) => JsonNumber::NegInt(*i),
                    JsonNumber::Float(t) => JsonNumber::Float(t.clone()),
                },
            ),
            JsonValue::Str(s) => JsonValue::Str(s.clone()),
            JsonValue::Array(a) => {
                proof {
                    assert forall|j: int| 0 <= j < a@.len() implies #[trigger] decreases_to!(*self => a@[j]) by {
                        assert(decreases_to!(*self => *a));
                        assert(decreases_to!(*a => a[j]));
                    }
                }
                let mut out: Vec<JsonValue> = Vec::new();
                let mut i: usize = 0;
                while i < a.len()
                    invariant
                        i <= a@.len(),
                        out@.len() == i,
                        forall|j: int| 0 <= j < i ==> out@[j]@ == a@[j]@,
                        forall|j: int| 0 <= j < a@.len() ==> #[trigger] decreases_to!(*self => a@[j]),
                    decreases a@.len() - i,
                {
                    out.push(a[i].duplicate());
                    i = i + 1;
                }
                let r = JsonValue::Array(out);
                assert(json_view(r)->Array_0 =~= json_view(*self)->Array_0);
                assert(json_view(r) == json_view(*self));
                r
            },
            JsonValue::Object(m) => {
                proof {
                    use_type_invariant(m);
                    m.lemma_items();
                    m.lemma_values_decrease();
                }
                let mut out: KeyedMap<JsonValue> = KeyedMap::new();
                let n = m.len();
                let mut i: usize = 0;
                while i < n
                    invariant
                        n == m.items().len(),
                        i <= n,
                        m.well_formed(),
                        forall|k: Seq<char>| #[trigger] m@.dom().contains(k) ==> decreases_to!(*self => m@[k]),
                        forall|j: int| 0 <= j < n ==> #[trigger] m@.dom().contains(m.items()[j].0@) && m@[m.items()[j].0@] == m.items()[j].1,
                        forall|k: Seq<char>| #[trigger] m@.dom().contains(k) <==> has_key(m.items(), k),
                        forall|k: Seq<char>| #[trigger] out@.dom().contains(k) <==> has_key(m.items().take(i as int), k),
                        forall|k: Seq<char>| #[trigger] out@.dom().contains(k) ==> out@[k]@ == m@[k]@,
                    decreases n - i,
                {
                    let (k, v) = m.entry_at(i);
                    proof {
                        assert(m@.dom().contains(m.items()[i as int].0@));
                    }
                    let kc = k.clone();
                    let vc = v.duplicate();
                    proof {
                        if has_key(m.items().take(i as int), kc@) {
                            let t0 = m.items().take(i as int);
                            let j = choose|j: int| 0 <= j < t0.len() && t0[j].0@ == kc@;
                            assert(m.items()[j].0@ == m.items()[i as int].0@);
                        }
                    }
                    out.insert(kc, vc);
                    proof {
                        let t0 = m.items().take(i as int);
                        let t1 = m.items().take(i + 1);
                        assert forall|k2: Seq<char>| #[trigger] out@.dom().contains(k2) <==> has_key(t1, k2) by {
                            if has_key(t0, k2) {
                                let j = choose|j: int| 0 <= j < t0.len() && t0[j].0@ == k2;
                                assert(t1[j].0@ == k2);
                            }
                            if k2 == kc@ {
                                assert(t1[i as int].0@ == k2);
                            }
                            if has_key(t1, k2) && k2 != kc@ {
                                let j = choose|j: int| 0 <= j < t1.len() && t1[j].0@ == k2;
                                assert(t0[j].0@ == k2);
                            }
                        }
                    }
                    i = i + 1;
                }
                proof {
                    assert(m.items().take(n as int) == m.items());
                }
                let r = JsonValue::Object(out);
                assert(json_view(r)->Object_0 =~= json_view(*self)->Object_0);
                assert(json_view(r) == json_view(*self));
                r
            },
        }
    }
}

/// The outcome of `serde_json::from_str::<serde_json::Value>` on a text:
/// the parsed value, or the text of the parse error.
pub uninterp spec fn json_parse(text: Seq<char>) -> Result<JsonView, Seq<char>>;

/// The compact JSON text of a value, as `serde_json::Value`'s `Display`
/// (and `serde_json::to_string`) prints it.
pub uninterp spec fn json_text(v: JsonView) -> Seq<char>;

#[verifier::external_type_specification]
#[verifier::external_body]
pub struct ExSerdeValue(serde_json::Value);

/// Turns a `serde_json::Value` into the library's value, variant for variant;
/// object entries keep the order in which `serde_json` yields them.
#[verifier::external_body]
fn value_from_serde(v: Value) -> JsonValue {
    match v {
        Value::Null => JsonValue::Null,
        Value::Bool(b) => JsonValue::Bool(b),
        Value::Number(n) => JsonValue::Number(match (n.as_u64(), n.as_i64()) {
            (Some(u), _) => JsonNumber::PosInt(u),
            (None, Some(i)) => JsonNumber::NegInt(i),
            (None, None) => JsonNumber::Float(n.to_string()),
        }),
        Value::String(s) => JsonValue::Str(s),
        Value::Array(a) => JsonValue::Array(a.into_iter().map(value_from_serde).collect()),
        Value::Object(m) => JsonValue::Object(KeyedMap { entries: m.into_iter().map(|(k, v)| (k, value_from_serde(v))).collect() }),
    }
}

/// Turns the library's value into a `serde_json::Value`, variant for variant.
#[verifier::external_body]
fn value_to_serde(v: &JsonValue) -> Value {
    match v {
        JsonValue::Null => Value::Null,
        JsonValue::Bool(b) => Value::Bool(*b),
        JsonValue::Number(JsonNumber::PosInt(u)) => Value::from(*u),
        JsonValue::Number(JsonNumber::NegInt(i)) => Value::from(*i),
        JsonValue::Number(JsonNumber::Float(t)) => t.parse::<serde_json::Number>().map_or(Value::Null, Value::Number),
        JsonValue::Str(s) => Value::String(s.clone()),
        JsonValue::Array(a) => Value::Array(a.iter().map(value_to_serde).collect()),
        JsonValue::Object(m) => Value::Object(m.entries.iter().map(|(k, v)| (k.clone(), value_to_serde(v))).collect()),
    }
}

/// Parses JSON text with `serde_json::from_str`. The contract claims that the
/// outcome is a function of the text alone, named `json_parse`; what that
/// function is, is `serde_json`'s and is not stated here.
#[verifier::external_body]
pub(crate) fn parse_json(text: &str) -> (r: Result<JsonValue, String>)
    ensures
        match (r, json_parse(text@)) {
            (Ok(v), Ok(w)) => v@ == w,
            (Err(m), Err(e)) => m@ == e,
            _ => false,
        },
{
    match serde_json::from_str::<serde_json::Value>(text) {
        Ok(v) => Ok(value_from_serde(v)),
        Err(e) => Err(e.to_string()),
    }
}

/// Prints a value as compact JSON text with `serde_json`. The contract claims
/// that the text is a function of the value's view, named `json_text`.
#[verifier::external_body]
pub(crate) fn to_json_text(v: &JsonValue) -> (r: String)
    ensures
        r@ == json_text(v@),
{
    value_to_serde(v).to_string()
}

} // verus!
