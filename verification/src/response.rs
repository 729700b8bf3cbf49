//! What the library makes of Ollama's replies: tool calls given ids, the
//! model list, and the response handed back for a chat request.

use vstd::prelude::*;
use crate::json::{
    lemma_array_view, lemma_object_view, lemma_object_view_insert, object_view, parse_json,
    json_parse, varr, vfield, vstr, vu64, views_of, JsonValue, JsonView,
};
use crate::keyed_map::KeyedMap;
use crate::text::{concat, decimal, decimal_string};

verus! {

/// The id given to the tool call at `position` when it has none.
pub open spec fn default_call_id(position: int) -> Seq<char> {
    "call_"@ + decimal((position + 1) as nat)
}

/// A tool call with an `id`: an object without one gets `call_<n>`, where
/// `n` counts from 1; anything else is left as it is.
pub open spec fn call_with_id(c: JsonView, position: int) -> JsonView {
    match c {
        JsonView::Object(m) => if m.dom().contains("id"@) {
            c
        } else {
            JsonView::Object(m.insert("id"@, JsonView::Str(default_call_id(position))))
        },
        _ => c,
    }
}

/// The reply with every tool call under `message.tool_calls` given an id;
/// a reply without such an array is left as it is.
pub open spec fn with_tool_call_ids(v: JsonView) -> JsonView {
    match vfield(Some(v), "message"@) {
        Some(JsonView::Object(msg)) => match msg.dom().contains("tool_calls"@) {
            true => match msg["tool_calls"@] {
                JsonView::Array(calls) => JsonView::Object(
                    v->Object_0.insert(
                        "message"@,
                        JsonView::Object(
                            msg.insert(
                                "tool_calls"@,
                                JsonView::Array(
                                    Seq::new(calls.len(), |i: int| call_with_id(calls[i], i)),
                                ),
                            ),
                        ),
                    ),
                ),
                _ => v,
            },
            false => v,
        },
        _ => v,
    }
}

/// Giving tool calls ids a second time changes nothing.
pub proof fn law_tool_call_ids_idempotent(v: JsonView)
    ensures
        with_tool_call_ids(with_tool_call_ids(v)) == with_tool_call_ids(v),
{
    let w = with_tool_call_ids(v);
    if let Some(JsonView::Object(msg)) = vfield(Some(v), "message"@) {
        if msg.dom().contains("tool_calls"@) {
            if let JsonView::Array(calls) = msg["tool_calls"@] {
                let new_calls = Seq::new(calls.len(), |i: int| call_with_id(calls[i], i));
                let msg2 = msg.insert("tool_calls"@, JsonView::Array(new_calls));
                assert(vfield(Some(w), "message"@) == Some(JsonView::Object(msg2)));
                let again = Seq::new(new_calls.len(), |i: int| call_with_id(new_calls[i], i));
                assert(again =~= new_calls) by {
                    assert forall|i: int| 0 <= i < new_calls.len() implies again[i] == new_calls[i] by {
                        let c = calls[i];
                        if let JsonView::Object(m) = c {
                            if !m.dom().contains("id"@) {
                                assert(m.insert("id"@, JsonView::Str(default_call_id(i))).dom().contains("id"@));
                            }
                        }
                    }
                }
                assert(msg2.insert("tool_calls"@, JsonView::Array(again)) =~= msg2);
                assert(w->Object_0.insert("message"@, JsonView::Object(msg2)) =~= w->Object_0);
            }
        }
    }
}

/// After tool calls are given ids, every tool call object under
/// `message.tool_calls` has an `id`.
pub proof fn law_tool_calls_have_ids(v: JsonView, i: int)
    requires
        varr(vfield(vfield(Some(with_tool_call_ids(v)), "message"@), "tool_calls"@)) matches Some(
            calls,
        ) && 0 <= i < calls.len() && calls[i] is Object,
    ensures
        vfield(
            Some(varr(vfield(vfield(Some(with_tool_call_ids(v)), "message"@), "tool_calls"@))->0[i]),
            "id"@,
        ) is Some,
{
    if let Some(JsonView::Object(msg)) = vfield(Some(v), "message"@) {
        if msg.dom().contains("tool_calls"@) {
            if let JsonView::Array(calls) = msg["tool_calls"@] {
                let c = calls[i];
                if let JsonView::Object(m) = c {
                    if !m.dom().contains("id"@) {
                        assert(m.insert("id"@, JsonView::Str(default_call_id(i))).dom().contains("id"@));
                    }
                }
            }
        }
    }
}

fn call_with_id_value(c: &JsonValue, position: usize) -> (r: JsonValue)
    requires
        position < usize::MAX,
    ensures
        r@ == call_with_id(c@, position as int),
{
    match c {
        JsonValue::Object(m) => {
            let mut m2: KeyedMap<JsonValue> = match c.duplicate() {
                JsonValue::Object(x) => x,
                _ => {
                    proof {
                        assert(false);
                    }
                    KeyedMap::new()
                },
            };
            proof {
                lemma_object_view(*m);
                lemma_object_view(m2);
            }
            if !m2.contains_key("id") {
                let ghost mm = m2@;
                let id = concat("call_", decimal_string(position as u64 + 1).as_str());
                let v = JsonValue::Str(id);
                m2.insert("id".to_owned(), v);
                proof {
                    lemma_object_view_insert(mm, "id"@, v);
                    lemma_object_view(m2);
                }
            }
            JsonValue::Object(m2)
        },
        _ => c.duplicate(),
    }
}

/// Gives every tool call under `message.tool_calls` an id (see
/// `with_tool_call_ids`).
pub fn inject_missing_tool_call_ids(value: &mut JsonValue)
    ensures
        final(value)@ == with_tool_call_ids(old(value)@),
{
    let calls: Option<&Vec<JsonValue>> = match value.get("message") {
        Some(msg) => if msg.as_object().is_some() {
            match msg.get("tool_calls") {
                Some(tc) => tc.as_array(),
                None => None,
            }
        } else {
            None
        },
        None => None,
    };
    let calls = match calls {
        Some(c) => c,
        None => {
            proof {
                if let Some(JsonView::Object(msg)) = vfield(Some(value@), "message"@) {
                    if msg.dom().contains("tool_calls"@) {
                        assert(vfield(vfield(Some(value@), "message"@), "tool_calls"@) == Some(msg["tool_calls"@]));
                    }
                }
            }
            return;
        },
    };
    let mut out: Vec<JsonValue> = Vec::new();
    let n = calls.len();
    let mut i: usize = 0;
    while i < n
        invariant
            i <= n == calls@.len(),
            out@.len() == i,
            forall|j: int| 0 <= j < i ==> #[trigger] out@[j]@ == call_with_id(calls@[j]@, j),
        decreases n - i,
    {
        out.push(call_with_id_value(&calls[i], i));
        i = i + 1;
    }
    proof {
        lemma_array_view(*calls);
        lemma_array_view(out);
    }
    let ghost v0 = value@;
    let ghost new_calls = JsonView::Array(out@.map_values(|x: JsonValue| x@));
    let mut whole = JsonValue::Null;
    std::mem::swap(&mut whole, value);
    let mut top: KeyedMap<JsonValue> = match whole {
        JsonValue::Object(m) => m,
        _ => {
            proof {
                assert(false);
            }
            KeyedMap::new()
        },
    };
    proof {
        lemma_object_view(top);
    }
    let mut msg: KeyedMap<JsonValue> = match top.insert("message".to_owned(), JsonValue::Null) {
        Some(JsonValue::Object(m)) => m,
        _ => {
            proof {
                assert(false);
            }
            KeyedMap::new()
        },
    };
    proof {
        lemma_object_view(msg);
    }
    let ghost mm = msg@;
    let nv = JsonValue::Array(out);
    msg.insert("tool_calls".to_owned(), nv);
    proof {
        lemma_object_view_insert(mm, "tool_calls"@, nv);
        lemma_object_view(msg);
    }
    let ghost tm = top@;
    let mv = JsonValue::Object(msg);
    top.insert("message".to_owned(), mv);
    proof {
        lemma_object_view_insert(tm, "message"@, mv);
        lemma_object_view(top);
        assert(views_of(out@) =~= Seq::new(calls@.len(), |j: int| call_with_id(views_of(calls@)[j], j)));
        assert(top@ =~= tm.insert("message"@, mv));
        assert(object_view(top@) =~= v0->Object_0.insert("message"@, mv@));
    }
    *value = JsonValue::Object(top);
}

/// A model that Ollama offers.
#[derive(Debug)]
pub struct ModelInfo {
    pub id: String,
    pub display_name: Option<String>,
    pub description: Option<String>,
    pub context_length: Option<u64>,
}

pub struct ModelView {
    pub id: Seq<char>,
    pub display_name: Option<Seq<char>>,
    pub description: Option<Seq<char>>,
    pub context_length: Option<u64>,
}

pub open spec fn opt_text(o: Option<String>) -> Option<Seq<char>> {
    match o {
        Some(s) => Some(s@),
        None => None,
    }
}

impl View for ModelInfo {
    type V = ModelView;

    open spec fn view(&self) -> ModelView {
        ModelView {
            id: self.id@,
            display_name: opt_text(self.display_name),
            description: opt_text(self.description),
            context_length: self.context_length,
        }
    }
}

/// A model's description: `<details.parameter_size> parameters`, else
/// `<size> bytes`, else none.
pub open spec fn model_description(item: JsonView) -> Option<Seq<char>> {
    match vstr(vfield(vfield(Some(item), "details"@), "parameter_size"@)) {
        Some(size) => Some(size + " parameters"@),
        None => match vu64(vfield(Some(item), "size"@)) {
            Some(n) => Some(decimal(n as nat) + " bytes"@),
            None => None,
        },
    }
}

/// The models of the items that have a string `name`, in order.
pub open spec fn models_of(items: Seq<JsonView>) -> Seq<ModelView>
    decreases items.len(),
{
    if items.len() == 0 {
        Seq::empty()
    } else {
        let prev = models_of(items.drop_last());
        match vstr(vfield(Some(items.last()), "name"@)) {
            Some(name) => prev.push(
                ModelView {
                    id: name,
                    display_name: Some(name),
                    description: model_description(items.last()),
                    context_length: None,
                },
            ),
            None => prev,
        }
    }
}

/// The models that a reply of Ollama's `/api/tags` lists under `models`.
pub open spec fn models_list(payload: JsonView) -> Seq<ModelView> {
    match varr(vfield(Some(payload), "models"@)) {
        Some(items) => models_of(items),
        None => Seq::empty(),
    }
}

/// Every model the list gives has its name as id and as display name, and
/// the list has no more models than the reply has items.
pub proof fn law_models_named(items: Seq<JsonView>)
    ensures
        models_of(items).len() <= items.len(),
        forall|i: int|
            0 <= i < models_of(items).len() ==> #[trigger] models_of(items)[i].display_name == Some(
                models_of(items)[i].id,
            ),
    decreases items.len(),
{
    if items.len() > 0 {
        law_models_named(items.drop_last());
    }
}

pub open spec fn models_view(v: Seq<ModelInfo>) -> Seq<ModelView> {
    Seq::new(v.len(), |i: int| v[i]@)
}

fn model_description_value(item: &JsonValue) -> (r: Option<String>)
    ensures
        opt_text(r) == model_description(item@),
{
    let size: Option<&str> = match item.get("details") {
        Some(d) => match d.get("parameter_size") {
            Some(p) => p.as_str(),
            None => None,
        },
        None => None,
    };
    match size {
        Some(sz) => Some(concat(sz, " parameters")),
        None => {
            let bytes: Option<u64> = match item.get("size") {
                Some(x) => x.as_u64(),
                None => None,
            };
            match bytes {
                Some(n) => Some(concat(decimal_string(n).as_str(), " bytes")),
                None => None,
            }
        },
    }
}

/// The models that a reply of Ollama's `/api/tags` lists (see
/// `models_list`).
pub fn parse_models_list(payload: &JsonValue) -> (r: Vec<ModelInfo>)
    ensures
        models_view(r@) == models_list(payload@),
{
    let mut models: Vec<ModelInfo> = Vec::new();
    let list: Option<&Vec<JsonValue>> = match payload.get("models") {
        Some(x) => x.as_array(),
        None => None,
    };
    let list = match list {
        Some(l) => l,
        None => {
            assert(models_view(models@) =~= Seq::<ModelView>::empty());
            return models;
        },
    };
    let n = list.len();
    let mut i: usize = 0;
    assert(views_of(list@).take(0) =~= Seq::<JsonView>::empty());
    assert(models_view(models@) =~= Seq::<ModelView>::empty());
    while i < n
        invariant
            i <= n == list@.len(),
            models_view(models@) == models_of(views_of(list@).take(i as int)),
        decreases n - i,
    {
        let ghost pre = views_of(list@).take(i as int);
        let ghost next = views_of(list@).take(i + 1);
        assert(next.drop_last() == pre);
        assert(next.last() == list@[i as int]@);
        let item = &list[i];
        let name: Option<&str> = match item.get("name") {
            Some(x) => x.as_str(),
            None => None,
        };
        if let Some(name) = name {
            let m = ModelInfo {
                id: name.to_owned(),
                display_name: Some(name.to_owned()),
                description: model_description_value(item),
                context_length: None,
            };
            let ghost old_models = models@;
            models.push(m);
            assert(models_view(models@) =~= models_view(old_models).push(m@));
        }
        i = i + 1;
    }
    assert(views_of(list@).take(n as int) == views_of(list@));
    models
}

/// What listing the models gives back for a reply: the reply's error when
/// its status is not a success, the parse error when its text is no JSON,
/// else the models it lists.
pub open spec fn models_outcome(success: bool, status: Seq<char>, text: Seq<char>) -> Result<
    Seq<ModelView>,
    Seq<char>,
> {
    if !success {
        Err("Provider returned error "@ + status + ": "@ + text)
    } else {
        match json_parse(text) {
            Ok(v) => Ok(models_list(v)),
            Err(m) => Err(m),
        }
    }
}

/// The models listed by a reply of `/api/tags` (see `models_outcome`);
/// `status` is the reply's status as it prints, `success` whether it is in
/// the 2xx range.
pub fn models_from_reply(success: bool, status: &str, text: &str) -> (r: Result<Vec<ModelInfo>, String>)
    ensures
        match r {
            Ok(ms) => models_outcome(success, status@, text@) == Ok::<Seq<ModelView>, Seq<char>>(
                models_view(ms@),
            ),
            Err(m) => models_outcome(success, status@, text@) == Err::<Seq<ModelView>, Seq<char>>(
                m@,
            ),
        },
{
    if !success {
        let a = concat("Provider returned error ", status);
        let b = concat(a.as_str(), ": ");
        let c = concat(b.as_str(), text);
        return Err(c);
    }
    match parse_json(text) {
        Ok(v) => Ok(parse_models_list(&v)),
        Err(m) => Err(m),
    }
}

/// Whether an HTTP status is a success, as `StatusCode::is_success` decides:
/// in the range 200 to 299.
pub open spec fn is_success_status(status: u16) -> bool {
    200 <= status <= 299
}

pub fn status_is_success(status: u16) -> (r: bool)
    ensures
        r == is_success_status(status),
{
    200 <= status && status <= 299
}

/// The response that the library hands back for a chat request.
#[derive(Debug)]
pub struct ApiResponse {
    pub status: u16,
    pub ok: bool,
    pub headers: KeyedMap<String>,
    pub data: JsonValue,
}

/// The data of a response whose status is no success: its text parsed as
/// JSON, else `{"error": <text>}`.
pub open spec fn error_payload(text: Seq<char>) -> JsonView {
    match json_parse(text) {
        Ok(v) => v,
        Err(_) => JsonView::Object(Map::empty().insert("error"@, JsonView::Str(text))),
    }
}

/// The response for a reply whose status is no success (see `error_payload`).
pub fn error_response(status: u16, text: &str) -> (r: ApiResponse)
    ensures
        r.status == status,
        !r.ok,
        r.headers@ == Map::<Seq<char>, String>::empty(),
        r.data@ == error_payload(text@),
{
    let data = match parse_json(text) {
        Ok(v) => v,
        Err(_) => {
            let mut m: KeyedMap<JsonValue> = KeyedMap::new();
            let v = JsonValue::Str(text.to_owned());
            m.insert("error".to_owned(), v);
            proof {
                lemma_object_view_insert(Map::empty(), "error"@, v);
                assert(object_view(Map::<Seq<char>, JsonValue>::empty()) =~= Map::<Seq<char>, JsonView>::empty());
                lemma_object_view(m);
            }
            JsonValue::Object(m)
        },
    };
    ApiResponse { status, ok: false, headers: KeyedMap::new(), data }
}

/// What a non-streaming chat request gives back for a reply: an error
/// response when the status is no success, the parse error when the text is
/// no JSON, else the reply with its tool calls given ids.
pub open spec fn chat_reply_outcome(status: u16, text: Seq<char>) -> Result<(bool, JsonView), Seq<char>> {
    if !is_success_status(status) {
        Ok((false, error_payload(text)))
    } else {
        match json_parse(text) {
            Ok(v) => Ok((true, with_tool_call_ids(v))),
            Err(m) => Err(m),
        }
    }
}

/// The response of a non-streaming chat request (see `chat_reply_outcome`).
pub fn chat_response(status: u16, text: &str) -> (r: Result<ApiResponse, String>)
    ensures
        match r {
            Ok(resp) => resp.status == status && resp.headers@ == Map::<Seq<char>, String>::empty()
                && chat_reply_outcome(status, text@) == Ok::<(bool, JsonView), Seq<char>>(
                (resp.ok, resp.data@),
            ),
            Err(m) => chat_reply_outcome(status, text@) == Err::<(bool, JsonView), Seq<char>>(m@),
        },
{
    if !status_is_success(status) {
        return Ok(error_response(status, text));
    }
    match parse_json(text) {
        Ok(v) => {
            let mut data = v;
            inject_missing_tool_call_ids(&mut data);
            Ok(ApiResponse { status, ok: true, headers: KeyedMap::new(), data })
        },
        Err(m) => Err(m),
    }
}

/// A reply with a success status gives the reply's JSON with its tool calls
/// given ids, or the parse error when it is no JSON; any other status gives
/// an error response holding the reply's JSON, or `{"error": <text>}`.
pub proof fn law_reply_routing(status: u16, text: Seq<char>)
    ensures
        is_success_status(status) ==> match json_parse(text) {
            Ok(v) => chat_reply_outcome(status, text) == Ok::<(bool, JsonView), Seq<char>>(
                (true, with_tool_call_ids(v)),
            ),
            Err(m) => chat_reply_outcome(status, text) == Err::<(bool, JsonView), Seq<char>>(m),
        },
        !is_success_status(status) ==> chat_reply_outcome(status, text) == Ok::<
            (bool, JsonView),
            Seq<char>,
        >(
            (
                false,
                match json_parse(text) {
                    Ok(v) => v,
                    Err(_) => JsonView::Object(Map::empty().insert("error"@, JsonView::Str(text))),
                },
            ),
        ),
{
}

/// Listing one more item of `/api/tags` adds, after the models of the items
/// before it, one model when the item has a string `name`: named by it, and
/// described by `<details.parameter_size> parameters` when the item has a
/// string parameter size (whatever its `size`), else by `<size> bytes` when
/// it has a byte count, else not at all. An item without a name adds none.
pub proof fn law_model_of_item(prev: Seq<JsonView>, item: JsonView)
    ensures
        ({
            let name = vstr(vfield(Some(item), "name"@));
            let psize = vstr(vfield(vfield(Some(item), "details"@), "parameter_size"@));
            let bytes = vu64(vfield(Some(item), "size"@));
            let listed = models_of(prev.push(item));
            &&& name is None ==> listed == models_of(prev)
            &&& name is Some ==> {
                &&& listed.len() == models_of(prev).len() + 1
                &&& listed.drop_last() == models_of(prev)
                &&& listed.last().id == name->0
                &&& listed.last().display_name == name
                &&& listed.last().context_length is None
                &&& psize is Some ==> listed.last().description == Some(
                    psize->0 + " parameters"@,
                )
                &&& (psize is None && bytes is Some) ==> listed.last().description == Some(
                    decimal(bytes->0 as nat) + " bytes"@,
                )
                &&& (psize is None && bytes is None) ==> listed.last().description is None
            }
        }),
{
    assert(prev.push(item).drop_last() == prev);
    assert(prev.push(item).last() == item);
}

} // verus!
