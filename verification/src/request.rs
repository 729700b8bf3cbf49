//! Normalization of an OpenAI-style chat request body into the body that
//! Ollama's `/api/chat` takes: message content flattened to text plus base64
//! images, tool calls rewritten into Ollama's shape, tool results named, and
//! the reasoning switch carried over to `think`.
//!
//! Remote images are fetched outside the library: normalization stops with
//! `NormalizeStop::FetchImage` on the first remote image whose outcome is not
//! in `fetched`, and is run again once it is.

use vstd::prelude::*;
use crate::images::{
    image_outcome, image_url_to_base64, FetchedImage, NormalizeStop, StopView,
};
use crate::json::{
    json_parse, json_text, lemma_array_view, lemma_object_view, lemma_object_view_insert,
    lemma_object_view_remove, object_view, parse_json, to_json_text, varr, vfield, vstr, vu64,
    views_of, JsonNumber, JsonValue, JsonView, NumberView,
};
use crate::keyed_map::KeyedMap;
use crate::text::{concat, str_eq};

verus! {

/// The view of an optional borrowed value.
pub open spec fn opt_view(v: Option<&JsonValue>) -> Option<JsonView> {
    match v {
        Some(x) => Some(x@),
        None => None,
    }
}

/// The texts of a sequence of strings.
pub open spec fn strings_view(v: Seq<String>) -> Seq<Seq<char>> {
    Seq::new(v.len(), |i: int| v[i]@)
}

/// What one part of an array content contributes.
pub enum PartEffect {
    Skip,
    Text(Seq<char>),
    Image(Result<Seq<char>, StopView>),
}

/// A `text` part gives its text, an `image_url` part its image; anything
/// else, and a part that lacks what its type needs, is skipped.
pub open spec fn part_effect(p: JsonView, f: Seq<FetchedImage>) -> PartEffect {
    match p {
        JsonView::Object(_) => {
            let ty = vstr(vfield(Some(p), "type"@));
            if ty == Some("text"@) {
                match vstr(vfield(Some(p), "text"@)) {
                    Some(t) => PartEffect::Text(t),
                    None => PartEffect::Skip,
                }
            } else if ty == Some("image_url"@) {
                match vstr(vfield(vfield(Some(p), "image_url"@), "url"@)) {
                    Some(u) => PartEffect::Image(image_outcome(u, f)),
                    None => PartEffect::Skip,
                }
            } else {
                PartEffect::Skip
            }
        },
        _ => PartEffect::Skip,
    }
}

/// The text and images of the parts, in order; the first image that stops
/// stops the whole.
pub open spec fn parts_outcome(parts: Seq<JsonView>, f: Seq<FetchedImage>) -> Result<
    (Seq<char>, Seq<Seq<char>>),
    StopView,
>
    decreases parts.len(),
{
    if parts.len() == 0 {
        Ok((Seq::empty(), Seq::empty()))
    } else {
        match parts_outcome(parts.drop_last(), f) {
            Err(s) => Err(s),
            Ok((text, images)) => match part_effect(parts.last(), f) {
                PartEffect::Skip => Ok((text, images)),
                PartEffect::Text(t) => Ok((text + t, images)),
                PartEffect::Image(Ok(d)) => Ok((text, images.push(d))),
                PartEffect::Image(Err(s)) => Err(s),
            },
        }
    }
}

/// The text and images of a message's `content`: none when it is absent,
/// the string itself, the parts of an array, or the JSON text of any other
/// value.
pub open spec fn content_outcome(c: Option<JsonView>, f: Seq<FetchedImage>) -> Result<
    (Seq<char>, Seq<Seq<char>>),
    StopView,
> {
    match c {
        None => Ok((Seq::empty(), Seq::empty())),
        Some(JsonView::Str(t)) => Ok((t, Seq::empty())),
        Some(JsonView::Array(parts)) => parts_outcome(parts, f),
        Some(other) => Ok((json_text(other), Seq::empty())),
    }
}

/// One step of the content conversion, as the library computes it.
enum PartStep {
    Skip,
    Text(String),
    Image(Result<String, NormalizeStop>),
}

spec fn part_step_matches(s: PartStep, e: PartEffect) -> bool {
    match (s, e) {
        (PartStep::Skip, PartEffect::Skip) => true,
        (PartStep::Text(t), PartEffect::Text(u)) => t@ == u,
        (PartStep::Image(Ok(d)), PartEffect::Image(Ok(u))) => d@ == u,
        (PartStep::Image(Err(x)), PartEffect::Image(Err(y))) => x@ == y,
        _ => false,
    }
}

fn convert_part(part: &JsonValue, fetched: &Vec<FetchedImage>) -> (r: PartStep)
    ensures
        part_step_matches(r, part_effect(part@, fetched@)),
{
    if part.as_object().is_none() {
        return PartStep::Skip;
    }
    let ty = match part.get("type") {
        Some(t) => t.as_str(),
        None => None,
    };
    let is_text = match ty {
        Some(t) => str_eq(t, "text"),
        None => false,
    };
    let is_image = match ty {
        Some(t) => str_eq(t, "image_url"),
        None => false,
    };
    if is_text {
        match part.get("text") {
            Some(t) => match t.as_str() {
                Some(s) => PartStep::Text(s.to_owned()),
                None => PartStep::Skip,
            },
            None => PartStep::Skip,
        }
    } else if is_image {
        let url = match part.get("image_url") {
            Some(image) => if image.as_object().is_some() {
                match image.get("url") {
                    Some(u) => u.as_str(),
                    None => None,
                }
            } else {
                None
            },
            None => None,
        };
        match url {
            Some(u) => PartStep::Image(image_url_to_base64(u, fetched)),
            None => PartStep::Skip,
        }
    } else {
        PartStep::Skip
    }
}

fn convert_parts(parts: &Vec<JsonValue>, fetched: &Vec<FetchedImage>) -> (r: Result<
    (String, Vec<String>),
    NormalizeStop,
>)
    ensures
        match r {
            Ok((t, imgs)) => parts_outcome(views_of(parts@), fetched@) == Ok::<
                (Seq<char>, Seq<Seq<char>>),
                StopView,
            >((t@, strings_view(imgs@))),
            Err(e) => parts_outcome(views_of(parts@), fetched@) == Err::<
                (Seq<char>, Seq<Seq<char>>),
                StopView,
            >(e@),
        },
{
    let mut text = String::new();
    let mut images: Vec<String> = Vec::new();
    let n = parts.len();
    let mut i: usize = 0;
    assert(views_of(parts@).take(0) =~= Seq::<JsonView>::empty());
    assert(strings_view(images@) =~= Seq::<Seq<char>>::empty());
    while i < n
        invariant
            i <= n == parts@.len(),
            parts_outcome(views_of(parts@).take(i as int), fetched@) == Ok::<
                (Seq<char>, Seq<Seq<char>>),
                StopView,
            >((text@, strings_view(images@))),
        decreases n - i,
    {
        let ghost pre = views_of(parts@).take(i as int);
        let ghost next = views_of(parts@).take(i + 1);
        assert(next.drop_last() == pre);
        assert(next.last() == parts@[i as int]@);
        match convert_part(&parts[i], fetched) {
            PartStep::Skip => {},
            PartStep::Text(t) => {
                text = concat(text.as_str(), t.as_str());
            },
            PartStep::Image(Ok(d)) => {
                let ghost old_images = images@;
                images.push(d);
                assert(strings_view(images@) =~= strings_view(old_images).push(d@));
            },
            PartStep::Image(Err(e)) => {
                proof {
                    lemma_parts_outcome_stops(views_of(parts@), fetched@, i as int + 1);
                    assert(views_of(parts@).take(n as int) == views_of(parts@));
                }
                return Err(e);
            },
        }
        i = i + 1;
    }
    assert(views_of(parts@).take(n as int) == views_of(parts@));
    Ok((text, images))
}

/// Once the outcome of a prefix of the parts has stopped, so has the outcome
/// of every longer prefix.
proof fn lemma_parts_outcome_stops(parts: Seq<JsonView>, f: Seq<FetchedImage>, i: int)
    requires
        0 <= i <= parts.len(),
        parts_outcome(parts.take(i), f) is Err,
    ensures
        parts_outcome(parts, f) == parts_outcome(parts.take(i), f),
    decreases parts.len() - i,
{
    if i < parts.len() {
        assert(parts.take(i + 1).drop_last() == parts.take(i));
        lemma_parts_outcome_stops(parts, f, i + 1);
    } else {
        assert(parts.take(i) == parts);
    }
}

/// The text and images of a message's `content` (see `content_outcome`).
pub fn convert_content(value: Option<&JsonValue>, fetched: &Vec<FetchedImage>) -> (r: Result<
    (String, Vec<String>),
    NormalizeStop,
>)
    ensures
        match r {
            Ok((t, imgs)) => content_outcome(opt_view(value), fetched@) == Ok::<
                (Seq<char>, Seq<Seq<char>>),
                StopView,
            >((t@, strings_view(imgs@))),
            Err(e) => content_outcome(opt_view(value), fetched@) == Err::<
                (Seq<char>, Seq<Seq<char>>),
                StopView,
            >(e@),
        },
{
    match value {
        None => {
            let t = String::new();
            let imgs: Vec<String> = Vec::new();
            assert(strings_view(imgs@) =~= Seq::<Seq<char>>::empty());
            Ok((t, imgs))
        },
        Some(v) => match v {
            JsonValue::Str(t) => {
                let imgs: Vec<String> = Vec::new();
                assert(strings_view(imgs@) =~= Seq::<Seq<char>>::empty());
                Ok((t.clone(), imgs))
            },
            JsonValue::Array(parts) => {
                proof {
                    lemma_array_view(*parts);
                }
                convert_parts(parts, fetched)
            },
            other => {
                let imgs: Vec<String> = Vec::new();
                assert(strings_view(imgs@) =~= Seq::<Seq<char>>::empty());
                Ok((to_json_text(other), imgs))
            },
        },
    }
}

/// The texts of a map from ids to tool names.
pub open spec fn names_view(m: Map<Seq<char>, String>) -> Map<Seq<char>, Seq<char>> {
    Map::new(
        |k: Seq<char>| m.dom().contains(k),
        |k: Seq<char>|
            if m.dom().contains(k) {
                m[k]@
            } else {
                Seq::empty()
            },
    )
}

proof fn lemma_names_view_insert(m: Map<Seq<char>, String>, k: Seq<char>, v: String)
    ensures
        names_view(m.insert(k, v)) == names_view(m).insert(k, v@),
{
    assert(names_view(m.insert(k, v)) =~= names_view(m).insert(k, v@));
}

/// The object that holds a tool call's function: its `function` field, or
/// the call itself when it has none.
pub open spec fn tool_call_function(tc: JsonView) -> JsonView {
    match vfield(Some(tc), "function"@) {
        Some(func) => func,
        None => tc,
    }
}

/// A function's arguments: an object parsed from a string of JSON text, the
/// string itself when it is no JSON, any other value as it is, and an empty
/// object when there are none.
pub open spec fn tool_call_arguments(func: JsonView) -> JsonView {
    match vfield(Some(func), "arguments"@) {
        Some(JsonView::Str(raw)) => match json_parse(raw) {
            Ok(v) => v,
            Err(_) => JsonView::Str(raw),
        },
        Some(other) => other,
        None => JsonView::Object(Map::empty()),
    }
}

/// A tool call in Ollama's shape: `{"type": "function", "function":
/// {"index", "name", "arguments"}}`, where the index is the function's own
/// non-negative `index` or else the call's position.
pub open spec fn ollama_tool_call(position: int, func: JsonView, name: Seq<char>) -> JsonView {
    let index: u64 = match vu64(vfield(Some(func), "index"@)) {
        Some(u) => u,
        None => position as u64,
    };
    JsonView::Object(
        Map::empty().insert("type"@, JsonView::Str("function"@)).insert(
            "function"@,
            JsonView::Object(
                Map::empty().insert(
                    "index"@,
                    JsonView::Number(NumberView::PosInt(index)),
                ).insert("name"@, JsonView::Str(name)).insert(
                    "arguments"@,
                    tool_call_arguments(func),
                ),
            ),
        ),
    )
}

/// A tool call's non-empty string `id`.
pub open spec fn tool_call_id(tc: JsonView) -> Option<Seq<char>> {
    match vstr(vfield(Some(tc), "id"@)) {
        Some(i) => if i.len() > 0 {
            Some(i)
        } else {
            None
        },
        None => None,
    }
}

/// The tool calls in Ollama's shape, skipping those whose function has no
/// string `name`, and the map from ids to tool names with each named call's
/// id added.
pub open spec fn tool_calls_outcome(tcs: Seq<JsonView>, names: Map<Seq<char>, Seq<char>>) -> (
    Seq<JsonView>,
    Map<Seq<char>, Seq<char>>,
)
    decreases tcs.len(),
{
    if tcs.len() == 0 {
        (Seq::empty(), names)
    } else {
        let (out, names1) = tool_calls_outcome(tcs.drop_last(), names);
        let tc = tcs.last();
        let func = tool_call_function(tc);
        match vstr(vfield(Some(func), "name"@)) {
            None => (out, names1),
            Some(name) => (
                out.push(ollama_tool_call(tcs.len() - 1, func, name)),
                match tool_call_id(tc) {
                    Some(id) => names1.insert(id, name),
                    None => names1,
                },
            ),
        }
    }
}

fn tool_call_arguments_value(func: &JsonValue) -> (r: JsonValue)
    ensures
        r@ == tool_call_arguments(func@),
{
    match func.get("arguments") {
        Some(a) => match a {
            JsonValue::Str(raw) => match parse_json(raw.as_str()) {
                Ok(v) => v,
                Err(_) => JsonValue::Str(raw.clone()),
            },
            other => other.duplicate(),
        },
        None => {
            let m: KeyedMap<JsonValue> = KeyedMap::new();
            proof {
                lemma_object_view(m);
                assert(object_view(m@) =~= Map::<Seq<char>, JsonView>::empty());
            }
            JsonValue::Object(m)
        },
    }
}

fn ollama_tool_call_value(position: usize, func: &JsonValue, name: &String) -> (r: JsonValue)
    ensures
        r@ == ollama_tool_call(position as int, func@, name@),
{
    let index: u64 = match func.get("index") {
        Some(x) => match x.as_u64() {
            Some(u) => u,
            None => position as u64,
        },
        None => position as u64,
    };
    let arguments = tool_call_arguments_value(func);
    let ghost av = arguments@;
    let mut inner: KeyedMap<JsonValue> = KeyedMap::new();
    let v1 = JsonValue::Number(JsonNumber::PosInt(index));
    let v2 = JsonValue::Str(name.clone());
    inner.insert("index".to_owned(), v1);
    inner.insert("name".to_owned(), v2);
    inner.insert("arguments".to_owned(), arguments);
    proof {
        let e = Map::<Seq<char>, JsonValue>::empty();
        lemma_object_view_insert(e, "index"@, v1);
        lemma_object_view_insert(e.insert("index"@, v1), "name"@, v2);
        lemma_object_view_insert(e.insert("index"@, v1).insert("name"@, v2), "arguments"@, arguments);
        assert(object_view(e) =~= Map::<Seq<char>, JsonView>::empty());
        lemma_object_view(inner);
    }
    let mut outer: KeyedMap<JsonValue> = KeyedMap::new();
    let w1 = JsonValue::Str("function".to_owned());
    let w2 = JsonValue::Object(inner);
    outer.insert("type".to_owned(), w1);
    outer.insert("function".to_owned(), w2);
    proof {
        let e = Map::<Seq<char>, JsonValue>::empty();
        lemma_object_view_insert(e, "type"@, w1);
        lemma_object_view_insert(e.insert("type"@, w1), "function"@, w2);
        assert(object_view(e) =~= Map::<Seq<char>, JsonView>::empty());
        lemma_object_view(outer);
    }
    JsonValue::Object(outer)
}

/// Rewrites OpenAI-style tool calls into Ollama's shape and records, for each
/// call with a non-empty id, the name of its tool (see `tool_calls_outcome`).
pub fn normalize_assistant_tool_calls(
    tool_calls: &Vec<JsonValue>,
    tool_call_name_by_id: &mut KeyedMap<String>,
) -> (r: Vec<JsonValue>)
    ensures
        tool_calls_outcome(views_of(tool_calls@), names_view(old(tool_call_name_by_id)@)) == (
            views_of(r@),
            names_view(final(tool_call_name_by_id)@),
        ),
{
    let ghost names0 = names_view(tool_call_name_by_id@);
    let mut out: Vec<JsonValue> = Vec::new();
    let n = tool_calls.len();
    let mut i: usize = 0;
    assert(views_of(tool_calls@).take(0) =~= Seq::<JsonView>::empty());
    assert(views_of(out@) =~= Seq::<JsonView>::empty());
    while i < n
        invariant
            i <= n == tool_calls@.len(),
            tool_calls_outcome(views_of(tool_calls@).take(i as int), names0) == (
                views_of(out@),
                names_view(tool_call_name_by_id@),
            ),
        decreases n - i,
    {
        let ghost pre = views_of(tool_calls@).take(i as int);
        let ghost next = views_of(tool_calls@).take(i + 1);
        assert(next.drop_last() == pre);
        assert(next.last() == tool_calls@[i as int]@);
        let tc = &tool_calls[i];
        let func: &JsonValue = match tc.get("function") {
            Some(f) => f,
            None => tc,
        };
        let name: Option<&str> = match func.get("name") {
            Some(x) => x.as_str(),
            None => None,
        };
        if let Some(name) = name {
            let name = name.to_owned();
            let id: Option<&str> = match tc.get("id") {
                Some(x) => x.as_str(),
                None => None,
            };
            if let Some(id) = id {
                if !id.is_empty() {
                    let ghost before = tool_call_name_by_id@;
                    tool_call_name_by_id.insert(id.to_owned(), name.clone());
                    proof {
                        lemma_names_view_insert(before, id@, name);
                    }
                }
            }
            let v = ollama_tool_call_value(i, func, &name);
            let ghost old_out = out@;
            out.push(v);
            assert(views_of(out@) =~= views_of(old_out).push(v@));
        }
        i = i + 1;
    }
    assert(views_of(tool_calls@).take(n as int) == views_of(tool_calls@));
    out
}

/// The tool name of a `tool` message: its own string `tool_name`, else the
/// name recorded for its string `tool_call_id`.
pub open spec fn tool_name_of(msg: JsonView, names: Map<Seq<char>, Seq<char>>) -> Option<Seq<char>> {
    match vstr(vfield(Some(msg), "tool_name"@)) {
        Some(n) => Some(n),
        None => match vstr(vfield(Some(msg), "tool_call_id"@)) {
            Some(id) => if names.dom().contains(id) {
                Some(names[id])
            } else {
                None
            },
            None => None,
        },
    }
}

/// The role of a message: its string `role`, else `user`.
pub open spec fn role_of(msg: JsonView) -> Seq<char> {
    match vstr(vfield(Some(msg), "role"@)) {
        Some(r) => r,
        None => "user"@,
    }
}

/// The images of a message as an array of strings.
pub open spec fn images_array(images: Seq<Seq<char>>) -> JsonView {
    JsonView::Array(Seq::new(images.len(), |i: int| JsonView::Str(images[i])))
}

/// A message in Ollama's shape, and the map from tool-call ids to tool names
/// after it. The message keeps its fields but `content` and `images`; its
/// `role` is set, its content becomes text; an assistant's tool calls are
/// rewritten when any has a name; a tool message gets its `tool_name`; the
/// images, when there are any, go to `images`.
pub open spec fn message_outcome(
    msg: JsonView,
    names: Map<Seq<char>, Seq<char>>,
    f: Seq<FetchedImage>,
) -> Result<(JsonView, Map<Seq<char>, Seq<char>>), StopView> {
    match msg {
        JsonView::Object(m) => {
            let role = role_of(msg);
            match content_outcome(vfield(Some(msg), "content"@), f) {
                Err(s) => Err(s),
                Ok((text, images)) => {
                    let base = m.remove("content"@).remove("images"@).insert(
                        "role"@,
                        JsonView::Str(role),
                    ).insert("content"@, JsonView::Str(text));
                    let calls = varr(vfield(Some(msg), "tool_calls"@));
                    let (with_calls, names1) = if role == "assistant"@ && calls is Some {
                        let (normalized, names1) = tool_calls_outcome(calls->0, names);
                        (
                            if normalized.len() > 0 {
                                base.insert("tool_calls"@, JsonView::Array(normalized))
                            } else {
                                base
                            },
                            names1,
                        )
                    } else {
                        (base, names)
                    };
                    let with_name = if role == "tool"@ {
                        match tool_name_of(msg, names1) {
                            Some(n) => with_calls.insert("tool_name"@, JsonView::Str(n)),
                            None => with_calls,
                        }
                    } else {
                        with_calls
                    };
                    let fin = if images.len() > 0 {
                        with_name.insert("images"@, images_array(images))
                    } else {
                        with_name
                    };
                    Ok((JsonView::Object(fin), names1))
                },
            }
        },
        _ => Err(StopView::Error("Ollama message must be a JSON object"@)),
    }
}

/// Converts one message into Ollama's shape (see `message_outcome`); on a
/// stop the map of tool names is left as it was.
pub fn convert_message(
    value: &JsonValue,
    tool_call_name_by_id: &mut KeyedMap<String>,
    fetched: &Vec<FetchedImage>,
) -> (r: Result<JsonValue, NormalizeStop>)
    ensures
        match r {
            Ok(v) => message_outcome(value@, names_view(old(tool_call_name_by_id)@), fetched@)
                == Ok::<(JsonView, Map<Seq<char>, Seq<char>>), StopView>(
                (v@, names_view(final(tool_call_name_by_id)@)),
            ),
            Err(e) => message_outcome(value@, names_view(old(tool_call_name_by_id)@), fetched@)
                == Err::<(JsonView, Map<Seq<char>, Seq<char>>), StopView>(e@)
                && final(tool_call_name_by_id)@ == old(tool_call_name_by_id)@,
        },
{
    let ghost names0 = names_view(tool_call_name_by_id@);
    if value.as_object().is_none() {
        return Err(NormalizeStop::Error("Ollama message must be a JSON object".to_owned()));
    }
    let role: String = match value.get("role") {
        Some(x) => match x.as_str() {
            Some(r) => r.to_owned(),
            None => "user".to_owned(),
        },
        None => "user".to_owned(),
    };
    assert(role@ == role_of(value@));
    let (content, images) = match convert_content(value.get("content"), fetched) {
        Ok(x) => x,
        Err(e) => return Err(e),
    };
    let mut message: KeyedMap<JsonValue> = match value.duplicate() {
        JsonValue::Object(m) => m,
        _ => {
            proof {
                assert(false);
            }
            KeyedMap::new()
        },
    };
    proof {
        lemma_object_view(message);
    }
    let ghost m0 = value@->Object_0;
    assert(object_view(message@) == m0);
    let ghost mm = message@;
    message.remove("content");
    proof {
        lemma_object_view_remove(mm, "content"@);
    }
    let ghost mm = message@;
    message.remove("images");
    proof {
        lemma_object_view_remove(mm, "images"@);
    }
    let ghost mm = message@;
    let v_role = JsonValue::Str(role.clone());
    message.insert("role".to_owned(), v_role);
    proof {
        lemma_object_view_insert(mm, "role"@, v_role);
    }
    let ghost mm = message@;
    let v_content = JsonValue::Str(content);
    message.insert("content".to_owned(), v_content);
    proof {
        lemma_object_view_insert(mm, "content"@, v_content);
    }
    let ghost base = object_view(message@);
    assert(base == m0.remove("content"@).remove("images"@).insert("role"@, JsonView::Str(role@)).insert(
        "content"@,
        JsonView::Str(content@),
    ));
    let is_assistant = str_eq(role.as_str(), "assistant");
    let calls: Option<&Vec<JsonValue>> = match value.get("tool_calls") {
        Some(x) => x.as_array(),
        None => None,
    };
    if is_assistant {
        if let Some(arr) = calls {
            let normalized = normalize_assistant_tool_calls(arr, tool_call_name_by_id);
            if normalized.len() > 0 {
                let ghost mm = message@;
                let v = JsonValue::Array(normalized);
                proof {
                    lemma_array_view(normalized);
                }
                message.insert("tool_calls".to_owned(), v);
                proof {
                    lemma_object_view_insert(mm, "tool_calls"@, v);
                }
            }
        }
    }
    let ghost with_calls = object_view(message@);
    let ghost names1 = names_view(tool_call_name_by_id@);
    if str_eq(role.as_str(), "tool") {
        let name: Option<String> = match value.get("tool_name") {
            Some(x) => match x.as_str() {
                Some(n) => Some(n.to_owned()),
                None => None,
            },
            None => None,
        };
        let name: Option<String> = match name {
            Some(n) => Some(n),
            None => {
                let id: Option<&str> = match value.get("tool_call_id") {
                    Some(x) => x.as_str(),
                    None => None,
                };
                match id {
                    Some(id) => match tool_call_name_by_id.get(id) {
                        Some(n) => Some(n.clone()),
                        None => None,
                    },
                    None => None,
                }
            },
        };
        assert(match name {
            Some(n) => tool_name_of(value@, names1) == Some(n@),
            None => tool_name_of(value@, names1) is None,
        });
        if let Some(n) = name {
            let ghost mm = message@;
            let v = JsonValue::Str(n);
            message.insert("tool_name".to_owned(), v);
            proof {
                lemma_object_view_insert(mm, "tool_name"@, v);
            }
        }
    }
    if images.len() > 0 {
        let mut arr: Vec<JsonValue> = Vec::new();
        let mut i: usize = 0;
        while i < images.len()
            invariant
                i <= images@.len(),
                arr@.len() == i,
                forall|j: int| 0 <= j < i ==> #[trigger] arr@[j]@ == JsonView::Str(images@[j]@),
            decreases images@.len() - i,
        {
            arr.push(JsonValue::Str(images[i].clone()));
            i = i + 1;
        }
        let ghost mm = message@;
        proof {
            lemma_array_view(arr);
            assert(views_of(arr@) =~= images_array(strings_view(images@))->Array_0);
        }
        let v = JsonValue::Array(arr);
        message.insert("images".to_owned(), v);
        proof {
            lemma_object_view_insert(mm, "images"@, v);
        }
    }
    proof {
        lemma_object_view(message);
    }
    Ok(JsonValue::Object(message))
}

/// The messages in Ollama's shape, in order, and the map from tool-call ids
/// to tool names that the assistants' tool calls build; the first message
/// that stops stops the whole.
pub open spec fn messages_outcome(ms: Seq<JsonView>, f: Seq<FetchedImage>) -> Result<
    (Seq<JsonView>, Map<Seq<char>, Seq<char>>),
    StopView,
>
    decreases ms.len(),
{
    if ms.len() == 0 {
        Ok((Seq::empty(), Map::empty()))
    } else {
        match messages_outcome(ms.drop_last(), f) {
            Err(s) => Err(s),
            Ok((out, names)) => match message_outcome(ms.last(), names, f) {
                Err(s) => Err(s),
                Ok((m, names1)) => Ok((out.push(m), names1)),
            },
        }
    }
}

/// The body with `think` set, when it is not, from the first of
/// `reasoning_effort`, `reasoningEffort`, `reasoning` and `reasoningEnabled`
/// that the body has.
pub open spec fn with_think(m: Map<Seq<char>, JsonView>) -> Map<Seq<char>, JsonView> {
    if m.dom().contains("think"@) {
        m
    } else if m.dom().contains("reasoning_effort"@) {
        m.insert("think"@, m["reasoning_effort"@])
    } else if m.dom().contains("reasoningEffort"@) {
        m.insert("think"@, m["reasoningEffort"@])
    } else if m.dom().contains("reasoning"@) {
        m.insert("think"@, m["reasoning"@])
    } else if m.dom().contains("reasoningEnabled"@) {
        m.insert("think"@, m["reasoningEnabled"@])
    } else {
        m
    }
}

/// The request body in the shape of Ollama's `/api/chat`: it must be an
/// object with a string `model` that is not blank and an array `messages`;
/// its messages are converted in order, and `think` is carried over.
pub open spec fn normalized_body(b: JsonView, f: Seq<FetchedImage>) -> Result<JsonView, StopView> {
    match b {
        JsonView::Object(m) => match vstr(vfield(Some(b), "model"@)) {
            None => Err(StopView::Error("Ollama request body is missing model"@)),
            Some(model) => if crate::text::trim(model).len() == 0 {
                Err(StopView::Error("Ollama request body has an empty model"@))
            } else {
                match varr(vfield(Some(b), "messages"@)) {
                    None => Err(StopView::Error("Ollama request body is missing messages"@)),
                    Some(ms) => match messages_outcome(ms, f) {
                        Err(s) => Err(s),
                        Ok((out, _names)) => Ok(
                            JsonView::Object(with_think(m.insert("messages"@, JsonView::Array(out)))),
                        ),
                    },
                }
            },
        },
        _ => Err(StopView::Error("Ollama request body must be a JSON object"@)),
    }
}

/// Sets `think` from the first reasoning field that the map has.
fn carry_think(object: &mut KeyedMap<JsonValue>)
    ensures
        object_view(final(object)@) == with_think(object_view(old(object)@)),
{
    if object.contains_key("think") {
        return;
    }
    let found: Option<JsonValue> = match object.get("reasoning_effort") {
        Some(v) => Some(v.duplicate()),
        None => match object.get("reasoningEffort") {
            Some(v) => Some(v.duplicate()),
            None => match object.get("reasoning") {
                Some(v) => Some(v.duplicate()),
                None => match object.get("reasoningEnabled") {
                    Some(v) => Some(v.duplicate()),
                    None => None,
                },
            },
        },
    };
    if let Some(v) = found {
        let ghost mm = object@;
        object.insert("think".to_owned(), v);
        proof {
            lemma_object_view_insert(mm, "think"@, v);
        }
    }
}

/// Normalizes a chat request body for Ollama (see `normalized_body`).
pub fn normalize_request_body(body: &JsonValue, fetched: &Vec<FetchedImage>) -> (r: Result<
    JsonValue,
    NormalizeStop,
>)
    ensures
        match r {
            Ok(v) => normalized_body(body@, fetched@) == Ok::<JsonView, StopView>(v@),
            Err(e) => normalized_body(body@, fetched@) == Err::<JsonView, StopView>(e@),
        },
{
    if body.as_object().is_none() {
        return Err(NormalizeStop::Error("Ollama request body must be a JSON object".to_owned()));
    }
    let model: Option<&str> = match body.get("model") {
        Some(x) => x.as_str(),
        None => None,
    };
    let model = match model {
        Some(m) => m,
        None => return Err(NormalizeStop::Error("Ollama request body is missing model".to_owned())),
    };
    let trimmed = crate::text::trim_chars(&crate::text::chars_of(model));
    if trimmed.len() == 0 {
        return Err(NormalizeStop::Error("Ollama request body has an empty model".to_owned()));
    }
    let messages: Option<&Vec<JsonValue>> = match body.get("messages") {
        Some(x) => x.as_array(),
        None => None,
    };
    let messages = match messages {
        Some(ms) => ms,
        None => return Err(
            NormalizeStop::Error("Ollama request body is missing messages".to_owned()),
        ),
    };
    let mut names: KeyedMap<String> = KeyedMap::new();
    let mut converted: Vec<JsonValue> = Vec::new();
    let n = messages.len();
    let mut i: usize = 0;
    assert(views_of(messages@).take(0) =~= Seq::<JsonView>::empty());
    assert(views_of(converted@) =~= Seq::<JsonView>::empty());
    assert(names_view(names@) =~= Map::<Seq<char>, Seq<char>>::empty());
    let ghost whole = match messages_outcome(views_of(messages@), fetched@) {
        Err(s) => Err(s),
        Ok((out, _names)) => Ok(
            JsonView::Object(with_think(body@->Object_0.insert("messages"@, JsonView::Array(out)))),
        ),
    };
    assert(normalized_body(body@, fetched@) == whole);
    while i < n
        invariant
            i <= n == messages@.len(),
            normalized_body(body@, fetched@) == whole,
            whole == match messages_outcome(views_of(messages@), fetched@) {
                Err(s) => Err(s),
                Ok((out, _names)) => Ok(
                    JsonView::Object(with_think(body@->Object_0.insert("messages"@, JsonView::Array(out)))),
                ),
            },
            messages_outcome(views_of(messages@).take(i as int), fetched@) == Ok::<
                (Seq<JsonView>, Map<Seq<char>, Seq<char>>),
                StopView,
            >((views_of(converted@), names_view(names@))),
        decreases n - i,
    {
        let ghost pre = views_of(messages@).take(i as int);
        let ghost next = views_of(messages@).take(i + 1);
        assert(next.drop_last() == pre);
        assert(next.last() == messages@[i as int]@);
        match convert_message(&messages[i], &mut names, fetched) {
            Ok(m) => {
                let ghost old_conv = converted@;
                converted.push(m);
                assert(views_of(converted@) =~= views_of(old_conv).push(m@));
            },
            Err(e) => {
                proof {
                    lemma_messages_outcome_stops(views_of(messages@), fetched@, i as int + 1);
                    assert(views_of(messages@).take(n as int) == views_of(messages@));
                }
                return Err(e);
            },
        }
        i = i + 1;
    }
    assert(views_of(messages@).take(n as int) == views_of(messages@));
    let mut object: KeyedMap<JsonValue> = match body.duplicate() {
        JsonValue::Object(m) => m,
        _ => {
            proof {
                assert(false);
            }
            KeyedMap::new()
        },
    };
    proof {
        lemma_object_view(object);
        lemma_array_view(converted);
    }
    let ghost mm = object@;
    let v = JsonValue::Array(converted);
    object.insert("messages".to_owned(), v);
    proof {
        lemma_object_view_insert(mm, "messages"@, v);
    }
    carry_think(&mut object);
    proof {
        lemma_object_view(object);
    }
    Ok(JsonValue::Object(object))
}

/// Once the outcome of a prefix of the messages has stopped, so has the
/// outcome of every longer prefix.
proof fn lemma_messages_outcome_stops(ms: Seq<JsonView>, f: Seq<FetchedImage>, i: int)
    requires
        0 <= i <= ms.len(),
        messages_outcome(ms.take(i), f) is Err,
    ensures
        messages_outcome(ms, f) == messages_outcome(ms.take(i), f),
    decreases ms.len() - i,
{
    if i < ms.len() {
        assert(ms.take(i + 1).drop_last() == ms.take(i));
        lemma_messages_outcome_stops(ms, f, i + 1);
    } else {
        assert(ms.take(i) == ms);
    }
}

/// A message that converts has a string `role` and a string `content`.
pub proof fn lemma_message_shape(
    msg: JsonView,
    names: Map<Seq<char>, Seq<char>>,
    f: Seq<FetchedImage>,
)
    requires
        message_outcome(msg, names, f) is Ok,
    ensures
        ({
            let m = message_outcome(msg, names, f)->Ok_0.0;
            &&& vstr(vfield(Some(m), "role"@)) == Some(role_of(msg))
            &&& vstr(vfield(Some(m), "content"@)) is Some
        }),
{
    reveal_strlit("role");
    reveal_strlit("content");
    reveal_strlit("tool_calls");
    reveal_strlit("tool_name");
    reveal_strlit("images");
    assert("role"@[0] != "content"@[0]);
    assert("role"@ != "content"@);
    assert("role"@[0] != "tool_calls"@[0]);
    assert("role"@ != "tool_calls"@);
    assert("role"@[0] != "tool_name"@[0]);
    assert("role"@ != "tool_name"@);
    assert("role"@[0] != "images"@[0]);
    assert("role"@ != "images"@);
    assert("content"@[0] != "tool_calls"@[0]);
    assert("content"@ != "tool_calls"@);
    assert("content"@[0] != "tool_name"@[0]);
    assert("content"@ != "tool_name"@);
    assert("content"@[0] != "images"@[0]);
    assert("content"@ != "images"@);
    let m = msg->Object_0;
    let role = role_of(msg);
    let (text, images) = content_outcome(vfield(Some(msg), "content"@), f)->Ok_0;
    let base = m.remove("content"@).remove("images"@).insert("role"@, JsonView::Str(role)).insert(
        "content"@,
        JsonView::Str(text),
    );
    assert(base["role"@] == JsonView::Str(role));
    assert(base["content"@] == JsonView::Str(text));
}

/// Each message that the messages convert into has a string `role` and a
/// string `content`, and there are as many as there were.
pub proof fn lemma_messages_shape(ms: Seq<JsonView>, f: Seq<FetchedImage>)
    requires
        messages_outcome(ms, f) is Ok,
    ensures
        messages_outcome(ms, f)->Ok_0.0.len() == ms.len(),
        forall|i: int|
            0 <= i < ms.len() ==> {
                let m = #[trigger] messages_outcome(ms, f)->Ok_0.0[i];
                &&& vstr(vfield(Some(m), "role"@)) == Some(role_of(ms[i]))
                &&& vstr(vfield(Some(m), "content"@)) is Some
            },
    decreases ms.len(),
{
    if ms.len() > 0 {
        lemma_messages_shape(ms.drop_last(), f);
        let names = messages_outcome(ms.drop_last(), f)->Ok_0.1;
        lemma_message_shape(ms.last(), names, f);
    }
}

/// Normalizing a request body keeps every message, in order, each with a
/// string `role` (its own, or `user`) and its content as a string.
pub proof fn law_normalized_messages(b: JsonView, f: Seq<FetchedImage>)
    requires
        normalized_body(b, f) is Ok,
    ensures
        ({
            let out = varr(vfield(Some(normalized_body(b, f)->Ok_0), "messages"@));
            let ms = varr(vfield(Some(b), "messages"@));
            &&& out is Some && ms is Some
            &&& out->0.len() == ms->0.len()
            &&& forall|i: int|
                0 <= i < ms->0.len() ==> vstr(vfield(Some(#[trigger] out->0[i]), "role"@)) == Some(
                    role_of(ms->0[i]),
                ) && vstr(vfield(Some(out->0[i]), "content"@)) is Some
        }),
{
    reveal_strlit("messages");
    reveal_strlit("think");
    let ms = varr(vfield(Some(b), "messages"@))->0;
    lemma_messages_shape(ms, f);
}

/// After an assistant's tool calls are normalized, the id of each named
/// call gives its tool's name, unless a later named call has the same id.
pub proof fn law_tool_names_recorded(
    tcs: Seq<JsonView>,
    names: Map<Seq<char>, Seq<char>>,
    i: int,
)
    requires
        0 <= i < tcs.len(),
        vstr(vfield(Some(tool_call_function(tcs[i])), "name"@)) is Some,
        tool_call_id(tcs[i]) is Some,
        forall|j: int|
            i < j < tcs.len() && vstr(vfield(Some(tool_call_function(tcs[j])), "name"@)) is Some
                ==> tool_call_id(#[trigger] tcs[j]) != tool_call_id(tcs[i]),
    ensures
        tool_calls_outcome(tcs, names).1.dom().contains(tool_call_id(tcs[i])->0),
        tool_calls_outcome(tcs, names).1[tool_call_id(tcs[i])->0] == vstr(
            vfield(Some(tool_call_function(tcs[i])), "name"@),
        )->0,
    decreases tcs.len(),
{
    if i < tcs.len() - 1 {
        let t = tcs.drop_last();
        assert forall|j: int|
            i < j < t.len() && vstr(vfield(Some(tool_call_function(t[j])), "name"@)) is Some
                implies tool_call_id(#[trigger] t[j]) != tool_call_id(t[i]) by {
            assert(t[j] == tcs[j]);
        }
        law_tool_names_recorded(t, names, i);
        assert(tcs[tcs.len() - 1] == tcs.last());
    }
}

/// Normalized tool calls are never more than the calls given, and each has
/// the type `function`.
pub proof fn law_tool_calls_shape(tcs: Seq<JsonView>, names: Map<Seq<char>, Seq<char>>)
    ensures
        tool_calls_outcome(tcs, names).0.len() <= tcs.len(),
        forall|k: int|
            0 <= k < tool_calls_outcome(tcs, names).0.len() ==> vfield(
                Some(#[trigger] tool_calls_outcome(tcs, names).0[k]),
                "type"@,
            ) == Some(JsonView::Str("function"@)),
    decreases tcs.len(),
{
    reveal_strlit("type");
    reveal_strlit("function");
    assert("type"@[0] != "function"@[0]);
    assert("type"@ != "function"@);
    if tcs.len() > 0 {
        law_tool_calls_shape(tcs.drop_last(), names);
        let func = tool_call_function(tcs.last());
        if let Some(name) = vstr(vfield(Some(func), "name"@)) {
            let e = ollama_tool_call(tcs.len() - 1, func, name);
            assert(e->Object_0["type"@] == JsonView::Str("function"@));
            let prev = tool_calls_outcome(tcs.drop_last(), names).0;
            assert forall|k: int| 0 <= k < prev.push(e).len() implies vfield(
                Some(#[trigger] prev.push(e)[k]),
                "type"@,
            ) == Some(JsonView::Str("function"@)) by {
                if k < prev.len() {
                    assert(prev.push(e)[k] == prev[k]);
                }
            }
        }
    }
}

/// The keys that converting a message sets or removes.
pub open spec fn converted_key(k: Seq<char>) -> bool {
    k == "role"@ || k == "content"@ || k == "images"@ || k == "tool_calls"@ || k == "tool_name"@
}

proof fn lemma_message_keys_distinct()
    ensures
        "role"@ != "content"@,
        "role"@ != "images"@,
        "role"@ != "tool_calls"@,
        "role"@ != "tool_name"@,
        "content"@ != "images"@,
        "content"@ != "tool_calls"@,
        "content"@ != "tool_name"@,
        "images"@ != "tool_calls"@,
        "images"@ != "tool_name"@,
        "tool_calls"@ != "tool_name"@,
{
    reveal_strlit("role");
    reveal_strlit("content");
    reveal_strlit("tool_calls");
    reveal_strlit("tool_name");
    reveal_strlit("images");
    assert("role"@[0] != "content"@[0]);
    assert("role"@[0] != "images"@[0]);
    assert("role"@[0] != "tool_calls"@[0]);
    assert("role"@[0] != "tool_name"@[0]);
    assert("content"@[0] != "images"@[0]);
    assert("content"@[0] != "tool_calls"@[0]);
    assert("content"@[0] != "tool_name"@[0]);
    assert("images"@[0] != "tool_calls"@[0]);
    assert("images"@[0] != "tool_name"@[0]);
    assert("tool_calls"@[5] != "tool_name"@[5]);
}

/// A converted message keeps every other key of the message with its value,
/// has no key the message lacks but those it sets, takes its role from the
/// message (or `user`) and its content from the content's text, and has
/// `images` exactly when the content has images, holding them in order.
pub proof fn law_message_keeps_keys(msg: JsonView, names: Map<Seq<char>, Seq<char>>, f: Seq<FetchedImage>)
    requires
        message_outcome(msg, names, f) is Ok,
    ensures
        ({
            let m = msg->Object_0;
            let out = message_outcome(msg, names, f)->Ok_0.0->Object_0;
            let (text, images) = content_outcome(vfield(Some(msg), "content"@), f)->Ok_0;
            &&& message_outcome(msg, names, f)->Ok_0.0 is Object
            &&& forall|k: Seq<char>|
                #[trigger] m.dom().contains(k) && !converted_key(k) ==> out.dom().contains(k)
                    && out[k] == m[k]
            &&& forall|k: Seq<char>|
                #[trigger] out.dom().contains(k) ==> m.dom().contains(k) || converted_key(k)
            &&& out.dom().contains("role"@) && out["role"@] == JsonView::Str(role_of(msg))
            &&& out.dom().contains("content"@) && out["content"@] == JsonView::Str(text)
            &&& out.dom().contains("images"@) <==> images.len() > 0
            &&& images.len() > 0 ==> out["images"@] == images_array(images)
        }),
{
    lemma_message_keys_distinct();
}

/// An assistant message with an array of tool calls gets the normalized
/// calls when any has a name, else keeps its `tool_calls` as they were, and
/// the map of tool names is updated with the named calls' ids; a message of
/// any other role leaves the map as it was.
pub proof fn law_assistant_tool_calls(msg: JsonView, names: Map<Seq<char>, Seq<char>>, f: Seq<FetchedImage>)
    requires
        message_outcome(msg, names, f) is Ok,
    ensures
        ({
            let (conv, names1) = message_outcome(msg, names, f)->Ok_0;
            let out = conv->Object_0;
            let calls = varr(vfield(Some(msg), "tool_calls"@));
            &&& (role_of(msg) == "assistant"@ && calls is Some) ==> {
                let (normalized, names2) = tool_calls_outcome(calls->0, names);
                &&& names1 == names2
                &&& out.dom().contains("tool_calls"@)
                &&& out["tool_calls"@] == if normalized.len() > 0 {
                    JsonView::Array(normalized)
                } else {
                    msg->Object_0["tool_calls"@]
                }
            }
            &&& !(role_of(msg) == "assistant"@ && calls is Some) ==> names1 == names
        }),
{
    lemma_message_keys_distinct();
    reveal_strlit("assistant");
    reveal_strlit("tool");
    assert("assistant"@[0] != "tool"@[0]);
}

/// The content of parts put together is the text of the first parts
/// followed, with no separator, by the text of the rest, and their images
/// in order; the first part that stops stops the whole.
pub proof fn law_parts_append(a: Seq<JsonView>, b: Seq<JsonView>, f: Seq<FetchedImage>)
    ensures
        parts_outcome(a + b, f) == match parts_outcome(a, f) {
            Err(s) => Err(s),
            Ok((t1, i1)) => match parts_outcome(b, f) {
                Err(s) => Err(s),
                Ok((t2, i2)) => Ok((t1 + t2, i1 + i2)),
            },
        },
    decreases b.len(),
{
    if b.len() == 0 {
        assert(a + b == a);
        if let Ok((t1, i1)) = parts_outcome(a, f) {
            assert(t1 + Seq::<char>::empty() == t1);
            assert(i1 + Seq::<Seq<char>>::empty() == i1);
        }
    } else {
        law_parts_append(a, b.drop_last(), f);
        assert((a + b).drop_last() == a + b.drop_last());
        assert((a + b).last() == b.last());
        if let Ok((t1, i1)) = parts_outcome(a, f) {
            if let Ok((t2, i2)) = parts_outcome(b.drop_last(), f) {
                match part_effect(b.last(), f) {
                    PartEffect::Text(t) => {
                        assert(t1 + t2 + t == t1 + (t2 + t));
                    },
                    PartEffect::Image(Ok(d)) => {
                        assert((i1 + i2).push(d) == i1 + i2.push(d));
                    },
                    _ => {},
                }
            }
        }
    }
}

/// The normalized body's `think`: the body's own `think` when it has one;
/// else the first of `reasoning_effort`, `reasoningEffort`, `reasoning` and
/// `reasoningEnabled` that the body has, with its value; else none.
pub proof fn law_think_carried(b: JsonView, f: Seq<FetchedImage>)
    requires
        normalized_body(b, f) is Ok,
    ensures
        ({
            let m = b->Object_0;
            let out = normalized_body(b, f)->Ok_0->Object_0;
            let t = "think"@;
            let re = "reasoning_effort"@;
            let rc = "reasoningEffort"@;
            let r = "reasoning"@;
            let rn = "reasoningEnabled"@;
            &&& normalized_body(b, f)->Ok_0 is Object
            &&& m.dom().contains(t) ==> out.dom().contains(t) && out[t] == m[t]
            &&& (!m.dom().contains(t) && m.dom().contains(re)) ==> out.dom().contains(t)
                && out[t] == m[re]
            &&& (!m.dom().contains(t) && !m.dom().contains(re) && m.dom().contains(rc))
                ==> out.dom().contains(t) && out[t] == m[rc]
            &&& (!m.dom().contains(t) && !m.dom().contains(re) && !m.dom().contains(rc)
                && m.dom().contains(r)) ==> out.dom().contains(t) && out[t] == m[r]
            &&& (!m.dom().contains(t) && !m.dom().contains(re) && !m.dom().contains(rc)
                && !m.dom().contains(r) && m.dom().contains(rn)) ==> out.dom().contains(t)
                && out[t] == m[rn]
            &&& (!m.dom().contains(t) && !m.dom().contains(re) && !m.dom().contains(rc)
                && !m.dom().contains(r) && !m.dom().contains(rn)) ==> !out.dom().contains(t)
        }),
{
    reveal_strlit("think");
    reveal_strlit("messages");
    reveal_strlit("reasoning_effort");
    reveal_strlit("reasoningEffort");
    reveal_strlit("reasoning");
    reveal_strlit("reasoningEnabled");
    assert("think"@[0] != "messages"@[0]);
    assert("reasoning_effort"@[0] != "messages"@[0]);
    assert("reasoningEffort"@[0] != "messages"@[0]);
    assert("reasoning"@[0] != "messages"@[0]);
    assert("reasoningEnabled"@[0] != "messages"@[0]);
}

} // verus!
