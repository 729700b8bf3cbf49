//! The decisions of a chat request to Ollama, before the request is sent:
//! whether it streams, the body it carries, its headers and its timeout.

use vstd::prelude::*;
use crate::images::{FetchedImage, NormalizeStop, StopView};
use crate::json::{JsonValue, JsonView};
use crate::keyed_map::KeyedMap;
use crate::provider::{
    build_header_entries, effective_timeout_ms, header_entries_outcome, pairs_view,
    request_timeout,
};
use crate::request::{normalize_request_body, normalized_body};

verus! {

/// What the library reads of a chat request.
#[derive(Debug)]
pub struct ApiRequest {
    pub url: String,
    pub body: Option<JsonValue>,
    pub headers: Option<KeyedMap<String>>,
    pub timeout_ms: Option<u64>,
    pub stream: Option<bool>,
    pub request_id: Option<String>,
    pub provider_id: Option<String>,
}

/// A request streams when it asks to and has an id to report events under.
pub open spec fn streams(req: ApiRequest) -> bool {
    req.stream == Some(true) && req.request_id is Some
}

pub fn wants_stream(req: &ApiRequest) -> (r: bool)
    ensures
        r == streams(*req),
{
    let asked = match req.stream {
        Some(s) => s,
        None => false,
    };
    asked && req.request_id.is_some()
}

/// How a chat request is sent.
#[derive(Debug)]
pub struct ChatPlan {
    pub stream: bool,
    pub body: JsonValue,
    pub headers: Vec<(String, String)>,
    pub timeout_ms: Option<u64>,
}

/// The plan of a chat request: the body is required and normalized for
/// Ollama, then the headers are checked; the timeout is capped at the
/// default and left out when streaming.
pub open spec fn chat_plan(req: ApiRequest, default_ms: u64, f: Seq<FetchedImage>) -> Result<
    (bool, JsonView, Seq<(Seq<char>, Seq<char>)>, Option<u64>),
    StopView,
> {
    match req.body {
        None => Err(StopView::Error("Ollama request body is required"@)),
        Some(b) => match normalized_body(b@, f) {
            Err(s) => Err(s),
            Ok(body) => {
                let headers: Result<Seq<(Seq<char>, Seq<char>)>, Seq<char>> = match req.headers {
                    Some(h) => header_entries_outcome(h.items()),
                    None => Ok(Seq::empty()),
                };
                match headers {
                    Err(m) => Err(StopView::Error(m)),
                    Ok(hs) => Ok(
                        (
                            streams(req),
                            body,
                            hs,
                            request_timeout(req.timeout_ms, default_ms, streams(req)),
                        ),
                    ),
                }
            },
        },
    }
}

/// Plans a chat request (see `chat_plan`). A `FetchImage` stop asks for a
/// remote image before the plan can be made.
pub fn plan_chat_request(req: &ApiRequest, default_timeout_ms: u64, fetched: &Vec<FetchedImage>) -> (r: Result<
    ChatPlan,
    NormalizeStop,
>)
    ensures
        match r {
            Ok(p) => chat_plan(*req, default_timeout_ms, fetched@) == Ok::<
                (bool, JsonView, Seq<(Seq<char>, Seq<char>)>, Option<u64>),
                StopView,
            >((p.stream, p.body@, pairs_view(p.headers@), p.timeout_ms)),
            Err(e) => chat_plan(*req, default_timeout_ms, fetched@) == Err::<
                (bool, JsonView, Seq<(Seq<char>, Seq<char>)>, Option<u64>),
                StopView,
            >(e@),
        },
{
    let stream = wants_stream(req);
    let body = match &req.body {
        Some(b) => b,
        None => return Err(NormalizeStop::Error("Ollama request body is required".to_owned())),
    };
    let body = match normalize_request_body(body, fetched) {
        Ok(b) => b,
        Err(e) => return Err(e),
    };
    let headers = match build_header_entries(req.headers.as_ref()) {
        Ok(h) => h,
        Err(m) => return Err(NormalizeStop::Error(m)),
    };
    proof {
        if req.headers is None {
            assert(pairs_view(headers@) =~= Seq::<(Seq<char>, Seq<char>)>::empty());
        }
    }
    let timeout_ms = effective_timeout_ms(req.timeout_ms, default_timeout_ms, stream);
    Ok(ChatPlan { stream, body, headers, timeout_ms })
}

/// A planned request streams exactly when it asks to and has an id; it
/// has no timeout while streaming, else the requested timeout capped at the
/// default, or the default; and when the body normalizes, an invalid header
/// ends the request with that header's error.
pub proof fn law_plan_settings(req: ApiRequest, default_ms: u64, f: Seq<FetchedImage>)
    ensures
        chat_plan(req, default_ms, f) matches Ok((stream, _b, _h, timeout)) ==> {
            &&& stream == (req.stream == Some(true) && req.request_id is Some)
            &&& stream ==> timeout is None
            &&& !stream ==> timeout == Some(
                match req.timeout_ms {
                    Some(t) => if t < default_ms {
                        t
                    } else {
                        default_ms
                    },
                    None => default_ms,
                },
            )
        },
        (req.body is Some && normalized_body(req.body->0@, f) is Ok && req.headers is Some
            && header_entries_outcome(req.headers->0.items()) is Err) ==> chat_plan(
            req,
            default_ms,
            f,
        ) == Err::<(bool, JsonView, Seq<(Seq<char>, Seq<char>)>, Option<u64>), StopView>(
            StopView::Error(header_entries_outcome(req.headers->0.items())->Err_0),
        ),
{
}

} // verus!
