//! Settings of an Ollama connection: which provider is Ollama, the base URL
//! to talk to, the headers and TLS choice a credential asks for, and the
//! request timeout.

use vstd::prelude::*;
use crate::json::{vfield, JsonValue, JsonView};
use crate::keyed_map::KeyedMap;
use crate::text::{
    chars_of, concat, eq_ignore_ascii_case, str_eq, str_eq_ignore_ascii_case, strip_suffix,
    strip_suffix_chars, string_of, trim, trim_chars, trim_end_char, trim_end_char_chars, trim_str,
};

verus! {

/// The address of a local Ollama server, used when no base URL is set.
pub const DEFAULT_OLLAMA_BASE_URL: &'static str = "http://127.0.0.1:11434";

/// Whether a provider id names Ollama.
pub fn is_ollama_provider(provider_id: Option<&str>) -> (r: bool)
    ensures
        r == (provider_id matches Some(p) && p@ == "ollama"@),
{
    match provider_id {
        Some(p) => str_eq(p, "ollama"),
        None => false,
    }
}

/// What the library reads of a stored provider credential.
#[derive(Debug)]
pub struct ProviderCredential {
    pub base_url: Option<String>,
    pub api_key: Option<String>,
    pub headers: Option<KeyedMap<String>>,
    pub config: Option<JsonValue>,
}

/// The headers of a credential with `Authorization: Bearer <key>` added for
/// a non-blank API key, unless an `Authorization` header is already set.
pub open spec fn runtime_headers(
    headers: Map<Seq<char>, String>,
    api_key: Option<Seq<char>>,
) -> Map<Seq<char>, Seq<char>> {
    let h = Map::new(|k: Seq<char>| headers.dom().contains(k), |k: Seq<char>| headers[k]@);
    match api_key {
        Some(key) => if trim(key).len() > 0 && !h.dom().contains("Authorization"@) {
            h.insert("Authorization"@, "Bearer "@ + trim(key))
        } else {
            h
        },
        None => h,
    }
}

/// The texts of a map of strings.
pub open spec fn texts_of(m: Map<Seq<char>, String>) -> Map<Seq<char>, Seq<char>> {
    Map::new(|k: Seq<char>| m.dom().contains(k), |k: Seq<char>| m[k]@)
}

pub open spec fn credential_headers(c: ProviderCredential) -> Map<Seq<char>, String> {
    match c.headers {
        Some(h) => h@,
        None => Map::empty(),
    }
}

pub open spec fn credential_key(c: ProviderCredential) -> Option<Seq<char>> {
    match c.api_key {
        Some(k) => Some(k@),
        None => None,
    }
}

/// The headers that requests made with a credential carry (see
/// `runtime_headers`).
pub fn credential_runtime_headers(credential: &ProviderCredential) -> (r: KeyedMap<String>)
    ensures
        texts_of(r@) == runtime_headers(credential_headers(*credential), credential_key(*credential)),
{
    let mut headers = match &credential.headers {
        Some(h) => h.copy(),
        None => KeyedMap::new(),
    };
    let ghost h0 = texts_of(headers@);
    assert(h0 =~= Map::new(
        |k: Seq<char>| credential_headers(*credential).dom().contains(k),
        |k: Seq<char>| credential_headers(*credential)[k]@,
    ));
    if let Some(api_key) = &credential.api_key {
        let trimmed = trim_chars(&chars_of(api_key.as_str()));
        if trimmed.len() > 0 && !headers.contains_key("Authorization") {
            let ghost hm = headers@;
            let value = concat("Bearer ", string_of(&trimmed).as_str());
            headers.insert("Authorization".to_owned(), value);
            assert(texts_of(headers@) =~= h0.insert("Authorization"@, "Bearer "@ + trim(api_key@)));
        }
    }
    headers
}

/// Whether a credential's config sets `allowInvalidTls` to true.
pub open spec fn allows_invalid_tls(config: Option<JsonView>) -> bool {
    vfield(config, "allowInvalidTls"@) == Some(JsonView::Bool(true))
}

pub fn credential_allows_invalid_tls(credential: &ProviderCredential) -> (r: bool)
    ensures
        r == allows_invalid_tls(
            match credential.config {
                Some(c) => Some(c@),
                None => None,
            },
        ),
{
    match &credential.config {
        Some(config) => match config.get("allowInvalidTls") {
            Some(v) => match v.as_bool() {
                Some(b) => b,
                None => false,
            },
            None => false,
        },
        None => false,
    }
}

/// The timeout of a request: none while streaming, else the requested one
/// capped at the default, or the default.
pub open spec fn request_timeout(requested: Option<u64>, default_ms: u64, stream: bool) -> Option<u64> {
    if stream {
        None
    } else {
        let t = match requested {
            Some(t) => t,
            None => default_ms,
        };
        Some(if t < default_ms { t } else { default_ms })
    }
}

pub fn effective_timeout_ms(requested: Option<u64>, default_ms: u64, stream: bool) -> (r: Option<u64>)
    ensures
        r == request_timeout(requested, default_ms, stream),
{
    if stream {
        return None;
    }
    let t = match requested {
        Some(t) => t,
        None => default_ms,
    };
    Some(if t < default_ms { t } else { default_ms })
}

/// A header-name character (`tchar` of RFC 9110), which is what
/// `HeaderName::from_bytes` accepts.
pub open spec fn is_token_char(c: char) -> bool {
    ||| 'a' <= c <= 'z'
    ||| 'A' <= c <= 'Z'
    ||| '0' <= c <= '9'
    ||| c == '!' || c == '#' || c == '$' || c == '%' || c == '&' || c == '\''
    ||| c == '*' || c == '+' || c == '-' || c == '.' || c == '^' || c == '_'
    ||| c == '`' || c == '|' || c == '~'
}

/// The names that `http::HeaderName::from_bytes` accepts: 1 to 65535 token
/// characters.
pub open spec fn valid_header_name(name: Seq<char>) -> bool {
    1 <= name.len() <= 65535 && forall|i: int| 0 <= i < name.len() ==> is_token_char(#[trigger] name[i])
}

/// The values that `http::HeaderValue::from_str` accepts: no control
/// character but horizontal tab.
pub open spec fn valid_header_value(value: Seq<char>) -> bool {
    forall|i: int|
        0 <= i < value.len() ==> ((#[trigger] value[i]) as int >= 32 && value[i] as int != 127)
            || value[i] == '\t'
}

/// Checks a header name with `reqwest::header::HeaderName::from_bytes`;
/// the contract states its rule and its error text, as the `http` crate's
/// source has them.
#[verifier::external_body]
fn check_header_name(name: &str) -> (r: Result<(), String>)
    ensures
        r is Ok == valid_header_name(name@),
        r matches Err(m) ==> m@ == "invalid HTTP header name"@,
{
    reqwest::header::HeaderName::from_bytes(name.as_bytes()).map(|_| ()).map_err(|e| e.to_string())
}

/// Checks a header value with `reqwest::header::HeaderValue::from_str`;
/// the contract states its rule and its error text, as the `http` crate's
/// source has them.
#[verifier::external_body]
fn check_header_value(value: &str) -> (r: Result<(), String>)
    ensures
        r is Ok == valid_header_value(value@),
        r matches Err(m) ==> m@ == "failed to parse header value"@,
{
    reqwest::header::HeaderValue::from_str(value).map(|_| ()).map_err(|e| e.to_string())
}

/// A header is dropped when its value is blank, and so is an
/// `Authorization: Bearer` without a token.
pub open spec fn header_dropped(key: Seq<char>, value: Seq<char>) -> bool {
    trim(value).len() == 0 || (eq_ignore_ascii_case(key, "authorization"@) && eq_ignore_ascii_case(
        trim(value),
        "bearer"@,
    ))
}

/// The headers to send, in order, with their values trimmed; the first
/// header kept whose name or value is invalid makes it an error.
pub open spec fn header_entries_outcome(entries: Seq<(String, String)>) -> Result<
    Seq<(Seq<char>, Seq<char>)>,
    Seq<char>,
>
    decreases entries.len(),
{
    if entries.len() == 0 {
        Ok(Seq::empty())
    } else {
        match header_entries_outcome(entries.drop_last()) {
            Err(m) => Err(m),
            Ok(out) => {
                let key = entries.last().0@;
                let value = entries.last().1@;
                if header_dropped(key, value) {
                    Ok(out)
                } else if !valid_header_name(key) {
                    Err("invalid HTTP header name"@)
                } else if !valid_header_value(trim(value)) {
                    Err("failed to parse header value"@)
                } else {
                    Ok(out.push((key, trim(value))))
                }
            },
        }
    }
}

pub open spec fn pairs_view(v: Seq<(String, String)>) -> Seq<(Seq<char>, Seq<char>)> {
    Seq::new(v.len(), |i: int| (v[i].0@, v[i].1@))
}

proof fn lemma_header_entries_stop(entries: Seq<(String, String)>, i: int)
    requires
        0 <= i <= entries.len(),
        header_entries_outcome(entries.take(i)) is Err,
    ensures
        header_entries_outcome(entries) == header_entries_outcome(entries.take(i)),
    decreases entries.len() - i,
{
    if i < entries.len() {
        assert(entries.take(i + 1).drop_last() == entries.take(i));
        lemma_header_entries_stop(entries, i + 1);
    } else {
        assert(entries.take(i) == entries);
    }
}

/// The headers to send for a map of headers, in its order (see
/// `header_entries_outcome`); none when there is no map.
pub fn build_header_entries(headers: Option<&KeyedMap<String>>) -> (r: Result<
    Vec<(String, String)>,
    String,
>)
    ensures
        match headers {
            None => r matches Ok(v) && v@.len() == 0,
            Some(h) => match r {
                Ok(v) => header_entries_outcome(h.items()) == Ok::<
                    Seq<(Seq<char>, Seq<char>)>,
                    Seq<char>,
                >(pairs_view(v@)),
                Err(m) => header_entries_outcome(h.items()) == Err::<
                    Seq<(Seq<char>, Seq<char>)>,
                    Seq<char>,
                >(m@),
            },
        },
{
    let mut out: Vec<(String, String)> = Vec::new();
    let h = match headers {
        Some(h) => h,
        None => return Ok(out),
    };
    let n = h.len();
    let mut i: usize = 0;
    assert(h.items().take(0) =~= Seq::<(String, String)>::empty());
    assert(pairs_view(out@) =~= Seq::<(Seq<char>, Seq<char>)>::empty());
    while i < n
        invariant
            i <= n == h.items().len(),
            headers == Some(h),
            header_entries_outcome(h.items().take(i as int)) == Ok::<
                Seq<(Seq<char>, Seq<char>)>,
                Seq<char>,
            >(pairs_view(out@)),
        decreases n - i,
    {
        let ghost pre = h.items().take(i as int);
        let ghost next = h.items().take(i + 1);
        assert(next.drop_last() == pre);
        let (key, value) = h.entry_at(i);
        let trimmed = trim_str(value.as_str());
        let dropped = trimmed.as_str().is_empty() || (str_eq_ignore_ascii_case(key.as_str(), "authorization")
            && str_eq_ignore_ascii_case(trimmed.as_str(), "bearer"));
        if !dropped {
            if let Err(m) = check_header_name(key.as_str()) {
                proof {
                    lemma_header_entries_stop(h.items(), i + 1);
                    assert(h.items().take(n as int) == h.items());
                }
                return Err(m);
            }
            if let Err(m) = check_header_value(trimmed.as_str()) {
                proof {
                    lemma_header_entries_stop(h.items(), i + 1);
                    assert(h.items().take(n as int) == h.items());
                }
                return Err(m);
            }
            let ghost old_out = out@;
            out.push((key.clone(), trimmed));
            assert(pairs_view(out@) =~= pairs_view(old_out).push((key@, trim(value@))));
        }
        i = i + 1;
    }
    assert(h.items().take(n as int) == h.items());
    Ok(out)
}

/// The outcome of `url::Url::parse` on a text: the path of the parsed URL,
/// or the text of the parse error.
pub uninterp spec fn url_path(text: Seq<char>) -> Result<Seq<char>, Seq<char>>;

/// The text of the URL parsed from `text` once its path is set to `path` and
/// its query and fragment are removed.
pub uninterp spec fn url_rebased(text: Seq<char>, path: Seq<char>) -> Seq<char>;

/// Parses a URL with `url::Url::parse` and gives its `path()`, or the parse
/// error's text. The contract claims only that the outcome is a function of
/// the text, named `url_path`.
#[verifier::external_body]
fn parse_url_path(text: &str) -> (r: Result<String, String>)
    ensures
        match (r, url_path(text@)) {
            (Ok(p), Ok(q)) => p@ == q,
            (Err(m), Err(e)) => m@ == e,
            _ => false,
        },
{
    match url::Url::parse(text) {
        Ok(u) => Ok(u.path().to_owned()),
        Err(e) => Err(e.to_string()),
    }
}

/// Parses a URL with `url::Url::parse`, sets its path with `set_path`,
/// removes query and fragment with `set_query(None)` and
/// `set_fragment(None)`, and gives the URL's text. The contract claims only
/// that the result is a function of the two texts, named `url_rebased`.
#[verifier::external_body]
fn rebase_url(text: &str, path: &str) -> (r: String)
    requires
        url_path(text@) is Ok,
    ensures
        r@ == url_rebased(text@, path@),
{
    let mut u = url::Url::parse(text).unwrap();
    u.set_path(path);
    u.set_query(None);
    u.set_fragment(None);
    u.to_string()
}

/// The base URL text that is parsed: the trimmed text, or the local default
/// when it is blank.
pub open spec fn base_url_input(raw: Seq<char>) -> Seq<char> {
    if trim(raw).len() == 0 {
        DEFAULT_OLLAMA_BASE_URL@
    } else {
        trim(raw)
    }
}

/// The path of the server root: trailing slashes dropped, then one of the
/// endpoint suffixes `/api/chat`, `/api/tags` or `/v1`, then trailing
/// slashes again, and a single slash put at the end.
pub open spec fn base_path(path: Seq<char>) -> Seq<char> {
    let p = trim_end_char(path, '/');
    let stripped = match strip_suffix(p, "/api/chat"@) {
        Some(s) => s,
        None => match strip_suffix(p, "/api/tags"@) {
            Some(s) => s,
            None => match strip_suffix(p, "/v1"@) {
                Some(s) => s,
                None => p,
            },
        },
    };
    let n = trim_end_char(stripped, '/');
    if n.len() == 0 {
        "/"@
    } else {
        n + "/"@
    }
}

/// The URL of the server root that a configured base URL names, or the URL
/// parse error.
pub open spec fn normalized_base_url(raw: Seq<char>) -> Result<Seq<char>, Seq<char>> {
    let input = base_url_input(raw);
    match url_path(input) {
        Err(e) => Err(e),
        Ok(p) => Ok(url_rebased(input, base_path(p))),
    }
}

fn strip_endpoint_suffix(p: &Vec<char>) -> (r: Vec<char>)
    ensures
        r@ == (match strip_suffix(p@, "/api/chat"@) {
            Some(s) => s,
            None => match strip_suffix(p@, "/api/tags"@) {
                Some(s) => s,
                None => match strip_suffix(p@, "/v1"@) {
                    Some(s) => s,
                    None => p@,
                },
            },
        }),
{
    if let Some(s) = strip_suffix_chars(p, &chars_of("/api/chat")) {
        return s;
    }
    if let Some(s) = strip_suffix_chars(p, &chars_of("/api/tags")) {
        return s;
    }
    if let Some(s) = strip_suffix_chars(p, &chars_of("/v1")) {
        return s;
    }
    copy_all(p)
}

fn copy_all(p: &Vec<char>) -> (r: Vec<char>)
    ensures
        r@ == p@,
{
    let r = crate::text::copy_range(p, 0, p.len());
    assert(p@.subrange(0, p@.len() as int) == p@);
    r
}

/// The path of the server root for a URL path (see `base_path`).
pub fn base_path_of(path: &str) -> (r: String)
    ensures
        r@ == base_path(path@),
{
    let p = trim_end_char_chars(&chars_of(path), '/');
    let stripped = strip_endpoint_suffix(&p);
    let n = trim_end_char_chars(&stripped, '/');
    if n.len() == 0 {
        "/".to_owned()
    } else {
        concat(string_of(&n).as_str(), "/")
    }
}

/// The URL of the Ollama server root for a configured base URL (see
/// `normalized_base_url`).
pub fn normalize_base_url(raw: &str) -> (r: Result<String, String>)
    ensures
        match r {
            Ok(u) => normalized_base_url(raw@) == Ok::<Seq<char>, Seq<char>>(u@),
            Err(e) => normalized_base_url(raw@) == Err::<Seq<char>, Seq<char>>(e@),
        },
{
    let trimmed = trim_str(raw);
    let initial: String = if trimmed.as_str().is_empty() {
        DEFAULT_OLLAMA_BASE_URL.to_owned()
    } else {
        trimmed
    };
    let path = match parse_url_path(initial.as_str()) {
        Ok(p) => p,
        Err(e) => return Err(e),
    };
    let new_path = base_path_of(path.as_str());
    Ok(rebase_url(initial.as_str(), new_path.as_str()))
}

/// The URL that lists a server's models: the root of the credential's base
/// URL, or of the local default, followed by `api/tags`.
pub fn models_url(credential: &ProviderCredential) -> (r: Result<String, String>)
    ensures
        match r {
            Ok(u) => normalized_base_url(
                match credential.base_url {
                    Some(b) => b@,
                    None => DEFAULT_OLLAMA_BASE_URL@,
                },
            ) matches Ok(root) && u@ == root + "api/tags"@,
            Err(e) => normalized_base_url(
                match credential.base_url {
                    Some(b) => b@,
                    None => DEFAULT_OLLAMA_BASE_URL@,
                },
            ) == Err::<Seq<char>, Seq<char>>(e@),
        },
{
    let base: &str = match &credential.base_url {
        Some(b) => b.as_str(),
        None => DEFAULT_OLLAMA_BASE_URL,
    };
    match normalize_base_url(base) {
        Ok(root) => Ok(concat(root.as_str(), "api/tags")),
        Err(e) => Err(e),
    }
}

/// An `Authorization` header that a credential sets is never replaced by
/// its API key.
pub proof fn law_authorization_kept(headers: Map<Seq<char>, String>, api_key: Option<Seq<char>>)
    requires
        headers.dom().contains("Authorization"@),
    ensures
        runtime_headers(headers, api_key) == texts_of(headers),
{
    assert(Map::new(|k: Seq<char>| headers.dom().contains(k), |k: Seq<char>| headers[k]@) =~= texts_of(
        headers,
    ));
}

/// What holds of a header that is sent: its name and value are valid, the
/// value is not blank, and it is no `Authorization: Bearer` without a token.
pub open spec fn sendable_header(key: Seq<char>, value: Seq<char>) -> bool {
    &&& valid_header_name(key)
    &&& valid_header_value(value)
    &&& value.len() > 0
    &&& !(eq_ignore_ascii_case(key, "authorization"@) && eq_ignore_ascii_case(value, "bearer"@))
}

/// Every header that is sent is sendable, and no more headers are sent than
/// were given.
pub proof fn law_sent_headers_valid(entries: Seq<(String, String)>)
    requires
        header_entries_outcome(entries) is Ok,
    ensures
        header_entries_outcome(entries)->Ok_0.len() <= entries.len(),
        forall|i: int|
            0 <= i < header_entries_outcome(entries)->Ok_0.len() ==> sendable_header(
                (#[trigger] header_entries_outcome(entries)->Ok_0[i]).0,
                header_entries_outcome(entries)->Ok_0[i].1,
            ),
    decreases entries.len(),
{
    if entries.len() > 0 {
        let prev = entries.drop_last();
        law_sent_headers_valid(prev);
        let out = header_entries_outcome(prev)->Ok_0;
        let key = entries.last().0@;
        let value = entries.last().1@;
        if !header_dropped(key, value) {
            let now = out.push((key, trim(value)));
            assert forall|i: int| 0 <= i < now.len() implies sendable_header(
                (#[trigger] now[i]).0,
                now[i].1,
            ) by {
                if i < out.len() {
                    assert(now[i] == out[i]);
                }
            }
        }
    }
}

proof fn lemma_trim_end_char_idempotent(s: Seq<char>, c: char)
    ensures
        trim_end_char(trim_end_char(s, c), c) == trim_end_char(s, c),
        trim_end_char(s, c).len() == 0 || trim_end_char(s, c).last() != c,
    decreases s.len(),
{
    if s.len() > 0 && s.last() == c {
        lemma_trim_end_char_idempotent(s.drop_last(), c);
    }
}

/// The root path always ends with a slash.
pub proof fn law_base_path_ends_with_slash(path: Seq<char>)
    ensures
        base_path(path).len() > 0,
        base_path(path).last() == '/',
{
    reveal_strlit("/");
}

/// Trailing slashes do not change the root path.
pub proof fn law_base_path_ignores_trailing_slash(path: Seq<char>)
    ensures
        base_path(path + "/"@) == base_path(path),
{
    reveal_strlit("/");
    let q = path + "/"@;
    assert(q.drop_last() == path);
    assert(q.last() == '/');
    assert(trim_end_char(q, '/') == trim_end_char(path, '/'));
}

/// The root path is its own root path, when what precedes its final slash
/// ends with no endpoint suffix.
pub proof fn law_base_path_idempotent(path: Seq<char>)
    requires
        no_endpoint_suffix(trim_end_char(base_path(path), '/')),
    ensures
        base_path(base_path(path)) == base_path(path),
{
    reveal_strlit("/");
    let p = trim_end_char(path, '/');
    let stripped = match strip_suffix(p, "/api/chat"@) {
        Some(s) => s,
        None => match strip_suffix(p, "/api/tags"@) {
            Some(s) => s,
            None => match strip_suffix(p, "/v1"@) {
                Some(s) => s,
                None => p,
            },
        },
    };
    let n = trim_end_char(stripped, '/');
    lemma_trim_end_char_idempotent(stripped, '/');
    let b = base_path(path);
    if n.len() == 0 {
        assert(b == "/"@);
        assert(b.drop_last() =~= Seq::<char>::empty());
        assert(trim_end_char(b, '/') == trim_end_char(Seq::<char>::empty(), '/'));
        assert(trim_end_char(b, '/') =~= Seq::<char>::empty());
    } else {
        assert(b == n + "/"@);
        assert(b.drop_last() == n);
        assert(b.last() == '/');
        assert(trim_end_char(b, '/') == trim_end_char(n, '/'));
        assert(trim_end_char(n, '/') == n);
    }
}

/// `s` ends with none of the endpoint suffixes.
pub open spec fn no_endpoint_suffix(s: Seq<char>) -> bool {
    strip_suffix(s, "/api/chat"@) is None && strip_suffix(s, "/api/tags"@) is None && strip_suffix(
        s,
        "/v1"@,
    ) is None
}

proof fn lemma_strip_appended(q: Seq<char>, suffix: Seq<char>)
    ensures
        strip_suffix(q + suffix, suffix) == Some(q),
{
    assert((q + suffix).skip((q + suffix).len() - suffix.len()) =~= suffix);
    assert((q + suffix).take((q + suffix).len() - suffix.len()) =~= q);
}

/// A chat, tags or `/v1` endpoint path gives the root path of the server:
/// the suffix is dropped, when what precedes it ends with no such suffix.
pub proof fn law_base_path_strips_endpoint(q: Seq<char>, suffix: Seq<char>)
    requires
        suffix == "/api/chat"@ || suffix == "/api/tags"@ || suffix == "/v1"@,
        no_endpoint_suffix(trim_end_char(q, '/')),
    ensures
        base_path(q + suffix) == base_path(q),
{
    reveal_strlit("/api/chat");
    reveal_strlit("/api/tags");
    reveal_strlit("/v1");
    let p = q + suffix;
    assert(p.last() != '/');
    assert(trim_end_char(p, '/') == p);
    lemma_strip_appended(q, suffix);
    lemma_trim_end_char_idempotent(q, '/');
    if suffix != "/api/chat"@ {
        assert(p.last() != 't');
        if crate::text::has_suffix(p, "/api/chat"@) {
            assert(p.skip(p.len() - 9)[8] == p.last());
        }
    }
    if suffix == "/v1"@ {
        assert(p.last() != 's');
        if crate::text::has_suffix(p, "/api/tags"@) {
            assert(p.skip(p.len() - 9)[8] == p.last());
        }
    }
}

/// One more header given: when its trimmed value is blank, or it is an
/// `Authorization` whose trimmed value is a bare `Bearer` (either in any
/// ASCII case), it is not sent; any other header whose name and trimmed
/// value are valid is sent after those before it, with its trimmed value;
/// an invalid name or value of such a header is an error.
pub proof fn law_header_kept(prev: Seq<(String, String)>, e: (String, String))
    requires
        header_entries_outcome(prev) is Ok,
    ensures
        ({
            let out = header_entries_outcome(prev)->Ok_0;
            let key = e.0@;
            let value = trim(e.1@);
            let bare_bearer = eq_ignore_ascii_case(key, "authorization"@) && eq_ignore_ascii_case(
                value,
                "bearer"@,
            );
            let next = header_entries_outcome(prev.push(e));
            &&& (value.len() == 0 || bare_bearer) ==> next == Ok::<
                Seq<(Seq<char>, Seq<char>)>,
                Seq<char>,
            >(out)
            &&& (value.len() > 0 && !bare_bearer && valid_header_name(key) && valid_header_value(
                value,
            )) ==> next == Ok::<Seq<(Seq<char>, Seq<char>)>, Seq<char>>(out.push((key, value)))
            &&& (value.len() > 0 && !bare_bearer && !valid_header_name(key)) ==> next is Err
            &&& (value.len() > 0 && !bare_bearer && !valid_header_value(value)) ==> next is Err
        }),
{
    assert(prev.push(e).drop_last() == prev);
    assert(prev.push(e).last() == e);
}

} // verus!
