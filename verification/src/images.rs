//! Image references in chat messages: data URLs, remote URLs whose bytes
//! are fetched outside the library, and the base64 text that Ollama takes.

use vstd::prelude::*;
use crate::text::{chars_of, copy_range, has_prefix, str_eq, str_has_prefix, string_of};

verus! {

/// The outcome of fetching one remote image: its bytes, or the text of the
/// error that the fetch ended in.
#[derive(Debug)]
pub struct FetchedImage {
    pub url: String,
    pub outcome: Result<Vec<u8>, String>,
}

/// Why a request body could not be normalized (yet): an error that ends the
/// request, or a remote image whose bytes are needed before going on.
#[derive(Debug)]
pub enum NormalizeStop {
    Error(String),
    FetchImage(String),
}

pub enum StopView {
    Error(Seq<char>),
    FetchImage(Seq<char>),
}

impl View for NormalizeStop {
    type V = StopView;

    open spec fn view(&self) -> StopView {
        match self {
            NormalizeStop::Error(m) => StopView::Error(m@),
            NormalizeStop::FetchImage(u) => StopView::FetchImage(u@),
        }
    }
}

/// The outcome recorded for the first fetch of `u` in `f`, if any.
pub open spec fn fetched_outcome(f: Seq<FetchedImage>, u: Seq<char>) -> Option<
    Result<Seq<u8>, Seq<char>>,
>
    decreases f.len(),
{
    if f.len() == 0 {
        None
    } else if f[0].url@ == u {
        Some(
            match f[0].outcome {
                Ok(b) => Ok(b@),
                Err(m) => Err(m@),
            },
        )
    } else {
        fetched_outcome(f.drop_first(), u)
    }
}

/// The character of a 6-bit value in the standard base64 alphabet.
pub open spec fn base64_digit(n: int) -> char {
    if n < 26 {
        ('A' as int + n) as char
    } else if n < 52 {
        ('a' as int + (n - 26)) as char
    } else if n < 62 {
        ('0' as int + (n - 52)) as char
    } else if n == 62 {
        '+'
    } else {
        '/'
    }
}

/// Standard base64 (RFC 4648, section 4) of `b`, with `=` padding.
pub open spec fn base64_standard(b: Seq<u8>) -> Seq<char>
    decreases b.len(),
{
    if b.len() == 0 {
        Seq::empty()
    } else if b.len() == 1 {
        let x = b[0] as int;
        seq![base64_digit(x / 4), base64_digit((x % 4) * 16), '=', '=']
    } else if b.len() == 2 {
        let x = b[0] as int;
        let y = b[1] as int;
        seq![
            base64_digit(x / 4),
            base64_digit((x % 4) * 16 + y / 16),
            base64_digit((y % 16) * 4),
            '=',
        ]
    } else {
        let x = b[0] as int;
        let y = b[1] as int;
        let z = b[2] as int;
        seq![
            base64_digit(x / 4),
            base64_digit((x % 4) * 16 + y / 16),
            base64_digit((y % 16) * 4 + z / 64),
            base64_digit(z % 64),
        ] + base64_standard(b.skip(3))
    }
}

/// Encodes bytes with `base64::engine::general_purpose::STANDARD`; the
/// contract claims the standard alphabet with `=` padding, as that engine
/// documents.
#[verifier::external_body]
fn base64_encode(bytes: &[u8]) -> (r: String)
    ensures
        r@ == base64_standard(bytes@),
{
    base64::Engine::encode(&base64::engine::general_purpose::STANDARD, bytes)
}

/// `i` is the first comma of `u` after a `data:` prefix.
pub open spec fn is_first_comma(u: Seq<char>, i: int) -> bool {
    &&& 5 <= i < u.len()
    &&& u[i] == ','
    &&& forall|j: int| 5 <= j < i ==> u[j] != ','
}

/// A data URL `data:<meta>,<payload>` split into its meta part and payload.
pub open spec fn data_url_parts(u: Seq<char>) -> Option<(Seq<char>, Seq<char>)> {
    if has_prefix(u, "data:"@) && exists|i: int| is_first_comma(u, i) {
        let i = choose|i: int| is_first_comma(u, i);
        Some((u.subrange(5, i), u.skip(i + 1)))
    } else {
        None
    }
}

/// Whether `u` names an image that is fetched over HTTP.
pub open spec fn is_remote_url(u: Seq<char>) -> bool {
    has_prefix(u, "http://"@) || has_prefix(u, "https://"@)
}

/// What an image URL stands for in an Ollama message: the payload of a data
/// URL, the base64 of a fetched remote image, or the URL itself; a failed
/// fetch stops with its error, and a remote image not fetched yet stops to
/// ask for it.
pub open spec fn image_outcome(u: Seq<char>, f: Seq<FetchedImage>) -> Result<Seq<char>, StopView> {
    match data_url_parts(u) {
        Some((_meta, payload)) => Ok(payload),
        None => if is_remote_url(u) {
            match fetched_outcome(f, u) {
                Some(Ok(b)) => Ok(base64_standard(b)),
                Some(Err(m)) => Err(StopView::Error(m)),
                None => Err(StopView::FetchImage(u)),
            }
        } else {
            Ok(u)
        },
    }
}

proof fn lemma_first_comma_unique(u: Seq<char>, i: int, j: int)
    requires
        is_first_comma(u, i),
        is_first_comma(u, j),
    ensures
        i == j,
{
    if i < j {
        assert(u[i] != ',');
    } else if j < i {
        assert(u[j] != ',');
    }
}

/// Splits a data URL `data:<meta>,<payload>` at its first comma.
pub fn parse_data_url(url: &str) -> (r: Option<(String, String)>)
    ensures
        match r {
            Some((meta, payload)) => data_url_parts(url@) == Some((meta@, payload@)),
            None => data_url_parts(url@) is None,
        },
{
    proof {
        reveal_strlit("data:");
    }
    if !str_has_prefix(url, "data:") {
        return None;
    }
    let cs = chars_of(url);
    let n = cs.len();
    let mut i: usize = 5;
    while i < n && cs[i] != ','
        invariant
            5 <= i <= n == cs@.len(),
            cs@ == url@,
            forall|j: int| 5 <= j < i ==> cs@[j] != ',',
        decreases n - i,
    {
        i = i + 1;
    }
    if i == n {
        assert(!exists|k: int| is_first_comma(url@, k)) by {
            if exists|k: int| is_first_comma(url@, k) {
                let k = choose|k: int| is_first_comma(url@, k);
                assert(cs@[k] != ',');
            }
        }
        return None;
    }
    proof {
        assert(is_first_comma(url@, i as int));
        let k = choose|k: int| is_first_comma(url@, k);
        lemma_first_comma_unique(url@, i as int, k);
    }
    let meta = copy_range(&cs, 5, i);
    let payload = copy_range(&cs, i + 1, n);
    assert(payload@ == url@.skip(i + 1));
    Some((string_of(&meta), string_of(&payload)))
}

/// The outcome recorded for the first fetch of `url`, if any.
fn find_fetched<'a>(fetched: &'a Vec<FetchedImage>, url: &str) -> (r: Option<&'a FetchedImage>)
    ensures
        match r {
            Some(e) => e.url@ == url@ && fetched_outcome(fetched@, url@) == Some(
                match e.outcome {
                    Ok(b) => Ok(b@),
                    Err(m) => Err(m@),
                },
            ),
            None => fetched_outcome(fetched@, url@) is None,
        },
{
    let n = fetched.len();
    let mut i: usize = 0;
    assert(fetched@.skip(0) == fetched@);
    while i < n
        invariant
            i <= n == fetched@.len(),
            fetched_outcome(fetched@, url@) == fetched_outcome(fetched@.skip(i as int), url@),
        decreases n - i,
    {
        if str_eq(fetched[i].url.as_str(), url) {
            return Some(&fetched[i]);
        }
        assert(fetched@.skip(i as int).drop_first() == fetched@.skip(i + 1));
        i = i + 1;
    }
    None
}

/// What an image URL stands for in an Ollama message (see `image_outcome`).
pub fn image_url_to_base64(url: &str, fetched: &Vec<FetchedImage>) -> (r: Result<String, NormalizeStop>)
    ensures
        match r {
            Ok(s) => image_outcome(url@, fetched@) == Ok::<Seq<char>, StopView>(s@),
            Err(e) => image_outcome(url@, fetched@) == Err::<Seq<char>, StopView>(e@),
        },
{
    if let Some((_meta, payload)) = parse_data_url(url) {
        return Ok(payload);
    }
    if str_has_prefix(url, "http://") || str_has_prefix(url, "https://") {
        match find_fetched(fetched, url) {
            Some(entry) => match &entry.outcome {
                Ok(bytes) => Ok(base64_encode(bytes.as_slice())),
                Err(msg) => Err(NormalizeStop::Error(msg.clone())),
            },
            None => Err(NormalizeStop::FetchImage(url.to_owned())),
        }
    } else {
        Ok(url.to_owned())
    }
}

} // verus!
