//! Ollama's streaming replies: newline-delimited JSON records, decoded into
//! normalized events, and the record of the stream that a streaming chat
//! request hands back.

use vstd::prelude::*;
use crate::json::{json_parse, json_text, parse_json, to_json_text, vfield, vstr, JsonView};
use crate::response::{inject_missing_tool_call_ids, with_tool_call_ids, ApiResponse};
use crate::keyed_map::KeyedMap;
use crate::text::{chars_of, concat, has_suffix, string_of, trim, trim_chars};
use crate::json::JsonValue;

verus! {

/// The lines of `s` that a newline ends, in order, and the text after the
/// last newline.
pub open spec fn split_lines(s: Seq<char>) -> (Seq<Seq<char>>, Seq<char>)
    decreases s.len(),
{
    if s.len() == 0 {
        (Seq::empty(), Seq::empty())
    } else {
        let (lines, cur) = split_lines(s.drop_last());
        if s.last() == '\n' {
            (lines.push(cur), Seq::empty())
        } else {
            (lines, cur.push(s.last()))
        }
    }
}

/// The error that a stream reports to the listener.
#[derive(Debug)]
pub struct ErrorEnvelope {
    pub code: Option<String>,
    pub message: String,
    pub provider_id: Option<String>,
    pub request_id: Option<String>,
    pub retryable: Option<bool>,
    pub status: Option<u16>,
}

/// An event of a chat reply, in the form every provider's stream is turned
/// into.
#[derive(Debug)]
pub enum NormalizedEvent {
    Delta { text: String },
    Reasoning { text: String },
    Error { envelope: ErrorEnvelope },
    Done,
}

pub enum EventView {
    Delta(Seq<char>),
    Reasoning(Seq<char>),
    Error(Option<Seq<char>>, Seq<char>),
    Done,
}

impl View for NormalizedEvent {
    type V = EventView;

    open spec fn view(&self) -> EventView {
        match self {
            NormalizedEvent::Delta { text } => EventView::Delta(text@),
            NormalizedEvent::Reasoning { text } => EventView::Reasoning(text@),
            NormalizedEvent::Error { envelope } => EventView::Error(
                match envelope.code {
                    Some(c) => Some(c@),
                    None => None,
                },
                envelope.message@,
            ),
            NormalizedEvent::Done => EventView::Done,
        }
    }
}

pub open spec fn events_view(v: Seq<NormalizedEvent>) -> Seq<EventView> {
    Seq::new(v.len(), |i: int| v[i]@)
}

/// The events of one record of Ollama's chat stream: the non-empty
/// `message.thinking` as reasoning, the non-empty `message.content` as a
/// delta, and the end when `done` is true.
pub open spec fn record_events(v: JsonView) -> Seq<EventView> {
    let msg = vfield(Some(v), "message"@);
    let thinking = match vstr(vfield(msg, "thinking"@)) {
        Some(t) => if t.len() > 0 {
            seq![EventView::Reasoning(t)]
        } else {
            Seq::empty()
        },
        None => Seq::empty(),
    };
    let content = match vstr(vfield(msg, "content"@)) {
        Some(t) => if t.len() > 0 {
            seq![EventView::Delta(t)]
        } else {
            Seq::empty()
        },
        None => Seq::empty(),
    };
    let done = if vfield(Some(v), "done"@) == Some(JsonView::Bool(true)) {
        seq![EventView::Done]
    } else {
        Seq::empty()
    };
    thinking + content + done
}

/// The events of one line: none for a blank line or one that is no JSON.
pub open spec fn line_events(line: Seq<char>) -> Seq<EventView> {
    let t = trim(line);
    if t.len() == 0 {
        Seq::empty()
    } else {
        match json_parse(t) {
            Ok(v) => record_events(v),
            Err(_) => Seq::empty(),
        }
    }
}

/// The events of lines, in order.
pub open spec fn lines_events(lines: Seq<Seq<char>>) -> Seq<EventView>
    decreases lines.len(),
{
    if lines.len() == 0 {
        Seq::empty()
    } else {
        lines_events(lines.drop_last()) + line_events(lines.last())
    }
}

/// `s` holds no newline.
pub open spec fn no_newline(s: Seq<char>) -> bool {
    forall|i: int| 0 <= i < s.len() ==> s[i] != '\n'
}

pub proof fn lemma_split_lines_no_newline(s: Seq<char>)
    requires
        no_newline(s),
    ensures
        split_lines(s) == (Seq::<Seq<char>>::empty(), s),
    decreases s.len(),
{
    if s.len() > 0 {
        lemma_split_lines_no_newline(s.drop_last());
        assert(s.drop_last().push(s.last()) == s);
    }
}

/// The rest of a split holds no newline.
pub proof fn lemma_split_lines_rest(s: Seq<char>)
    ensures
        no_newline(split_lines(s).1),
    decreases s.len(),
{
    if s.len() > 0 {
        lemma_split_lines_rest(s.drop_last());
    }
}

/// The event of a record's string field, when it is not empty.
fn text_event(v: &JsonValue, field: &str, reasoning: bool) -> (r: Vec<NormalizedEvent>)
    ensures
        events_view(r@) == (match vstr(vfield(vfield(Some(v@), "message"@), field@)) {
            Some(t) => if t.len() > 0 {
                seq![if reasoning { EventView::Reasoning(t) } else { EventView::Delta(t) }]
            } else {
                Seq::empty()
            },
            None => Seq::empty(),
        }),
{
    let mut out: Vec<NormalizedEvent> = Vec::new();
    let text: Option<&str> = match v.get("message") {
        Some(m) => match m.get(field) {
            Some(x) => x.as_str(),
            None => None,
        },
        None => None,
    };
    if let Some(t) = text {
        if !t.is_empty() {
            let e = if reasoning {
                NormalizedEvent::Reasoning { text: t.to_owned() }
            } else {
                NormalizedEvent::Delta { text: t.to_owned() }
            };
            out.push(e);
        }
    }
    assert(events_view(out@) =~= (match vstr(vfield(vfield(Some(v@), "message"@), field@)) {
        Some(t) => if t.len() > 0 {
            seq![if reasoning { EventView::Reasoning(t) } else { EventView::Delta(t) }]
        } else {
            Seq::<EventView>::empty()
        },
        None => Seq::<EventView>::empty(),
    }));
    out
}

/// The events of one line of the stream (see `line_events`).
fn decode_line(line: &Vec<char>) -> (r: Vec<NormalizedEvent>)
    ensures
        events_view(r@) == line_events(line@),
{
    let t = trim_chars(line);
    if t.len() == 0 {
        let out: Vec<NormalizedEvent> = Vec::new();
        assert(events_view(out@) =~= Seq::<EventView>::empty());
        return out;
    }
    let text = string_of(&t);
    match parse_json(text.as_str()) {
        Err(_) => {
            let out: Vec<NormalizedEvent> = Vec::new();
            assert(events_view(out@) =~= Seq::<EventView>::empty());
            out
        },
        Ok(v) => {
            let mut out = text_event(&v, "thinking", true);
            let mut content = text_event(&v, "content", false);
            let ghost a = out@;
            let ghost b = content@;
            out.append(&mut content);
            let done = match v.get("done") {
                Some(d) => match d.as_bool() {
                    Some(b) => b,
                    None => false,
                },
                None => false,
            };
            let ghost c = out@;
            if done {
                out.push(NormalizedEvent::Done);
            }
            assert(events_view(out@) =~= record_events(v@));
            out
        },
    }
}

/// Splitting a concatenation splits the first part, then what it leaves
/// joined to the second.
pub proof fn lemma_split_lines_append(x: Seq<char>, y: Seq<char>)
    ensures
        split_lines(x + y) == (
            split_lines(x).0 + split_lines(split_lines(x).1 + y).0,
            split_lines(split_lines(x).1 + y).1,
        ),
    decreases y.len(),
{
    let r = split_lines(x).1;
    if y.len() == 0 {
        assert(x + y == x);
        assert(r + y == r);
        lemma_split_lines_rest(x);
        lemma_split_lines_no_newline(r);
        assert(split_lines(x).0 + Seq::<Seq<char>>::empty() == split_lines(x).0);
    } else {
        let y1 = y.drop_last();
        let c = y.last();
        lemma_split_lines_append(x, y1);
        assert((x + y).drop_last() == x + y1);
        assert((x + y).last() == c);
        assert((r + y).drop_last() == r + y1);
        assert((r + y).last() == c);
        let l = split_lines(x).0;
        let l1 = split_lines(r + y1).0;
        let c1 = split_lines(r + y1).1;
        if c == '\n' {
            assert((l + l1).push(c1) == l + l1.push(c1));
        }
    }
}

/// The events of a concatenation of lines are the events of each part.
pub proof fn lemma_lines_events_append(a: Seq<Seq<char>>, b: Seq<Seq<char>>)
    ensures
        lines_events(a + b) == lines_events(a) + lines_events(b),
    decreases b.len(),
{
    if b.len() == 0 {
        assert(a + b == a);
        assert(lines_events(a) + Seq::<EventView>::empty() == lines_events(a));
    } else {
        lemma_lines_events_append(a, b.drop_last());
        assert((a + b).drop_last() == a + b.drop_last());
        assert((a + b).last() == b.last());
        assert(lines_events(a) + lines_events(b.drop_last()) + line_events(b.last()) == lines_events(
            a,
        ) + (lines_events(b.drop_last()) + line_events(b.last())));
    }
}

/// How a stream is cut into chunks does not change what the decoder makes
/// of it: feeding `a` and then `b` gives the events, and leaves the
/// unfinished line, that feeding `a + b` at once gives.
pub proof fn law_feed_in_pieces(buffer: Seq<char>, a: Seq<char>, b: Seq<char>)
    ensures
        ({
            let (lines1, rest1) = split_lines(buffer + a);
            let (lines2, rest2) = split_lines(rest1 + b);
            let (lines, rest) = split_lines(buffer + (a + b));
            lines_events(lines1) + lines_events(lines2) == lines_events(lines) && rest2 == rest
        }),
{
    assert(buffer + (a + b) == (buffer + a) + b);
    lemma_split_lines_append(buffer + a, b);
    let (lines1, rest1) = split_lines(buffer + a);
    lemma_lines_events_append(lines1, split_lines(rest1 + b).0);
}

/// Decodes Ollama's newline-delimited chat stream into normalized events,
/// keeping an unfinished line until the rest of it arrives.
pub struct SseDecoder {
    buffer: Vec<char>,
}

impl View for SseDecoder {
    type V = Seq<char>;

    closed spec fn view(&self) -> Seq<char> {
        self.buffer@
    }
}

impl SseDecoder {
    /// What the decoder keeps is never a whole line.
    #[verifier::type_invariant]
    pub open spec fn keeps_partial_line(self) -> bool {
        no_newline(self@)
    }

    /// A decoder with nothing buffered.
    pub fn new() -> (r: Self)
        ensures
            r@ == Seq::<char>::empty(),
    {
        SseDecoder { buffer: Vec::new() }
    }

    /// The events of the lines that `chunk` completes; what follows the last
    /// newline is kept for the next chunk. The decoder reads Ollama's chat
    /// stream format, one JSON record per line, whatever provider the
    /// caller names.
    pub fn feed(&mut self, chunk: &str, provider: Option<&str>) -> (r: Vec<NormalizedEvent>)
        ensures
            events_view(r@) == lines_events(split_lines(old(self)@ + chunk@).0),
            final(self)@ == split_lines(old(self)@ + chunk@).1,
    {
        proof {
            use_type_invariant(&*self);
        }
        let cs = chars_of(chunk);
        let ghost start = self.buffer@;
        let ghost whole = start + cs@;
        let mut cur: Vec<char> = Vec::new();
        std::mem::swap(&mut cur, &mut self.buffer);
        let mut events: Vec<NormalizedEvent> = Vec::new();
        let ghost mut lines: Seq<Seq<char>> = Seq::empty();
        proof {
            lemma_split_lines_no_newline(start);
            assert(whole.take(start.len() as int) == start);
        }
        assert(events_view(events@) =~= Seq::<EventView>::empty());
        let n = cs.len();
        let mut i: usize = 0;
        while i < n
            invariant
                i <= n == cs@.len(),
                whole == start + cs@,
                split_lines(whole.take(start.len() + i)) == (lines, cur@),
                events_view(events@) == lines_events(lines),
            decreases n - i,
        {
            let c = cs[i];
            let ghost pre = whole.take(start.len() + i);
            let ghost next = whole.take(start.len() + i + 1);
            assert(next.drop_last() == pre);
            assert(next.last() == c);
            if c == '\n' {
                let line = cur;
                cur = Vec::new();
                let mut evs = decode_line(&line);
                let ghost old_events = events@;
                let ghost old_lines = lines;
                let ghost new_evs = evs@;
                events.append(&mut evs);
                proof {
                    lines = old_lines.push(line@);
                    assert(lines.drop_last() == old_lines);
                    assert(events_view(events@) =~= events_view(old_events) + events_view(new_evs));
                }
            } else {
                cur.push(c);
            }
            i = i + 1;
        }
        assert(whole.take(start.len() + n) == whole);
        proof {
            lemma_split_lines_rest(whole);
        }
        self.buffer = cur;
        events
    }
}

/// The record that marks the end of a stream in the text handed back.
pub open spec fn done_record() -> Seq<char> {
    "data: [DONE]\n\n"@
}

/// The state of a streaming chat request: the unfinished line, the text of
/// the stream handed back at the end, whether the end was seen, and the
/// decoder's unfinished line.
pub struct ChatStreamView {
    pub buffer: Seq<char>,
    pub raw: Seq<char>,
    pub saw_done: bool,
    pub decoder: Seq<char>,
}

/// One record line of the stream: parsed (a parse error ends the request),
/// its tool calls given ids, decoded into events; the line goes into the
/// text handed back, followed by the end record once the end was seen.
pub open spec fn stream_line_step(st: ChatStreamView, line: Seq<char>) -> Result<
    (ChatStreamView, Seq<EventView>),
    Seq<char>,
> {
    match json_parse(line) {
        Err(m) => Err(m),
        Ok(v) => {
            let fed = st.decoder + json_text(with_tool_call_ids(v)) + "\n"@;
            let evs = lines_events(split_lines(fed).0);
            let done = st.saw_done || evs.contains(EventView::Done);
            let raw1 = st.raw + "data: "@ + line + "\n\n"@;
            Ok(
                (
                    ChatStreamView {
                        buffer: st.buffer,
                        raw: if done {
                            raw1 + done_record()
                        } else {
                            raw1
                        },
                        saw_done: done,
                        decoder: split_lines(fed).1,
                    },
                    evs,
                ),
            )
        },
    }
}

/// The lines of the stream, trimmed, in order; blank lines are skipped and
/// the first error stops the rest.
pub open spec fn stream_lines_step(st: ChatStreamView, lines: Seq<Seq<char>>) -> (
    ChatStreamView,
    Seq<EventView>,
    Option<Seq<char>>,
)
    decreases lines.len(),
{
    if lines.len() == 0 {
        (st, Seq::empty(), None)
    } else {
        let (st1, evs, err) = stream_lines_step(st, lines.drop_last());
        if err is Some {
            (st1, evs, err)
        } else {
            let t = trim(lines.last());
            if t.len() == 0 {
                (st1, evs, None)
            } else {
                match stream_line_step(st1, t) {
                    Err(m) => (st1, evs, Some(m)),
                    Ok((st2, e2)) => (st2, evs + e2, None),
                }
            }
        }
    }
}

/// What a step of the stream gives: the events to emit, in order, and the
/// error that ends the request, if any.
#[derive(Debug)]
pub struct StreamStep {
    pub events: Vec<NormalizedEvent>,
    pub error: Option<String>,
}

pub open spec fn opt_text(o: Option<String>) -> Option<Seq<char>> {
    match o {
        Some(s) => Some(s@),
        None => None,
    }
}

/// The state of a streaming chat request against Ollama.
pub struct ChatStream {
    buffer: Vec<char>,
    raw: String,
    saw_done: bool,
    decoder: SseDecoder,
}

impl View for ChatStream {
    type V = ChatStreamView;

    closed spec fn view(&self) -> ChatStreamView {
        ChatStreamView {
            buffer: self.buffer@,
            raw: self.raw@,
            saw_done: self.saw_done,
            decoder: self.decoder@,
        }
    }
}

fn split_lines_exec(cs: &Vec<char>) -> (r: (Vec<Vec<char>>, Vec<char>))
    ensures
        Seq::new(r.0@.len(), |i: int| r.0@[i]@) == split_lines(cs@).0,
        r.1@ == split_lines(cs@).1,
{
    let mut lines: Vec<Vec<char>> = Vec::new();
    let mut cur: Vec<char> = Vec::new();
    let n = cs.len();
    let mut i: usize = 0;
    assert(cs@.take(0) =~= Seq::<char>::empty());
    while i < n
        invariant
            i <= n == cs@.len(),
            Seq::new(lines@.len(), |j: int| lines@[j]@) == split_lines(cs@.take(i as int)).0,
            cur@ == split_lines(cs@.take(i as int)).1,
        decreases n - i,
    {
        assert(cs@.take(i + 1).drop_last() == cs@.take(i as int));
        let c = cs[i];
        if c == '\n' {
            let line = cur;
            cur = Vec::new();
            let ghost old_lines = lines@;
            lines.push(line);
            assert(Seq::new(lines@.len(), |j: int| lines@[j]@) =~= Seq::new(
                old_lines.len(),
                |j: int| old_lines[j]@,
            ).push(line@));
        } else {
            cur.push(c);
        }
        i = i + 1;
    }
    assert(cs@.take(n as int) == cs@);
    (lines, cur)
}

spec fn parse_json_view(t: Seq<char>) -> JsonView {
    match json_parse(t) {
        Ok(v) => v,
        Err(_) => JsonView::Null,
    }
}

fn has_done(events: &Vec<NormalizedEvent>) -> (r: bool)
    ensures
        r == events_view(events@).contains(EventView::Done),
{
    let n = events.len();
    let mut i: usize = 0;
    while i < n
        invariant
            i <= n == events@.len(),
            forall|j: int| 0 <= j < i ==> events_view(events@)[j] != EventView::Done,
        decreases n - i,
    {
        match &events[i] {
            NormalizedEvent::Done => {
                assert(events_view(events@)[i as int] == EventView::Done);
                return true;
            },
            _ => {},
        }
        i = i + 1;
    }
    false
}

impl ChatStream {
    /// Once the end was seen, the text handed back ends with the end record.
    #[verifier::type_invariant]
    pub open spec fn ends_with_done_record(self) -> bool {
        self@.saw_done ==> has_suffix(self@.raw, done_record())
    }

    /// A stream before its first chunk.
    pub fn new() -> (r: Self)
        ensures
            r@ == (ChatStreamView {
                buffer: Seq::empty(),
                raw: Seq::empty(),
                saw_done: false,
                decoder: Seq::empty(),
            }),
    {
        ChatStream {
            buffer: Vec::new(),
            raw: String::new(),
            saw_done: false,
            decoder: SseDecoder::new(),
        }
    }

    /// The text of the stream handed back at the end.
    pub fn raw(&self) -> (r: &String)
        ensures
            r@ == self@.raw,
    {
        &self.raw
    }

    /// Whether the end of the stream was seen.
    pub fn saw_done(&self) -> (r: bool)
        ensures
            r == self@.saw_done,
    {
        self.saw_done
    }

    fn process_line(&mut self, line: &Vec<char>) -> (r: Result<Vec<NormalizedEvent>, String>)
        ensures
            match stream_line_step(old(self)@, line@) {
                Ok((st, evs)) => r matches Ok(e) && events_view(e@) == evs && final(self)@ == st,
                Err(m) => r matches Err(e) && e@ == m && final(self)@ == old(self)@,
            },
    {
        proof {
            use_type_invariant(&*self);
        }
        let text = string_of(line);
        let mut value = match parse_json(text.as_str()) {
            Ok(v) => v,
            Err(m) => return Err(m),
        };
        inject_missing_tool_call_ids(&mut value);
        let fed = concat(to_json_text(&value).as_str(), "\n");
        let mut decoder = SseDecoder::new();
        std::mem::swap(&mut decoder, &mut self.decoder);
        let evs = decoder.feed(fed.as_str(), Some("ollama"));
        self.decoder = decoder;
        let done = self.saw_done || has_done(&evs);
        let r1 = concat(self.raw.as_str(), "data: ");
        let r2 = concat(r1.as_str(), text.as_str());
        let r3 = concat(r2.as_str(), "\n\n");
        let new_raw = if done {
            concat(r3.as_str(), "data: [DONE]\n\n")
        } else {
            r3
        };
        proof {
            reveal_strlit("data: [DONE]\n\n");
            if done {
                assert(new_raw@.skip(new_raw@.len() - done_record().len()) =~= done_record());
            }
        }
        let ghost v0 = parse_json_view(line@);
        assert(value@ == with_tool_call_ids(v0));
        assert(fed@ == json_text(with_tool_call_ids(v0)) + "\n"@);
        assert(old(self)@.decoder + fed@ =~= old(self)@.decoder + json_text(with_tool_call_ids(v0)) + "\n"@);
        assert(r3@ == old(self)@.raw + "data: "@ + line@ + "\n\n"@);
        self.raw = new_raw;
        self.saw_done = done;
        assert(self@.decoder == split_lines(old(self)@.decoder + fed@).1);
        assert(self@.buffer == old(self)@.buffer);
        Ok(evs)
    }

    /// Takes a chunk of the reply: decodes the lines that it completes, in
    /// order, and keeps the unfinished one (see `stream_lines_step`).
    pub fn push_chunk(&mut self, chunk: &str) -> (r: StreamStep)
        ensures
            ({
                let (lines, rest) = split_lines(old(self)@.buffer + chunk@);
                let st0 = ChatStreamView { buffer: rest, ..old(self)@ };
                stream_lines_step(st0, lines) == (final(self)@, events_view(r.events@), opt_text(
                    r.error,
                ))
            }),
    {
        proof {
            use_type_invariant(&*self);
        }
        let mut all = chars_of(self.buffer_text().as_str());
        let cs = chars_of(chunk);
        let ghost all0 = all@;
        let mut k: usize = 0;
        while k < cs.len()
            invariant
                k <= cs@.len(),
                all@ == all0 + cs@.take(k as int),
            decreases cs@.len() - k,
        {
            all.push(cs[k]);
            assert(cs@.take(k + 1) == cs@.take(k as int).push(cs@[k as int]));
            k = k + 1;
        }
        assert(cs@.take(cs@.len() as int) == cs@);
        let (lines, rest) = split_lines_exec(&all);
        self.buffer = rest;
        let ghost lv = Seq::new(lines@.len(), |i: int| lines@[i]@);
        let ghost st0 = self@;
        let mut events: Vec<NormalizedEvent> = Vec::new();
        assert(events_view(events@) =~= Seq::<EventView>::empty());
        assert(lv.take(0) =~= Seq::<Seq<char>>::empty());
        let n = lines.len();
        let mut i: usize = 0;
        while i < n
            invariant
                i <= n == lines@.len(),
                lv == Seq::new(lines@.len(), |j: int| lines@[j]@),
                lv == split_lines(old(self)@.buffer + chunk@).0,
                st0 == (ChatStreamView { buffer: split_lines(old(self)@.buffer + chunk@).1, ..old(self)@ }),
                stream_lines_step(st0, lv.take(i as int)) == (self@, events_view(events@), None::<Seq<char>>),
            decreases n - i,
        {
            assert(lv.take(i + 1).drop_last() == lv.take(i as int));
            assert(lv.take(i + 1).last() == lines@[i as int]@);
            let t = trim_chars(&lines[i]);
            if t.len() > 0 {
                let ghost old_events = events@;
                match self.process_line(&t) {
                    Ok(mut evs) => {
                        let ghost new_evs = evs@;
                        events.append(&mut evs);
                        assert(events_view(events@) =~= events_view(old_events) + events_view(new_evs));
                    },
                    Err(m) => {
                        proof {
                            lemma_stream_lines_stop(st0, lv, i as int + 1);
                            assert(lv.take(n as int) == lv);
                        }
                        return StreamStep { events, error: Some(m) };
                    },
                }
            }
            i = i + 1;
        }
        assert(lv.take(n as int) == lv);
        StreamStep { events, error: None }
    }

    fn buffer_text(&self) -> (r: String)
        ensures
            r@ == self@.buffer,
    {
        string_of(&self.buffer)
    }

    /// Ends the reply: decodes what is left after the last newline, as a
    /// line, when it is not blank.
    pub fn finish(&mut self) -> (r: StreamStep)
        ensures
            ({
                let t = trim(old(self)@.buffer);
                let st0 = ChatStreamView { buffer: Seq::empty(), ..old(self)@ };
                if t.len() == 0 {
                    final(self)@ == st0 && r.events@.len() == 0 && r.error is None
                } else {
                    match stream_line_step(st0, t) {
                        Ok((st, evs)) => final(self)@ == st && events_view(r.events@) == evs
                            && r.error is None,
                        Err(m) => final(self)@ == st0 && r.events@.len() == 0 && opt_text(r.error)
                            == Some(m),
                    }
                }
            }),
    {
        proof {
            use_type_invariant(&*self);
        }
        let t = trim_chars(&self.buffer);
        self.buffer = Vec::new();
        if t.len() == 0 {
            return StreamStep { events: Vec::new(), error: None };
        }
        match self.process_line(&t) {
            Ok(evs) => StreamStep { events: evs, error: None },
            Err(m) => StreamStep { events: Vec::new(), error: Some(m) },
        }
    }

    /// Closes the stream: when no end was seen, the end record is added and
    /// the caller emits `Done`; tells whether it must.
    pub fn close(&mut self) -> (r: bool)
        ensures
            r == !old(self)@.saw_done,
            final(self)@.saw_done,
            final(self)@.buffer == old(self)@.buffer,
            final(self)@.decoder == old(self)@.decoder,
            final(self)@.raw == if r {
                old(self)@.raw + done_record()
            } else {
                old(self)@.raw
            },
            has_suffix(final(self)@.raw, done_record()),
    {
        proof {
            use_type_invariant(&*self);
        }
        if self.saw_done {
            return false;
        }
        let new_raw = concat(self.raw.as_str(), "data: [DONE]\n\n");
        proof {
            reveal_strlit("data: [DONE]\n\n");
            assert(new_raw@.skip(new_raw@.len() - done_record().len()) =~= done_record());
        }
        self.raw = new_raw;
        self.saw_done = true;
        proof {
            use_type_invariant(&*self);
        }
        true
    }

    /// The response of the streaming request: status 200 with the text of
    /// the stream.
    pub fn into_response(self) -> (r: ApiResponse)
        ensures
            r.status == 200,
            r.ok,
            r.headers@ == Map::<Seq<char>, String>::empty(),
            r.data@ == JsonView::Str(self@.raw),
    {
        ApiResponse { status: 200, ok: true, headers: KeyedMap::new(), data: JsonValue::Str(self.raw) }
    }
}

proof fn lemma_stream_lines_stop(st: ChatStreamView, lines: Seq<Seq<char>>, i: int)
    requires
        0 <= i <= lines.len(),
        stream_lines_step(st, lines.take(i)).2 is Some,
    ensures
        stream_lines_step(st, lines) == stream_lines_step(st, lines.take(i)),
    decreases lines.len() - i,
{
    if i < lines.len() {
        assert(lines.take(i + 1).drop_last() == lines.take(i));
        lemma_stream_lines_stop(st, lines, i + 1);
    } else {
        assert(lines.take(i) == lines);
    }
}

/// Stepping through lines leaves the unfinished line of the state as it was.
proof fn lemma_stream_lines_buffer(st: ChatStreamView, lines: Seq<Seq<char>>)
    ensures
        stream_lines_step(st, lines).0.buffer == st.buffer,
    decreases lines.len(),
{
    if lines.len() > 0 {
        lemma_stream_lines_buffer(st, lines.drop_last());
    }
}

/// Stepping through lines does not read the unfinished line of the state.
proof fn lemma_stream_lines_any_buffer(st: ChatStreamView, x: Seq<char>, lines: Seq<Seq<char>>)
    ensures
        ({
            let (s, e, err) = stream_lines_step(st, lines);
            stream_lines_step(ChatStreamView { buffer: x, ..st }, lines) == (
                ChatStreamView { buffer: x, ..s },
                e,
                err,
            )
        }),
    decreases lines.len(),
{
    if lines.len() > 0 {
        lemma_stream_lines_any_buffer(st, x, lines.drop_last());
    }
}

/// Stepping through `a + b` steps through `a`, then, unless that stopped,
/// through `b` from where `a` left the state.
proof fn lemma_stream_lines_append(st: ChatStreamView, a: Seq<Seq<char>>, b: Seq<Seq<char>>)
    ensures
        ({
            let (s1, e1, err1) = stream_lines_step(st, a);
            let (s2, e2, err2) = stream_lines_step(s1, b);
            stream_lines_step(st, a + b) == if err1 is Some {
                (s1, e1, err1)
            } else {
                (s2, e1 + e2, err2)
            }
        }),
    decreases b.len(),
{
    let (s1, e1, err1) = stream_lines_step(st, a);
    if b.len() == 0 {
        assert(a + b == a);
        assert(e1 + Seq::<EventView>::empty() == e1);
    } else {
        lemma_stream_lines_append(st, a, b.drop_last());
        assert((a + b).drop_last() == a + b.drop_last());
        assert((a + b).last() == b.last());
        let (s2, e2, err2) = stream_lines_step(s1, b.drop_last());
        if err1 is None && err2 is None {
            let t = trim(b.last());
            if t.len() > 0 {
                if let Ok((s3, e3)) = stream_line_step(s2, t) {
                    assert(e1 + e2 + e3 == e1 + (e2 + e3));
                }
            }
        }
    }
}

/// How a streaming reply is cut into chunks does not change what the
/// request makes of it: pushing `a` and then `b`, when `a` ends in no error,
/// leaves the state, gives the events and ends in the error that pushing
/// `a + b` at once does (see `ChatStream::push_chunk`).
pub proof fn law_chunks_in_pieces(st: ChatStreamView, a: Seq<char>, b: Seq<char>)
    ensures
        ({
            let (l1, r1) = split_lines(st.buffer + a);
            let (s1, e1, err1) = stream_lines_step(ChatStreamView { buffer: r1, ..st }, l1);
            let (l2, r2) = split_lines(s1.buffer + b);
            let (s2, e2, err2) = stream_lines_step(ChatStreamView { buffer: r2, ..s1 }, l2);
            let (l, r) = split_lines(st.buffer + (a + b));
            let (s, e, err) = stream_lines_step(ChatStreamView { buffer: r, ..st }, l);
            err1 is None ==> s2 == s && e1 + e2 == e && err2 == err
        }),
{
    let (l1, r1) = split_lines(st.buffer + a);
    let st1 = ChatStreamView { buffer: r1, ..st };
    let (s1, e1, err1) = stream_lines_step(st1, l1);
    assert(st.buffer + (a + b) == (st.buffer + a) + b);
    lemma_split_lines_append(st.buffer + a, b);
    lemma_stream_lines_buffer(st1, l1);
    let (l2, r2) = split_lines(r1 + b);
    let st_r = ChatStreamView { buffer: r2, ..st };
    assert(st_r == ChatStreamView { buffer: r2, ..st1 });
    lemma_stream_lines_any_buffer(st1, r2, l1);
    lemma_stream_lines_append(st_r, l1, l2);
}

/// The error event of a request that the user cancelled.
pub fn aborted_envelope(provider_id: Option<String>, request_id: &str) -> (r: ErrorEnvelope)
    ensures
        opt_text(r.code) == Some("ABORTED"@),
        r.message@ == "Request was cancelled by user"@,
        r.provider_id == provider_id,
        opt_text(r.request_id) == Some(request_id@),
        r.retryable == Some(false),
        r.status is None,
{
    ErrorEnvelope {
        code: Some("ABORTED".to_owned()),
        message: "Request was cancelled by user".to_owned(),
        provider_id,
        request_id: Some(request_id.to_owned()),
        retryable: Some(false),
        status: None,
    }
}

/// The error event of a stream whose bytes could not be read.
pub fn stream_decode_envelope(provider_id: Option<String>, request_id: &str) -> (r: ErrorEnvelope)
    ensures
        opt_text(r.code) == Some("OLLAMA_STREAM_DECODE"@),
        r.message@ == "Failed to decode Ollama streaming response"@,
        r.provider_id == provider_id,
        opt_text(r.request_id) == Some(request_id@),
        r.retryable == Some(false),
        r.status == Some(500u16),
{
    ErrorEnvelope {
        code: Some("OLLAMA_STREAM_DECODE".to_owned()),
        message: "Failed to decode Ollama streaming response".to_owned(),
        provider_id,
        request_id: Some(request_id.to_owned()),
        retryable: Some(false),
        status: Some(500),
    }
}

/// A record line of a streaming reply yields exactly the events that the
/// decoder makes of the record (its tool calls given ids) fed as one line,
/// in order; the decoder is left as that feeding leaves it; the end is seen
/// once one of those events is `Done`; and the line is added to the text
/// handed back as a `data:` record, followed by the end record once the end
/// was seen.
pub proof fn law_line_events(st: ChatStreamView, line: Seq<char>)
    requires
        json_parse(line) is Ok,
    ensures
        ({
            let v = json_parse(line)->Ok_0;
            let (lines, rest) = split_lines(st.decoder + json_text(with_tool_call_ids(v)) + "\n"@);
            let (st2, evs) = stream_line_step(st, line)->Ok_0;
            &&& stream_line_step(st, line) is Ok
            &&& evs == lines_events(lines)
            &&& st2.decoder == rest
            &&& st2.saw_done == (st.saw_done || exists|i: int|
                0 <= i < evs.len() && evs[i] == EventView::Done)
            &&& st2.raw == if st2.saw_done {
                st.raw + "data: "@ + line + "\n\n"@ + done_record()
            } else {
                st.raw + "data: "@ + line + "\n\n"@
            }
            &&& st2.buffer == st.buffer
        }),
{
}

/// A line holding a record whose `message.content` is a non-empty string
/// yields that text, exactly as sent, as its one `Delta` event; a record
/// whose `message.thinking` is a non-empty string yields that text, exactly
/// as sent, as its one `Reasoning` event.
pub proof fn law_record_texts_verbatim(line: Seq<char>)
    requires
        trim(line).len() > 0,
        json_parse(trim(line)) is Ok,
    ensures
        ({
            let v = json_parse(trim(line))->Ok_0;
            let msg = vfield(Some(v), "message"@);
            let evs = line_events(line);
            &&& vstr(vfield(msg, "content"@)) matches Some(t) ==> t.len() > 0 ==> {
                &&& evs.contains(EventView::Delta(t))
                &&& forall|i: int|
                    0 <= i < evs.len() && #[trigger] evs[i] is Delta ==> evs[i] == EventView::Delta(t)
            }
            &&& vstr(vfield(msg, "thinking"@)) matches Some(t) ==> t.len() > 0 ==> {
                &&& evs.contains(EventView::Reasoning(t))
                &&& forall|i: int|
                    0 <= i < evs.len() && #[trigger] evs[i] is Reasoning ==> evs[i]
                        == EventView::Reasoning(t)
            }
        }),
{
    let v = json_parse(trim(line))->Ok_0;
    let msg = vfield(Some(v), "message"@);
    let evs = line_events(line);
    if let Some(t) = vstr(vfield(msg, "content"@)) {
        if t.len() > 0 {
            let th = match vstr(vfield(msg, "thinking"@)) {
                Some(x) => if x.len() > 0 { seq![EventView::Reasoning(x)] } else { Seq::<EventView>::empty() },
                None => Seq::<EventView>::empty(),
            };
            assert(evs[th.len() as int] == EventView::Delta(t));
        }
    }
    if let Some(t) = vstr(vfield(msg, "thinking"@)) {
        if t.len() > 0 {
            assert(evs[0] == EventView::Reasoning(t));
        }
    }
}

} // verus!
