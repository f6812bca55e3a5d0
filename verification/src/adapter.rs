//! Pure logic of the completion-backend adapter: URL normalization and the
//! classification of one incremental event's payload.
//!
//! The transport itself (the HTTP request and the event-stream framing) lives
//! outside the library; what reaches this module is the payload text of one
//! event, and what leaves it is what that event means for the increment
//! sequence: end of stream, a fragment of text, nothing, or an error.

use vstd::prelude::*;

use crate::jsonval::{
    json_array_len, json_as_string, json_doc, json_get, json_index, json_is_null, json_is_object,
    json_model, json_wellformed, parse_json, JsonModel,
};
use crate::error::AppError;
use crate::model::{ChatMessagePayload, ChatRequestPayload, StreamItem};
use crate::text::{decimal_digits, decimal_string, push_char, str_eq};

verus! {

/// `s` without its trailing slashes.
pub open spec fn strip_trailing_slashes(s: Seq<char>) -> Seq<char>
    decreases s.len(),
{
    if s.len() > 0 && s.last() == '/' {
        strip_trailing_slashes(s.drop_last())
    } else {
        s
    }
}

/// Whether `s` ends with `suffix`.
pub open spec fn ends_with(s: Seq<char>, suffix: Seq<char>) -> bool {
    s.len() >= suffix.len() && s.subrange(s.len() - suffix.len(), s.len() as int) == suffix
}

/// The chat-completions URL for a configured base: trailing slashes are
/// dropped, and the API version segment is inserted unless the base already
/// ends with it.
pub open spec fn completions_url_spec(base: Seq<char>) -> Seq<char> {
    let b = strip_trailing_slashes(base);
    if ends_with(b, "/v1"@) {
        b + "/chat/completions"@
    } else {
        b + "/v1/chat/completions"@
    }
}

/// Normalizes a provider's base URL into its chat-completions URL. The same
/// normalization serves the main chat call and the title-inference call.
pub fn completions_url(base: &str) -> (r: String)
    ensures
        r@ == completions_url_spec(base@),
{
    let n = base.unicode_len();
    proof {
        assert(base@.subrange(0, n as int) =~= base@);
    }
    let mut end = n;
    while end > 0 && base.get_char(end - 1) == '/'
        invariant
            0 <= end <= n,
            n == base@.len(),
            strip_trailing_slashes(base@) == strip_trailing_slashes(
                base@.subrange(0, end as int),
            ),
        decreases end,
    {
        proof {
            let cur = base@.subrange(0, end as int);
            assert(cur.last() == base@[end - 1]);
            assert(cur.drop_last() =~= base@.subrange(0, end as int - 1));
        }
        end -= 1;
    }
    let ghost b = strip_trailing_slashes(base@);
    proof {
        let cur = base@.subrange(0, end as int);
        if end > 0 {
            assert(cur.last() == base@[end - 1]);
        }
        assert(strip_trailing_slashes(cur) =~= cur);
        assert(b == cur);
    }
    let has_version = end >= 3 && base.get_char(end - 3) == '/' && base.get_char(end - 2) == 'v'
        && base.get_char(end - 1) == '1';
    proof {
        reveal_strlit("/v1");
        assert("/v1"@.len() == 3);
        if end >= 3 {
            let tail = b.subrange(b.len() - 3, b.len() as int);
            assert(tail[0] == base@[end - 3] && tail[1] == base@[end - 2] && tail[2] == base@[end
                - 1]);
            if has_version {
                assert(tail =~= "/v1"@);
            } else {
                assert(tail != "/v1"@) by {
                    if tail == "/v1"@ {
                        assert(tail[0] == '/' && tail[1] == 'v' && tail[2] == '1');
                    }
                }
            }
        }
        assert(has_version == ends_with(b, "/v1"@));
    }
    let mut out = String::from_str(base.substring_char(0, end));
    if has_version {
        out.append("/chat/completions");
    } else {
        out.append("/v1/chat/completions");
    }
    out
}

/// The lower-case hexadecimal digit for a value below sixteen.
pub open spec fn hex_digit(n: int) -> char {
    if n == 0 {
        '0'
    } else if n == 1 {
        '1'
    } else if n == 2 {
        '2'
    } else if n == 3 {
        '3'
    } else if n == 4 {
        '4'
    } else if n == 5 {
        '5'
    } else if n == 6 {
        '6'
    } else if n == 7 {
        '7'
    } else if n == 8 {
        '8'
    } else if n == 9 {
        '9'
    } else if n == 10 {
        'a'
    } else if n == 11 {
        'b'
    } else if n == 12 {
        'c'
    } else if n == 13 {
        'd'
    } else if n == 14 {
        'e'
    } else {
        'f'
    }
}

/// How one character appears inside a JSON string literal: quote, backslash
/// and the named control characters get two-character escapes, the remaining
/// control characters a six-character escape, everything else stands as is.
pub open spec fn json_escaped_char(c: char) -> Seq<char> {
    let u = c as u32;
    if c == '"' {
        seq!['\\', '"']
    } else if c == '\\' {
        seq!['\\', '\\']
    } else if u == 0x08 {
        seq!['\\', 'b']
    } else if c == '\t' {
        seq!['\\', 't']
    } else if c == '\n' {
        seq!['\\', 'n']
    } else if u == 0x0C {
        seq!['\\', 'f']
    } else if c == '\r' {
        seq!['\\', 'r']
    } else if u < 0x20 {
        seq!['\\', 'u', '0', '0', hex_digit(u as int / 16), hex_digit(u as int % 16)]
    } else {
        seq![c]
    }
}

/// A text with every character escaped for a JSON string literal.
pub open spec fn json_escaped(s: Seq<char>) -> Seq<char>
    decreases s.len(),
{
    if s.len() == 0 {
        Seq::<char>::empty()
    } else {
        json_escaped(s.drop_last()) + json_escaped_char(s.last())
    }
}

/// A JSON string literal holding `s`.
pub open spec fn json_quoted(s: Seq<char>) -> Seq<char> {
    seq!['"'] + json_escaped(s) + seq!['"']
}

/// One message as a JSON object with its role and content.
pub open spec fn json_message(m: ChatMessagePayload) -> Seq<char> {
    "{\"role\":"@ + json_quoted(m.role@) + ",\"content\":"@ + json_quoted(m.content@) + "}"@
}

/// The messages as the comma-separated body of a JSON array.
pub open spec fn json_messages(ms: Seq<ChatMessagePayload>) -> Seq<char>
    decreases ms.len(),
{
    if ms.len() == 0 {
        Seq::<char>::empty()
    } else if ms.len() == 1 {
        json_message(ms[0])
    } else {
        json_messages(ms.drop_last()) + ","@ + json_message(ms.last())
    }
}

/// The body of a chat-completion request: the remote model id, the ordered
/// messages, and whether incremental delivery is requested.
pub open spec fn chat_request_json(
    model: Seq<char>,
    ms: Seq<ChatMessagePayload>,
    stream: bool,
) -> Seq<char> {
    "{\"model\":"@ + json_quoted(model) + ",\"messages\":["@ + json_messages(ms) + "],\"stream\":"@
        + (if stream {
        "true"@
    } else {
        "false"@
    }) + "}"@
}

/// Extending a text by one character extends its escaped form by that
/// character's escape.
proof fn lemma_json_escaped_step(s: Seq<char>, i: int)
    requires
        0 <= i < s.len(),
    ensures
        json_escaped(s.subrange(0, i + 1)) == json_escaped(s.subrange(0, i)) + json_escaped_char(
            s[i],
        ),
{
    let a = s.subrange(0, i + 1);
    assert(a.drop_last() =~= s.subrange(0, i));
    assert(a.last() == s[i]);
}

/// The executable form of [`hex_digit`].
fn hex_digit_char(n: u32) -> (r: char)
    requires
        n < 16,
    ensures
        r == hex_digit(n as int),
{
    if n == 0 {
        '0'
    } else if n == 1 {
        '1'
    } else if n == 2 {
        '2'
    } else if n == 3 {
        '3'
    } else if n == 4 {
        '4'
    } else if n == 5 {
        '5'
    } else if n == 6 {
        '6'
    } else if n == 7 {
        '7'
    } else if n == 8 {
        '8'
    } else if n == 9 {
        '9'
    } else if n == 10 {
        'a'
    } else if n == 11 {
        'b'
    } else if n == 12 {
        'c'
    } else if n == 13 {
        'd'
    } else if n == 14 {
        'e'
    } else {
        'f'
    }
}

/// Appends `s` as a JSON string literal, quotes and escapes included.
fn append_json_quoted(out: &mut String, s: &str)
    ensures
        final(out)@ == old(out)@ + json_quoted(s@),
{
    push_char(out, '"');
    let n = s.unicode_len();
    let ghost mid = out@;
    let mut i: usize = 0;
    while i < n
        invariant
            n == s@.len(),
            0 <= i <= n,
            out@ == mid + json_escaped(s@.subrange(0, i as int)),
        decreases n - i,
    {
        proof {
            lemma_json_escaped_step(s@, i as int);
        }
        let c = s.get_char(i);
        let u = c as u32;
        if c == '"' {
            push_char(out, '\\');
            push_char(out, '"');
        } else if c == '\\' {
            push_char(out, '\\');
            push_char(out, '\\');
        } else if u == 0x08 {
            push_char(out, '\\');
            push_char(out, 'b');
        } else if c == '\t' {
            push_char(out, '\\');
            push_char(out, 't');
        } else if c == '\n' {
            push_char(out, '\\');
            push_char(out, 'n');
        } else if u == 0x0C {
            push_char(out, '\\');
            push_char(out, 'f');
        } else if c == '\r' {
            push_char(out, '\\');
            push_char(out, 'r');
        } else if u < 0x20 {
            push_char(out, '\\');
            push_char(out, 'u');
            push_char(out, '0');
            push_char(out, '0');
            push_char(out, hex_digit_char(u / 16));
            push_char(out, hex_digit_char(u % 16));
        } else {
            push_char(out, c);
        }
        proof {
            assert(out@ =~= mid + json_escaped(s@.subrange(0, i as int + 1)));
        }
        i += 1;
    }
    proof {
        assert(s@.subrange(0, n as int) =~= s@);
    }
    push_char(out, '"');
    proof {
        assert(out@ =~= old(out)@ + json_quoted(s@));
    }
}

/// Builds the JSON body of a chat-completion request, exactly as
/// [`chat_request_json`] lays it out.
pub fn chat_request_body(model: &str, messages: &Vec<ChatMessagePayload>, stream: bool) -> (r:
    String)
    ensures
        r@ == chat_request_json(model@, messages@, stream),
{
    let mut out = String::new();
    out.append("{\"model\":");
    append_json_quoted(&mut out, model);
    out.append(",\"messages\":[");
    let ghost head = out@;
    let n = messages.len();
    let mut k: usize = 0;
    while k < n
        invariant
            n == messages@.len(),
            0 <= k <= n,
            out@ == head + json_messages(messages@.subrange(0, k as int)),
        decreases n - k,
    {
        if k > 0 {
            out.append(",");
        }
        let m = &messages[k];
        out.append("{\"role\":");
        append_json_quoted(&mut out, m.role.as_str());
        out.append(",\"content\":");
        append_json_quoted(&mut out, m.content.as_str());
        out.append("}");
        proof {
            let pre = messages@.subrange(0, k as int);
            let cur = messages@.subrange(0, k as int + 1);
            assert(cur.drop_last() =~= pre);
            assert(cur.last() == messages@[k as int]);
            if k == 0 {
                assert(cur.len() == 1);
                assert(cur[0] == messages@[0]);
                assert(out@ =~= head + json_messages(cur));
            } else {
                assert(out@ =~= head + json_messages(cur));
            }
        }
        k += 1;
    }
    proof {
        assert(messages@.subrange(0, n as int) =~= messages@);
    }
    out.append("],\"stream\":");
    if stream {
        out.append("true");
    } else {
        out.append("false");
    }
    out.append("}");
    proof {
        assert(out@ =~= chat_request_json(model@, messages@, stream));
    }
    out
}

impl ChatRequestPayload {
    /// The JSON body this request goes out as.
    pub fn to_json(&self) -> (r: String)
        ensures
            r@ == chat_request_json(self.model@, self.messages@, self.stream),
    {
        chat_request_body(self.model.as_str(), &self.messages, self.stream)
    }
}

/// What one event payload means for the increment sequence.
///
/// - `Done`: the end-of-stream sentinel.
/// - `Fragment`: a non-empty piece of model output.
/// - `Skip`: a well-formed payload contributing no text (no choices, or an
///   empty or absent content); such events are suppressed, they neither reach
///   consumers nor end the sequence.
/// - `Malformed`: a payload that does not parse to the expected shape; it
///   surfaces as an inline error item.
pub enum EventClass {
    Done,
    Fragment(String),
    Skip,
    Malformed,
}

/// The same four meanings at the specification level, the fragment text as a
/// character sequence.
pub enum EventMeaning {
    Done,
    Fragment(Seq<char>),
    Skip,
    Malformed,
}

/// What one choice object contributes: `None` when the choice does not have
/// the shape `{"delta": {"content"?}}`; `Some(None)` for a delta without
/// content (or with a null one); `Some(Some(t))` for a string content `t`.
pub open spec fn choice_content(c: JsonModel) -> Option<Option<Seq<char>>> {
    match c {
        JsonModel::Object(m) => if m.contains_key("delta"@) {
            match m["delta"@] {
                JsonModel::Object(d) => if d.contains_key("content"@) {
                    match d["content"@] {
                        JsonModel::Text(t) => Some(Some(t)),
                        JsonModel::Null => Some(None),
                        _ => None,
                    }
                } else {
                    Some(None)
                },
                _ => None,
            }
        } else {
            None
        },
        _ => None,
    }
}

/// The choice list of an event document, when the document is an object
/// whose `choices` member is an array.
pub open spec fn choices_of(doc: JsonModel) -> Option<Seq<JsonModel>> {
    match doc {
        JsonModel::Object(m) => if m.contains_key("choices"@) {
            match m["choices"@] {
                JsonModel::Array(cs) => Some(cs),
                _ => None,
            }
        } else {
            None
        },
        _ => None,
    }
}

/// Whether a document has the event shape `{"choices": [{"delta":
/// {"content"?}}]}`: a choices array, every element a well-shaped choice.
pub open spec fn event_shape_ok(doc: JsonModel) -> bool {
    match choices_of(doc) {
        Some(cs) => forall|i: int| 0 <= i < cs.len() ==> choice_content(#[trigger] cs[i]) is Some,
        None => false,
    }
}

/// The string content of the first choice's delta, if there is one.
pub open spec fn first_fragment(doc: JsonModel) -> Option<Seq<char>> {
    match choices_of(doc) {
        Some(cs) => if cs.len() > 0 {
            match choice_content(cs[0]) {
                Some(Some(t)) => Some(t),
                _ => None,
            }
        } else {
            None
        },
        None => None,
    }
}

/// What one event payload means, as a function of the payload text: the
/// sentinel ends the stream; a text the parser rejects, or one without the
/// event shape, is malformed; the first choice's non-empty content is the
/// fragment; everything else is suppressed.
pub open spec fn event_meaning(data: Seq<char>) -> EventMeaning {
    if data == "[DONE]"@ {
        EventMeaning::Done
    } else if !json_wellformed(data) {
        EventMeaning::Malformed
    } else if !event_shape_ok(json_doc(data)) {
        EventMeaning::Malformed
    } else {
        match first_fragment(json_doc(data)) {
            Some(t) => if t.len() > 0 {
                EventMeaning::Fragment(t)
            } else {
                EventMeaning::Skip
            },
            None => EventMeaning::Skip,
        }
    }
}

/// Classifies one event payload, exactly as [`event_meaning`] reads it.
pub fn classify_event(data: &str) -> (r: EventClass)
    ensures
        match event_meaning(data@) {
            EventMeaning::Done => r is Done,
            EventMeaning::Fragment(t) => r matches EventClass::Fragment(f) && f@ == t,
            EventMeaning::Skip => r is Skip,
            EventMeaning::Malformed => r is Malformed,
        },
{
    if str_eq(data, "[DONE]") {
        return EventClass::Done;
    }
    let v = match parse_json(data) {
        None => { return EventClass::Malformed },
        Some(v) => v,
    };
    let ghost doc = json_doc(data@);
    let choices = match json_get(&v, "choices") {
        None => { return EventClass::Malformed },
        Some(c) => c,
    };
    let len = match json_array_len(choices) {
        None => { return EventClass::Malformed },
        Some(l) => l,
    };
    let ghost cs = choices_of(doc).unwrap();
    proof {
        assert(choices_of(doc) == Some(cs));
        assert(cs.len() == len);
    }
    let mut text: Option<String> = None;
    let mut i: usize = 0;
    while i < len
        invariant
            json_wellformed(data@),
            data@ != "[DONE]"@,
            doc == json_doc(data@),
            json_model(*choices) == JsonModel::Array(cs),
            choices_of(doc) == Some(cs),
            len == cs.len(),
            0 <= i <= len,
            forall|j: int| 0 <= j < i ==> choice_content(#[trigger] cs[j]) is Some,
            match text {
                Some(t) => i > 0 && choice_content(cs[0]) == Some(Some(t@)),
                None => i == 0 || choice_content(cs[0]) == Some(None::<Seq<char>>),
            },
        decreases len - i,
    {
        let elem = match json_index(choices, i) {
            None => { return EventClass::Malformed },
            Some(e) => e,
        };
        proof {
            assert(json_model(*elem) == cs[i as int]);
        }
        if !json_is_object(elem) {
            proof {
                assert(choice_content(cs[i as int]) is None);
            }
            return EventClass::Malformed;
        }
        let delta = match json_get(elem, "delta") {
            None => { return EventClass::Malformed },
            Some(d) => d,
        };
        if !json_is_object(delta) {
            return EventClass::Malformed;
        }
        match json_get(delta, "content") {
            None => {},
            Some(content) => {
                if !json_is_null(content) {
                    match json_as_string(content) {
                        None => { return EventClass::Malformed },
                        Some(t) => {
                            if i == 0 {
                                text = Some(t);
                            }
                        },
                    }
                }
            },
        }
        i += 1;
    }
    proof {
        assert(event_shape_ok(doc));
    }
    match text {
        Some(t) => {
            if t.as_str().unicode_len() == 0 {
                EventClass::Skip
            } else {
                EventClass::Fragment(t)
            }
        },
        None => EventClass::Skip,
    }
}

/// Whether an HTTP status code reports success.
pub fn status_is_success(status: u16) -> (r: bool)
    ensures
        r == (200 <= status < 300),
{
    200 <= status && status < 300
}

/// The handshake decision of a chat call: a response status outside the
/// success range fails the call outright, before any streaming, with a
/// caller-facing error carrying the upstream status and body.
pub fn handshake_result(status: u16, body: &str) -> (r: Result<(), AppError>)
    ensures
        r is Ok <==> (200 <= status < 300),
        r matches Err(e) ==> (e is BadRequest && e.spec_detail() == "API error: "@ + decimal_digits(
            status as nat,
        ) + " "@ + body@),
{
    if status_is_success(status) {
        Ok(())
    } else {
        let mut msg = String::from_str("API error: ");
        msg.append(decimal_string(status as u64).as_str());
        msg.append(" ");
        msg.append(body);
        Err(AppError::BadRequest(msg))
    }
}

/// One step of draining the event stream: what to record, and whether the
/// sequence goes on.
pub struct DrainStep {
    /// The increment item this outcome contributes, if any.
    pub item: Option<StreamItem>,
    /// Whether more of the stream should be drained.
    pub more: bool,
}

/// Decides one drained transport outcome. An event's payload is read by
/// [`event_meaning`]: the sentinel ends the sequence, a fragment is
/// recorded, a suppressed event contributes nothing, and a malformed one
/// contributes an inline error item without ending the sequence. A
/// transport fault contributes one inline error item and then ends the
/// sequence.
pub fn drain_step(outcome: Result<String, String>) -> (r: DrainStep)
    ensures
        match outcome {
            Ok(data) => match event_meaning(data@) {
                EventMeaning::Done => r.item is None && !r.more,
                EventMeaning::Fragment(t) => (r.item matches Some(StreamItem::Chunk(c)) && c@ == t)
                    && r.more,
                EventMeaning::Skip => r.item is None && r.more,
                EventMeaning::Malformed => (r.item matches Some(StreamItem::Failure(m)) && m@
                    == "failed to parse event data: "@ + data@) && r.more,
            },
            Err(fault) => (r.item matches Some(StreamItem::Failure(m)) && m@ == "stream error: "@
                + fault@) && !r.more,
        },
{
    match outcome {
        Ok(data) => match classify_event(data.as_str()) {
            EventClass::Done => DrainStep { item: None, more: false },
            EventClass::Fragment(t) => DrainStep { item: Some(StreamItem::Chunk(t)), more: true },
            EventClass::Skip => DrainStep { item: None, more: true },
            EventClass::Malformed => {
                let mut m = String::from_str("failed to parse event data: ");
                m.append(data.as_str());
                DrainStep { item: Some(StreamItem::Failure(m)), more: true }
            },
        },
        Err(fault) => {
            let mut m = String::from_str("stream error: ");
            m.append(fault.as_str());
            DrainStep { item: Some(StreamItem::Failure(m)), more: false }
        },
    }
}

} // verus!
