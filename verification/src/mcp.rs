//! MCP (Model Context Protocol) calls over curl: the JSON-RPC body, the
//! session id, the curl arguments, and reading the server's event stream.

use vstd::prelude::*;
use crate::display::strip_line_end;
use crate::json::{JsonValue, json_document, parse_json};
use crate::json_text::{json_string, json_text, push_json_string, push_json_text};
use crate::numbers::{decimal_text, digit_char, hex_text, law_radix_text_injective, lemma_radix_roundtrip, radix_chars, radix_text};
use crate::text::{
    chars_of, eq_str, find_seq_from, is_whitespace, join, join_from, split_on, split_on_chars, is_ws, trim_end, trim_start, lemma_deep_view_push, occurs_at, occurs_at_exec,
    push_str, slice_chars, starts_with, starts_with_str, string_of, trim, trim_chars,
};

verus! {

// ------------------------------------------------------------------------
// Request body and arguments
// ------------------------------------------------------------------------

/// The JSON-RPC 2.0 body of a call with id 1: `method` is written inside
/// quotes as given, `params` is written as given (it is JSON text already).
pub open spec fn json_rpc_body(method: Seq<char>, params: Seq<char>) -> Seq<char> {
    "{\"jsonrpc\":\"2.0\",\"id\":1,\"method\":\""@ + method + "\",\"params\":"@ + params + "}"@
}

/// Builds the JSON-RPC body of an MCP call.
pub fn build_json_rpc_body(method: &str, params: &str) -> (body: String)
    ensures
        body@ == json_rpc_body(method@, params@),
{
    let mut body = "{\"jsonrpc\":\"2.0\",\"id\":1,\"method\":\"".to_owned();
    push_str(&mut body, method);
    push_str(&mut body, "\",\"params\":");
    push_str(&mut body, params);
    push_str(&mut body, "}");
    body
}

/// `s` without the slashes at its end (`trim_end_matches('/')`).
pub open spec fn trim_end_slashes(s: Seq<char>) -> Seq<char>
    decreases s.len(),
{
    if s.len() > 0 && s.last() == '/' {
        trim_end_slashes(s.drop_last())
    } else {
        s
    }
}

/// The endpoint URL with the session id as query parameter.
pub open spec fn session_url(url: Seq<char>, session_id: Seq<char>) -> Seq<char> {
    trim_end_slashes(url) + "?session_id="@ + session_id
}

/// The endpoint URL with the session id as query parameter.
pub fn build_session_url(url: &str, session_id: &str) -> (r: String)
    ensures
        r@ == session_url(url@, session_id@),
{
    let s = chars_of(url);
    let mut j = s.len();
    assert(s@.take(j as int) =~= s@);
    while j > 0 && s[j - 1] == '/'
        invariant
            j <= s@.len(),
            trim_end_slashes(s@) == trim_end_slashes(s@.take(j as int)),
        decreases j,
    {
        assert(s@.take(j as int).drop_last() =~= s@.take(j - 1));
        j = j - 1;
    }
    let base = slice_chars(&s, 0, j);
    assert(base@ =~= s@.take(j as int));
    let mut r = string_of(&base);
    push_str(&mut r, "?session_id=");
    push_str(&mut r, session_id);
    r
}

/// The URL of the server's event stream: the message URL with each
/// `/mcp/message` replaced by `/mcp/sse` (`str::replace`).
pub open spec fn sse_url_spec(message_url: Seq<char>) -> Seq<char> {
    join(split_on(message_url, "/mcp/message"@), "/mcp/sse"@)
}

/// The URL of the server's event stream for a message URL.
pub fn sse_url(message_url: &str) -> (r: String)
    ensures
        r@ == sse_url_spec(message_url@),
{
    let from = chars_of("/mcp/message");
    let to = chars_of("/mcp/sse");
    proof {
        reveal_strlit("/mcp/message");
    }
    let pieces = split_on_chars(&chars_of(message_url), &from);
    let joined = join_from(&pieces, 0, &to);
    assert(crate::text::views(pieces@).skip(0) =~= crate::text::views(pieces@));
    string_of(&joined)
}

/// The JSON-RPC 2.0 body of request `id`, as serde_json writes the object
/// `{"jsonrpc": "2.0", "id": id, "method": method, "params": params}`: compact,
/// with its keys in sorted order.
pub open spec fn request_body_text(id: u64, method: Seq<char>, params: JsonValue) -> Seq<char> {
    "{\"id\":"@ + decimal_text(id as nat) + ",\"jsonrpc\":\"2.0\",\"method\":"@ + json_string(method)
        + ",\"params\":"@ + json_text(params) + "}"@
}

/// Builds the JSON-RPC body of request `id` of a session.
pub fn build_request_body(id: u64, method: &str, params: &JsonValue) -> (body: String)
    ensures
        body@ == request_body_text(id, method@, *params),
{
    let mut body = "{\"id\":".to_owned();
    push_str(&mut body, string_of(&radix_chars(id as u128, 10)).as_str());
    push_str(&mut body, ",\"jsonrpc\":\"2.0\",\"method\":");
    push_json_string(&mut body, method);
    push_str(&mut body, ",\"params\":");
    push_json_text(&mut body, params);
    push_str(&mut body, "}");
    body
}

/// The arguments of the curl call that posts an MCP request and streams the answer.
pub open spec fn mcp_args_spec(body: Seq<char>, full_url: Seq<char>) -> Seq<Seq<char>> {
    seq![
        "-s"@,
        "-N"@,
        "-i"@,
        "-X"@,
        "POST"@,
        "-H"@,
        "Content-Type: application/json"@,
        "-d"@,
        body,
        full_url,
    ]
}

fn push_owned(args: &mut Vec<String>, s: &str)
    ensures
        final(args).deep_view() == old(args).deep_view().push(s@),
{
    let ghost before = *args;
    let x = s.to_owned();
    args.push(x);
    proof {
        lemma_deep_view_push(before, *args, x);
    }
}

/// The curl arguments for an MCP call.
pub fn mcp_curl_args(body: &str, full_url: &str) -> (args: Vec<String>)
    ensures
        args.deep_view() == mcp_args_spec(body@, full_url@),
{
    let mut args: Vec<String> = Vec::new();
    push_owned(&mut args, "-s");
    push_owned(&mut args, "-N");
    push_owned(&mut args, "-i");
    push_owned(&mut args, "-X");
    push_owned(&mut args, "POST");
    push_owned(&mut args, "-H");
    push_owned(&mut args, "Content-Type: application/json");
    push_owned(&mut args, "-d");
    push_owned(&mut args, body);
    push_owned(&mut args, full_url);
    assert(args.deep_view() =~= mcp_args_spec(body@, full_url@));
    args
}

// ------------------------------------------------------------------------
// Session ids
// ------------------------------------------------------------------------

/// The session id made from a time stamp: `pcurl-` and the nanoseconds in
/// lower-case hexadecimal.
pub open spec fn session_id_text(nanos: u128) -> Seq<char> {
    "pcurl-"@ + hex_text(nanos as nat)
}

/// The session id made from a time stamp in nanoseconds.
pub fn session_id_from_nanos(nanos: u128) -> (id: String)
    ensures
        id@ == session_id_text(nanos),
{
    let mut id = "pcurl-".to_owned();
    let digits = radix_chars(nanos, 16);
    push_str(&mut id, string_of(&digits).as_str());
    id
}

/// Nanoseconds since the Unix epoch on the system clock (`SystemTime::now`
/// and `duration_since(UNIX_EPOCH)`); `None` when the clock is set before
/// the epoch. The value depends on the clock, so nothing more is claimed.
#[verifier::external_body]
fn unix_time_nanos() -> Option<u128> {
    match std::time::SystemTime::now().duration_since(std::time::UNIX_EPOCH) {
        Ok(d) => Some(d.as_nanos()),
        Err(_) => None,
    }
}

/// A fresh session id from the current time; `None` when the system clock
/// is set before the Unix epoch and gives no time since it.
pub fn generate_session_id() -> (id: Option<String>)
    ensures
        id matches Some(s) ==> exists|nanos: u128| s@ == session_id_text(nanos),
{
    match unix_time_nanos() {
        Some(n) => Some(session_id_from_nanos(n)),
        None => None,
    }
}

/// The session to use: the one given on the command line, else the stored
/// one when it holds more than whitespace (trimmed); `None` asks for a new one.
pub open spec fn session_choice(given: Option<Seq<char>>, stored: Option<Seq<char>>) -> Option<
    Seq<char>,
> {
    match given {
        Some(s) => Some(s),
        None => match stored {
            Some(t) => if trim(t).len() > 0 {
                Some(trim(t))
            } else {
                None
            },
            None => None,
        },
    }
}

/// Chooses between a given session id and the content of the session file.
pub fn choose_session(given: Option<String>, stored: Option<String>) -> (r: Option<String>)
    ensures
        r.deep_view() == session_choice(given.deep_view(), stored.deep_view()),
{
    match given {
        Some(s) => Some(s),
        None => match stored {
            Some(t) => {
                let tt = trim_chars(&chars_of(t.as_str()));
                if tt.len() > 0 {
                    Some(string_of(&tt))
                } else {
                    None
                }
            },
            None => None,
        },
    }
}


// ------------------------------------------------------------------------
// The server's event stream
// ------------------------------------------------------------------------

/// An event of a server-sent event stream.
pub struct SseEvent {
    pub event_type: String,
    pub data: String,
}

/// Reads an event stream line by line and yields its events.
pub struct SseParser {
    pub event_type: String,
    pub event_data: String,
}

/// The next (event type, data) and the event yielded, after reading a line:
/// `event: ` sets the type, `data: ` sets the data (replacing earlier data),
/// and an empty line yields the event read so far, if any, and starts anew.
/// Other lines change nothing.
pub open spec fn sse_feed(etype: Seq<char>, data: Seq<char>, line: Seq<char>) -> (
    (Seq<char>, Seq<char>),
    Option<(Seq<char>, Seq<char>)>,
) {
    let t = strip_line_end(line);
    if t.len() == 0 {
        if etype.len() > 0 || data.len() > 0 {
            ((Seq::empty(), Seq::empty()), Some((etype, data)))
        } else {
            ((etype, data), None)
        }
    } else if starts_with(t, "event: "@) {
        ((t.skip("event: "@.len() as int), data), None)
    } else if starts_with(t, "data: "@) {
        ((etype, t.skip("data: "@.len() as int)), None)
    } else {
        ((etype, data), None)
    }
}

impl SseParser {
    pub fn new() -> (p: Self)
        ensures
            p.event_type@ == Seq::<char>::empty(),
            p.event_data@ == Seq::<char>::empty(),
    {
        SseParser { event_type: String::new(), event_data: String::new() }
    }

    /// Reads one line of the stream (line ending included or not).
    pub fn feed(&mut self, line: &str) -> (ev: Option<SseEvent>)
        ensures
            (final(self).event_type@, final(self).event_data@) == sse_feed(
                old(self).event_type@,
                old(self).event_data@,
                line@,
            ).0,
            ev matches Some(e) ==> sse_feed(old(self).event_type@, old(self).event_data@, line@).1
                == Some((e.event_type@, e.data@)),
            ev is None ==> sse_feed(old(self).event_type@, old(self).event_data@, line@).1 is None,
    {
        let s = chars_of(line);
        let mut j = s.len();
        assert(s@.take(j as int) =~= s@);
        while j > 0 && (s[j - 1] == '\r' || s[j - 1] == '\n')
            invariant
                j <= s@.len(),
                strip_line_end(s@) == strip_line_end(s@.take(j as int)),
            decreases j,
        {
            assert(s@.take(j as int).drop_last() =~= s@.take(j - 1));
            j = j - 1;
        }
        let t = slice_chars(&s, 0, j);
        assert(t@ =~= s@.take(j as int));
        assert(strip_line_end(t@) == t@);
        if t.len() == 0 {
            if self.event_type.as_str().is_empty() && self.event_data.as_str().is_empty() {
                return None;
            }
            let etype = self.event_type.as_str().to_owned();
            let data = self.event_data.as_str().to_owned();
            self.event_type = String::new();
            self.event_data = String::new();
            return Some(SseEvent { event_type: etype, data });
        }
        let n = t.len();
        if starts_with_str(&t, "event: ") {
            let k = chars_of("event: ").len();
            assert(k <= n);
            let v = slice_chars(&t, k, n);
            assert(v@ =~= t@.skip("event: "@.len() as int));
            self.event_type = string_of(&v);
        } else if starts_with_str(&t, "data: ") {
            let k = chars_of("data: ").len();
            assert(k <= n);
            let v = slice_chars(&t, k, n);
            assert(v@ =~= t@.skip("data: "@.len() as int));
            self.event_data = string_of(&v);
        }
        None
    }
}

/// Ends a session id inside an endpoint URL: whitespace or `&`.
pub open spec fn ends_session_id(c: char) -> bool {
    is_ws(c) || c == '&' || c == '\n'
}

/// The length of the longest prefix of `s` without a character that ends a session id.
pub open spec fn session_id_end(s: Seq<char>, i: int) -> int
    decreases s.len() - i,
{
    if i < 0 || i >= s.len() {
        s.len() as int
    } else if ends_session_id(s[i]) {
        i
    } else {
        session_id_end(s, i + 1)
    }
}

/// The number of UTF-8 bytes of a character.
pub open spec fn utf8_width(c: char) -> nat {
    if (c as u32) < 0x80 {
        1
    } else if (c as u32) < 0x800 {
        2
    } else if (c as u32) < 0x10000 {
        3
    } else {
        4
    }
}

/// The number of UTF-8 bytes of a text (`str::len`).
pub open spec fn utf8_len(s: Seq<char>) -> nat
    decreases s.len(),
{
    if s.len() == 0 {
        0
    } else {
        utf8_len(s.drop_last()) + utf8_width(s.last())
    }
}

/// The session id that an `endpoint` event announces: the value of its
/// `session_id=` parameter when not empty, else the whole (trimmed) data
/// when it is longer than ten bytes. Other events announce none.
pub open spec fn endpoint_session(etype: Seq<char>, data: Seq<char>) -> Option<Seq<char>> {
    if etype != "endpoint"@ {
        None
    } else {
        let from_param = match find_seq_from(data, "session_id="@, 0) {
            Some(pos) => {
                let rest = data.skip(pos + "session_id="@.len());
                let sid = rest.take(session_id_end(rest, 0));
                if sid.len() > 0 {
                    Some(sid)
                } else {
                    None
                }
            },
            None => None,
        };
        match from_param {
            Some(sid) => Some(sid),
            None => {
                let t = trim(data);
                if t.len() > 0 && utf8_len(t) > 10 {
                    Some(t)
                } else {
                    None
                }
            },
        }
    }
}

/// Whether the UTF-8 length of `s` exceeds `limit`.
fn utf8_len_exceeds(s: &[char], limit: u64) -> (r: bool)
    ensures
        r == (utf8_len(s@) > limit),
{
    let mut total: u64 = 0;
    let mut i: usize = 0;
    while i < s.len()
        invariant
            i <= s@.len(),
            total as nat == utf8_len(s@.take(i as int)),
            total <= limit,
        decreases s@.len() - i,
    {
        let c = s[i];
        let w: u64 = if (c as u32) < 0x80 {
            1
        } else if (c as u32) < 0x800 {
            2
        } else if (c as u32) < 0x10000 {
            3
        } else {
            4
        };
        i = i + 1;
        assert(s@.take(i as int).drop_last() =~= s@.take(i - 1));
        if w > limit - total {
            proof {
                lemma_utf8_len_prefix(s@, i as int);
            }
            return true;
        }
        total = total + w;
    }
    assert(s@.take(i as int) =~= s@);
    false
}

proof fn lemma_utf8_len_prefix(s: Seq<char>, i: int)
    requires
        0 <= i <= s.len(),
    ensures
        utf8_len(s.take(i)) <= utf8_len(s),
    decreases s.len() - i,
{
    if i < s.len() {
        lemma_utf8_len_prefix(s, i + 1);
        assert(s.take(i + 1).drop_last() =~= s.take(i));
    } else {
        assert(s.take(i) =~= s);
    }
}

/// The session id announced by an event of the stream, if any.
pub fn session_from_endpoint(event_type: &str, data: &str) -> (r: Option<String>)
    ensures
        r.deep_view() == endpoint_session(event_type@, data@),
{
    let et = chars_of(event_type);
    if !eq_str(&et, "endpoint") {
        return None;
    }
    let d = chars_of(data);
    let key = chars_of("session_id=");
    let n = d.len();
    let mut i: usize = 0;
    let mut found: Option<usize> = None;
    while i < n
        invariant
            n == d@.len(),
            i <= n,
            key@ == "session_id="@,
            found is None ==> find_seq_from(d@, key@, 0) == find_seq_from(d@, key@, i as int),
            found matches Some(p) ==> find_seq_from(d@, key@, 0) == Some(p as int) && p < n
                && occurs_at(d@, key@, p as int) && i == n,
        decreases n - i,
    {
        if occurs_at_exec(&d, &key, i) {
            found = Some(i);
            i = n;
        } else {
            i = i + 1;
        }
    }
    if let Some(pos) = found {
        let start = pos + key.len();
        let rest = slice_chars(&d, start, n);
        assert(rest@ =~= d@.skip(pos + "session_id="@.len()));
        let m = rest.len();
        let mut e: usize = 0;
        while e < m && !(is_whitespace(rest[e]) || rest[e] == '&' || rest[e] == '\n')
            invariant
                m == rest@.len(),
                e <= m,
                session_id_end(rest@, 0) == session_id_end(rest@, e as int),
            decreases m - e,
        {
            e = e + 1;
        }
        if e > 0 {
            let sid = slice_chars(&rest, 0, e);
            assert(sid@ =~= rest@.take(e as int));
            return Some(string_of(&sid));
        }
    }
    let t = trim_chars(&d);
    if t.len() > 0 && utf8_len_exceeds(&t, 10) {
        Some(string_of(&t))
    } else {
        None
    }
}

// ------------------------------------------------------------------------
// Matching answers to requests
// ------------------------------------------------------------------------

/// The value of the first member named `key`.
pub open spec fn object_get(entries: Seq<(String, JsonValue)>, key: Seq<char>) -> Option<JsonValue>
    decreases entries.len(),
{
    if entries.len() == 0 {
        None
    } else if entries[0].0@ == key {
        Some(entries[0].1)
    } else {
        object_get(entries.drop_first(), key)
    }
}

/// The `id` member of a JSON object as a `u64`, when it is one.
pub open spec fn response_id(v: JsonValue) -> Option<u64> {
    match v {
        JsonValue::Object(entries) => match object_get(entries@, "id"@) {
            Some(JsonValue::Number { text, as_u64 }) => as_u64,
            _ => None,
        },
        _ => None,
    }
}

/// An event answers request `id` when it is a `message` event (or has no
/// type) and its data is a JSON object whose `id` is `id`.
pub open spec fn answers_request(etype: Seq<char>, parsed: Option<JsonValue>, id: u64) -> bool {
    (etype == "message"@ || etype.len() == 0) && match parsed {
        Some(v) => response_id(v) == Some(id),
        None => false,
    }
}

fn response_id_exec(v: &JsonValue) -> (r: Option<u64>)
    ensures
        r == response_id(*v),
{
    match v {
        JsonValue::Object(entries) => {
            let mut i: usize = 0;
            assert(entries@.skip(0) =~= entries@);
            while i < entries.len()
                invariant
                    *v == JsonValue::Object(*entries),
                    i <= entries@.len(),
                    object_get(entries@, "id"@) == object_get(entries@.skip(i as int), "id"@),
                decreases entries@.len() - i,
            {
                let k = chars_of(entries[i].0.as_str());
                assert(entries@.skip(i as int)[0] == entries@[i as int]);
                if eq_str(&k, "id") {
                    assert(object_get(entries@, "id"@) == Some(entries@[i as int].1));
                    return match &entries[i].1 {
                        JsonValue::Number { text, as_u64 } => *as_u64,
                        _ => None,
                    };
                }
                assert(entries@.skip(i as int).drop_first() =~= entries@.skip(i + 1));
                i = i + 1;
            }
            None
        },
        _ => None,
    }
}

/// Whether an event with type `event_type`, whose data the JSON parser made
/// `parsed` of, answers request `id`.
pub fn answers_with(event_type: &str, parsed: &Option<JsonValue>, id: u64) -> (r: bool)
    ensures
        r == answers_request(event_type@, *parsed, id),
{
    let et = chars_of(event_type);
    if !(eq_str(&et, "message") || et.len() == 0) {
        return false;
    }
    match parsed {
        Some(v) => match response_id_exec(v) {
            Some(x) => x == id,
            None => false,
        },
        None => false,
    }
}

/// The JSON answer that an event carries for request `id`, if it is one.
pub fn match_response(event: &SseEvent, id: u64) -> (r: Option<JsonValue>)
    ensures
        r is Some <==> answers_request(event.event_type@, json_document(event.data@), id),
        r is Some ==> r == json_document(event.data@),
{
    let parsed = parse_json(event.data.as_str());
    if answers_with(event.event_type.as_str(), &parsed, id) {
        parsed
    } else {
        None
    }
}

/// A POST of an MCP request is accepted with 200 or 202.
pub open spec fn post_accepted(status: u16) -> bool {
    status == 200 || status == 202
}

/// Whether the server accepted a posted request.
pub fn is_post_accepted(status: u16) -> (r: bool)
    ensures
        r == post_accepted(status),
{
    status == 200 || status == 202
}

/// The ids of successive requests of a session: 1, 2, 3, ...
pub struct RequestIds {
    next: u64,
}

impl RequestIds {
    #[verifier::type_invariant]
    spec fn starts_at_one(self) -> bool {
        self.next >= 1
    }

    /// The id that the next request gets.
    pub closed spec fn next_spec(&self) -> u64 {
        self.next
    }

    /// How many ids were taken so far.
    pub closed spec fn taken(&self) -> nat {
        (self.next - 1) as nat
    }

    /// Ids starting at 1.
    pub fn new() -> (r: Self)
        ensures
            r.next_spec() == 1,
            r.taken() == 0,
    {
        RequestIds { next: 1 }
    }

    /// The id that the next request gets.
    pub fn peek(&self) -> (r: u64)
        ensures
            r == self.next_spec(),
            r == self.taken() + 1,
    {
        proof {
            use_type_invariant(self);
        }
        self.next
    }

    /// Takes the next id: the `k`-th request of a session gets id `k`.
    pub fn take(&mut self) -> (id: u64)
        requires
            old(self).next_spec() < u64::MAX,
        ensures
            id == old(self).next_spec(),
            final(self).next_spec() == old(self).next_spec() + 1,
            id == old(self).taken() + 1,
            final(self).taken() == old(self).taken() + 1,
    {
        proof {
            use_type_invariant(&*self);
        }
        let id = self.next;
        self.next = self.next + 1;
        id
    }
}

/// Session ids made at different times are different.
pub proof fn law_session_ids_distinct(a: u128, b: u128)
    requires
        a != b,
    ensures
        session_id_text(a) != session_id_text(b),
{
    let p = "pcurl-"@;
    if session_id_text(a) == session_id_text(b) {
        assert(session_id_text(a).skip(p.len() as int) =~= hex_text(a as nat));
        assert(session_id_text(b).skip(p.len() as int) =~= hex_text(b as nat));
        law_radix_text_injective(a as nat, b as nat, 16);
    }
}

/// A session id written to the session file is read back unchanged: the
/// stored id is used when none is given.
pub proof fn law_session_persists(nanos: u128)
    ensures
        session_choice(None, Some(session_id_text(nanos))) == Some(session_id_text(nanos)),
{
    reveal_strlit("pcurl-");
    let id = session_id_text(nanos);
    let h = hex_text(nanos as nat);
    lemma_radix_roundtrip(nanos as nat, 16);
    assert(id[0] == 'p');
    assert(!is_ws(id[0]));
    assert(trim_start(id) == id);
    let d = h.last();
    assert(id.last() == d);
    assert(!is_ws(d)) by {
        if nanos >= 16 {
            assert(h == radix_text((nanos / 16) as nat, 16).push(digit_char((nanos % 16) as nat)));
            assert(d == digit_char((nanos % 16) as nat));
        } else {
            assert(d == digit_char(nanos as nat));
        }
    }
    assert(trim_end(id) == id);
}

/// The session that the session file holds: its text trimmed, when that is
/// not empty.
pub open spec fn stored_session(stored: Option<Seq<char>>) -> Option<Seq<char>> {
    match stored {
        Some(t) => if trim(t).len() > 0 {
            Some(trim(t))
        } else {
            None
        },
        None => None,
    }
}

/// The session a call uses, given the one on the command line, the stored
/// one, and a fresh id for when neither serves.
pub open spec fn session_used(given: Option<Seq<char>>, stored: Option<Seq<char>>, fresh: Seq<char>) -> Seq<char> {
    match session_choice(given, stored) {
        Some(s) => s,
        None => fresh,
    }
}

/// What the session file holds after a call: the fresh id when it was used
/// (none was given and none stored), else what it held.
pub open spec fn stored_after(given: Option<Seq<char>>, stored: Option<Seq<char>>, fresh: Seq<char>) -> Option<Seq<char>> {
    if session_choice(given, stored) is None {
        Some(fresh)
    } else {
        stored
    }
}

/// Without `--session-id`, a call uses the stored session (trimmed) when the
/// file holds more than whitespace, and leaves the file as it is; otherwise it
/// uses a fresh id and stores it. Either way the next call without
/// `--session-id` uses the same session, and choosing again on the session
/// used gives it back.
pub proof fn law_session_stable(stored: Option<Seq<char>>, nanos: u128, later_nanos: u128)
    ensures
        ({
            let fresh = session_id_text(nanos);
            let used = session_used(None, stored, fresh);
            let after = stored_after(None, stored, fresh);
            &&& (stored_session(stored) matches Some(s) ==> used == s && after == stored)
            &&& (stored_session(stored) is None ==> used == fresh && after == Some(fresh))
            &&& session_used(None, after, session_id_text(later_nanos)) == used
            &&& stored_after(None, after, session_id_text(later_nanos)) == after
            &&& session_choice(None, Some(used)) == Some(used)
        }),
{
    let fresh = session_id_text(nanos);
    law_session_persists(nanos);
    if let Some(t) = stored {
        if trim(t).len() > 0 {
            crate::text::trim_bounds(t);
            crate::text::lemma_trim_trimmed(trim(t));
        }
    }
}

} // verus!
