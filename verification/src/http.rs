//! HTTP requests and responses, as far as the router reads and writes them itself.
use crate::codec;
use crate::text;
use tokio_tungstenite::tungstenite::http::{header::HeaderName, Method, StatusCode, Uri};
use vstd::prelude::*;
use vstd::utf8::*;

verus! {

// ---------------------------------------------------------------------------------------------
// Names, values and status codes
// ---------------------------------------------------------------------------------------------

/// The characters that names of methods and headers are made of.
pub open spec fn is_token_char(c: char) -> bool {
    ||| 'A' <= c <= 'Z'
    ||| 'a' <= c <= 'z'
    ||| '0' <= c <= '9'
    ||| c == '!'
    ||| c == '#'
    ||| c == '$'
    ||| c == '%'
    ||| c == '&'
    ||| c == '\''
    ||| c == '*'
    ||| c == '+'
    ||| c == '-'
    ||| c == '.'
    ||| c == '^'
    ||| c == '_'
    ||| c == '`'
    ||| c == '|'
    ||| c == '~'
}

/// Names of methods and headers.
pub open spec fn is_token(s: Seq<char>) -> bool {
    &&& s.len() > 0
    &&& forall|i: int| 0 <= i < s.len() ==> is_token_char(#[trigger] s[i])
}

/// A header's name, in lower case, if it is one.
pub open spec fn header_name(name: Seq<char>) -> Option<Seq<char>> {
    if is_token(name) && name.len() <= 65535 {
        Some(text::lowered(name))
    } else {
        None
    }
}

/// `Method::from_bytes` of `http` accepts the tokens.
#[verifier::external_body]
fn valid_method(method: &str) -> (r: bool)
    ensures
        r == is_token(method@),
{
    Method::from_bytes(method.as_bytes()).is_ok()
}

/// `HeaderName::from_bytes` of `http` accepts the tokens of at most 65535 characters, and turns
/// them to lower case.
#[verifier::external_body]
fn lower_header_name(name: &str) -> (r: Option<String>)
    ensures
        match r {
            Some(n) => header_name(name@) == Some(n@),
            None => header_name(name@) is None,
        },
{
    Some(HeaderName::from_bytes(name.as_bytes()).ok()?.as_str().to_owned())
}

/// The bytes that a header value can hold.
pub open spec fn is_value_byte(b: u8) -> bool {
    b == 9 || (b >= 32 && b != 127)
}

/// The bytes of a header value that are text.
pub open spec fn is_visible(b: u8) -> bool {
    b == 9 || 32 <= b < 127
}

/// A header value as text, if all of it is visible ASCII.
pub open spec fn header_text(value: Seq<u8>) -> Option<Seq<char>> {
    if forall|i: int| 0 <= i < value.len() ==> is_visible(#[trigger] value[i]) {
        Some(Seq::new(value.len(), |i: int| value[i] as char))
    } else {
        None
    }
}

/// A header value as text, if all of it is visible ASCII.
pub fn value_text(value: &[u8]) -> (r: Option<String>)
    ensures
        match r {
            Some(s) => header_text(value@) == Some(s@),
            None => header_text(value@) is None,
        },
{
    let mut out = String::new();
    let mut i: usize = 0;
    while i < value.len()
        invariant
            i <= value@.len(),
            forall|j: int| 0 <= j < i ==> is_visible(#[trigger] value@[j]),
            out@.len() == i,
            forall|j: int| 0 <= j < i ==> out@[j] == value@[j] as char,
        decreases value.len() - i,
    {
        let b: u8 = value[i];
        if b != 9 && (b < 32 || b >= 127) {
            assert(!is_visible(value@[i as int]));
            return None;
        }
        out.push(b as char);
        i += 1;
    }
    assert(out@ =~= Seq::new(value@.len(), |j: int| value@[j] as char));
    Some(out)
}

/// Whether `value` can be a header value.
fn valid_value(value: &[u8]) -> (r: bool)
    ensures
        r == (forall|i: int| 0 <= i < value@.len() ==> is_value_byte(#[trigger] value@[i])),
{
    let mut i: usize = 0;
    while i < value.len()
        invariant
            i <= value@.len(),
            forall|j: int| 0 <= j < i ==> is_value_byte(#[trigger] value@[j]),
        decreases value.len() - i,
    {
        let b: u8 = value[i];
        if b != 9 && (b < 32 || b == 127) {
            assert(!is_value_byte(value@[i as int]));
            return false;
        }
        i += 1;
    }
    true
}

/// The reason phrase of a status code.
pub uninterp spec fn reason_phrase(status: u16) -> Option<Seq<char>>;

/// The phrases of the codes that the router answers with.
pub open spec fn router_phrase(status: u16) -> Option<Seq<char>> {
    if status == 200 {
        Some("OK"@)
    } else if status == 204 {
        Some("No Content"@)
    } else if status == 400 {
        Some("Bad Request"@)
    } else if status == 401 {
        Some("Unauthorized"@)
    } else if status == 404 {
        Some("Not Found"@)
    } else if status == 405 {
        Some("Method Not Allowed"@)
    } else if status == 500 {
        Some("Internal Server Error"@)
    } else if status == 503 {
        Some("Service Unavailable"@)
    } else {
        None
    }
}

/// The reason phrase of a code that the router answers with is the one that is spelled out.
pub open spec fn is_spelled_out(status: u16) -> bool {
    router_phrase(status) is Some ==> reason_phrase(status) == router_phrase(status)
}

/// `StatusCode::canonical_reason` of `http`, on the code that `StatusCode::from_u16` makes; it
/// has none for numbers that are no code. Of the codes that the router answers with, the phrases
/// are spelled out.
#[verifier::external_body]
fn canonical_reason(status: u16) -> (r: Option<String>)
    ensures
        match r {
            Some(s) => reason_phrase(status) == Some(s@),
            None => reason_phrase(status) is None,
        },
        router_phrase(status) matches Some(phrase) ==> r is Some && r->0@ == phrase,
{
    Some(StatusCode::from_u16(status).ok()?.canonical_reason()?.to_owned())
}

// ---------------------------------------------------------------------------------------------
// Requests
// ---------------------------------------------------------------------------------------------

/// A header: its name in lower case, and its value.
#[derive(Debug)]
pub struct Header {
    pub name: String,
    pub value: Vec<u8>,
}

/// A request without a body.
#[derive(Debug)]
pub struct Request {
    pub method: String,
    pub path: String,
    pub headers: Vec<Header>,
}

/// What a request holds.
#[verifier::ext_equal]
pub struct RequestView {
    pub method: Seq<char>,
    pub path: Seq<char>,
    pub headers: Seq<(Seq<char>, Seq<u8>)>,
}

impl View for Header {
    type V = (Seq<char>, Seq<u8>);

    open spec fn view(&self) -> (Seq<char>, Seq<u8>) {
        (self.name@, self.value@)
    }
}

/// Headers, by their contents.
pub open spec fn header_views(headers: Seq<Header>) -> Seq<(Seq<char>, Seq<u8>)> {
    headers.map_values(|h: Header| h@)
}

impl View for Request {
    type V = RequestView;

    open spec fn view(&self) -> RequestView {
        RequestView {
            method: self.method@,
            path: self.path@,
            headers: header_views(self.headers@),
        }
    }
}

/// The value of the first header called `name`.
pub open spec fn first_value(headers: Seq<(Seq<char>, Seq<u8>)>, name: Seq<char>) -> Option<
    Seq<u8>,
>
    decreases headers.len(),
{
    if headers.len() == 0 {
        None
    } else if headers[0].0 == name {
        Some(headers[0].1)
    } else {
        first_value(headers.skip(1), name)
    }
}

impl RequestView {
    /// The value of a header.
    pub open spec fn value(self, name: Seq<char>) -> Option<Seq<u8>> {
        first_value(self.headers, name)
    }

    /// The value of a header, where it is text.
    pub open spec fn text(self, name: Seq<char>) -> Option<Seq<char>> {
        match self.value(name) {
            Some(value) => header_text(value),
            None => None,
        }
    }

    /// Each header value is short enough to be decoded and hashed.
    pub open spec fn fits(self) -> bool {
        forall|i: int|
            0 <= i < self.headers.len() ==> codec::within_limits(
                (#[trigger] self.headers[i]).1.len(),
            )
    }
}

/// A header that is found is one of the headers.
proof fn lemma_first_value(headers: Seq<(Seq<char>, Seq<u8>)>, name: Seq<char>)
    ensures
        first_value(headers, name) matches Some(v) ==> exists|i: int|
            0 <= i < headers.len() && (#[trigger] headers[i]) == (name, v),
    decreases headers.len(),
{
    if headers.len() > 0 {
        if headers[0].0 == name {
            assert(headers[0] == (name, headers[0].1));
        } else {
            lemma_first_value(headers.skip(1), name);
            if let Some(v) = first_value(headers, name) {
                let i = choose|i: int|
                    0 <= i < headers.skip(1).len() && (#[trigger] headers.skip(1)[i]) == (name, v);
                assert(headers[i + 1] == (name, v));
            }
        }
    }
}

/// The text of a header of a request that fits can be decoded and hashed.
pub proof fn lemma_text_fits(request: RequestView, name: Seq<char>)
    requires
        request.fits(),
    ensures
        request.text(name) matches Some(s) ==> codec::within_limits(s.len())
            && codec::within_limits(encode_utf8(s).len()) && encode_utf8(s).len() == s.len(),
{
    lemma_first_value(request.headers, name);
    if let Some(s) = request.text(name) {
        let v = request.value(name)->0;
        let i = choose|i: int|
            0 <= i < request.headers.len() && (#[trigger] request.headers[i]) == (name, v);
        assert(codec::within_limits(request.headers[i].1.len()));
        assert forall|j: int| 0 <= j < s.len() implies '\0' <= #[trigger] s[j] <= '\u{7f}' by {
            assert(is_visible(v[j]));
        }
        assert(is_ascii_chars(s));
        is_ascii_chars_encode_utf8(s);
    }
}

impl Request {
    /// The value of a header.
    pub fn value(&self, name: &str) -> (r: Option<&Vec<u8>>)
        ensures
            match r {
                Some(v) => self@.value(name@) == Some(v@),
                None => self@.value(name@) is None,
            },
    {
        let mut i: usize = 0;
        let ghost all = header_views(self.headers@);
        assert(all.skip(0) =~= all);
        while i < self.headers.len()
            invariant
                i <= self.headers@.len(),
                all == header_views(self.headers@),
                first_value(all, name@) == first_value(all.skip(i as int), name@),
            decreases self.headers.len() - i,
        {
            assert(all.skip(i as int)[0] == self.headers@[i as int]@);
            assert(all.skip(i as int).skip(1) =~= all.skip(i + 1));
            if text::str_eq(self.headers[i].name.as_str(), name) {
                return Some(&self.headers[i].value);
            }
            i += 1;
        }
        None
    }

    /// The value of a header, where it is text.
    pub fn text(&self, name: &str) -> (r: Option<String>)
        ensures
            match r {
                Some(s) => self@.text(name@) == Some(s@),
                None => self@.text(name@) is None,
            },
    {
        match self.value(name) {
            Some(value) => value_text(value),
            None => None,
        }
    }
}

// ---------------------------------------------------------------------------------------------
// Request heads
// ---------------------------------------------------------------------------------------------

/// A request head as it was sent.
#[derive(Debug)]
pub struct RawHead {
    pub method: String,
    pub target: String,
    pub headers: Vec<(String, Vec<u8>)>,
}

/// What a request head holds: its method, its target and its headers.
pub type RawView = (Seq<char>, Seq<char>, Seq<(Seq<char>, Seq<u8>)>);

/// Sent headers, by their contents.
pub open spec fn raw_headers(headers: Seq<(String, Vec<u8>)>) -> Seq<(Seq<char>, Seq<u8>)> {
    headers.map_values(|h: (String, Vec<u8>)| (h.0@, h.1@))
}

impl View for RawHead {
    type V = RawView;

    open spec fn view(&self) -> RawView {
        (self.method@, self.target@, raw_headers(self.headers@))
    }
}

/// What the bytes `head` hold as a request head with at most `max_headers` headers, if they are
/// a complete one.
pub uninterp spec fn parsed_head(head: Seq<u8>, max_headers: nat) -> Option<
    (Seq<char>, Seq<char>, Seq<(Seq<char>, Seq<u8>)>),
>;

/// `httparse`'s `Request::parse`, where its status is complete. What it reads are parts of
/// `head`.
#[verifier::external_body]
pub(crate) fn parse_head(head: &[u8], max_headers: usize) -> (r: Option<RawHead>)
    requires
        max_headers <= 0xffff,
    ensures
        match r {
            Some(raw) => parsed_head(head@, max_headers as nat) == Some(raw@),
            None => parsed_head(head@, max_headers as nat) is None,
        },
        r matches Some(raw) ==> forall|i: int|
            0 <= i < raw.headers@.len() ==> (#[trigger] raw.headers@[i]).1@.len() <= head@.len(),
{
    let mut headers = vec![httparse::EMPTY_HEADER; max_headers];
    let mut parsed = httparse::Request::new(&mut headers);
    if !matches!(parsed.parse(head), Ok(httparse::Status::Complete(_))) {
        return None;
    }
    Some(RawHead {
        method: parsed.method?.to_owned(),
        target: parsed.path?.to_owned(),
        headers: parsed.headers.iter().map(|h| (h.name.to_owned(), h.value.to_vec())).collect(),
    })
}

/// The path of a request target: what is before the query and the fragment.
pub open spec fn target_path(target: Seq<char>) -> Seq<char> {
    let q = text::first(target, '?');
    let f = text::first(target, '#');
    target.take(if q <= f {
        q
    } else {
        f
    })
}

/// The path of a request target.
pub fn path_of_target(target: &[char]) -> (r: &[char])
    ensures
        r@ == target_path(target@),
{
    let q: usize = text::find(target, '?');
    let f: usize = text::find(target, '#');
    let end: usize = if q <= f {
        q
    } else {
        f
    };
    let r = vstd::slice::slice_subrange(target, 0, end);
    assert(r@ =~= target@.take(end as int));
    r
}

/// The path of the URI `target`, if it is one.
pub uninterp spec fn uri_path(target: Seq<char>) -> Option<Seq<char>>;

/// `Uri::path` of `http`, on what its `TryFrom<&str>` makes of `target`. Where the target starts
/// with a slash, it is what stands before the query and the fragment; and a slash alone is a URI.
#[verifier::external_body]
pub(crate) fn parse_uri_path(target: &str) -> (r: Option<String>)
    ensures
        match r {
            Some(path) => uri_path(target@) == Some(path@),
            None => uri_path(target@) is None,
        },
        r matches Some(path) ==> (target@.len() > 0 && target@[0] == '/' ==> path@ == target_path(
            target@,
        )),
        target@ == seq!['/'] ==> r is Some,
{
    Some(Uri::try_from(target).ok()?.path().to_owned())
}

/// The headers that the sent headers make, if all are well formed.
pub open spec fn headers_of(raw: Seq<(Seq<char>, Seq<u8>)>) -> Option<Seq<(Seq<char>, Seq<u8>)>> {
    if forall|i: int|
        0 <= i < raw.len() ==> header_name((#[trigger] raw[i]).0) is Some && (forall|j: int|
            0 <= j < raw[i].1.len() ==> is_value_byte(#[trigger] raw[i].1[j])) {
        Some(raw.map_values(|h: (Seq<char>, Seq<u8>)| (text::lowered(h.0), h.1)))
    } else {
        None
    }
}

/// The request that a head makes, whose target has the path `path`.
pub open spec fn request_of(raw: RawView, path: Option<Seq<char>>) -> Option<RequestView> {
    match (path, headers_of(raw.2)) {
        (Some(path), Some(headers)) => if is_token(raw.0) {
            Some(RequestView { method: raw.0, path, headers })
        } else {
            None
        },
        _ => None,
    }
}

/// The headers that the sent headers make, if all are well formed.
fn build_headers(raw: &Vec<(String, Vec<u8>)>) -> (r: Option<Vec<Header>>)
    ensures
        match r {
            Some(headers) => headers_of(raw_headers(raw@)) == Some(header_views(headers@)),
            None => headers_of(raw_headers(raw@)) is None,
        },
{
    let mut out: Vec<Header> = Vec::new();
    let ghost all = raw_headers(raw@);
    let mut i: usize = 0;
    while i < raw.len()
        invariant
            i <= raw@.len(),
            all == raw_headers(raw@),
            out@.len() == i,
            forall|k: int|
                0 <= k < i ==> header_name((#[trigger] all[k]).0) is Some && (forall|j: int|
                    0 <= j < all[k].1.len() ==> is_value_byte(#[trigger] all[k].1[j])),
            forall|k: int|
                0 <= k < i ==> (#[trigger] out@[k])@ == (text::lowered(all[k].0), all[k].1),
        decreases raw.len() - i,
    {
        assert(all[i as int] == (raw@[i as int].0@, raw@[i as int].1@));
        let name = match lower_header_name(raw[i].0.as_str()) {
            Some(name) => name,
            None => return None,
        };
        if !valid_value(&raw[i].1) {
            proof {
                let value = raw@[i as int].1@;
                let bad = choose|j: int| 0 <= j < value.len() && !is_value_byte(#[trigger] value[j]);
                assert(!is_value_byte(all[i as int].1[bad]));
            }
            return None;
        }
        let value = vstd::slice::slice_to_vec(raw[i].1.as_slice());
        out.push(Header { name, value });
        i += 1;
    }
    assert(header_views(out@) =~= all.map_values(
        |h: (Seq<char>, Seq<u8>)| (text::lowered(h.0), h.1),
    ));
    Some(out)
}

/// The request that a head makes, whose target has the path `path`.
pub fn build_request(raw: &RawHead, path: Option<String>) -> (r: Option<Request>)
    ensures
        match r {
            Some(request) => request_of(
                raw@,
                text::optional(path),
            ) == Some(request@),
            None => request_of(
                raw@,
                text::optional(path),
            ) is None,
        },
{
    let path = match path {
        Some(path) => path,
        None => return None,
    };
    let headers = match build_headers(&raw.headers) {
        Some(headers) => headers,
        None => return None,
    };
    if !valid_method(raw.method.as_str()) {
        return None;
    }
    Some(Request { method: raw.method.clone(), path, headers })
}

// ---------------------------------------------------------------------------------------------
// Responses
// ---------------------------------------------------------------------------------------------

/// A response: its status code, its headers in order, and its body.
#[derive(Debug, PartialEq, Eq)]
pub struct Response {
    pub status: u16,
    pub headers: Vec<(String, String)>,
    pub body: Option<String>,
}

/// What a response holds.
#[verifier::ext_equal]
pub struct ResponseView {
    pub status: u16,
    pub headers: Seq<(Seq<char>, Seq<char>)>,
    pub body: Option<Seq<char>>,
}

/// Response headers, by their contents.
pub open spec fn response_headers(headers: Seq<(String, String)>) -> Seq<(Seq<char>, Seq<char>)> {
    headers.map_values(|h: (String, String)| (h.0@, h.1@))
}

impl View for Response {
    type V = ResponseView;

    open spec fn view(&self) -> ResponseView {
        ResponseView {
            status: self.status,
            headers: response_headers(self.headers@),
            body: match self.body {
                Some(body) => Some(body@),
                None => None,
            },
        }
    }
}

impl ResponseView {
    /// The response with one more header.
    pub open spec fn with(self, name: Seq<char>, value: Seq<char>) -> ResponseView {
        ResponseView { headers: self.headers.push((name, value)), ..self }
    }

    pub open spec fn body_text(self) -> Seq<char> {
        match self.body {
            Some(body) => body,
            None => Seq::empty(),
        }
    }

    /// The response as HTTP/1.1 text.
    pub open spec fn encoded(self, include_body: bool) -> Seq<char> {
        status_line(self.status) + header_lines(self.headers) + self.length_line() + head_end() + (
        if include_body {
            self.body_text()
        } else {
            Seq::empty()
        })
    }

    /// The line with the length of the body; an answer without content has none.
    pub open spec fn length_line(self) -> Seq<char> {
        if self.status == 204 {
            Seq::empty()
        } else {
            "content-length: "@ + text::decimal(encode_utf8(self.body_text()).len()) + crlf()
        }
    }
}

/// The first line of a response.
pub open spec fn status_line(status: u16) -> Seq<char> {
    "HTTP/1.1 "@ + text::decimal(status as nat) + seq![' '] + (match reason_phrase(status) {
        Some(reason) => reason,
        None => Seq::empty(),
    }) + crlf()
}

/// The last header, and the end of the head.
pub open spec fn head_end() -> Seq<char> {
    "connection: close"@ + crlf() + crlf()
}

/// The end of a line.
pub open spec fn crlf() -> Seq<char> {
    seq!['\r', '\n']
}

/// Headers, a line each.
pub open spec fn header_lines(headers: Seq<(Seq<char>, Seq<char>)>) -> Seq<char>
    decreases headers.len(),
{
    if headers.len() == 0 {
        Seq::empty()
    } else {
        header_lines(headers.drop_last()) + headers.last().0 + ": "@ + headers.last().1 + crlf()
    }
}

impl Response {
    /// A response with a body, and no headers.
    pub fn new(status: u16, body: &str) -> (r: Response)
        ensures
            r@ == (ResponseView { status, headers: Seq::empty(), body: Some(body@) }),
    {
        let r = Response { status, headers: Vec::new(), body: Some(body.to_owned()) };
        assert(r@.headers =~= Seq::empty());
        r
    }

    /// The response with one more header.
    pub fn with(self, name: &str, value: &str) -> (r: Response)
        ensures
            r@ == self@.with(name@, value@),
    {
        let mut r = self;
        r.headers.push((name.to_owned(), value.to_owned()));
        assert(r@.headers =~= self@.headers.push((name@, value@)));
        r
    }
}

/// Ends a line.
fn end_line(out: &mut String)
    ensures
        final(out)@ == old(out)@ + crlf(),
{
    out.push('\r');
    out.push('\n');
    assert(out@ =~= old(out)@ + crlf());
}

/// The first line of a response.
fn encode_status_line(status: u16) -> (r: String)
    ensures
        r@ == status_line(status),
        is_spelled_out(status),
{
    let mut out = "HTTP/1.1 ".to_owned();
    out.append(text::decimal_string(status as u64).as_str());
    let ghost before = out@;
    out.push(' ');
    assert(out@ =~= before + seq![' ']);
    let reason = match canonical_reason(status) {
        Some(reason) => reason,
        None => String::new(),
    };
    assert(reason_phrase(status) is None ==> reason@ =~= Seq::empty());
    out.append(reason.as_str());
    end_line(&mut out);
    out
}

/// The response as HTTP/1.1, for a connection that is closed after it. For `HEAD` the body is
/// omitted; an answer without content has no length either.
pub fn encode_response(response: &Response, include_body: bool) -> (r: String)
    ensures
        r@ == response@.encoded(include_body),
        is_spelled_out(response.status),
{
    let body = match &response.body {
        Some(body) => body.clone(),
        None => String::new(),
    };
    assert(body@ =~= response@.body_text());
    let mut out = encode_status_line(response.status);
    let ghost start = out@;
    let mut i: usize = 0;
    let ghost all = response@.headers;
    proof {
        assert(all.take(0) =~= Seq::empty());
        assert(out@ =~= start + header_lines(all.take(0)));
    }
    while i < response.headers.len()
        invariant
            i <= response.headers@.len(),
            all == response_headers(response.headers@),
            out@ == start + header_lines(all.take(i as int)),
        decreases response.headers.len() - i,
    {
        let ghost name = response.headers@[i as int].0@;
        let ghost value = response.headers@[i as int].1@;
        proof {
            let next = all.take(i + 1);
            assert(next.drop_last() =~= all.take(i as int));
            assert(next.last() == (name, value));
        }
        out.append(response.headers[i].0.as_str());
        out.append(": ");
        out.append(response.headers[i].1.as_str());
        end_line(&mut out);
        proof {
            let lines = header_lines(all.take(i as int));
            assert(start + lines + name + ": "@ + value + crlf() =~= start + (lines + name + ": "@
                + value + crlf()));
        }
        i += 1;
    }
    assert(all.take(all.len() as int) =~= all);
    let length = if response.status == 204 {
        String::new()
    } else {
        let mut line = "content-length: ".to_owned();
        line.append(text::decimal_string(codec::utf8_bytes(body.as_str()).len() as u64).as_str());
        end_line(&mut line);
        line
    };
    assert(length@ =~= response@.length_line());
    out.append(length.as_str());
    let mut end = "connection: close".to_owned();
    end_line(&mut end);
    end_line(&mut end);
    out.append(end.as_str());
    if include_body {
        out.append(body.as_str());
    } else {
        assert(out@ + Seq::<char>::empty() =~= out@);
    }
    out
}

} // verus!
