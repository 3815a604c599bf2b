//! What holds of requests and answers, and of the head of a request before it is parsed.
use crate::http;
use crate::http::{RequestView, ResponseView};
use crate::http_probe;
use crate::http_probe::HeadView;
use crate::text;
use vstd::prelude::*;
use vstd::utf8::*;

verus! {

// ---------------------------------------------------------------------------------------------
// Requests
// ---------------------------------------------------------------------------------------------

/// A token is made of visible ASCII characters that delimit nothing.
pub proof fn law_token_characters(c: char)
    ensures
        http::is_token_char(c) <==> {
            &&& '!' <= c <= '~'
            &&& !seq!['"', '(', ')', ',', '/', ':', ';', '<', '=', '>', '?', '@', '[', '\\', ']', '{', '}'].contains(
                c,
            )
        },
{
    let d = seq![
        '"', '(', ')', ',', '/', ':', ';', '<', '=', '>', '?', '@', '[', '\\', ']', '{', '}',
    ];
    assert(d[0] == '"' && d[1] == '(' && d[2] == ')' && d[3] == ',' && d[4] == '/' && d[5] == ':'
        && d[6] == ';' && d[7] == '<' && d[8] == '=' && d[9] == '>' && d[10] == '?' && d[11] == '@'
        && d[12] == '[' && d[13] == '\\' && d[14] == ']' && d[15] == '{' && d[16] == '}');
}

/// A header's name is a token of at most 65535 characters, and is written in lower case.
pub proof fn law_header_names(name: Seq<char>, i: int)
    ensures
        0 < name.len() <= 65535 && (forall|j: int|
            0 <= j < name.len() ==> http::is_token_char(#[trigger] name[j])) ==> http::header_name(
            name,
        ) == Some(text::lowered(name)),
        name.len() == 0 || name.len() > 65535 ==> http::header_name(name) is None,
        0 <= i < name.len() && !http::is_token_char(name[i]) ==> http::header_name(name) is None,
{
}

/// A value is text where its bytes are visible ASCII, spaces and tabs, and then says just them.
pub proof fn law_header_values(value: Seq<u8>, i: int)
    ensures
        (forall|j: int| 0 <= j < value.len() ==> (#[trigger] value[j]) == 9 || 32 <= value[j] <= 126)
            ==> {
            &&& http::header_text(value) matches Some(s)
            &&& s.len() == value.len()
            &&& 0 <= i < value.len() ==> s[i] as int == value[i]
        },
        0 <= i < value.len() && value[i] != 9 && !(32 <= value[i] <= 126) ==> http::header_text(
            value,
        ) is None,
{
    if 0 <= i < value.len() && value[i] != 9 && !(32 <= value[i] <= 126) {
        assert(!http::is_visible(value[i]));
    }
    if forall|j: int| 0 <= j < value.len() ==> (#[trigger] value[j]) == 9 || 32 <= value[j] <= 126 {
        assert forall|j: int| 0 <= j < value.len() implies http::is_visible(#[trigger] value[j]) by {}
    }
}

/// A header's value is that of the first header with the name, and its text is what that says.
pub proof fn law_the_first_header_counts(request: RequestView, name: Seq<char>, i: int)
    ensures
        (forall|j: int| 0 <= j < request.headers.len() ==> (#[trigger] request.headers[j]).0 != name)
            ==> request.value(name) is None && request.text(name) is None,
        0 <= i < request.headers.len() && request.headers[i].0 == name && (forall|j: int|
            0 <= j < i ==> (#[trigger] request.headers[j]).0 != name) ==> request.value(name)
            == Some(request.headers[i].1) && request.text(name) == http::header_text(
            request.headers[i].1,
        ),
{
    lemma_first_header(request.headers, name, i);
}

proof fn lemma_first_header(headers: Seq<(Seq<char>, Seq<u8>)>, name: Seq<char>, i: int)
    ensures
        (forall|j: int| 0 <= j < headers.len() ==> (#[trigger] headers[j]).0 != name)
            ==> http::first_value(headers, name) is None,
        0 <= i < headers.len() && headers[i].0 == name && (forall|j: int|
            0 <= j < i ==> (#[trigger] headers[j]).0 != name) ==> http::first_value(headers, name)
            == Some(headers[i].1),
    decreases headers.len(),
{
    if headers.len() > 0 {
        let rest = headers.skip(1);
        lemma_first_header(rest, name, i - 1);
        if forall|j: int| 0 <= j < headers.len() ==> (#[trigger] headers[j]).0 != name {
            assert(headers[0].0 != name);
            assert forall|j: int| 0 <= j < rest.len() implies (#[trigger] rest[j]).0 != name by {
                assert(rest[j] == headers[j + 1]);
            }
        }
        if 0 < i < headers.len() && (forall|j: int|
            0 <= j < i ==> (#[trigger] headers[j]).0 != name) {
            assert(headers[0].0 != name);
            assert forall|j: int| 0 <= j < i - 1 implies (#[trigger] rest[j]).0 != name by {
                assert(rest[j] == headers[j + 1]);
            }
            assert(rest[i - 1] == headers[i]);
        }
    }
}

/// All headers of a request are kept, in their order and with their values, under names in lower
/// case, where every name is one and no value holds a control character; otherwise there is no
/// request.
pub proof fn law_all_headers_are_kept(raw: Seq<(Seq<char>, Seq<u8>)>, i: int, k: int)
    ensures
        http::headers_of(raw) matches Some(headers) ==> {
            &&& headers.len() == raw.len()
            &&& 0 <= i < raw.len() ==> headers[i] == (text::lowered(raw[i].0), raw[i].1)
        },
        0 <= i < raw.len() && http::header_name(raw[i].0) is None ==> http::headers_of(raw) is None,
        0 <= i < raw.len() && 0 <= k < raw[i].1.len() && raw[i].1[k] != 9 && (raw[i].1[k] < 32
            || raw[i].1[k] == 127) ==> http::headers_of(raw) is None,
        (forall|j: int|
            0 <= j < raw.len() ==> http::header_name((#[trigger] raw[j]).0) is Some && (forall|
                l: int,
            |
                0 <= l < raw[j].1.len() ==> (#[trigger] raw[j].1[l]) == 9 || (raw[j].1[l] >= 32
                    && raw[j].1[l] != 127))) ==> http::headers_of(raw) is Some,
{
    if 0 <= i < raw.len() && 0 <= k < raw[i].1.len() && raw[i].1[k] != 9 && (raw[i].1[k] < 32
        || raw[i].1[k] == 127) {
        assert(!http::is_value_byte(raw[i].1[k]));
    }
    if forall|j: int|
        0 <= j < raw.len() ==> http::header_name((#[trigger] raw[j]).0) is Some && (forall|l: int|
            0 <= l < raw[j].1.len() ==> (#[trigger] raw[j].1[l]) == 9 || (raw[j].1[l] >= 32
                && raw[j].1[l] != 127)) {
        assert forall|j: int| 0 <= j < raw.len() implies http::header_name(
            (#[trigger] raw[j]).0,
        ) is Some && (forall|l: int|
            0 <= l < raw[j].1.len() ==> http::is_value_byte(#[trigger] raw[j].1[l])) by {}
    }
}

/// A request has the method and the headers that were sent, and the path of its target; without a
/// path, or with a method that is no token, there is none.
pub proof fn law_what_a_request_is(raw: http::RawView, path: Seq<char>, i: int)
    ensures
        http::request_of(raw, None) is None,
        http::headers_of(raw.2) is None ==> http::request_of(raw, Some(path)) is None,
        raw.0.len() == 0 || (0 <= i < raw.0.len() && !http::is_token_char(raw.0[i]))
            ==> http::request_of(raw, Some(path)) is None,
        raw.0.len() > 0 && (forall|j: int|
            0 <= j < raw.0.len() ==> http::is_token_char(#[trigger] raw.0[j])) && http::headers_of(
            raw.2,
        ) is Some ==> http::request_of(raw, Some(path)) == Some(
            RequestView { method: raw.0, path, headers: http::headers_of(raw.2)->0 },
        ),
{
}

/// The path of a target is what stands before its query and its fragment.
pub proof fn law_the_path_of_a_target(path: Seq<char>, rest: Seq<char>)
    requires
        !path.contains('?') && !path.contains('#'),
        rest.len() > 0 ==> rest[0] == '?' || rest[0] == '#',
    ensures
        http::target_path(path + rest) == path,
{
    let t = path + rest;
    let n = path.len() as int;
    text::lemma_first(t, '?');
    text::lemma_first(t, '#');
    assert forall|j: int| 0 <= j < n implies t[j] != '?' && t[j] != '#' by {
        assert(t[j] == path[j]);
    }
    if rest.len() > 0 {
        assert(t[n] == rest[0]);
    }
    assert(t.take(n) =~= path);
}

// ---------------------------------------------------------------------------------------------
// Answers
// ---------------------------------------------------------------------------------------------

/// An answer is written as its status line, its headers, one line each and in their order, the
/// length of its body in bytes (but for `204`), that the connection closes, an empty line, and the
/// body, where that is wanted.
pub proof fn law_how_answers_are_written(
    answer: ResponseView,
    a: Seq<(Seq<char>, Seq<char>)>,
    b: Seq<(Seq<char>, Seq<char>)>,
    name: Seq<char>,
    value: Seq<char>,
)
    ensures
        ({
            let crlf = seq!['\r', '\n'];
            let body = match answer.body {
                Some(body) => body,
                None => Seq::empty(),
            };
            let length = if answer.status == 204 {
                Seq::empty()
            } else {
                "content-length: "@ + text::decimal(encode_utf8(body).len()) + crlf
            };
            let phrase = match http::reason_phrase(answer.status) {
                Some(phrase) => phrase,
                None => Seq::empty(),
            };
            let head = "HTTP/1.1 "@ + text::decimal(answer.status as nat) + seq![' '] + phrase
                + crlf + http::header_lines(answer.headers) + length + ("connection: close"@ + crlf
                + crlf);
            &&& answer.encoded(true) == head + body
            &&& answer.encoded(false) == head
        }),
        http::header_lines(a + b) == http::header_lines(a) + http::header_lines(b),
        http::header_lines(seq![(name, value)]) == name + ": "@ + value + seq!['\r', '\n'],
    decreases b.len(),
{
    let body = answer.body_text();
    assert(answer.encoded(false) + Seq::<char>::empty() =~= answer.encoded(false));
    let h = seq![(name, value)];
    assert(h.drop_last() =~= Seq::empty());
    assert(http::header_lines(h.drop_last()) =~= Seq::empty());
    assert(h.last() == (name, value));
    assert(http::header_lines(h) =~= name + ": "@ + value + seq!['\r', '\n']);
    if b.len() == 0 {
        assert(a + b =~= a);
        assert(http::header_lines(b) =~= Seq::empty());
        assert(http::header_lines(a) + http::header_lines(b) =~= http::header_lines(a));
    } else {
        law_how_answers_are_written(answer, a, b.drop_last(), name, value);
        assert((a + b).drop_last() =~= a + b.drop_last());
        assert((a + b).last() == b.last());
        assert(http::header_lines(a + b) =~= http::header_lines(a) + http::header_lines(b));
    }
}

/// The statuses that are answered with, and their phrases.
pub proof fn law_the_phrases(status: u16)
    ensures
        http::router_phrase(200) == Some("OK"@),
        http::router_phrase(204) == Some("No Content"@),
        http::router_phrase(400) == Some("Bad Request"@),
        http::router_phrase(401) == Some("Unauthorized"@),
        http::router_phrase(404) == Some("Not Found"@),
        http::router_phrase(405) == Some("Method Not Allowed"@),
        http::router_phrase(500) == Some("Internal Server Error"@),
        http::router_phrase(503) == Some("Service Unavailable"@),
        http::router_phrase(status) is Some ==> seq![
            200u16,
            204u16,
            400u16,
            401u16,
            404u16,
            405u16,
            500u16,
            503u16,
        ].contains(status),
{
    let s = seq![200u16, 204u16, 400u16, 401u16, 404u16, 405u16, 500u16, 503u16];
    assert(s[0] == 200 && s[1] == 204 && s[2] == 400 && s[3] == 401 && s[4] == 404 && s[5] == 405
        && s[6] == 500 && s[7] == 503);
}

/// A plain text answer holds the message and says that it is UTF-8 text.
pub proof fn law_plain_text_answers(status: u16, message: Seq<char>)
    ensures
        http_probe::text_answer(status, message) == (ResponseView {
            status,
            headers: seq![("content-type"@, "text/plain; charset=utf-8"@)],
            body: Some(message),
        }),
{
    assert(Seq::empty().push(("content-type"@, "text/plain; charset=utf-8"@)) =~= seq![
        ("content-type"@, "text/plain; charset=utf-8"@),
    ]);
}

/// A header that is added to an answer stands behind the others, and nothing else changes.
pub proof fn law_headers_are_added_at_the_end(
    answer: ResponseView,
    name: Seq<char>,
    value: Seq<char>,
)
    ensures
        answer.with(name, value) == (ResponseView {
            status: answer.status,
            headers: answer.headers + seq![(name, value)],
            body: answer.body,
        }),
{
    assert(answer.headers.push((name, value)) =~= answer.headers + seq![(name, value)]);
}

// ---------------------------------------------------------------------------------------------
// Heads
// ---------------------------------------------------------------------------------------------

/// A head is complete once it holds an empty line, wherever that stands, and no sooner.
pub proof fn law_when_a_head_is_complete(a: Seq<u8>, b: Seq<u8>, head: Seq<u8>) -> (r: (
    Seq<u8>,
    Seq<u8>,
))
    ensures
        http_probe::has_head_end(a + seq![13u8, 10u8, 13u8, 10u8] + b),
        http_probe::has_head_end(head) ==> head == r.0 + seq![13u8, 10u8, 13u8, 10u8] + r.1,
{
    let end = seq![13u8, 10u8, 13u8, 10u8];
    let t = a + end + b;
    let n = a.len() as int;
    assert(t[n] == end[0] && t[n + 1] == end[1] && t[n + 2] == end[2] && t[n + 3] == end[3]);
    assert(http_probe::head_ends_at(t, n));
    let i = choose|i: int| #[trigger] http_probe::head_ends_at(head, i);
    let x = head.take(i);
    let y = head.skip(i + 4);
    if http_probe::has_head_end(head) {
        assert(head =~= x + end + y);
    }
    (x, y)
}

/// More of a head is read until it is complete, the stream ends, or 16384 bytes were read; what is
/// read is added as it is, and nothing read means that the stream has ended.
pub proof fn law_how_heads_are_read(v: HeadView, chunk: Seq<u8>)
    ensures
        v.reading() <==> !v.ended && !http_probe::has_head_end(v.head) && v.head.len() < 16384,
        v.received(chunk).head == v.head + chunk,
        v.received(chunk).ended <==> v.ended || chunk.len() == 0,
{
}

/// A request asks for a websocket where its `Upgrade` header says so, in whatever case.
pub proof fn law_which_requests_are_upgrades(request: RequestView, value: Seq<char>)
    ensures
        request.text("upgrade"@) is None ==> !http_probe::is_upgrade(request),
        request.text("upgrade"@) == Some(value) ==> (http_probe::is_upgrade(request)
            <==> text::lowered(value) == "websocket"@),
{
    reveal_strlit("websocket");
    assert(text::lowered("websocket"@) =~= "websocket"@);
}

/// A health check is a `GET` or a `HEAD` of `/`, with or without a query or a fragment.
pub proof fn law_which_requests_check_health(
    method: Seq<char>,
    target: Seq<char>,
    headers: Seq<(Seq<char>, Seq<u8>)>,
    rest: Seq<char>,
)
    requires
        rest.len() > 0 ==> rest[0] == '?' || rest[0] == '#',
    ensures
        http_probe::asks_for_health((method, seq!['/'] + rest, headers)) <==> method == "GET"@
            || method == "HEAD"@,
        http_probe::asks_for_health((method, target, headers)) ==> {
            &&& method == "GET"@ || method == "HEAD"@
            &&& target.len() > 0 && target[0] == '/'
            &&& target.len() > 1 ==> target[1] == '?' || target[1] == '#'
        },
{
    law_the_path_of_a_target(seq!['/'], rest);
    if http_probe::asks_for_health((method, target, headers)) {
        text::lemma_first(target, '?');
        text::lemma_first(target, '#');
        let path = http::target_path(target);
        assert(path.len() == 1);
        assert(path[0] == '/');
        assert(target[0] == path[0]);
    }
}

/// A request for tokens is one of a path that starts with `/auth/`, whatever its method.
pub proof fn law_which_requests_are_for_tokens(
    method: Seq<char>,
    target: Seq<char>,
    headers: Seq<(Seq<char>, Seq<u8>)>,
    rest: Seq<char>,
)
    ensures
        http_probe::asks_for_tokens((method, "/auth/"@ + rest, headers)),
        (forall|x: Seq<char>| target != #[trigger] ("/auth/"@ + x)) ==> !http_probe::asks_for_tokens(
            (method, target, headers),
        ),
{
    reveal_strlit("/auth/");
    let t = "/auth/"@ + rest;
    text::lemma_first(t, '?');
    text::lemma_first(t, '#');
    assert forall|j: int| 0 <= j < 6 implies t[j] == "/auth/"@[j] by {}
    assert(t[0] == '/' && t[1] == 'a' && t[2] == 'u' && t[3] == 't' && t[4] == 'h' && t[5] == '/');
    let q = text::first(t, '?');
    let f = text::first(t, '#');
    assert(q >= 6) by {
        if q < 6 {
            assert(t[q] == '?');
        }
    }
    assert(f >= 6) by {
        if f < 6 {
            assert(t[f] == '#');
        }
    }
    let p = http::target_path(t);
    assert(p.take(6) =~= "/auth/"@);
    if http_probe::asks_for_tokens((method, target, headers)) {
        let path = http::target_path(target);
        text::lemma_first(target, '?');
        text::lemma_first(target, '#');
        assert(path.take(6) == "/auth/"@);
        assert(target.take(6) =~= path.take(6));
        assert(target =~= "/auth/"@ + target.skip(6));
    }
}

/// A plain request is a health check or a request for tokens that can be read and asks for no
/// websocket; everything else is left to the websocket handshake.
pub proof fn law_which_requests_are_plain(head: Seq<u8>, raw: http::RawView, request: RequestView)
    ensures
        http::parsed_head(head, 64) is None ==> http_probe::plain_request_in(head) is None,
        http::parsed_head(head, 64) == Some(raw) ==> (http_probe::plain_request_in(head) == Some(
            request,
        ) <==> {
            &&& http_probe::asks_for_health(raw) || http_probe::asks_for_tokens(raw)
            &&& http::request_of(raw, http::uri_path(raw.1)) == Some(request)
            &&& !http_probe::is_upgrade(request)
        }),
        http::parsed_head(head, 64) == Some(raw) ==> (http_probe::health_check_in(head) == Some(
            request,
        ) <==> {
            &&& http_probe::asks_for_health(raw)
            &&& http::request_of(raw, http::uri_path(raw.1)) == Some(request)
            &&& !http_probe::is_upgrade(request)
        }),
        http::parsed_head(head, 64) is None ==> http_probe::health_check_in(head) is None,
{
}

/// A read gives as much of what is left as there is room for, in order, and leaves the rest.
pub proof fn law_how_much_is_replayed(pending: Seq<u8>, room: nat)
    ensures
        ({
            let n = http_probe::replayed_len(pending, room);
            &&& 0 <= n <= room
            &&& n <= pending.len()
            &&& n == room || n == pending.len()
            &&& pending.take(n) + pending.skip(n) == pending
        }),
{
    let n = http_probe::replayed_len(pending, room);
    assert(pending.take(n) + pending.skip(n) =~= pending);
}

} // verus!
