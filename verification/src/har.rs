//! Recorded exchanges in the HTTP archive format, version 1.2.

use crate::body::{bytes_slice, lossy, lossy_text};
use crate::headers;
use crate::headers::fields;
use crate::json;
use crate::json::{
    is_size, law_member_is_found, lemma_deeper, lemma_plain_array, lemma_plain_object,
    member_or_null, object,
    plain, pretty_text, read_text, str_or_null, tree_of, trees, Json, Members, DEPTH,
};
use crate::model::{opt_text, views, Exchange, ExchangeView, RequestView};
use crate::VERSION;
use vstd::prelude::*;

verus! {

// ---------------------------------------------------------------- outside

/// The text that `time::OffsetDateTime::format` gives, as RFC 3339 has it, for the moment this
/// many nanoseconds after the start of 1970, in UTC; nothing where it cannot be written so.
pub uninterp spec fn moment_text(nanos: u64) -> Option<Seq<char>>;

/// `time::OffsetDateTime::format`, as RFC 3339 has it, depends on the moment alone, for one in
/// UTC that `time::OffsetDateTime::from_unix_timestamp_nanos` gives.
#[verifier::external_body]
fn format_moment(nanos: u64) -> (r: Option<String>)
    ensures
        opt_text(r) == moment_text(nanos),
{
    let t = time::OffsetDateTime::from_unix_timestamp_nanos(i128::from(nanos)).ok()?;
    t.format(&time::format_description::well_known::Rfc3339).ok()
}

/// `time::OffsetDateTime::now_utc`, as nanoseconds since the start of 1970. Nothing is known of
/// the clock.
#[verifier::external_body]
fn read_wall_clock() -> (r: u64)
{
    u64::try_from(time::OffsetDateTime::now_utc().unix_timestamp_nanos()).unwrap_or_default()
}

// ---------------------------------------------------------------- model

/// When an exchange started, in words; `now` stands for a start that is not known.
pub open spec fn start_text(started: Option<u64>, now: u64) -> Seq<char> {
    let nanos = match started {
        Some(t) => t,
        None => now,
    };
    match moment_text(nanos) {
        Some(s) => s,
        None => "1970-01-01T00:00:00Z"@,
    }
}

/// One header.
pub open spec fn header_tree(h: (Seq<char>, Seq<char>)) -> Json {
    object(header_members(h))
}

/// What an archive says of one header.
pub open spec fn header_members(h: (Seq<char>, Seq<char>)) -> Seq<(Seq<char>, Json)> {
    seq![("name"@, Json::Str(h.0)), ("value"@, Json::Str(h.1))]
}

/// The headers, in order.
pub open spec fn header_trees(h: Seq<(Seq<char>, Seq<char>)>) -> Json {
    Json::Arr(h.map_values(|f: (Seq<char>, Seq<char>)| header_tree(f)))
}

/// The text of a body; of one that was not kept, nothing.
pub open spec fn body_words(body: Option<Seq<u8>>) -> Seq<char> {
    match body {
        Some(b) => lossy_text(b),
        None => ""@,
    }
}

/// How long a body is, or -1 if it was not kept.
pub open spec fn body_size(body: Option<Seq<u8>>) -> Json {
    match body {
        Some(b) => Json::Int(b.len() as int),
        None => Json::Int(-1),
    }
}

/// A text, or none.
pub open spec fn text_or_empty(s: Option<Seq<char>>) -> Seq<char> {
    match s {
        Some(x) => x,
        None => ""@,
    }
}

/// The request of an exchange, or what stands for one that is not known.
pub open spec fn request_or_dash(r: Option<RequestView>) -> RequestView {
    match r {
        Some(x) => x,
        None => RequestView { method: "-"@, uri: "-"@, headers: Seq::empty(), is_connect: false },
    }
}

/// How long an exchange took, in milliseconds; zero while it has not ended.
pub open spec fn duration(e: ExchangeView) -> u64 {
    match e.timing.millis() {
        Some(n) => n,
        None => 0,
    }
}

/// The body of the response with its encoding undone, or else as it came.
pub open spec fn shown_body(e: ExchangeView) -> Option<Seq<u8>> {
    match e.response_body_decoded {
        Some(b) => Some(b),
        None => e.response_body,
    }
}

/// What an entry says of the body of the request.
pub open spec fn post_members(e: ExchangeView) -> Seq<(Seq<char>, Json)> {
    let r = request_or_dash(e.request);
    seq![
        ("mimeType"@, Json::Str(text_or_empty(headers::value_of(r.headers, "content-type"@)))),
        ("text"@, Json::Str(body_words(e.request_body))),
    ]
}

/// What an entry says of the request.
pub open spec fn request_members(e: ExchangeView) -> Seq<(Seq<char>, Json)> {
    let r = request_or_dash(e.request);
    seq![
        ("method"@, Json::Str(r.method)),
        ("url"@, Json::Str(r.uri)),
        ("httpVersion"@, Json::Str("HTTP/1.1"@)),
        ("headers"@, header_trees(r.headers)),
        ("queryString"@, Json::Arr(Seq::empty())),
        ("headersSize"@, Json::Int(-1)),
        ("bodySize"@, body_size(e.request_body)),
        ("postData"@, object(post_members(e))),
    ]
}

/// What an entry says of the body of the response.
pub open spec fn content_members(e: ExchangeView) -> Seq<(Seq<char>, Json)> {
    seq![
        ("size"@, body_size(e.response_body)),
        ("mimeType"@, Json::Str(text_or_empty(e.response_content_type))),
        ("text"@, Json::Str(body_words(shown_body(e)))),
    ]
}

/// The status of the response, or zero.
pub open spec fn status_or_zero(e: ExchangeView) -> u16 {
    match e.response_status {
        Some(s) => s,
        None => 0,
    }
}

/// What an entry says of the response.
pub open spec fn response_members(e: ExchangeView) -> Seq<(Seq<char>, Json)> {
    seq![
        ("status"@, Json::Int(status_or_zero(e) as int)),
        ("statusText"@, Json::Str(""@)),
        ("httpVersion"@, Json::Str("HTTP/1.1"@)),
        ("headers"@, header_trees(e.response_headers)),
        ("content"@, object(content_members(e))),
        ("redirectURL"@, Json::Str(""@)),
        ("headersSize"@, Json::Int(-1)),
        ("bodySize"@, body_size(e.response_body)),
    ]
}

/// What an entry says of the time that the exchange took.
pub open spec fn timing_members(e: ExchangeView) -> Seq<(Seq<char>, Json)> {
    seq![
        ("send"@, Json::Int(0)),
        ("wait"@, (Json::Float { negative: false, size: duration(e) as real })),
        ("receive"@, Json::Int(0)),
    ]
}

/// What the entry of an exchange says.
pub open spec fn entry_members(e: ExchangeView, now: u64) -> Seq<(Seq<char>, Json)> {
    seq![
        ("startedDateTime"@, Json::Str(start_text(e.started_wall, now))),
        ("time"@, Json::Int(duration(e) as int)),
        ("_state"@, Json::Str(e.state.label())),
        ("request"@, object(request_members(e))),
        ("response"@, object(response_members(e))),
        ("cache"@, object(Seq::empty())),
        ("timings"@, object(timing_members(e))),
        ("_error"@, str_or_null(e.error)),
    ]
}

/// The entries, in order.
pub open spec fn entry_trees(s: Seq<ExchangeView>, now: u64) -> Seq<Json> {
    s.map_values(|e: ExchangeView| object(entry_members(e, now)))
}

/// Who made the archive.
pub open spec fn creator_members() -> Seq<(Seq<char>, Json)> {
    seq![("name"@, Json::Str("rproxy"@)), ("version"@, Json::Str(VERSION@))]
}

/// What the archive says.
pub open spec fn log_members(s: Seq<ExchangeView>, now: u64) -> Seq<(Seq<char>, Json)> {
    seq![
        ("version"@, Json::Str("1.2"@)),
        ("creator"@, object(creator_members())),
        ("entries"@, Json::Arr(entry_trees(s, now))),
    ]
}

/// The archive.
pub open spec fn archive(s: Seq<ExchangeView>, now: u64) -> Json {
    object(seq![("log"@, object(log_members(s, now)))])
}

// ---------------------------------------------------------------- functions

fn rfc3339(started: Option<u64>, now: u64) -> (r: String)
    ensures
        r@ == start_text(started, now),
{
    let nanos: u64 = match started {
        Some(t) => t,
        None => now,
    };
    match format_moment(nanos) {
        Some(s) => s,
        None => "1970-01-01T00:00:00Z".to_string(),
    }
}

/// The headers as an array of names and values.
pub fn headers_json(h: &Vec<(String, String)>) -> (r: serde_json::Value)
    ensures
        tree_of(r) == header_trees(fields(h@)),
{
    let mut v: Vec<serde_json::Value> = Vec::new();
    let mut i: usize = 0;
    while i < h.len()
        invariant
            i <= h@.len(),
            v@.len() == i,
            forall|k: int| 0 <= k < i ==> tree_of(#[trigger] v@[k]) == header_tree(fields(h@)[k]),
        decreases h@.len() - i,
    {
        let m = Members::new().with("name", json::text(h[i].0.as_str())).with(
            "value",
            json::text(h[i].1.as_str()),
        );
        assert(m@ =~= header_members(fields(h@)[i as int]));
        v.push(m.build());
        i += 1;
    }
    assert(trees(v@) =~= fields(h@).map_values(
        |f: (Seq<char>, Seq<char>)| header_tree(f),
    ));
    json::array(v)
}

/// The text of a body.
pub fn body_text(body: &Option<bytes::Bytes>) -> (r: serde_json::Value)
    ensures
        tree_of(r) == Json::Str(body_words(crate::body::opt_bytes(*body))),
{
    match body {
        Some(b) => json::string(lossy(bytes_slice(b))),
        None => json::text(""),
    }
}

fn size_json(body: &Option<bytes::Bytes>) -> (r: serde_json::Value)
    ensures
        tree_of(r) == body_size(crate::body::opt_bytes(*body)),
{
    match body {
        Some(b) => json::unsigned(bytes_slice(b).len() as u64),
        None => json::signed(-1),
    }
}

fn text_of(s: &Option<String>) -> (r: serde_json::Value)
    ensures
        tree_of(r) == Json::Str(text_or_empty(opt_text(*s))),
{
    match s {
        Some(x) => json::text(x.as_str()),
        None => json::text(""),
    }
}

fn request_json(ex: &Exchange) -> (r: serde_json::Value)
    ensures
        tree_of(r) == object(request_members(ex@)),
{
    let none: Vec<(String, String)> = Vec::new();
    assert(fields(none@) =~= Seq::empty());
    let (method, url, list) = match &ex.request {
        Some(q) => (q.method.as_str(), q.uri.as_str(), &q.headers),
        None => ("-", "-", &none),
    };
    let kind = headers::find_header(list, "content-type");
    let post = Members::new().with("mimeType", text_of(&kind)).with(
        "text",
        body_text(&ex.request_body),
    );
    assert(post@ =~= post_members(ex@));
    let empty: Vec<serde_json::Value> = Vec::new();
    assert(trees(empty@) =~= Seq::empty());
    let m = Members::new().with("method", json::text(method)).with("url", json::text(url)).with(
        "httpVersion",
        json::text("HTTP/1.1"),
    ).with("headers", headers_json(list)).with("queryString", json::array(empty)).with(
        "headersSize",
        json::signed(-1),
    ).with("bodySize", size_json(&ex.request_body)).with("postData", post.build());
    assert(m@ =~= request_members(ex@));
    m.build()
}

fn response_json(ex: &Exchange) -> (r: serde_json::Value)
    ensures
        tree_of(r) == object(response_members(ex@)),
{
    let status: u64 = match ex.response_status {
        Some(s) => s as u64,
        None => 0,
    };
    let shown = match &ex.response_body_decoded {
        Some(_) => body_text(&ex.response_body_decoded),
        None => body_text(&ex.response_body),
    };
    let content = Members::new().with("size", size_json(&ex.response_body)).with(
        "mimeType",
        text_of(&ex.response_content_type),
    ).with("text", shown);
    assert(content@ =~= content_members(ex@));
    let m = Members::new().with("status", json::unsigned(status)).with(
        "statusText",
        json::text(""),
    ).with("httpVersion", json::text("HTTP/1.1")).with(
        "headers",
        headers_json(&ex.response_headers),
    ).with("content", content.build()).with("redirectURL", json::text("")).with(
        "headersSize",
        json::signed(-1),
    ).with("bodySize", size_json(&ex.response_body));
    assert(m@ =~= response_members(ex@));
    m.build()
}

/// The entry of an exchange; `now` stands for a start that is not known.
pub fn exchange_to_entry(ex: &Exchange, now: u64) -> (r: serde_json::Value)
    ensures
        tree_of(r) == object(entry_members(ex@, now)),
{
    let millis: u64 = match ex.timing.total_millis() {
        Some(n) => n,
        None => 0,
    };
    let timings = Members::new().with("send", json::unsigned(0)).with(
        "wait",
        json::floating(millis),
    ).with("receive", json::unsigned(0));
    assert(timings@ =~= timing_members(ex@));
    let m = Members::new().with(
        "startedDateTime",
        json::string(rfc3339(ex.started_wall, now)),
    ).with("time", json::unsigned(millis)).with("_state", json::text(ex.state.name())).with(
        "request",
        request_json(ex),
    ).with("response", response_json(ex)).with("cache", Members::new().build()).with(
        "timings",
        timings.build(),
    ).with("_error", json::opt_string(&ex.error));
    assert(m@ =~= entry_members(ex@, now));
    m.build()
}

/// The archive of a list of exchanges, as JSON; `now` stands for a start that is not known.
pub fn har_at(exchanges: &[Exchange], now: u64) -> (r: String)
    ensures
        r@ == pretty_text(archive(views(exchanges@), now)),
        read_text(r@) == Some(archive(views(exchanges@), now)),
{
    proof {
        lemma_plain_archive(views(exchanges@), now);
    }
    let mut v: Vec<serde_json::Value> = Vec::new();
    let mut i: usize = 0;
    while i < exchanges.len()
        invariant
            i <= exchanges@.len(),
            v@.len() == i,
            forall|k: int|
                0 <= k < i ==> tree_of(#[trigger] v@[k]) == object(
                    entry_members(exchanges@[k]@, now),
                ),
        decreases exchanges@.len() - i,
    {
        v.push(exchange_to_entry(&exchanges[i], now));
        i += 1;
    }
    assert(trees(v@) =~= entry_trees(views(exchanges@), now));
    let creator = Members::new().with("name", json::text("rproxy")).with(
        "version",
        json::text(VERSION),
    );
    assert(creator@ =~= creator_members());
    let log = Members::new().with("version", json::text("1.2")).with(
        "creator",
        creator.build(),
    ).with("entries", json::array(v));
    assert(log@ =~= log_members(views(exchanges@), now));
    let m = Members::new().with("log", log.build());
    json::to_pretty(&m.build())
}

/// The archive of a list of exchanges, as JSON. A start that is not known is given as the time
/// of the export.
pub fn to_har(exchanges: &[Exchange]) -> (r: String)
    ensures
        exists|now: u64|
            r@ == pretty_text(#[trigger] archive(views(exchanges@), now)) && read_text(r@) == Some(
                archive(views(exchanges@), now),
            ),
        (forall|i: int|
            0 <= i < exchanges@.len() ==> (#[trigger] exchanges@[i]).started_wall is Some)
            ==> r@ == pretty_text(archive(views(exchanges@), 0)),
{
    let now: u64 = read_wall_clock();
    proof {
        if forall|i: int|
            0 <= i < exchanges@.len() ==> (#[trigger] exchanges@[i]).started_wall is Some {
            assert(entry_trees(views(exchanges@), now) =~= entry_trees(views(exchanges@), 0));
        }
    }
    har_at(exchanges, now)
}

// ---------------------------------------------------------------- laws

proof fn lemma_plain_headers(h: Seq<(Seq<char>, Seq<char>)>, depth: nat)
    ensures
        plain(header_trees(h), depth + 2),
{
    let s = h.map_values(|f: (Seq<char>, Seq<char>)| header_tree(f));
    assert forall|i: int| 0 <= i < s.len() implies plain(#[trigger] s[i], depth + 1) by {
        lemma_plain_object(header_members(h[i]), depth);
    }
    lemma_plain_array(s, depth + 1);
}

proof fn lemma_plain_entry(e: ExchangeView, now: u64)
    ensures
        plain(object(entry_members(e, now)), 5),
{
    let r = request_or_dash(e.request);
    lemma_plain_headers(r.headers, 1);
    lemma_plain_headers(e.response_headers, 1);
    lemma_plain_object(post_members(e), 2);
    lemma_plain_array(Seq::empty(), 2);
    lemma_plain_object(request_members(e), 3);
    lemma_plain_object(content_members(e), 2);
    lemma_plain_object(response_members(e), 3);
    lemma_plain_object(Seq::empty(), 3);
    assert(is_size(duration(e) as int, duration(e) as real));
    lemma_plain_object(timing_members(e), 3);
    lemma_plain_object(entry_members(e, now), 4);
}

proof fn lemma_plain_archive(s: Seq<ExchangeView>, now: u64)
    ensures
        plain(archive(s, now), DEPTH as nat),
{
    let t = entry_trees(s, now);
    assert forall|i: int| 0 <= i < t.len() implies plain(#[trigger] t[i], 97) by {
        lemma_plain_entry(s[i], now);
        lemma_deeper(t[i], 5, 97);
    }
    lemma_plain_array(t, 97);
    lemma_plain_object(creator_members(), 97);
    lemma_plain_object(log_members(s, now), 98);
    lemma_plain_object(seq![("log"@, object(log_members(s, now)))], 99);
}

/// What an archive says under these names, one inside the other.
pub open spec fn under(j: Json, outer: Seq<char>, inner: Seq<char>) -> Option<Json> {
    match j.member(outer) {
        Some(x) => x.member(inner),
        None => None,
    }
}

/// An archive has one entry for each exchange, in their order.
pub proof fn law_one_entry_for_each(s: Seq<ExchangeView>, now: u64)
    ensures
        under(archive(s, now), "log"@, "entries"@) == Some(Json::Arr(entry_trees(s, now))),
        entry_trees(s, now).len() == s.len(),
        forall|i: int|
            0 <= i < s.len() ==> #[trigger] entry_trees(s, now)[i] == object(
                entry_members(s[i], now),
            ),
{
    let top = seq![("log"@, object(log_members(s, now)))];
    law_member_is_found(top, 0);
    law_member_is_found(log_members(s, now), 2);
}

/// An entry shows the method and the URL of the request, the status of the response, the text of
/// its body, and the error.
pub proof fn law_entry_shows_the_exchange(e: ExchangeView, now: u64)
    ensures
        under(object(entry_members(e, now)), "request"@, "method"@) == Some(
            Json::Str(request_or_dash(e.request).method),
        ),
        under(object(entry_members(e, now)), "request"@, "url"@) == Some(
            Json::Str(request_or_dash(e.request).uri),
        ),
        under(object(entry_members(e, now)), "response"@, "status"@) == Some(
            Json::Int(status_or_zero(e) as int),
        ),
        under(object(entry_members(e, now)), "response"@, "content"@) == Some(
            object(content_members(e)),
        ),
        object(content_members(e)).member("text"@) == Some(
            Json::Str(body_words(shown_body(e))),
        ),
        object(entry_members(e, now)).member("_error"@) == Some(str_or_null(e.error)),
{
    lemma_names_differ();
    let m = entry_members(e, now);
    law_member_is_found(m, 3);
    law_member_is_found(m, 4);
    law_member_is_found(m, 7);
    law_member_is_found(request_members(e), 0);
    law_member_is_found(request_members(e), 1);
    law_member_is_found(response_members(e), 0);
    law_member_is_found(response_members(e), 4);
    law_member_is_found(content_members(e), 2);
}

/// Names that stand behind others in one object, told apart by their lengths or first letters.
proof fn lemma_names_differ()
    ensures
        "request"@ != "response"@,
        "request"@ != "cache"@,
        "request"@ != "timings"@,
        "request"@ != "_error"@,
        "response"@ != "cache"@,
        "response"@ != "timings"@,
        "response"@ != "_error"@,
        "method"@ != "url"@,
        "method"@ != "httpVersion"@,
        "method"@ != "headers"@,
        "method"@ != "queryString"@,
        "method"@ != "headersSize"@,
        "method"@ != "bodySize"@,
        "method"@ != "postData"@,
        "url"@ != "httpVersion"@,
        "url"@ != "headers"@,
        "url"@ != "queryString"@,
        "url"@ != "headersSize"@,
        "url"@ != "bodySize"@,
        "url"@ != "postData"@,
        "status"@ != "statusText"@,
        "status"@ != "httpVersion"@,
        "status"@ != "headers"@,
        "status"@ != "content"@,
        "status"@ != "redirectURL"@,
        "status"@ != "headersSize"@,
        "status"@ != "bodySize"@,
        "content"@ != "redirectURL"@,
        "content"@ != "headersSize"@,
        "content"@ != "bodySize"@,
{
    reveal_strlit("request");
    reveal_strlit("response");
    reveal_strlit("cache");
    reveal_strlit("timings");
    reveal_strlit("_error");
    reveal_strlit("method");
    reveal_strlit("url");
    reveal_strlit("httpVersion");
    reveal_strlit("headers");
    reveal_strlit("queryString");
    reveal_strlit("headersSize");
    reveal_strlit("bodySize");
    reveal_strlit("postData");
    reveal_strlit("status");
    reveal_strlit("statusText");
    reveal_strlit("content");
    reveal_strlit("redirectURL");
    assert("request"@.len() == 7);
    assert("response"@.len() == 8);
    assert("cache"@.len() == 5);
    assert("timings"@.len() == 7);
    assert("_error"@.len() == 6);
    assert("method"@.len() == 6);
    assert("url"@.len() == 3);
    assert("httpVersion"@.len() == 11);
    assert("headers"@.len() == 7);
    assert("queryString"@.len() == 11);
    assert("headersSize"@.len() == 11);
    assert("bodySize"@.len() == 8);
    assert("postData"@.len() == 8);
    assert("status"@.len() == 6);
    assert("statusText"@.len() == 10);
    assert("content"@.len() == 7);
    assert("redirectURL"@.len() == 11);
    assert("request"@[0] == 'r');
    assert("timings"@[0] == 't');
}

proof fn lemma_entry_names()
    ensures
        "startedDateTime"@.len() == 15,
        "time"@.len() == 4,
        "_state"@.len() == 6 && "_state"@[1] == 's',
        "_error"@.len() == 6 && "_error"@[1] == 'e',
        "request"@.len() == 7 && "request"@[0] == 'r',
        "timings"@.len() == 7 && "timings"@[0] == 't',
        "response"@.len() == 8,
        "cache"@.len() == 5,
        "method"@.len() == 6,
        "url"@.len() == 3,
        "httpVersion"@.len() == 11 && "httpVersion"@[0] == 'h' && "httpVersion"@[1] == 't',
        "headers"@.len() == 7 && "headers"@[0] == 'h',
        "queryString"@.len() == 11 && "queryString"@[0] == 'q',
        "headersSize"@.len() == 11 && "headersSize"@[0] == 'h' && "headersSize"@[1] == 'e',
        "bodySize"@.len() == 8 && "bodySize"@[0] == 'b',
        "postData"@.len() == 8 && "postData"@[0] == 'p',
        "mimeType"@.len() == 8,
        "text"@.len() == 4,
        "size"@.len() == 4 && "size"@[0] == 's',
        "text"@[0] == 't',
        "status"@.len() == 6,
        "statusText"@.len() == 10,
        "content"@.len() == 7 && "content"@[0] == 'c',
        "redirectURL"@.len() == 11 && "redirectURL"@[0] == 'r',
        "send"@.len() == 4 && "send"@[0] == 's',
        "wait"@.len() == 4 && "wait"@[0] == 'w',
        "receive"@.len() == 7,
        "name"@.len() == 4,
        "value"@.len() == 5,
        "version"@.len() == 7 && "version"@[0] == 'v',
        "creator"@.len() == 7 && "creator"@[0] == 'c',
        "entries"@.len() == 7 && "entries"@[0] == 'e',
{
    reveal_strlit("startedDateTime");
    reveal_strlit("time");
    reveal_strlit("_state");
    reveal_strlit("_error");
    reveal_strlit("request");
    reveal_strlit("timings");
    reveal_strlit("response");
    reveal_strlit("cache");
    reveal_strlit("method");
    reveal_strlit("url");
    reveal_strlit("httpVersion");
    reveal_strlit("headers");
    reveal_strlit("queryString");
    reveal_strlit("headersSize");
    reveal_strlit("bodySize");
    reveal_strlit("postData");
    reveal_strlit("mimeType");
    reveal_strlit("text");
    reveal_strlit("size");
    reveal_strlit("status");
    reveal_strlit("statusText");
    reveal_strlit("content");
    reveal_strlit("redirectURL");
    reveal_strlit("send");
    reveal_strlit("wait");
    reveal_strlit("receive");
    reveal_strlit("name");
    reveal_strlit("value");
    reveal_strlit("version");
    reveal_strlit("creator");
    reveal_strlit("entries");
}

/// An archive says which version of the format it has, and who made it.
pub proof fn law_archive_says(s: Seq<ExchangeView>, now: u64)
    ensures
        under(archive(s, now), "log"@, "version"@) == Some(Json::Str("1.2"@)),
        ({
            let by = under(archive(s, now), "log"@, "creator"@);
            &&& by is Some
            &&& by->0.member("name"@) == Some(Json::Str("rproxy"@))
            &&& by->0.member("version"@) == Some(Json::Str(VERSION@))
        }),
{
    lemma_entry_names();
    law_member_is_found(seq![("log"@, object(log_members(s, now)))], 0);
    law_member_is_found(log_members(s, now), 0);
    law_member_is_found(log_members(s, now), 1);
    law_member_is_found(creator_members(), 0);
    law_member_is_found(creator_members(), 1);
}

/// Headers are in an archive by name and value, one for each, in their order.
pub proof fn law_headers_in_archive(h: Seq<(Seq<char>, Seq<char>)>, i: int)
    requires
        0 <= i < h.len(),
    ensures
        header_trees(h) is Arr,
        header_trees(h)->Arr_0.len() == h.len(),
        header_trees(h)->Arr_0[i].member("name"@) == Some(Json::Str(h[i].0)),
        header_trees(h)->Arr_0[i].member("value"@) == Some(Json::Str(h[i].1)),
{
    lemma_entry_names();
    law_member_is_found(header_members(h[i]), 0);
    law_member_is_found(header_members(h[i]), 1);
}

/// An entry says when the exchange started, how many milliseconds it took, how it ended, and the
/// error.
pub proof fn law_entry_says(e: ExchangeView, now: u64, start: u64)
    ensures
        ({
            let j = object(entry_members(e, now));
            let t = e.timing.elapsed();
            &&& e.started_wall is Some ==> (moment_text(e.started_wall->0) matches Some(m)
                ==> j.member("startedDateTime"@) == Some(Json::Str(m)))
            &&& e.started_wall is None ==> (moment_text(now) matches Some(m) ==> j.member(
                "startedDateTime"@,
            ) == Some(Json::Str(m)))
            &&& e.started_wall == Some(start) && moment_text(start) is None ==> j.member(
                "startedDateTime"@,
            ) == Some(Json::Str("1970-01-01T00:00:00Z"@))
            &&& t is Some ==> j.member("time"@) == Some(Json::Int((t->0 / 1_000_000) as int))
            &&& t is None ==> j.member("time"@) == Some(Json::Int(0))
            &&& j.member("_state"@) == Some(Json::Str(e.state.label()))
            &&& e.error is Some ==> j.member("_error"@) == Some(Json::Str(e.error->0))
            &&& e.error is None ==> j.member("_error"@) == Some(Json::Null)
            &&& j.member("cache"@) == Some(object(Seq::empty()))
            &&& under(j, "timings"@, "send"@) == Some(Json::Int(0))
            &&& under(j, "timings"@, "receive"@) == Some(Json::Int(0))
            &&& t is Some ==> under(j, "timings"@, "wait"@) == Some(
                Json::Float { negative: false, size: (t->0 / 1_000_000) as real },
            )
            &&& t is None ==> under(j, "timings"@, "wait"@) == Some(
                Json::Float { negative: false, size: 0 as real },
            )
        }),
{
    lemma_entry_names();
    let m = entry_members(e, now);
    law_member_is_found(m, 0);
    law_member_is_found(m, 1);
    law_member_is_found(m, 2);
    law_member_is_found(m, 5);
    law_member_is_found(m, 6);
    law_member_is_found(m, 7);
    law_member_is_found(timing_members(e), 0);
    law_member_is_found(timing_members(e), 1);
    law_member_is_found(timing_members(e), 2);
}

/// An entry says of a request what was asked, with the headers, the size of the body, its first
/// content type and its text; what is not known is a dash, or nothing, and a size is then -1.
pub proof fn law_request_in_entry(e: ExchangeView, now: u64, q: RequestView, kind: Seq<char>)
    requires
        e.request == Some(q),
    ensures
        ({
            let j = member_or_null(object(entry_members(e, now)), "request"@);
            let post = member_or_null(j, "postData"@);
            &&& j.member("method"@) == Some(Json::Str(q.method))
            &&& j.member("url"@) == Some(Json::Str(q.uri))
            &&& j.member("httpVersion"@) == Some(Json::Str("HTTP/1.1"@))
            &&& j.member("headers"@) == Some(header_trees(q.headers))
            &&& j.member("queryString"@) == Some(Json::Arr(Seq::empty()))
            &&& j.member("headersSize"@) == Some(Json::Int(-1))
            &&& e.request_body is Some ==> j.member("bodySize"@) == Some(
                Json::Int(e.request_body->0.len() as int),
            )
            &&& e.request_body is None ==> j.member("bodySize"@) == Some(Json::Int(-1))
            &&& headers::value_of(q.headers, "content-type"@) == Some(kind) ==> post.member(
                "mimeType"@,
            ) == Some(Json::Str(kind))
            &&& headers::value_of(q.headers, "content-type"@) is None ==> post.member("mimeType"@)
                == Some(Json::Str(""@))
            &&& e.request_body is Some ==> post.member("text"@) == Some(
                Json::Str(lossy_text(e.request_body->0)),
            )
            &&& e.request_body is None ==> post.member("text"@) == Some(Json::Str(""@))
        }),
        ({
            let none = ExchangeView { request: None, ..e };
            let j = member_or_null(object(entry_members(none, now)), "request"@);
            &&& j.member("method"@) == Some(Json::Str("-"@))
            &&& j.member("url"@) == Some(Json::Str("-"@))
            &&& j.member("headers"@) == Some(header_trees(Seq::empty()))
        }),
{
    lemma_entry_names();
    lemma_request_members(e, now);
    lemma_request_members(ExchangeView { request: None, ..e }, now);
    law_member_is_found(post_members(e), 0);
    law_member_is_found(post_members(e), 1);
}

proof fn lemma_request_members(e: ExchangeView, now: u64)
    ensures
        member_or_null(object(entry_members(e, now)), "request"@) == object(request_members(e)),
        forall|i: int|
            #![trigger request_members(e)[i]]
            0 <= i < 8 ==> object(request_members(e)).member(request_members(e)[i].0) == Some(
                request_members(e)[i].1,
            ),
{
    lemma_entry_names();
    law_member_is_found(entry_members(e, now), 3);
    let m = request_members(e);
    law_member_is_found(m, 0);
    law_member_is_found(m, 1);
    law_member_is_found(m, 2);
    law_member_is_found(m, 3);
    law_member_is_found(m, 4);
    law_member_is_found(m, 5);
    law_member_is_found(m, 6);
    law_member_is_found(m, 7);
    assert(m[0].0 == "method"@ && m[1].0 == "url"@ && m[2].0 == "httpVersion"@ && m[3].0
        == "headers"@ && m[4].0 == "queryString"@ && m[5].0 == "headersSize"@ && m[6].0
        == "bodySize"@ && m[7].0 == "postData"@);
}

/// An entry says of a response its status, or zero, its headers, the size of the body as it came,
/// its content type, and its text with the encoding undone where that was done.
pub proof fn law_response_in_entry(e: ExchangeView, now: u64)
    ensures
        ({
            let j = member_or_null(object(entry_members(e, now)), "response"@);
            let c = member_or_null(j, "content"@);
            &&& e.response_status is Some ==> j.member("status"@) == Some(
                Json::Int(e.response_status->0 as int),
            )
            &&& e.response_status is None ==> j.member("status"@) == Some(Json::Int(0))
            &&& j.member("statusText"@) == Some(Json::Str(""@))
            &&& j.member("httpVersion"@) == Some(Json::Str("HTTP/1.1"@))
            &&& j.member("headers"@) == Some(header_trees(e.response_headers))
            &&& j.member("redirectURL"@) == Some(Json::Str(""@))
            &&& j.member("headersSize"@) == Some(Json::Int(-1))
            &&& e.response_body is Some ==> j.member("bodySize"@) == Some(
                Json::Int(e.response_body->0.len() as int),
            )
            &&& e.response_body is None ==> j.member("bodySize"@) == Some(Json::Int(-1))
            &&& c.member("size"@) == j.member("bodySize"@)
            &&& e.response_content_type is Some ==> c.member("mimeType"@) == Some(
                Json::Str(e.response_content_type->0),
            )
            &&& e.response_content_type is None ==> c.member("mimeType"@) == Some(Json::Str(""@))
            &&& e.response_body_decoded is Some ==> c.member("text"@) == Some(
                Json::Str(lossy_text(e.response_body_decoded->0)),
            )
            &&& e.response_body_decoded is None && e.response_body is Some ==> c.member("text"@)
                == Some(Json::Str(lossy_text(e.response_body->0)))
            &&& e.response_body_decoded is None && e.response_body is None ==> c.member("text"@)
                == Some(Json::Str(""@))
        }),
{
    lemma_entry_names();
    law_member_is_found(entry_members(e, now), 4);
    let m = response_members(e);
    law_member_is_found(m, 0);
    law_member_is_found(m, 1);
    law_member_is_found(m, 2);
    law_member_is_found(m, 3);
    law_member_is_found(m, 4);
    law_member_is_found(m, 5);
    law_member_is_found(m, 6);
    law_member_is_found(m, 7);
    law_member_is_found(content_members(e), 0);
    law_member_is_found(content_members(e), 1);
    law_member_is_found(content_members(e), 2);
}

} // verus!
