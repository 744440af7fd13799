//! The recorded session, and the tools through which an agent reads and steers it.

use crate::body::{bytes_slice, lossy, lossy_text, opt_bytes};
use crate::har::{body_words, shown_body};
use crate::headers::fields;
use crate::json;
use crate::json::{
    compact_text, law_member_is_found, law_member_is_missing, lemma_deeper, lemma_plain_array,
    lemma_plain_object, member_or_null, object, opt_tree, plain, pretty_text, read_text, str_or_null, strings,
    tree_of, trees, Json, Members, DEPTH,
};
use crate::model::{views, Exchange, ExchangeView, RequestView};
use crate::text;
use crate::text::{ascii_lower, decimal, has_text, same_ascii};
use crate::VERSION;
use vstd::prelude::*;
use vstd::utf8::{decode_utf8, encode_utf8, is_ascii_chars, is_char_boundary};

verus! {

// ---------------------------------------------------------------- outside

/// The text that `str::to_lowercase` makes of a text.
pub uninterp spec fn lowered(s: Seq<char>) -> Seq<char>;

/// A text with small letters for capitals.
pub open spec fn small(s: Seq<char>) -> Seq<char> {
    if is_ascii_chars(s) {
        s.map_values(|c: char| ascii_lower(c))
    } else {
        lowered(s)
    }
}

/// `str::to_lowercase` has small letters for capitals in an ASCII text, and depends on the text
/// alone in any other.
#[verifier::external_body]
pub(crate) fn lower(s: &str) -> (r: String)
    ensures
        r@ == if is_ascii_chars(s@) {
            s@.map_values(|c: char| ascii_lower(c))
        } else {
            lowered(s@)
        },
{
    s.to_lowercase()
}

// ---------------------------------------------------------------- the session

/// The recorded exchanges, and whether new ones are recorded.
pub struct Store {
    pub session: Vec<Exchange>,
    pub recording: bool,
}

/// What a session holds.
pub struct StoreView {
    pub session: Seq<ExchangeView>,
    pub recording: bool,
}

impl View for Store {
    type V = StoreView;

    open spec fn view(&self) -> StoreView {
        StoreView { session: views(self.session@), recording: self.recording }
    }
}

impl Default for Store {
    fn default() -> (r: Self)
        ensures
            r@ == (StoreView { session: Seq::empty(), recording: false }),
    {
        let r = Store { session: Vec::new(), recording: false };
        assert(r@.session =~= Seq::empty());
        r
    }
}

/// The session after one exchange more has ended.
pub open spec fn recorded(s: StoreView, e: ExchangeView) -> StoreView {
    if s.recording {
        StoreView { session: s.session.push(e), ..s }
    } else {
        s
    }
}

impl Store {
    /// An empty session that records.
    pub fn new() -> (r: Self)
        ensures
            r@ == (StoreView { session: Seq::empty(), recording: true }),
    {
        let r = Store { session: Vec::new(), recording: true };
        assert(r@.session =~= Seq::empty());
        r
    }

    /// Whether new exchanges are recorded.
    pub fn is_recording(&self) -> (r: bool)
        ensures
            r == self@.recording,
    {
        self.recording
    }

    /// Records an exchange that has ended, if new ones are recorded.
    pub fn record(&mut self, ex: Exchange)
        ensures
            final(self)@ == recorded(old(self)@, ex@),
    {
        if self.recording {
            self.session.push(ex);
            assert(self@.session =~= old(self)@.session.push(ex@));
        }
    }
}

// ---------------------------------------------------------------- texts

/// The largest body, in bytes, that is shown whole.
pub const BODY_LIMIT: usize = 20_000;

/// A text that can be cut at the limit: it is no longer, or a character starts there.
pub open spec fn cuttable(s: Seq<char>) -> bool {
    encode_utf8(s).len() > BODY_LIMIT ==> is_char_boundary(encode_utf8(s), BODY_LIMIT as int)
}

/// A text cut at the limit, with a note of how much is missing.
pub open spec fn truncated(s: Seq<char>) -> Seq<char> {
    let b = encode_utf8(s);
    if b.len() > BODY_LIMIT {
        decode_utf8(b.subrange(0, BODY_LIMIT as int)) + "\n…[truncated "@ + decimal(
            (b.len() - BODY_LIMIT) as nat,
        ) + " chars]"@
    } else {
        s
    }
}

/// Cuts a text at the limit.
pub fn trunc(s: &str) -> (r: String)
    requires
        cuttable(s@),
    ensures
        r@ == truncated(s@),
{
    let size: usize = s.as_bytes().len();
    if size > BODY_LIMIT {
        let (head, _) = s.split_at(BODY_LIMIT);
        proof {
            vstd::utf8::encode_utf8_decode_utf8(head@);
        }
        let mut r = head.to_string();
        r.push_str("\n…[truncated ");
        r.push_str(text::decimal_text((size - BODY_LIMIT) as u64).as_str());
        r.push_str(" chars]");
        r
    } else {
        s.to_string()
    }
}

fn is_cuttable(s: &str) -> (r: bool)
    ensures
        r == cuttable(s@),
{
    s.as_bytes().len() <= BODY_LIMIT || s.is_char_boundary(BODY_LIMIT)
}

/// The words of the body of the response, or of the request.
pub open spec fn words_in(e: ExchangeView, response: bool) -> Seq<char> {
    body_words(
        if response {
            shown_body(e)
        } else {
            e.request_body
        },
    )
}

/// The body of the response, or of the request, as it is shown.
pub open spec fn body_shown(e: ExchangeView, response: bool) -> Seq<char> {
    truncated(words_in(e, response))
}

/// Both bodies of an exchange can be shown.
pub open spec fn showable(e: ExchangeView) -> bool {
    cuttable(words_in(e, true)) && cuttable(words_in(e, false))
}

fn words_of(body: &Option<bytes::Bytes>) -> (r: String)
    ensures
        r@ == body_words(opt_bytes(*body)),
{
    match body {
        Some(b) => lossy(bytes_slice(b)),
        None => "".to_string(),
    }
}

fn words_shown(ex: &Exchange) -> (r: String)
    ensures
        r@ == body_words(shown_body(ex@)),
{
    match &ex.response_body_decoded {
        Some(_) => words_of(&ex.response_body_decoded),
        None => words_of(&ex.response_body),
    }
}

/// The body of the response, or of the request, as it is shown.
pub fn body_of(ex: &Exchange, response: bool) -> (r: String)
    requires
        cuttable(words_in(ex@, response)),
    ensures
        r@ == body_shown(ex@, response),
{
    if response {
        trunc(words_shown(ex).as_str())
    } else {
        trunc(words_of(&ex.request_body).as_str())
    }
}

fn is_showable(ex: &Exchange) -> (r: bool)
    ensures
        r == showable(ex@),
{
    is_cuttable(words_shown(ex).as_str()) && is_cuttable(words_of(&ex.request_body).as_str())
}

/// The method and the URL of an exchange, or what stands for them.
pub open spec fn heading(r: Option<RequestView>) -> (Seq<char>, Seq<char>) {
    match r {
        Some(q) => (q.method, q.uri),
        None => ("-"@, "-"@),
    }
}

/// What a summary says of the exchange at this place.
pub open spec fn summary_members(i: int, e: ExchangeView) -> Seq<(Seq<char>, Json)> {
    seq![
        ("index"@, Json::Int(i)),
        ("id"@, Json::Int(e.id.0 as int)),
        ("method"@, Json::Str(heading(e.request).0)),
        ("url"@, Json::Str(heading(e.request).1)),
        ("status"@, status_tree(e.response_status)),
        ("duration"@, number_tree(e.timing.millis())),
        ("error"@, str_or_null(e.error)),
    ]
}

/// A status, or null.
pub open spec fn status_tree(s: Option<u16>) -> Json {
    match s {
        Some(n) => Json::Int(n as int),
        None => Json::Null,
    }
}

/// A number, or null.
pub open spec fn number_tree(s: Option<u64>) -> Json {
    match s {
        Some(n) => Json::Int(n as int),
        None => Json::Null,
    }
}

fn status_json(s: Option<u16>) -> (r: serde_json::Value)
    ensures
        tree_of(r) == status_tree(s),
{
    match s {
        Some(n) => json::unsigned(n as u64),
        None => json::null(),
    }
}

fn number_json(s: Option<u64>) -> (r: serde_json::Value)
    ensures
        tree_of(r) == number_tree(s),
{
    match s {
        Some(n) => json::unsigned(n),
        None => json::null(),
    }
}

/// The summary of the exchange at this place.
pub fn flow_summary(i: usize, ex: &Exchange) -> (r: serde_json::Value)
    ensures
        tree_of(r) == object(summary_members(i as int, ex@)),
{
    let (method, url) = match &ex.request {
        Some(q) => (q.method.as_str(), q.uri.as_str()),
        None => ("-", "-"),
    };
    let m = Members::new().with("index", json::unsigned(i as u64)).with(
        "id",
        json::unsigned(ex.id.0),
    ).with("method", json::text(method)).with("url", json::text(url)).with(
        "status",
        status_json(ex.response_status),
    ).with("duration", number_json(ex.timing.total_millis())).with(
        "error",
        json::opt_string(&ex.error),
    );
    assert(m@ =~= summary_members(i as int, ex@));
    m.build()
}

/// A text as JSON has it: in quotes, with escapes.
pub open spec fn quoted(s: Seq<char>) -> Seq<char> {
    compact_text(Json::Str(s))
}

fn quote(s: &str) -> (r: String)
    ensures
        r@ == quoted(s@),
{
    json::to_text(&json::text(s))
}

/// What goes between the arguments of a command.
pub open spec fn between() -> Seq<char> {
    " \\\n  "@
}

/// A header that a command leaves out: the tool that runs it supplies its own.
pub open spec fn left_out(name: Seq<char>) -> bool {
    small(name) == "host"@ || small(name) == "content-length"@
}

/// The arguments for the headers, in order.
pub open spec fn header_arguments(h: Seq<(Seq<char>, Seq<char>)>) -> Seq<char>
    decreases h.len(),
{
    if h.len() == 0 {
        Seq::empty()
    } else if left_out(h.last().0) {
        header_arguments(h.drop_last())
    } else {
        header_arguments(h.drop_last()) + between() + "-H "@ + quoted(
            h.last().0 + ": "@ + h.last().1,
        )
    }
}

/// The argument for the body; none for an empty one or one that was not kept.
pub open spec fn body_argument(body: Option<Seq<u8>>) -> Seq<char> {
    match body {
        Some(b) => if b.len() > 0 {
            between() + "-d "@ + quoted(lossy_text(b))
        } else {
            Seq::empty()
        },
        None => Seq::empty(),
    }
}

/// The command that sends a request again; none where there is no request.
pub open spec fn command(e: ExchangeView) -> Seq<char> {
    match e.request {
        Some(q) => "curl -X "@ + q.method + body_argument(e.request_body) + header_arguments(
            q.headers,
        ) + between() + quoted(q.uri),
        None => ""@,
    }
}

fn body_arg(body: &Option<bytes::Bytes>) -> (r: String)
    ensures
        r@ == body_argument(opt_bytes(*body)),
{
    let mut r = String::new();
    if let Some(b) = body {
        if bytes_slice(b).len() > 0 {
            r.push_str(" \\\n  ");
            r.push_str("-d ");
            r.push_str(quote(lossy(bytes_slice(b)).as_str()).as_str());
        }
    }
    r
}

fn header_args(h: &Vec<(String, String)>) -> (r: String)
    ensures
        r@ == header_arguments(fields(h@)),
{
    let mut r = String::new();
    let mut i: usize = 0;
    assert(fields(h@).take(0) =~= Seq::empty());
    while i < h.len()
        invariant
            i <= h@.len(),
            r@ == header_arguments(fields(h@).take(i as int)),
        decreases h@.len() - i,
    {
        let ghost next = fields(h@).take(i + 1);
        assert(next.drop_last() =~= fields(h@).take(i as int));
        assert(next.last() == (h@[i as int].0@, h@[i as int].1@));
        let name = lower(h[i].0.as_str());
        if !text::same(name.as_str(), "host") && !text::same(name.as_str(), "content-length") {
            let mut line = h[i].0.clone();
            line.push_str(": ");
            line.push_str(h[i].1.as_str());
            r.push_str(" \\\n  ");
            r.push_str("-H ");
            r.push_str(quote(line.as_str()).as_str());
        }
        i += 1;
    }
    assert(fields(h@).take(i as int) =~= fields(h@));
    r
}

/// The command that sends a request again.
pub fn to_curl(ex: &Exchange) -> (r: String)
    ensures
        r@ == command(ex@),
{
    match &ex.request {
        Some(q) => {
            let mut r = "curl -X ".to_string();
            r.push_str(q.method.as_str());
            r.push_str(body_arg(&ex.request_body).as_str());
            r.push_str(header_args(&q.headers).as_str());
            r.push_str(" \\\n  ");
            r.push_str(quote(q.uri.as_str()).as_str());
            r
        },
        None => "".to_string(),
    }
}

// ---------------------------------------------------------------- the tools

/// An answer of one text.
pub open spec fn text_answer(s: Seq<char>) -> Json {
    object(seq![("content"@, Json::Arr(seq![object(text_members(s))]))])
}

/// What an answer says of its text.
pub open spec fn text_members(s: Seq<char>) -> Seq<(Seq<char>, Json)> {
    seq![("type"@, Json::Str("text"@)), ("text"@, Json::Str(s))]
}

/// An answer of one text.
pub fn text_result(s: &str) -> (r: serde_json::Value)
    ensures
        tree_of(r) == text_answer(s@),
{
    let part = Members::new().with("type", json::text("text")).with("text", json::text(s));
    assert(part@ =~= text_members(s@));
    let mut v: Vec<serde_json::Value> = Vec::new();
    v.push(part.build());
    assert(trees(v@) =~= seq![object(text_members(s@))]);
    Members::new().with("content", json::array(v)).build()
}

/// What the schema of a member says.
pub open spec fn type_members(kind: Seq<char>) -> Seq<(Seq<char>, Json)> {
    seq![("type"@, Json::Str(kind))]
}

/// The arguments of a tool that takes none.
pub open spec fn no_arguments() -> Seq<(Seq<char>, Json)> {
    seq![("type"@, Json::Str("object"@)), ("properties"@, object(Seq::empty()))]
}

/// The arguments of a tool that takes a place in the list.
pub open spec fn index_argument() -> Seq<(Seq<char>, Json)> {
    seq![
        ("type"@, Json::Str("object"@)),
        ("properties"@, object(seq![("index"@, object(type_members("integer"@)))])),
        ("required"@, strings(seq!["index"@])),
    ]
}

/// What a search takes.
pub open spec fn search_properties() -> Seq<(Seq<char>, Json)> {
    seq![
        ("filter"@, object(type_members("string"@))),
        ("limit"@, object(type_members("integer"@))),
    ]
}

/// The arguments of a search.
pub open spec fn search_arguments() -> Seq<(Seq<char>, Json)> {
    seq![("type"@, Json::Str("object"@)), ("properties"@, object(search_properties()))]
}

/// What is said of a tool.
pub open spec fn tool_members(name: Seq<char>, about: Seq<char>, schema: Json) -> Seq<
    (Seq<char>, Json),
> {
    seq![
        ("name"@, Json::Str(name)),
        ("description"@, Json::Str(about)),
        ("inputSchema"@, schema),
    ]
}

/// The tools.
pub open spec fn tool_trees() -> Seq<Json> {
    seq![
        object(
            tool_members(
                "get_flows"@,
                "List captured HTTP flows (optional filter substring and limit)"@,
                object(search_arguments()),
            ),
        ),
        object(
            tool_members(
                "get_flow"@,
                "Full details of one flow by index: headers and bodies"@,
                object(index_argument()),
            ),
        ),
        object(
            tool_members(
                "export_flow_curl"@,
                "Export a flow as a cURL command by index"@,
                object(index_argument()),
            ),
        ),
        object(
            tool_members(
                "toggle_recording"@,
                "Start/stop capturing new flows"@,
                object(no_arguments()),
            ),
        ),
        object(
            tool_members(
                "clear_session"@,
                "Remove all captured flows"@,
                object(no_arguments()),
            ),
        ),
        object(
            tool_members(
                "get_status"@,
                "Session status: flow count, recording flag"@,
                object(no_arguments()),
            ),
        ),
    ]
}

fn type_json(kind: &str) -> (r: serde_json::Value)
    ensures
        tree_of(r) == object(type_members(kind@)),
{
    Members::new().with("type", json::text(kind)).build()
}

fn no_arguments_json() -> (r: serde_json::Value)
    ensures
        tree_of(r) == object(no_arguments()),
{
    let m = Members::new().with("type", json::text("object")).with(
        "properties",
        Members::new().build(),
    );
    assert(m@ =~= no_arguments());
    m.build()
}

fn index_argument_json() -> (r: serde_json::Value)
    ensures
        tree_of(r) == object(index_argument()),
{
    let mut names: Vec<serde_json::Value> = Vec::new();
    names.push(json::text("index"));
    assert(trees(names@) =~= seq!["index"@].map_values(|x: Seq<char>| Json::Str(x)));
    let m = Members::new().with("type", json::text("object")).with(
        "properties",
        Members::new().with("index", type_json("integer")).build(),
    ).with("required", json::array(names));
    assert(m@ =~= index_argument());
    m.build()
}

fn search_arguments_json() -> (r: serde_json::Value)
    ensures
        tree_of(r) == object(search_arguments()),
{
    let p = Members::new().with("filter", type_json("string")).with(
        "limit",
        type_json("integer"),
    );
    assert(p@ =~= search_properties());
    let m = Members::new().with("type", json::text("object")).with("properties", p.build());
    assert(m@ =~= search_arguments());
    m.build()
}

fn tool_json(name: &str, about: &str, schema: serde_json::Value) -> (r: serde_json::Value)
    ensures
        tree_of(r) == object(tool_members(name@, about@, tree_of(schema))),
{
    let m = Members::new().with("name", json::text(name)).with(
        "description",
        json::text(about),
    ).with("inputSchema", schema);
    assert(m@ =~= tool_members(name@, about@, tree_of(schema)));
    m.build()
}

/// The tools, with what each takes.
pub fn tools_list() -> (r: serde_json::Value)
    ensures
        tree_of(r) == Json::Arr(tool_trees()),
{
    let mut v: Vec<serde_json::Value> = Vec::new();
    v.push(
        tool_json(
            "get_flows",
            "List captured HTTP flows (optional filter substring and limit)",
            search_arguments_json(),
        ),
    );
    v.push(
        tool_json(
            "get_flow",
            "Full details of one flow by index: headers and bodies",
            index_argument_json(),
        ),
    );
    v.push(
        tool_json(
            "export_flow_curl",
            "Export a flow as a cURL command by index",
            index_argument_json(),
        ),
    );
    v.push(
        tool_json("toggle_recording", "Start/stop capturing new flows", no_arguments_json()),
    );
    v.push(tool_json("clear_session", "Remove all captured flows", no_arguments_json()));
    v.push(
        tool_json(
            "get_status",
            "Session status: flow count, recording flag",
            no_arguments_json(),
        ),
    );
    assert(trees(v@) =~= tool_trees());
    json::array(v)
}

/// The exchange is one that a search for `filter` finds.
pub open spec fn found_by(e: ExchangeView, filter: Seq<char>) -> bool {
    filter.len() == 0 || match e.request {
        Some(q) => has_text(small(q.uri), filter) || has_text(small(q.method), filter),
        None => false,
    }
}

/// The summaries of the exchanges, among the first `n`, that a search finds.
pub open spec fn hits(s: Seq<ExchangeView>, filter: Seq<char>, n: nat) -> Seq<Json>
    decreases n,
{
    if n == 0 {
        Seq::empty()
    } else {
        let before = hits(s, filter, (n - 1) as nat);
        if found_by(s[n - 1], filter) {
            before.push(object(summary_members(n - 1, s[n - 1])))
        } else {
            before
        }
    }
}

/// The last of a list, `limit` of them at most.
pub open spec fn latest(s: Seq<Json>, limit: int) -> Seq<Json> {
    if s.len() > limit {
        s.skip(s.len() - limit)
    } else {
        s
    }
}

/// What a search for `filter` asks for: the text, small letters for capitals.
pub open spec fn search_filter(args: Json) -> Seq<char> {
    small(
        match member_or_null(args, "filter"@).string() {
            Some(s) => s,
            None => ""@,
        },
    )
}

/// How many exchanges a search is to list.
pub open spec fn search_limit(args: Json) -> int {
    match member_or_null(args, "limit"@).count() {
        Some(n) => n,
        None => 50,
    }
}

/// What a search answers.
pub open spec fn search_members(s: Seq<ExchangeView>, args: Json) -> Seq<(Seq<char>, Json)> {
    let all = hits(s, search_filter(args), s.len());
    seq![
        ("total"@, Json::Int(all.len() as int)),
        ("flows"@, Json::Arr(latest(all, search_limit(args)))),
    ]
}

/// The place that is asked for.
pub open spec fn asked_index(args: Json) -> int {
    match member_or_null(args, "index"@).count() {
        Some(n) => n,
        None => u64::MAX as int,
    }
}

/// Headers as pairs.
pub open spec fn pair_trees(h: Seq<(Seq<char>, Seq<char>)>) -> Json {
    Json::Arr(h.map_values(|f: (Seq<char>, Seq<char>)| strings(seq![f.0, f.1])))
}

/// The headers of the request of an exchange.
pub open spec fn asked_headers(r: Option<RequestView>) -> Seq<(Seq<char>, Seq<char>)> {
    match r {
        Some(q) => q.headers,
        None => Seq::empty(),
    }
}

/// What is said of one exchange in full.
pub open spec fn detail_members(i: int, e: ExchangeView) -> Seq<(Seq<char>, Json)> {
    seq![
        ("flow"@, object(summary_members(i, e))),
        ("request_headers"@, pair_trees(asked_headers(e.request))),
        ("request_body"@, Json::Str(body_shown(e, false))),
        ("response_status"@, status_tree(e.response_status)),
        ("response_headers"@, pair_trees(e.response_headers)),
        ("response_content_type"@, str_or_null(e.response_content_type)),
        ("response_body"@, Json::Str(body_shown(e, true))),
        ("error"@, str_or_null(e.error)),
    ]
}

/// What is said of the session.
pub open spec fn status_members(s: StoreView) -> Seq<(Seq<char>, Json)> {
    seq![
        ("flows"@, Json::Int(s.session.len() as int)),
        ("recording"@, Json::Bool(s.recording)),
        ("version"@, Json::Str(VERSION@)),
    ]
}

/// What is said of a place where there is no exchange.
pub open spec fn nothing_at(i: int) -> Seq<char> {
    "no flow at index "@ + decimal(i as nat)
}

/// A tool of the session.
#[derive(Debug, Clone, Copy, PartialEq, Eq, Structural)]
pub enum SessionTool {
    Status,
    Clear,
    Toggle,
    Search,
    Show,
    Export,
}

/// The tool with this name.
pub open spec fn tool_named(name: Seq<char>) -> Option<SessionTool> {
    if name == "get_status"@ {
        Some(SessionTool::Status)
    } else if name == "clear_session"@ {
        Some(SessionTool::Clear)
    } else if name == "toggle_recording"@ {
        Some(SessionTool::Toggle)
    } else if name == "get_flows"@ {
        Some(SessionTool::Search)
    } else if name == "get_flow"@ {
        Some(SessionTool::Show)
    } else if name == "export_flow_curl"@ {
        Some(SessionTool::Export)
    } else {
        None
    }
}

/// What is said of a tool that is not known.
pub open spec fn unknown_tool(name: Seq<char>) -> Seq<char> {
    "unknown tool: "@ + name
}

/// The text that a tool answers with.
pub open spec fn tool_text(s: StoreView, name: Seq<char>, args: Json) -> Seq<char> {
    let i = asked_index(args);
    match tool_named(name) {
        Some(SessionTool::Status) => compact_text(object(status_members(s))),
        Some(SessionTool::Clear) => "session cleared"@,
        Some(SessionTool::Toggle) => if s.recording {
            "recording OFF"@
        } else {
            "recording ON"@
        },
        Some(SessionTool::Search) => pretty_text(object(search_members(s.session, args))),
        Some(SessionTool::Show) => if i < s.session.len() {
            pretty_text(object(detail_members(i, s.session[i])))
        } else {
            nothing_at(i)
        },
        Some(SessionTool::Export) => if i < s.session.len() {
            command(s.session[i])
        } else {
            nothing_at(i)
        },
        None => unknown_tool(name),
    }
}

/// The object that a tool answers with, where it answers with one.
pub open spec fn tool_object(s: StoreView, name: Seq<char>, args: Json) -> Option<Json> {
    let i = asked_index(args);
    match tool_named(name) {
        Some(SessionTool::Status) => Some(object(status_members(s))),
        Some(SessionTool::Search) => Some(object(search_members(s.session, args))),
        Some(SessionTool::Show) => if i < s.session.len() {
            Some(object(detail_members(i, s.session[i])))
        } else {
            None
        },
        _ => None,
    }
}

/// The session after a tool has been called.
pub open spec fn after_tool(s: StoreView, name: Seq<char>) -> StoreView {
    match tool_named(name) {
        Some(SessionTool::Clear) => StoreView { session: Seq::empty(), ..s },
        Some(SessionTool::Toggle) => StoreView { recording: !s.recording, ..s },
        _ => s,
    }
}

/// The call does not ask for an exchange whose bodies cannot be shown.
pub open spec fn presentable(s: StoreView, name: Seq<char>, args: Json) -> bool {
    tool_named(name) == Some(SessionTool::Show) && asked_index(args) < s.session.len()
        ==> showable(s.session[asked_index(args)])
}

fn index_of(args: &serde_json::Value) -> (r: u64)
    ensures
        r == asked_index(tree_of(*args)),
{
    match json::as_u64(&json::get_or_null(args, "index")) {
        Some(n) => n,
        None => u64::MAX,
    }
}

fn pairs_json(h: &Vec<(String, String)>) -> (r: serde_json::Value)
    ensures
        tree_of(r) == pair_trees(fields(h@)),
{
    let mut v: Vec<serde_json::Value> = Vec::new();
    let mut i: usize = 0;
    while i < h.len()
        invariant
            i <= h@.len(),
            v@.len() == i,
            forall|k: int|
                0 <= k < i ==> tree_of(#[trigger] v@[k]) == strings(
                    seq![fields(h@)[k].0, fields(h@)[k].1],
                ),
        decreases h@.len() - i,
    {
        let mut pair: Vec<serde_json::Value> = Vec::new();
        pair.push(json::text(h[i].0.as_str()));
        pair.push(json::text(h[i].1.as_str()));
        assert(trees(pair@) =~= seq![fields(h@)[i as int].0, fields(h@)[i as int].1].map_values(
            |x: Seq<char>| Json::Str(x),
        ));
        v.push(json::array(pair));
        i += 1;
    }
    assert(trees(v@) =~= fields(h@).map_values(
        |f: (Seq<char>, Seq<char>)| strings(seq![f.0, f.1]),
    ));
    json::array(v)
}

fn is_found(ex: &Exchange, filter: &str) -> (r: bool)
    ensures
        r == found_by(ex@, filter@),
{
    if filter.is_empty() {
        return true;
    }
    match &ex.request {
        Some(q) => text::contains(lower(q.uri.as_str()).as_str(), filter) || text::contains(
            lower(q.method.as_str()).as_str(),
            filter,
        ),
        None => false,
    }
}

fn search(session: &Vec<Exchange>, args: &serde_json::Value) -> (r: String)
    ensures
        r@ == pretty_text(object(search_members(views(session@), tree_of(*args)))),
        read_text(r@) == Some(object(search_members(views(session@), tree_of(*args)))),
        r@.len() > 0 && r@[0] == '{',
{
    let wanted = json::get_or_null(args, "filter");
    let filter = match json::as_str(&wanted) {
        Some(s) => lower(s),
        None => lower(""),
    };
    let limit: u64 = match json::as_u64(&json::get_or_null(args, "limit")) {
        Some(n) => n,
        None => 50,
    };
    let ghost all = views(session@);
    let mut v: Vec<serde_json::Value> = Vec::new();
    let mut i: usize = 0;
    while i < session.len()
        invariant
            i <= session@.len(),
            all == views(session@),
            trees(v@) == hits(all, filter@, i as nat),
            v@.len() <= i,
        decreases session@.len() - i,
    {
        assert(all[i as int] == session@[i as int]@);
        if is_found(&session[i], filter.as_str()) {
            let ghost before = v@;
            v.push(flow_summary(i, &session[i]));
            assert(trees(v@) =~= trees(before).push(tree_of(v@.last())));
        }
        i += 1;
    }
    let total: u64 = v.len() as u64;
    let ghost full = v@;
    if total > limit {
        let at: usize = v.len() - limit as usize;
        v = v.split_off(at);
        assert(trees(v@) =~= trees(full).skip(at as int));
    }
    assert(trees(v@) == latest(trees(full), limit as int));
    let m = Members::new().with("total", json::unsigned(total)).with("flows", json::array(v));
    assert(m@ =~= search_members(all, tree_of(*args)));
    proof {
        lemma_plain_search(all, tree_of(*args));
    }
    json::to_pretty(&m.build())
}

fn detail(i: usize, ex: &Exchange) -> (r: String)
    requires
        showable(ex@),
    ensures
        r@ == pretty_text(object(detail_members(i as int, ex@))),
        read_text(r@) == Some(object(detail_members(i as int, ex@))),
        r@.len() > 0 && r@[0] == '{',
{
    let none: Vec<(String, String)> = Vec::new();
    assert(fields(none@) =~= Seq::empty());
    let asked = match &ex.request {
        Some(q) => &q.headers,
        None => &none,
    };
    let m = Members::new().with("flow", flow_summary(i, ex)).with(
        "request_headers",
        pairs_json(asked),
    ).with("request_body", json::string(body_of(ex, false))).with(
        "response_status",
        status_json(ex.response_status),
    ).with("response_headers", pairs_json(&ex.response_headers)).with(
        "response_content_type",
        json::opt_string(&ex.response_content_type),
    ).with("response_body", json::string(body_of(ex, true))).with(
        "error",
        json::opt_string(&ex.error),
    );
    assert(m@ =~= detail_members(i as int, ex@));
    proof {
        lemma_plain_detail(i as int, ex@);
    }
    json::to_pretty(&m.build())
}

fn nothing(i: u64) -> (r: String)
    ensures
        r@ == nothing_at(i as int),
{
    let mut r = "no flow at index ".to_string();
    r.push_str(text::decimal_text(i).as_str());
    r
}

proof fn lemma_plain_summary(i: int, e: ExchangeView)
    ensures
        plain(object(summary_members(i, e)), 1),
{
    lemma_plain_object(summary_members(i, e), 0);
}

proof fn lemma_plain_hits(s: Seq<ExchangeView>, filter: Seq<char>, n: nat)
    ensures
        forall|k: int|
            0 <= k < hits(s, filter, n).len() ==> plain(#[trigger] hits(s, filter, n)[k], 1),
    decreases n,
{
    if n > 0 {
        let before = hits(s, filter, (n - 1) as nat);
        let after = hits(s, filter, n);
        lemma_plain_hits(s, filter, (n - 1) as nat);
        lemma_plain_summary(n - 1, s[n - 1]);
        assert forall|k: int| 0 <= k < after.len() implies plain(#[trigger] after[k], 1) by {
            if k < before.len() {
                assert(after[k] == before[k]);
            }
        }
    }
}

/// What a search answers is plain.
proof fn lemma_plain_search(s: Seq<ExchangeView>, args: Json)
    ensures
        plain(object(search_members(s, args)), DEPTH as nat),
{
    let all = hits(s, search_filter(args), s.len());
    lemma_plain_hits(s, search_filter(args), s.len());
    lemma_plain_array(latest(all, search_limit(args)), 1);
    lemma_plain_object(search_members(s, args), 2);
    lemma_deeper(object(search_members(s, args)), 3, DEPTH as nat);
}

proof fn lemma_plain_pairs(h: Seq<(Seq<char>, Seq<char>)>)
    ensures
        plain(pair_trees(h), 2),
{
    let t = h.map_values(|f: (Seq<char>, Seq<char>)| strings(seq![f.0, f.1]));
    assert forall|i: int| 0 <= i < t.len() implies plain(#[trigger] t[i], 1) by {
        lemma_plain_array(
            seq![h[i].0, h[i].1].map_values(|x: Seq<char>| Json::Str(x)),
            0,
        );
    }
    lemma_plain_array(t, 1);
}

/// What is said of one exchange in full is plain.
proof fn lemma_plain_detail(i: int, e: ExchangeView)
    ensures
        plain(object(detail_members(i, e)), DEPTH as nat),
{
    lemma_plain_summary(i, e);
    lemma_deeper(object(summary_members(i, e)), 1, 2);
    lemma_plain_pairs(asked_headers(e.request));
    lemma_plain_pairs(e.response_headers);
    lemma_plain_object(detail_members(i, e), 2);
    lemma_deeper(object(detail_members(i, e)), 3, DEPTH as nat);
}

/// What is said of the session is plain.
proof fn lemma_plain_status(s: StoreView)
    ensures
        plain(object(status_members(s)), DEPTH as nat),
{
    lemma_plain_object(status_members(s), 0);
    lemma_deeper(object(status_members(s)), 1, DEPTH as nat);
}

/// The names of the tools are told apart by their lengths or first letters.
proof fn lemma_tools_differ()
    ensures
        tool_named("get_status"@) == Some(SessionTool::Status),
        tool_named("clear_session"@) == Some(SessionTool::Clear),
        tool_named("toggle_recording"@) == Some(SessionTool::Toggle),
        tool_named("get_flows"@) == Some(SessionTool::Search),
        tool_named("get_flow"@) == Some(SessionTool::Show),
        tool_named("export_flow_curl"@) == Some(SessionTool::Export),
{
    reveal_strlit("get_status");
    reveal_strlit("clear_session");
    reveal_strlit("toggle_recording");
    reveal_strlit("get_flows");
    reveal_strlit("get_flow");
    reveal_strlit("export_flow_curl");
    assert("get_status"@.len() == 10);
    assert("clear_session"@.len() == 13);
    assert("toggle_recording"@.len() == 16);
    assert("get_flows"@.len() == 9);
    assert("get_flow"@.len() == 8);
    assert("export_flow_curl"@[0] == 'e');
    assert("toggle_recording"@[0] == 't');
}

fn find_tool(name: &str) -> (r: Option<SessionTool>)
    ensures
        r == tool_named(name@),
{
    if text::same(name, "get_status") {
        Some(SessionTool::Status)
    } else if text::same(name, "clear_session") {
        Some(SessionTool::Clear)
    } else if text::same(name, "toggle_recording") {
        Some(SessionTool::Toggle)
    } else if text::same(name, "get_flows") {
        Some(SessionTool::Search)
    } else if text::same(name, "get_flow") {
        Some(SessionTool::Show)
    } else if text::same(name, "export_flow_curl") {
        Some(SessionTool::Export)
    } else {
        None
    }
}

/// What a tool that is known says is not what is said of one that is not.
proof fn lemma_known_is_not_unknown(s: StoreView, name: Seq<char>, args: Json)
    requires
        tool_named(name) is Some,
        tool_object(s, name, args) is Some ==> tool_text(s, name, args).len() > 0 && tool_text(
            s,
            name,
            args,
        )[0] == '{',
    ensures
        tool_text(s, name, args) != unknown_tool(name),
{
    reveal_strlit("unknown tool: ");
    reveal_strlit("session cleared");
    reveal_strlit("recording ON");
    reveal_strlit("recording OFF");
    reveal_strlit("no flow at index ");
    reveal_strlit("curl -X ");
    reveal_strlit("");
    assert(unknown_tool(name)[0] == 'u');
    assert("session cleared"@[0] == 's');
    assert("recording ON"@[0] == 'r');
    assert("recording OFF"@[0] == 'r');
    assert(nothing_at(asked_index(args))[0] == 'n');
    if asked_index(args) < s.session.len() {
        let e = s.session[asked_index(args)];
        if e.request is Some {
            assert(command(e)[0] == 'c');
        }
    }
}

/// Calls a tool. Where it answers with an object, the text is that of the object: it can be read
/// back. A tool that is known does not say that it is not.
pub fn call_tool(store: &mut Store, name: &str, args: serde_json::Value) -> (r:
    serde_json::Value)
    requires
        presentable(old(store)@, name@, tree_of(args)),
    ensures
        tree_of(r) == text_answer(tool_text(old(store)@, name@, tree_of(args))),
        tool_object(old(store)@, name@, tree_of(args)) is Some ==> read_text(
            tool_text(old(store)@, name@, tree_of(args)),
        ) == tool_object(old(store)@, name@, tree_of(args)),
        tool_named(name@) is Some ==> tool_text(old(store)@, name@, tree_of(args))
            != unknown_tool(name@),
        final(store)@ == after_tool(old(store)@, name@),
{
    let text = match find_tool(name) {
        Some(SessionTool::Status) => {
            let m = Members::new().with(
                "flows",
                json::unsigned(store.session.len() as u64),
            ).with("recording", json::boolean(store.is_recording())).with(
                "version",
                json::text(VERSION),
            );
            assert(m@ =~= status_members(store@));
            proof {
                lemma_plain_status(store@);
            }
            json::to_text(&m.build())
        },
        Some(SessionTool::Clear) => {
            store.session = Vec::new();
            assert(store@.session =~= Seq::empty());
            "session cleared".to_string()
        },
        Some(SessionTool::Toggle) => {
            let now: bool = !store.is_recording();
            store.recording = now;
            if now {
                "recording ON".to_string()
            } else {
                "recording OFF".to_string()
            }
        },
        Some(SessionTool::Search) => search(&store.session, &args),
        Some(SessionTool::Show) => {
            let i: u64 = index_of(&args);
            if i < store.session.len() as u64 {
                detail(i as usize, &store.session[i as usize])
            } else {
                nothing(i)
            }
        },
        Some(SessionTool::Export) => {
            let i: u64 = index_of(&args);
            if i < store.session.len() as u64 {
                to_curl(&store.session[i as usize])
            } else {
                nothing(i)
            }
        },
        None => {
            let mut r = "unknown tool: ".to_string();
            r.push_str(name);
            r
        },
    };
    proof {
        if tool_named(name@) is Some {
            lemma_known_is_not_unknown(old(store)@, name@, tree_of(args));
        }
    }
    text_result(text.as_str())
}

/// Whether the call can be answered: it does not ask for an exchange whose bodies cannot be
/// shown.
pub fn is_presentable(store: &Store, name: &str, args: &serde_json::Value) -> (r: bool)
    ensures
        r == presentable(store@, name@, tree_of(*args)),
{
    if let Some(SessionTool::Show) = find_tool(name) {
        let i: u64 = index_of(args);
        if i < store.session.len() as u64 {
            return is_showable(&store.session[i as usize]);
        }
    }
    true
}

// ---------------------------------------------------------------- the protocol

/// What the server says of itself.
pub open spec fn server_members() -> Seq<(Seq<char>, Json)> {
    seq![("name"@, Json::Str("rproxy"@)), ("version"@, Json::Str(VERSION@))]
}

/// The version of the protocol that is spoken: the one that the client names, if it names one.
pub open spec fn spoken_version(params: Json) -> Json {
    if member_or_null(params, "protocolVersion"@) == Json::Null {
        Json::Str("2025-06-18"@)
    } else {
        member_or_null(params, "protocolVersion"@)
    }
}

/// The answer to the first message.
pub open spec fn greeting_members(params: Json) -> Seq<(Seq<char>, Json)> {
    seq![
        ("protocolVersion"@, spoken_version(params)),
        ("capabilities"@, object(seq![("tools"@, object(Seq::empty()))])),
        ("serverInfo"@, object(server_members())),
    ]
}

/// What is said of a method that is not known.
pub open spec fn complaint_members(method: Seq<char>) -> Seq<(Seq<char>, Json)> {
    seq![
        ("code"@, Json::Int(-32601)),
        ("message"@, Json::Str("method not found: "@ + method)),
    ]
}

/// The text of a member, or none.
pub open spec fn member_text(j: Json, name: Seq<char>) -> Seq<char> {
    match member_or_null(j, name).string() {
        Some(s) => s,
        None => ""@,
    }
}

/// What comes of a message, beside what it does to the session.
pub open spec fn outcome(s: StoreView, msg: Json) -> Json {
    let method = member_text(msg, "method"@);
    let params = member_or_null(msg, "params"@);
    if method == "initialize"@ {
        object(greeting_members(params))
    } else if method == "tools/list"@ {
        object(seq![("tools"@, Json::Arr(tool_trees()))])
    } else if method == "tools/call"@ {
        text_answer(
            tool_text(s, member_text(params, "name"@), member_or_null(params, "arguments"@)),
        )
    } else {
        object(seq![("error"@, object(complaint_members(method)))])
    }
}

/// A reply.
pub open spec fn reply_members(id: Json, result: Json) -> Seq<(Seq<char>, Json)> {
    seq![("jsonrpc"@, Json::Str("2.0"@)), ("id"@, id), ("result"@, result)]
}

/// The reply to a message; none to one without an id.
pub open spec fn reply_to(s: StoreView, msg: Json) -> Option<Json> {
    match msg.member("id"@) {
        Some(id) => Some(object(reply_members(id, outcome(s, msg)))),
        None => None,
    }
}

/// The session after a message.
pub open spec fn after_message(s: StoreView, msg: Json) -> StoreView {
    if member_text(msg, "method"@) == "tools/call"@ {
        after_tool(s, member_text(member_or_null(msg, "params"@), "name"@))
    } else {
        s
    }
}

/// The message does not ask for an exchange whose bodies cannot be shown.
pub open spec fn answerable(s: StoreView, msg: Json) -> bool {
    let params = member_or_null(msg, "params"@);
    member_text(msg, "method"@) == "tools/call"@ ==> presentable(
        s,
        member_text(params, "name"@),
        member_or_null(params, "arguments"@),
    )
}

fn text_under(v: &serde_json::Value, name: &str) -> (r: String)
    ensures
        r@ == member_text(tree_of(*v), name@),
{
    let m = json::get_or_null(v, name);
    match json::as_str(&m) {
        Some(s) => s.to_string(),
        None => "".to_string(),
    }
}

fn greeting(params: &serde_json::Value) -> (r: serde_json::Value)
    ensures
        tree_of(r) == object(greeting_members(tree_of(*params))),
{
    let named = json::get_or_null(params, "protocolVersion");
    let version = if json::is_null(&named) {
        json::text("2025-06-18")
    } else {
        named
    };
    let server = Members::new().with("name", json::text("rproxy")).with(
        "version",
        json::text(VERSION),
    );
    assert(server@ =~= server_members());
    let m = Members::new().with("protocolVersion", version).with(
        "capabilities",
        Members::new().with("tools", Members::new().build()).build(),
    ).with("serverInfo", server.build());
    assert(m@ =~= greeting_members(tree_of(*params)));
    m.build()
}

fn complaint(method: &str) -> (r: serde_json::Value)
    ensures
        tree_of(r) == object(seq![("error"@, object(complaint_members(method@)))]),
{
    let mut s = "method not found: ".to_string();
    s.push_str(method);
    let m = Members::new().with("code", json::signed(-32601)).with("message", json::string(s));
    assert(m@ =~= complaint_members(method@));
    Members::new().with("error", m.build()).build()
}

/// Carries out a message and gives the reply to it, if there is to be one.
pub fn respond(store: &mut Store, msg: &serde_json::Value) -> (r: Option<serde_json::Value>)
    requires
        answerable(old(store)@, tree_of(*msg)),
    ensures
        opt_tree(r) == reply_to(old(store)@, tree_of(*msg)),
        final(store)@ == after_message(old(store)@, tree_of(*msg)),
{
    proof {
        lemma_methods_differ();
    }
    let method = text_under(msg, "method");
    let params = json::get_or_null(msg, "params");
    let result = if text::same(method.as_str(), "initialize") {
        greeting(&params)
    } else if text::same(method.as_str(), "tools/list") {
        Members::new().with("tools", tools_list()).build()
    } else if text::same(method.as_str(), "tools/call") {
        let name = text_under(&params, "name");
        call_tool(store, name.as_str(), json::get_or_null(&params, "arguments"))
    } else {
        complaint(method.as_str())
    };
    match json::get(msg, "id") {
        Some(id) => {
            let m = Members::new().with("jsonrpc", json::text("2.0")).with("id", id.clone()).with(
                "result",
                result,
            );
            assert(m@ =~= reply_members(tree_of(*id), tree_of(result)));
            Some(m.build())
        },
        None => None,
    }
}

/// The names of the methods are told apart by their lengths or first letters.
proof fn lemma_methods_differ()
    ensures
        "initialize"@ != "tools/call"@,
        "tools/list"@ != "tools/call"@,
{
    reveal_strlit("initialize");
    reveal_strlit("tools/list");
    reveal_strlit("tools/call");
    assert("initialize"@[0] == 'i');
    assert("tools/list"@[6] == 'l');
    assert("tools/call"@[6] == 'c');
    assert("tools/call"@[0] == 't');
}

/// What came of a line.
pub enum LineOutcome {
    /// There is nothing to send.
    Silent,
    /// This line is to be sent.
    Reply(String),
    /// It asks for an exchange whose bodies cannot be shown; nothing was done.
    Refused,
}

/// What came of a line, in words.
pub enum LineOutcomeView {
    Silent,
    Reply(Seq<char>),
    Refused,
}

impl View for LineOutcome {
    type V = LineOutcomeView;

    open spec fn view(&self) -> LineOutcomeView {
        match *self {
            LineOutcome::Silent => LineOutcomeView::Silent,
            LineOutcome::Reply(s) => LineOutcomeView::Reply(s@),
            LineOutcome::Refused => LineOutcomeView::Refused,
        }
    }
}

/// What comes of a message, as a line.
pub open spec fn message_outcome(s: StoreView, msg: Json) -> LineOutcomeView {
    if !answerable(s, msg) {
        LineOutcomeView::Refused
    } else {
        match reply_to(s, msg) {
            Some(j) => LineOutcomeView::Reply(compact_text(j)),
            None => LineOutcomeView::Silent,
        }
    }
}

/// How deep a message may be for the reply to be read for sure.
pub const MESSAGE_DEPTH: u8 = 90;

proof fn lemma_plain_texts(s: Seq<char>, depth: nat)
    ensures
        plain(text_answer(s), depth + 3),
{
    lemma_plain_object(text_members(s), depth);
    lemma_plain_array(seq![object(text_members(s))], depth + 1);
    lemma_plain_object(
        seq![("content"@, Json::Arr(seq![object(text_members(s))]))],
        depth + 2,
    );
}

proof fn lemma_plain_tools(depth: nat)
    ensures
        plain(Json::Arr(tool_trees()), depth + 5),
{
    let d = depth;
    lemma_plain_object(Seq::empty(), d + 1);
    lemma_plain_object(no_arguments(), d + 2);
    lemma_plain_object(type_members("integer"@), d);
    lemma_plain_object(type_members("string"@), d);
    lemma_plain_object(seq![("index"@, object(type_members("integer"@)))], d + 1);
    lemma_plain_array(seq!["index"@].map_values(|x: Seq<char>| Json::Str(x)), d + 1);
    lemma_plain_object(index_argument(), d + 2);
    lemma_plain_object(search_properties(), d + 1);
    lemma_plain_object(search_arguments(), d + 2);
    let t = tool_trees();
    assert forall|i: int| 0 <= i < t.len() implies plain(#[trigger] t[i], d + 4) by {
        lemma_plain_tool(i, d + 3);
    }
    lemma_plain_array(t, d + 4);
}

proof fn lemma_plain_tool(i: int, depth: nat)
    requires
        0 <= i < tool_trees().len(),
        plain(object(no_arguments()), depth),
        plain(object(index_argument()), depth),
        plain(object(search_arguments()), depth),
    ensures
        plain(tool_trees()[i], depth + 1),
{
    let (name, about, schema) = if i == 0 {
        (
            "get_flows"@,
            "List captured HTTP flows (optional filter substring and limit)"@,
            object(search_arguments()),
        )
    } else if i == 1 {
        (
            "get_flow"@,
            "Full details of one flow by index: headers and bodies"@,
            object(index_argument()),
        )
    } else if i == 2 {
        (
            "export_flow_curl"@,
            "Export a flow as a cURL command by index"@,
            object(index_argument()),
        )
    } else if i == 3 {
        ("toggle_recording"@, "Start/stop capturing new flows"@, object(no_arguments()))
    } else if i == 4 {
        ("clear_session"@, "Remove all captured flows"@, object(no_arguments()))
    } else {
        (
            "get_status"@,
            "Session status: flow count, recording flag"@,
            object(no_arguments()),
        )
    };
    assert(tool_trees()[i] == object(tool_members(name, about, schema)));
    lemma_plain_object(tool_members(name, about, schema), depth);
}

proof fn lemma_plain_member(j: Json, name: Seq<char>, depth: nat)
    requires
        plain(j, depth),
        depth > 0,
    ensures
        plain(member_or_null(j, name), (depth - 1) as nat),
{
}

/// The reply to a plain message is plain.
proof fn lemma_plain_reply(s: StoreView, msg: Json)
    requires
        plain(msg, MESSAGE_DEPTH as nat),
        reply_to(s, msg) is Some,
    ensures
        plain(reply_to(s, msg)->0, DEPTH as nat),
{
    let method = member_text(msg, "method"@);
    let params = member_or_null(msg, "params"@);
    let result = outcome(s, msg);
    lemma_plain_member(msg, "params"@, 90);
    lemma_plain_member(params, "protocolVersion"@, 89);
    lemma_deeper(member_or_null(params, "protocolVersion"@), 88, 97);
    lemma_plain_object(server_members(), 96);
    lemma_plain_object(Seq::empty(), 95);
    lemma_plain_object(seq![("tools"@, object(Seq::empty()))], 96);
    lemma_plain_object(greeting_members(params), 97);
    lemma_deeper(object(greeting_members(params)), 98, 99);
    lemma_plain_tools(93);
    lemma_plain_object(seq![("tools"@, Json::Arr(tool_trees()))], 98);
    lemma_plain_texts(
        tool_text(s, member_text(params, "name"@), member_or_null(params, "arguments"@)),
        96,
    );
    lemma_plain_object(complaint_members(method), 97);
    lemma_plain_object(seq![("error"@, object(complaint_members(method)))], 98);
    assert(plain(result, 99));
    let id = msg.member("id"@)->0;
    lemma_plain_member(msg, "id"@, 90);
    lemma_deeper(id, 89, 99);
    lemma_plain_object(reply_members(id, result), 99);
}

/// Carries out a message.
pub fn answer(store: &mut Store, msg: &serde_json::Value) -> (r: LineOutcome)
    ensures
        r@ == message_outcome(old(store)@, tree_of(*msg)),
        r is Reply && plain(tree_of(*msg), MESSAGE_DEPTH as nat) ==> read_text(r->Reply_0@)
            == reply_to(old(store)@, tree_of(*msg)),
        final(store)@ == if answerable(old(store)@, tree_of(*msg)) {
            after_message(old(store)@, tree_of(*msg))
        } else {
            old(store)@
        },
{
    let method = text_under(msg, "method");
    if text::same(method.as_str(), "tools/call") {
        let params = json::get_or_null(msg, "params");
        let name = text_under(&params, "name");
        let args = json::get_or_null(&params, "arguments");
        if !is_presentable(store, name.as_str(), &args) {
            return LineOutcome::Refused;
        }
    }
    let ghost before = store@;
    match respond(store, msg) {
        Some(v) => {
            proof {
                if plain(tree_of(*msg), MESSAGE_DEPTH as nat) {
                    lemma_plain_reply(before, tree_of(*msg));
                }
            }
            LineOutcome::Reply(json::to_text(&v))
        },
        None => LineOutcome::Silent,
    }
}

/// Carries out one line of input. A line that is no JSON is passed over.
pub fn handle_line(store: &mut Store, line: &str) -> (r: LineOutcome)
    ensures
        match read_text(line@) {
            Some(msg) => {
                &&& r@ == message_outcome(old(store)@, msg)
                &&& r is Reply && plain(msg, MESSAGE_DEPTH as nat) ==> read_text(r->Reply_0@)
                    == reply_to(old(store)@, msg)
                &&& final(store)@ == if answerable(old(store)@, msg) {
                    after_message(old(store)@, msg)
                } else {
                    old(store)@
                }
            },
            None => r@ is Silent && final(store)@ == old(store)@,
        },
{
    match json::parse(line) {
        Some(msg) => answer(store, &msg),
        None => LineOutcome::Silent,
    }
}

// ---------------------------------------------------------------- laws

/// Toggling twice changes nothing.
pub proof fn law_toggling_twice_restores(s: StoreView)
    ensures
        after_tool(after_tool(s, "toggle_recording"@), "toggle_recording"@) == s,
        after_tool(s, "toggle_recording"@).recording == !s.recording,
        after_tool(s, "toggle_recording"@).session == s.session,
{
    lemma_tools_differ();
}

/// Clearing leaves no exchange, and leaves alone whether new ones are recorded.
pub proof fn law_clearing_empties(s: StoreView)
    ensures
        after_tool(s, "clear_session"@).session.len() == 0,
        after_tool(s, "clear_session"@).recording == s.recording,
{
    lemma_tools_differ();
}

/// Every other tool, known or not, leaves the session as it was.
pub proof fn law_other_tools_leave_the_session(s: StoreView, name: Seq<char>)
    requires
        name != "clear_session"@,
        name != "toggle_recording"@,
    ensures
        after_tool(s, name) == s,
{
}

/// An exchange is recorded if and only if the session records; what was there stays in its place.
pub proof fn law_recorded_while_recording(s: StoreView, e: ExchangeView)
    ensures
        s.recording ==> recorded(s, e).session == s.session.push(e),
        !s.recording ==> recorded(s, e) == s,
        recorded(s, e).recording == s.recording,
        forall|i: int|
            0 <= i < s.session.len() ==> #[trigger] recorded(s, e).session[i] == s.session[i],
{
}

/// A message with an id gets a reply with that id; one without gets none.
pub proof fn law_reply_bears_the_id(s: StoreView, msg: Json)
    ensures
        reply_to(s, msg) is Some <==> msg.member("id"@) is Some,
        reply_to(s, msg) is Some ==> reply_to(s, msg)->0.member("id"@) == msg.member("id"@),
        reply_to(s, msg) is Some ==> reply_to(s, msg)->0.member("result"@) == Some(
            outcome(s, msg),
        ),
{
    if let Some(id) = msg.member("id"@) {
        reveal_strlit("id");
        reveal_strlit("result");
        assert("id"@.len() == 2);
        assert("result"@.len() == 6);
        law_member_is_found(reply_members(id, outcome(s, msg)), 1);
        law_member_is_found(reply_members(id, outcome(s, msg)), 2);
    }
}

/// A search finds no more exchanges than there are; each hit is the summary of an exchange that
/// the search is for; and every such exchange is among the hits.
pub proof fn law_search_finds_what_it_is_for(s: Seq<ExchangeView>, filter: Seq<char>, n: nat)
    requires
        n <= s.len(),
    ensures
        hits(s, filter, n).len() <= n,
        forall|k: int|
            0 <= k < hits(s, filter, n).len() ==> exists|i: int|
                0 <= i < n && found_by(s[i], filter) && #[trigger] hits(s, filter, n)[k] == object(
                    #[trigger] summary_members(i, s[i]),
                ),
        forall|i: int|
            0 <= i < n && found_by(#[trigger] s[i], filter) ==> hits(s, filter, n).contains(
                object(summary_members(i, s[i])),
            ),
    decreases n,
{
    if n > 0 {
        let m = (n - 1) as nat;
        law_search_finds_what_it_is_for(s, filter, m);
        let before = hits(s, filter, m);
        let after = hits(s, filter, n);
        assert forall|k: int| 0 <= k < after.len() implies exists|i: int|
            0 <= i < n && found_by(s[i], filter) && #[trigger] after[k] == object(
                #[trigger] summary_members(i, s[i]),
            ) by {
            if k < before.len() {
                assert(after[k] == before[k]);
                let i = choose|i: int|
                    0 <= i < m && found_by(s[i], filter) && before[k] == object(
                        #[trigger] summary_members(i, s[i]),
                    );
                assert(after[k] == object(summary_members(i, s[i])));
            } else {
                assert(after[k] == object(summary_members(n - 1, s[n - 1])));
            }
        }
        assert forall|i: int| 0 <= i < n && found_by(#[trigger] s[i], filter) implies after
            .contains(object(summary_members(i, s[i]))) by {
            let x = object(summary_members(i, s[i]));
            if i < m {
                assert(before.contains(x));
                let k = choose|k: int| 0 <= k < before.len() && before[k] == x;
                assert(after[k] == x);
            } else {
                assert(after[before.len() as int] == x);
            }
        }
    }
}

/// In ASCII texts a search does not tell capitals from small letters, neither in what it is for
/// nor in where it looks.
pub proof fn law_search_ignores_case(
    e: ExchangeView,
    f: ExchangeView,
    filter: Seq<char>,
    other: Seq<char>,
)
    requires
        is_ascii_chars(filter) && is_ascii_chars(other) && same_ascii(filter, other),
        e.request is Some && f.request is Some,
        is_ascii_chars(e.request->0.uri) && is_ascii_chars(f.request->0.uri),
        same_ascii(e.request->0.uri, f.request->0.uri),
        is_ascii_chars(e.request->0.method) && is_ascii_chars(f.request->0.method),
        same_ascii(e.request->0.method, f.request->0.method),
    ensures
        found_by(e, small(filter)) == found_by(f, small(other)),
{
}

/// Of ASCII header names, a command leaves out those of the host and of the length of the body,
/// in capitals or small letters.
pub proof fn law_left_out_names(name: Seq<char>)
    requires
        is_ascii_chars(name),
    ensures
        left_out(name) <==> same_ascii(name, "host"@) || same_ascii(name, "content-length"@),
{
    reveal_strlit("host");
    reveal_strlit("content-length");
    assert("host"@.map_values(|c: char| ascii_lower(c)) =~= "host"@);
    assert("content-length"@.map_values(|c: char| ascii_lower(c)) =~= "content-length"@);
}

/// A search for nothing lists every exchange, in order.
pub proof fn law_empty_search_lists_all(s: Seq<ExchangeView>, n: nat)
    requires
        n <= s.len(),
    ensures
        hits(s, Seq::empty(), n) == Seq::new(n, |i: int| object(summary_members(i, s[i]))),
    decreases n,
{
    let all = Seq::new(n, |i: int| object(summary_members(i, s[i])));
    if n > 0 {
        law_empty_search_lists_all(s, (n - 1) as nat);
    }
    assert(hits(s, Seq::empty(), n) =~= all);
}

/// A search lists the latest hits, and no more than it may.
pub proof fn law_search_keeps_to_the_limit(s: Seq<Json>, limit: int)
    requires
        limit >= 0,
    ensures
        latest(s, limit).len() <= limit,
        latest(s, limit).len() == s.len() || latest(s, limit).len() == limit,
        forall|i: int|
            0 <= i < latest(s, limit).len() ==> #[trigger] latest(s, limit)[i] == s[s.len()
                - latest(s, limit).len() + i],
{
}

/// An exchange that is recorded is shown in full, under the place where it was recorded.
pub proof fn law_recorded_is_shown(s: StoreView, e: ExchangeView, args: Json)
    requires
        s.recording,
        asked_index(args) == s.session.len(),
    ensures
        tool_text(recorded(s, e), "get_flow"@, args) == pretty_text(
            object(detail_members(s.session.len() as int, e)),
        ),
{
    lemma_tools_differ();
}

/// Only a call of a tool changes the session.
pub proof fn law_only_calls_change_the_session(s: StoreView, msg: Json)
    requires
        member_text(msg, "method"@) != "tools/call"@,
    ensures
        after_message(s, msg) == s,
        answerable(s, msg),
{
}

/// The names of the tools, in the order in which they are listed.
pub open spec fn tool_names() -> Seq<Seq<char>> {
    seq![
        "get_flows"@,
        "get_flow"@,
        "export_flow_curl"@,
        "toggle_recording"@,
        "clear_session"@,
        "get_status"@,
    ]
}

/// What the list says of a tool: its name; and that it needs a place, or that it needs nothing.
pub open spec fn listed_as(j: Json, name: Seq<char>) -> bool {
    &&& j.member("name"@) == Some(Json::Str(name))
    &&& member_or_null(j, "inputSchema"@).member("required"@) == if name == "get_flow"@ || name
        == "export_flow_curl"@ {
        Some(strings(seq!["index"@]))
    } else {
        None
    }
}

/// A tool is listed if and only if it is known; each is listed once, and those that take a place
/// say so.
pub proof fn law_listed_tools_are_known(name: Seq<char>)
    ensures
        tool_trees().len() == tool_names().len(),
        forall|i: int|
            0 <= i < tool_trees().len() ==> listed_as(#[trigger] tool_trees()[i], tool_names()[i]),
        tool_names().no_duplicates(),
        tool_names().contains(name) <==> tool_named(name) is Some,
{
    lemma_tools_differ();
    let names = tool_names();
    assert forall|i: int| 0 <= i < tool_trees().len() implies listed_as(
        #[trigger] tool_trees()[i],
        names[i],
    ) by {
        lemma_listed(i);
    }
    assert(names[0] == "get_flows"@);
    assert(names[1] == "get_flow"@);
    assert(names[2] == "export_flow_curl"@);
    assert(names[3] == "toggle_recording"@);
    assert(names[4] == "clear_session"@);
    assert(names[5] == "get_status"@);
}

proof fn lemma_listed(i: int)
    requires
        0 <= i < tool_trees().len(),
    ensures
        listed_as(tool_trees()[i], tool_names()[i]),
{
    lemma_tools_differ();
    reveal_strlit("name");
    reveal_strlit("description");
    reveal_strlit("inputSchema");
    reveal_strlit("type");
    reveal_strlit("properties");
    reveal_strlit("required");
    assert("name"@.len() == 4);
    assert("description"@.len() == 11);
    assert("inputSchema"@.len() == 11);
    assert("description"@[0] == 'd');
    assert("inputSchema"@[0] == 'i');
    assert("type"@.len() == 4);
    assert("properties"@.len() == 10);
    assert("required"@.len() == 8);
    law_member_is_found(index_argument(), 2);
    law_member_is_missing(no_arguments(), "required"@);
    law_member_is_missing(search_arguments(), "required"@);
    let (about, schema) = if i == 0 {
        (
            "List captured HTTP flows (optional filter substring and limit)"@,
            object(search_arguments()),
        )
    } else if i == 1 {
        ("Full details of one flow by index: headers and bodies"@, object(index_argument()))
    } else if i == 2 {
        ("Export a flow as a cURL command by index"@, object(index_argument()))
    } else if i == 3 {
        ("Start/stop capturing new flows"@, object(no_arguments()))
    } else if i == 4 {
        ("Remove all captured flows"@, object(no_arguments()))
    } else {
        ("Session status: flow count, recording flag"@, object(no_arguments()))
    };
    let m = tool_members(tool_names()[i], about, schema);
    assert(tool_trees()[i] == object(m));
    law_member_is_found(m, 0);
    law_member_is_found(m, 2);
}

/// The command has one argument for each header that is not left out, in their order: the name and
/// the value on one quoted line.
pub proof fn law_header_arguments(
    a: Seq<(Seq<char>, Seq<char>)>,
    f: (Seq<char>, Seq<char>),
    b: Seq<(Seq<char>, Seq<char>)>,
)
    ensures
        header_arguments(a + b) == header_arguments(a) + header_arguments(b),
        left_out(f.0) ==> header_arguments(seq![f]).len() == 0,
        !left_out(f.0) ==> header_arguments(seq![f]) == " \\\n  "@ + "-H "@ + compact_text(
            Json::Str(f.0 + ": "@ + f.1),
        ),
    decreases b.len(),
{
    let none = Seq::<char>::empty();
    assert(seq![f].drop_last() =~= Seq::empty());
    assert(header_arguments(seq![f].drop_last()) == none);
    if !left_out(f.0) {
        assert(none + between() + "-H "@ + quoted(f.0 + ": "@ + f.1) =~= between() + "-H "@
            + quoted(f.0 + ": "@ + f.1));
    }
    if b.len() > 0 {
        let c = b.drop_last();
        law_header_arguments(a, f, c);
        assert((a + b).drop_last() =~= a + c);
        assert((a + b).last() == b.last());
        if !left_out(b.last().0) {
            let line = quoted(b.last().0 + ": "@ + b.last().1);
            assert(header_arguments(a) + header_arguments(c) + between() + "-H "@ + line
                =~= header_arguments(a) + (header_arguments(c) + between() + "-H "@ + line));
        }
    } else {
        assert(a + b =~= a);
        assert(header_arguments(a) + none =~= header_arguments(a));
    }
}

/// The command names the method, then the body if there is one, then the headers, and last the
/// URL; there is none for an exchange without a request.
pub proof fn law_command(e: ExchangeView, q: RequestView, body: Seq<u8>)
    requires
        e.request == Some(q),
    ensures
        e.request_body is None ==> command(e) == "curl -X "@ + q.method + header_arguments(
            q.headers,
        ) + " \\\n  "@ + compact_text(Json::Str(q.uri)),
        e.request_body == Some(body) && body.len() == 0 ==> command(e) == "curl -X "@ + q.method
            + header_arguments(q.headers) + " \\\n  "@ + compact_text(Json::Str(q.uri)),
        e.request_body == Some(body) && body.len() > 0 ==> command(e) == "curl -X "@ + q.method
            + " \\\n  "@ + "-d "@ + compact_text(Json::Str(lossy_text(body))) + header_arguments(
            q.headers,
        ) + " \\\n  "@ + compact_text(Json::Str(q.uri)),
        command(ExchangeView { request: None, ..e }).len() == 0,
{
    reveal_strlit("");
    let head = "curl -X "@ + q.method;
    assert(head + Seq::<char>::empty() =~= head);
    let data = compact_text(Json::Str(lossy_text(body)));
    assert(head + (" \\\n  "@ + "-d "@ + data) =~= head + " \\\n  "@ + "-d "@ + data);
}

proof fn lemma_encoded_in_parts(a: Seq<char>, b: Seq<char>)
    ensures
        encode_utf8(a + b) == encode_utf8(a) + encode_utf8(b),
    decreases a.len(),
{
    if a.len() > 0 {
        lemma_encoded_in_parts(a.drop_first(), b);
        assert((a + b).drop_first() =~= a.drop_first() + b);
        assert(encode_utf8(a + b) =~= encode_utf8(a) + encode_utf8(b));
    } else {
        assert(a + b =~= b);
        assert(encode_utf8(a + b) =~= encode_utf8(a) + encode_utf8(b));
    }
}

proof fn lemma_boundary_between(a: Seq<char>, b: Seq<char>)
    ensures
        is_char_boundary(encode_utf8(a + b), encode_utf8(a).len() as int),
    decreases a.len(),
{
    let s = a + b;
    let bytes = encode_utf8(s);
    vstd::utf8::encode_utf8_valid_utf8(s);
    lemma_encoded_in_parts(a, b);
    if a.len() > 0 {
        vstd::utf8::encode_utf8_first_scalar(s);
        let n = vstd::utf8::length_of_first_scalar(bytes);
        assert(s.drop_first() =~= a.drop_first() + b);
        assert(vstd::utf8::pop_first_scalar(bytes) =~= encode_utf8(s.drop_first()));
        lemma_boundary_between(a.drop_first(), b);
        assert(encode_utf8(a).len() == n + encode_utf8(a.drop_first()).len());
    }
}

/// A text of at most twenty thousand bytes is shown whole; of a longer one the characters in the
/// first twenty thousand bytes, with a note of how many bytes are missing. A text can be shown if
/// no character lies across that limit.
pub proof fn law_truncated(head: Seq<char>, tail: Seq<char>)
    ensures
        encode_utf8(head).len() <= 20_000 ==> truncated(head) == head && cuttable(head),
        encode_utf8(head).len() == 20_000 && tail.len() > 0 ==> cuttable(head + tail) && truncated(
            head + tail,
        ) == head + "\n…[truncated "@ + decimal(encode_utf8(tail).len()) + " chars]"@,
{
    let s = head + tail;
    lemma_encoded_in_parts(head, tail);
    lemma_boundary_between(head, tail);
    assert(encode_utf8(s).subrange(0, encode_utf8(head).len() as int) =~= encode_utf8(head));
    vstd::utf8::encode_utf8_decode_utf8(head);
    if tail.len() > 0 {
        vstd::utf8::encode_utf8_first_scalar(tail);
        assert(encode_utf8(tail).len() > 0);
    }
}

/// The body of a response is shown with its encoding undone where that was done, else as it came;
/// that of a request as it came; one that was not kept as nothing.
pub proof fn law_body_shown(e: ExchangeView, body: Seq<u8>)
    ensures
        body_shown(ExchangeView { response_body_decoded: Some(body), ..e }, true) == truncated(
            lossy_text(body),
        ),
        body_shown(
            ExchangeView { response_body_decoded: None, response_body: Some(body), ..e },
            true,
        ) == truncated(lossy_text(body)),
        body_shown(
            ExchangeView { response_body_decoded: None, response_body: None, ..e },
            true,
        ).len() == 0,
        body_shown(ExchangeView { request_body: Some(body), ..e }, false) == truncated(
            lossy_text(body),
        ),
        body_shown(ExchangeView { request_body: None, ..e }, false).len() == 0,
{
    reveal_strlit("");
    let none = Seq::<char>::empty();
    assert(""@ =~= none);
    assert(encode_utf8(none).len() == 0);
    law_truncated(none, none);
}

proof fn lemma_member_names()
    ensures
        "index"@.len() == 5 && "index"@[0] == 'i',
        "id"@.len() == 2,
        "method"@.len() == 6 && "method"@[0] == 'm',
        "url"@.len() == 3,
        "status"@.len() == 6 && "status"@[0] == 's',
        "duration"@.len() == 8,
        "error"@.len() == 5 && "error"@[0] == 'e',
        "flow"@.len() == 4,
        "request_headers"@.len() == 15 && "request_headers"@[2] == 'q',
        "request_body"@.len() == 12,
        "response_status"@.len() == 15 && "response_status"@[2] == 's',
        "response_headers"@.len() == 16,
        "response_content_type"@.len() == 21,
        "response_body"@.len() == 13,
        "flows"@.len() == 5 && "flows"@[0] == 'f',
        "recording"@.len() == 9,
        "version"@.len() == 7,
        "total"@.len() == 5 && "total"@[0] == 't',
        "type"@.len() == 4 && "type"@[1] == 'y',
        "text"@.len() == 4 && "text"@[1] == 'e',
        "protocolVersion"@.len() == 15,
        "capabilities"@.len() == 12,
        "serverInfo"@.len() == 10,
        "code"@.len() == 4,
        "message"@.len() == 7 && "message"@[0] == 'm',
        "jsonrpc"@.len() == 7,
        "result"@.len() == 6,
        "name"@.len() == 4,
{
    reveal_strlit("index");
    reveal_strlit("id");
    reveal_strlit("method");
    reveal_strlit("url");
    reveal_strlit("status");
    reveal_strlit("duration");
    reveal_strlit("error");
    reveal_strlit("flow");
    reveal_strlit("request_headers");
    reveal_strlit("request_body");
    reveal_strlit("response_status");
    reveal_strlit("response_headers");
    reveal_strlit("response_content_type");
    reveal_strlit("response_body");
    reveal_strlit("flows");
    reveal_strlit("recording");
    reveal_strlit("version");
    reveal_strlit("total");
    reveal_strlit("type");
    reveal_strlit("text");
    reveal_strlit("protocolVersion");
    reveal_strlit("capabilities");
    reveal_strlit("serverInfo");
    reveal_strlit("code");
    reveal_strlit("message");
    reveal_strlit("jsonrpc");
    reveal_strlit("result");
    reveal_strlit("name");
}

/// A summary says where the exchange stands, its number, what was asked, how it was answered, how
/// many milliseconds it took, and the error; what is not known is null, or a dash.
pub proof fn law_summary_says(i: int, e: ExchangeView)
    ensures
        ({
            let j = object(summary_members(i, e));
            &&& j.member("index"@) == Some(Json::Int(i))
            &&& j.member("id"@) == Some(Json::Int(e.id.0 as int))
            &&& e.request is Some ==> j.member("method"@) == Some(Json::Str(e.request->0.method))
            &&& e.request is Some ==> j.member("url"@) == Some(Json::Str(e.request->0.uri))
            &&& e.request is None ==> j.member("method"@) == Some(Json::Str("-"@))
            &&& e.request is None ==> j.member("url"@) == Some(Json::Str("-"@))
            &&& e.response_status is Some ==> j.member("status"@) == Some(
                Json::Int(e.response_status->0 as int),
            )
            &&& e.response_status is None ==> j.member("status"@) == Some(Json::Null)
            &&& e.timing.elapsed() is Some ==> j.member("duration"@) == Some(
                Json::Int((e.timing.elapsed()->0 / 1_000_000) as int),
            )
            &&& e.timing.elapsed() is None ==> j.member("duration"@) == Some(Json::Null)
            &&& e.error is Some ==> j.member("error"@) == Some(Json::Str(e.error->0))
            &&& e.error is None ==> j.member("error"@) == Some(Json::Null)
        }),
{
    lemma_member_names();
    let m = summary_members(i, e);
    law_member_is_found(m, 0);
    law_member_is_found(m, 1);
    law_member_is_found(m, 2);
    law_member_is_found(m, 3);
    law_member_is_found(m, 4);
    law_member_is_found(m, 5);
    law_member_is_found(m, 6);
}

/// In full, an exchange is shown with its summary, the headers and bodies of both messages, the
/// status and the content type of the response, and the error.
pub proof fn law_detail_says(i: int, e: ExchangeView)
    ensures
        ({
            let j = object(detail_members(i, e));
            &&& j.member("flow"@) == Some(object(summary_members(i, e)))
            &&& e.request is Some ==> j.member("request_headers"@) == Some(
                pair_trees(e.request->0.headers),
            )
            &&& e.request is None ==> j.member("request_headers"@) == Some(
                Json::Arr(Seq::empty()),
            )
            &&& j.member("request_body"@) == Some(Json::Str(body_shown(e, false)))
            &&& e.response_status is Some ==> j.member("response_status"@) == Some(
                Json::Int(e.response_status->0 as int),
            )
            &&& e.response_status is None ==> j.member("response_status"@) == Some(Json::Null)
            &&& j.member("response_headers"@) == Some(pair_trees(e.response_headers))
            &&& e.response_content_type is Some ==> j.member("response_content_type"@) == Some(
                Json::Str(e.response_content_type->0),
            )
            &&& e.response_content_type is None ==> j.member("response_content_type"@) == Some(
                Json::Null,
            )
            &&& j.member("response_body"@) == Some(Json::Str(body_shown(e, true)))
            &&& e.error is Some ==> j.member("error"@) == Some(Json::Str(e.error->0))
            &&& e.error is None ==> j.member("error"@) == Some(Json::Null)
        }),
{
    lemma_member_names();
    let m = detail_members(i, e);
    law_member_is_found(m, 0);
    law_member_is_found(m, 1);
    law_member_is_found(m, 2);
    law_member_is_found(m, 3);
    law_member_is_found(m, 4);
    law_member_is_found(m, 5);
    law_member_is_found(m, 6);
    law_member_is_found(m, 7);
    if e.request is None {
        let none = Seq::<(Seq<char>, Seq<char>)>::empty();
        assert(none.map_values(|f: (Seq<char>, Seq<char>)| strings(seq![f.0, f.1]))
            =~= Seq::empty());
    }
}

/// Headers are shown as pairs of name and value, one for each, in their order.
pub proof fn law_headers_as_pairs(h: Seq<(Seq<char>, Seq<char>)>, i: int)
    requires
        0 <= i < h.len(),
    ensures
        pair_trees(h) is Arr,
        pair_trees(h)->Arr_0.len() == h.len(),
        pair_trees(h)->Arr_0[i] is Arr,
        pair_trees(h)->Arr_0[i]->Arr_0.len() == 2,
        pair_trees(h)->Arr_0[i]->Arr_0[0] == Json::Str(h[i].0),
        pair_trees(h)->Arr_0[i]->Arr_0[1] == Json::Str(h[i].1),
{
}

/// The status of the session is how many exchanges it holds and whether it records, with the
/// version of the program.
pub proof fn law_status_says(s: StoreView)
    ensures
        object(status_members(s)).member("flows"@) == Some(Json::Int(s.session.len() as int)),
        object(status_members(s)).member("recording"@) == Some(Json::Bool(s.recording)),
        object(status_members(s)).member("version"@) == Some(Json::Str(VERSION@)),
{
    lemma_member_names();
    law_member_is_found(status_members(s), 0);
    law_member_is_found(status_members(s), 1);
    law_member_is_found(status_members(s), 2);
}

/// An answer of one text has that text, marked as text, as its only content.
pub proof fn law_text_answer(s: Seq<char>)
    ensures
        ({
            let c = text_answer(s).member("content"@);
            &&& c is Some
            &&& c->0 is Arr
            &&& c->0->Arr_0.len() == 1
            &&& c->0->Arr_0[0].member("type"@) == Some(Json::Str("text"@))
            &&& c->0->Arr_0[0].member("text"@) == Some(Json::Str(s))
        }),
{
    lemma_member_names();
    law_member_is_found(seq![("content"@, Json::Arr(seq![object(text_members(s))]))], 0);
    law_member_is_found(text_members(s), 0);
    law_member_is_found(text_members(s), 1);
}

/// A search takes its text and its limit from the arguments: without a text it is for all, without
/// a limit for fifty.
pub proof fn law_search_arguments(args: Json, w: Seq<char>, n: int)
    ensures
        args.member("filter"@) == Some(Json::Str(w)) ==> search_filter(args) == small(w),
        args.member("filter"@) is None ==> search_filter(args).len() == 0,
        args.member("limit"@) == Some(Json::Int(n)) && n >= 0 ==> search_limit(args) == n,
        args.member("limit"@) is None ==> search_limit(args) == 50,
        args.member("index"@) == Some(Json::Int(n)) && n >= 0 ==> asked_index(args) == n,
        args.member("index"@) is None ==> asked_index(args) == u64::MAX,
{
    reveal_strlit("");
    assert(""@ =~= Seq::empty());
    assert(is_ascii_chars(""@));
}

/// A search says how many exchanges it found, and lists the latest of them.
pub proof fn law_search_says(s: Seq<ExchangeView>, args: Json)
    ensures
        object(search_members(s, args)).member("total"@) == Some(
            Json::Int(hits(s, search_filter(args), s.len()).len() as int),
        ),
        object(search_members(s, args)).member("flows"@) == Some(
            Json::Arr(latest(hits(s, search_filter(args), s.len()), search_limit(args))),
        ),
{
    lemma_member_names();
    law_member_is_found(search_members(s, args), 0);
    law_member_is_found(search_members(s, args), 1);
}

/// A search goes through the exchanges in their order: one more that it is for comes last, and one
/// that it is not for changes nothing.
pub proof fn law_search_goes_in_order(s: Seq<ExchangeView>, filter: Seq<char>, n: nat)
    requires
        n < s.len(),
    ensures
        hits(s, filter, 0).len() == 0,
        found_by(s[n as int], filter) ==> hits(s, filter, n + 1) == hits(s, filter, n) + seq![
            object(summary_members(n as int, s[n as int])),
        ],
        !found_by(s[n as int], filter) ==> hits(s, filter, n + 1) == hits(s, filter, n),
{
    if found_by(s[n as int], filter) {
        let x = object(summary_members(n as int, s[n as int]));
        assert(hits(s, filter, n).push(x) =~= hits(s, filter, n) + seq![x]);
    }
}

/// A search is for the exchanges whose URL or method contains the text, and for no others; one for
/// nothing is for all.
pub proof fn law_search_looks_at_url_and_method(
    e: ExchangeView,
    q: RequestView,
    filter: Seq<char>,
    a: Seq<char>,
    b: Seq<char>,
)
    requires
        e.request == Some(q),
    ensures
        found_by(e, Seq::empty()),
        found_by(ExchangeView { request: None, ..e }, filter) ==> filter.len() == 0,
        small(q.uri) == a + filter + b ==> found_by(e, filter),
        small(q.method) == a + filter + b ==> found_by(e, filter),
        found_by(e, filter) && filter.len() > 0 ==> (exists|x: Seq<char>, y: Seq<char>|
            small(q.uri) == #[trigger] (x + filter + y)) || (exists|x: Seq<char>, y: Seq<char>|
            small(q.method) == #[trigger] (x + filter + y)),
{
    text::law_has_text(a, filter, b, small(q.uri));
    text::law_has_text(a, filter, b, small(q.method));
}

/// In small letters, an ASCII text is the same up to case and has no capitals.
pub proof fn law_small(s: Seq<char>)
    requires
        is_ascii_chars(s),
    ensures
        small(s).len() == s.len(),
        same_ascii(small(s), s),
        forall|i: int| 0 <= i < s.len() ==> !('A' <= #[trigger] small(s)[i] <= 'Z'),
{
    let t = small(s);
    text::law_same_ascii(t, s);
    assert forall|i: int| 0 <= i < s.len() implies !('A' <= #[trigger] t[i] <= 'Z')
        && text::alike(t[i], s[i]) by {
        assert(t[i] == ascii_lower(s[i]));
    }
}

/// What each tool answers: the status, the search and the exchange as JSON, the command as it is,
/// and in a few words what was done, that there is no such exchange, or that there is no such tool.
pub proof fn law_tools_answer(s: StoreView, args: Json, name: Seq<char>)
    ensures
        ({
            let i = asked_index(args);
            &&& tool_text(s, "get_status"@, args) == compact_text(object(status_members(s)))
            &&& tool_text(s, "clear_session"@, args) == "session cleared"@
            &&& s.recording ==> tool_text(s, "toggle_recording"@, args) == "recording OFF"@
            &&& !s.recording ==> tool_text(s, "toggle_recording"@, args) == "recording ON"@
            &&& tool_text(s, "get_flows"@, args) == pretty_text(
                object(search_members(s.session, args)),
            )
            &&& 0 <= i < s.session.len() ==> tool_text(s, "get_flow"@, args) == pretty_text(
                object(detail_members(i, s.session[i])),
            )
            &&& 0 <= i < s.session.len() ==> tool_text(s, "export_flow_curl"@, args) == command(
                s.session[i],
            )
            &&& i >= s.session.len() ==> tool_text(s, "get_flow"@, args) == "no flow at index "@
                + decimal(i as nat)
            &&& i >= s.session.len() ==> tool_text(s, "export_flow_curl"@, args)
                == "no flow at index "@ + decimal(i as nat)
            &&& !tool_names().contains(name) ==> tool_text(s, name, args) == "unknown tool: "@
                + name
        }),
{
    lemma_tools_differ();
    law_listed_tools_are_known(name);
}

/// What each message brings: the greeting, the list of the tools, the answer of a tool, or the
/// complaint that there is no such method.
pub proof fn law_messages_are_answered(s: StoreView, msg: Json, method: Seq<char>)
    requires
        msg.member("method"@) == Some(Json::Str(method)),
    ensures
        ({
            let params = member_or_null(msg, "params"@);
            let out = outcome(s, msg);
            let error = member_or_null(out, "error"@);
            &&& method == "initialize"@ ==> out == object(greeting_members(params))
            &&& method == "tools/list"@ ==> out.member("tools"@) == Some(Json::Arr(tool_trees()))
            &&& method == "tools/call"@ ==> out == text_answer(
                tool_text(
                    s,
                    member_text(params, "name"@),
                    member_or_null(params, "arguments"@),
                ),
            )
            &&& method != "initialize"@ && method != "tools/list"@ && method != "tools/call"@ ==> {
                &&& error.member("code"@) == Some(Json::Int(-32601))
                &&& error.member("message"@) == Some(Json::Str("method not found: "@ + method))
            }
            &&& method == "tools/call"@ ==> after_message(s, msg) == after_tool(
                s,
                member_text(params, "name"@),
            )
        }),
{
    lemma_member_names();
    lemma_methods_differ();
    reveal_strlit("initialize");
    reveal_strlit("tools/list");
    assert("initialize"@[0] == 'i' && "tools/list"@[0] == 't');
    law_member_is_found(seq![("tools"@, Json::Arr(tool_trees()))], 0);
    law_member_is_found(seq![("error"@, object(complaint_members(method)))], 0);
    law_member_is_found(complaint_members(method), 0);
    law_member_is_found(complaint_members(method), 1);
}

/// The greeting gives back the version of the protocol that the client named, or names one, says
/// that there are tools, and who the server is.
pub proof fn law_greeting_says(params: Json, version: Json)
    ensures
        ({
            let j = object(greeting_members(params));
            let server = member_or_null(j, "serverInfo"@);
            &&& params.member("protocolVersion"@) == Some(version) && version != Json::Null
                ==> j.member("protocolVersion"@) == Some(version)
            &&& params.member("protocolVersion"@) is None ==> j.member("protocolVersion"@) == Some(
                Json::Str("2025-06-18"@),
            )
            &&& member_or_null(j, "capabilities"@).member("tools"@) == Some(object(Seq::empty()))
            &&& server.member("name"@) == Some(Json::Str("rproxy"@))
            &&& server.member("version"@) == Some(Json::Str(VERSION@))
        }),
{
    lemma_member_names();
    let m = greeting_members(params);
    law_member_is_found(m, 0);
    law_member_is_found(m, 1);
    law_member_is_found(m, 2);
    law_member_is_found(seq![("tools"@, object(Seq::empty()))], 0);
    law_member_is_found(server_members(), 0);
    law_member_is_found(server_members(), 1);
}

/// A reply says by which protocol it is.
pub proof fn law_reply_names_the_protocol(s: StoreView, msg: Json)
    requires
        reply_to(s, msg) is Some,
    ensures
        reply_to(s, msg)->0.member("jsonrpc"@) == Some(Json::Str("2.0"@)),
{
    lemma_member_names();
    let id = msg.member("id"@)->0;
    law_member_is_found(reply_members(id, outcome(s, msg)), 0);
}

/// A message is refused if and only if it asks for an exchange that is there and of which a body
/// cannot be shown; any other is answered with its reply, if there is to be one.
pub proof fn law_when_refused(s: StoreView, msg: Json)
    ensures
        ({
            let params = member_or_null(msg, "params"@);
            let i = asked_index(member_or_null(params, "arguments"@));
            &&& message_outcome(s, msg) is Refused <==> {
                &&& msg.member("method"@) == Some(Json::Str("tools/call"@))
                &&& params.member("name"@) == Some(Json::Str("get_flow"@))
                &&& i < s.session.len()
                &&& !cuttable(words_in(s.session[i], true)) || !cuttable(
                    words_in(s.session[i], false),
                )
            }
            &&& !(message_outcome(s, msg) is Refused) && msg.member("id"@) is None
                ==> message_outcome(s, msg) is Silent
            &&& !(message_outcome(s, msg) is Refused) && msg.member("id"@) is Some
                ==> message_outcome(s, msg) == LineOutcomeView::Reply(
                compact_text(reply_to(s, msg)->0),
            )
        }),
{
    lemma_tools_differ();
    reveal_strlit("");
    reveal_strlit("tools/call");
    reveal_strlit("get_flow");
    assert(""@.len() == 0);
    assert("tools/call"@.len() == 10);
    assert("get_flow"@.len() == 8);
}

/// The list says of every tool that its arguments are an object; that the place of an exchange is
/// a whole number; that the text of a search is a string and its limit a whole number; and that the
/// other tools take nothing.
pub proof fn law_listed_arguments(i: int)
    requires
        0 <= i < tool_trees().len(),
    ensures
        ({
            let schema = member_or_null(tool_trees()[i], "inputSchema"@);
            let p = member_or_null(schema, "properties"@);
            let name = tool_names()[i];
            let places = name == "get_flow"@ || name == "export_flow_curl"@;
            &&& schema.member("type"@) == Some(Json::Str("object"@))
            &&& places ==> member_or_null(p, "index"@).member("type"@) == Some(
                Json::Str("integer"@),
            )
            &&& name == "get_flows"@ ==> member_or_null(p, "filter"@).member("type"@) == Some(
                Json::Str("string"@),
            )
            &&& name == "get_flows"@ ==> member_or_null(p, "limit"@).member("type"@) == Some(
                Json::Str("integer"@),
            )
            &&& !places && name != "get_flows"@ ==> p == object(Seq::empty())
        }),
{
    lemma_tools_differ();
    lemma_member_names();
    reveal_strlit("description");
    reveal_strlit("inputSchema");
    reveal_strlit("properties");
    reveal_strlit("required");
    reveal_strlit("filter");
    reveal_strlit("limit");
    assert("description"@.len() == 11 && "inputSchema"@.len() == 11);
    assert("description"@[0] == 'd' && "inputSchema"@[0] == 'i');
    assert("properties"@.len() == 10 && "required"@.len() == 8);
    assert("filter"@.len() == 6 && "limit"@.len() == 5);
    law_member_is_found(index_argument(), 0);
    law_member_is_found(index_argument(), 1);
    law_member_is_found(no_arguments(), 0);
    law_member_is_found(no_arguments(), 1);
    law_member_is_found(search_arguments(), 0);
    law_member_is_found(search_arguments(), 1);
    law_member_is_found(seq![("index"@, object(type_members("integer"@)))], 0);
    law_member_is_found(search_properties(), 0);
    law_member_is_found(search_properties(), 1);
    law_member_is_found(type_members("integer"@), 0);
    law_member_is_found(type_members("string"@), 0);
    let (about, schema) = if i == 0 {
        (
            "List captured HTTP flows (optional filter substring and limit)"@,
            object(search_arguments()),
        )
    } else if i == 1 {
        ("Full details of one flow by index: headers and bodies"@, object(index_argument()))
    } else if i == 2 {
        ("Export a flow as a cURL command by index"@, object(index_argument()))
    } else if i == 3 {
        ("Start/stop capturing new flows"@, object(no_arguments()))
    } else if i == 4 {
        ("Remove all captured flows"@, object(no_arguments()))
    } else {
        ("Session status: flow count, recording flag"@, object(no_arguments()))
    };
    let m = tool_members(tool_names()[i], about, schema);
    assert(tool_trees()[i] == object(m));
    law_member_is_found(m, 2);
}

/// A session is seen by its exchanges and whether it records; a line's outcome by its text.
pub proof fn law_session_is_seen(s: Store, line: String)
    ensures
        s@.session == views(s.session@),
        s@.recording == s.recording,
        LineOutcome::Silent@ is Silent,
        LineOutcome::Reply(line)@ == LineOutcomeView::Reply(line@),
        LineOutcome::Refused@ is Refused,
{
}

/// The tools that answer with an object are those of the status, of the search and of an exchange
/// that is there; the others answer in words.
pub proof fn law_objects_that_are_answered(s: StoreView, args: Json, name: Seq<char>)
    ensures
        ({
            let i = asked_index(args);
            &&& tool_object(s, "get_status"@, args) == Some(object(status_members(s)))
            &&& tool_object(s, "get_flows"@, args) == Some(object(search_members(s.session, args)))
            &&& 0 <= i < s.session.len() ==> tool_object(s, "get_flow"@, args) == Some(
                object(detail_members(i, s.session[i])),
            )
            &&& i >= s.session.len() ==> tool_object(s, "get_flow"@, args) is None
            &&& name != "get_status"@ && name != "get_flows"@ && name != "get_flow"@
                ==> tool_object(s, name, args) is None
        }),
{
    lemma_tools_differ();
}

} // verus!
