//! The tools: each is an interceptor that is set up by rules.

use crate::body::bytes_in;
use crate::headers;
use crate::headers::{
    fields, field, overwritten, removed, removed_all, upserted_all, HeaderTable,
};
use crate::model::{
    clone_opt_text, opt_text, text_response, CtxView, ExchangeCtx, HttpRequest, HttpResponse,
    RequestView, ResponseView,
};
use crate::pipeline::{
    request_run, response_run, ActionView, InterceptAction, Pipeline, RequestInterceptor,
    ResponseInterceptor,
};
use crate::text;
use crate::text::{
    after_last, before_first, has_text, replaced_all, replaced_first, stripped,
};
use vstd::prelude::*;
use vstd::utf8::encode_utf8;

verus! {

// ---------------------------------------------------------------- rules

/// A rule of the Block List and of Map Remote.
#[derive(Debug)]
pub struct Rule {
    /// The rule applies to URLs that contain this.
    pub pattern: String,
    /// Block List: the status of the answer; 403 if there is none.
    pub status: Option<u16>,
    /// Map Remote: what stands in place of the pattern.
    pub replace: Option<String>,
}

/// What a rule says.
pub struct RuleView {
    pub pattern: Seq<char>,
    pub status: Option<u16>,
    pub replace: Option<Seq<char>>,
}

impl View for Rule {
    type V = RuleView;

    open spec fn view(&self) -> RuleView {
        RuleView {
            pattern: self.pattern@,
            status: self.status,
            replace: opt_text(self.replace),
        }
    }
}

impl Clone for Rule {
    fn clone(&self) -> (r: Self)
        ensures
            r@ == self@,
    {
        Rule {
            pattern: self.pattern.clone(),
            status: self.status,
            replace: clone_opt_text(&self.replace),
        }
    }
}

/// A rule of Map Local.
#[derive(Debug)]
pub struct MapLocalRule {
    /// The rule applies to URLs that contain this.
    pub pattern: String,
    /// The file to answer with.
    pub file: String,
    /// The status of the answer; 200 if there is none.
    pub status: Option<u16>,
    /// The content type of the answer; guessed from the file's name if there is none.
    pub content_type: Option<String>,
}

/// What a Map Local rule says.
pub struct MapLocalView {
    pub pattern: Seq<char>,
    pub file: Seq<char>,
    pub status: Option<u16>,
    pub content_type: Option<Seq<char>>,
}

impl View for MapLocalRule {
    type V = MapLocalView;

    open spec fn view(&self) -> MapLocalView {
        MapLocalView {
            pattern: self.pattern@,
            file: self.file@,
            status: self.status,
            content_type: opt_text(self.content_type),
        }
    }
}

impl Clone for MapLocalRule {
    fn clone(&self) -> (r: Self)
        ensures
            r@ == self@,
    {
        MapLocalRule {
            pattern: self.pattern.clone(),
            file: self.file.clone(),
            status: self.status,
            content_type: clone_opt_text(&self.content_type),
        }
    }
}

/// A replacement in the URL of a request.
#[derive(Debug)]
pub struct UrlReplace {
    pub from: String,
    pub to: String,
}

/// A rule of Rewrite.
#[derive(Debug)]
pub struct RewriteRule {
    /// The rule applies to URLs that contain this.
    pub pattern: String,
    /// What to replace in the URL of the request.
    pub url_replace: Option<UrlReplace>,
    /// Headers of the request to add or to overwrite.
    pub set_headers: Option<HeaderTable>,
    /// Headers of the request to remove.
    pub remove_headers: Vec<String>,
    /// Headers of the response to add or to overwrite.
    pub set_response_headers: Option<HeaderTable>,
    /// The status to give to the response.
    pub set_status: Option<u16>,
}

/// What a Rewrite rule says.
pub struct RewriteView {
    pub pattern: Seq<char>,
    pub url_replace: Option<(Seq<char>, Seq<char>)>,
    pub set_headers: Seq<(Seq<char>, Seq<char>)>,
    pub remove_headers: Seq<Seq<char>>,
    pub set_response_headers: Seq<(Seq<char>, Seq<char>)>,
    pub set_status: Option<u16>,
}

/// The texts of a list of strings.
pub open spec fn texts(s: Seq<String>) -> Seq<Seq<char>> {
    s.map_values(|x: String| x@)
}

/// The fields of an optional table; none without a table.
pub open spec fn table_fields(t: Option<HeaderTable>) -> Seq<(Seq<char>, Seq<char>)> {
    match t {
        Some(x) => x@,
        None => Seq::empty(),
    }
}

impl View for RewriteRule {
    type V = RewriteView;

    open spec fn view(&self) -> RewriteView {
        RewriteView {
            pattern: self.pattern@,
            url_replace: match self.url_replace {
                Some(u) => Some((u.from@, u.to@)),
                None => None,
            },
            set_headers: table_fields(self.set_headers),
            remove_headers: texts(self.remove_headers@),
            set_response_headers: table_fields(self.set_response_headers),
            set_status: self.set_status,
        }
    }
}

fn clone_table(t: &Option<HeaderTable>) -> (r: Option<HeaderTable>)
    ensures
        table_fields(r) == table_fields(*t),
{
    match t {
        Some(x) => Some(x.clone()),
        None => None,
    }
}

fn clone_texts(v: &Vec<String>) -> (r: Vec<String>)
    ensures
        texts(r@) == texts(v@),
{
    let mut r: Vec<String> = Vec::new();
    let mut i: usize = 0;
    while i < v.len()
        invariant
            i <= v@.len(),
            r@.len() == i,
            forall|k: int| 0 <= k < i ==> (#[trigger] r@[k])@ == v@[k]@,
        decreases v@.len() - i,
    {
        r.push(v[i].clone());
        i += 1;
    }
    assert(texts(r@) =~= texts(v@));
    r
}

impl Clone for RewriteRule {
    fn clone(&self) -> (r: Self)
        ensures
            r@ == self@,
    {
        let url_replace = match &self.url_replace {
            Some(u) => Some(UrlReplace { from: u.from.clone(), to: u.to.clone() }),
            None => None,
        };
        RewriteRule {
            pattern: self.pattern.clone(),
            url_replace,
            set_headers: clone_table(&self.set_headers),
            remove_headers: clone_texts(&self.remove_headers),
            set_response_headers: clone_table(&self.set_response_headers),
            set_status: self.set_status,
        }
    }
}

impl Default for RewriteRule {
    fn default() -> (r: Self)
        ensures
            r@ == (RewriteView {
                pattern: Seq::empty(),
                url_replace: None,
                set_headers: Seq::empty(),
                remove_headers: Seq::empty(),
                set_response_headers: Seq::empty(),
                set_status: None,
            }),
    {
        let r = RewriteRule {
            pattern: String::new(),
            url_replace: None,
            set_headers: None,
            remove_headers: Vec::new(),
            set_response_headers: None,
            set_status: None,
        };
        assert(r@.remove_headers =~= Seq::empty());
        r
    }
}

/// What a list of rules says.
pub open spec fn rule_views(s: Seq<Rule>) -> Seq<RuleView> {
    s.map_values(|r: Rule| r@)
}

/// What a list of Map Local rules says.
pub open spec fn local_views(s: Seq<MapLocalRule>) -> Seq<MapLocalView> {
    s.map_values(|r: MapLocalRule| r@)
}

/// What a list of Rewrite rules says.
pub open spec fn rewrite_views(s: Seq<RewriteRule>) -> Seq<RewriteView> {
    s.map_values(|r: RewriteRule| r@)
}

// ---------------------------------------------------------------- Block List

/// Answers requests to the listed URLs in place of the origin.
pub struct BlockTool(pub Vec<Rule>);

/// The answer of the Block List: that of the first rule that applies.
pub open spec fn block_action(rules: Seq<RuleView>, uri: Seq<char>) -> ActionView
    decreases rules.len(),
{
    if rules.len() == 0 {
        ActionView::Continue
    } else if has_text(uri, rules[0].pattern) {
        ActionView::ShortCircuit(
            text_response(
                match rules[0].status {
                    Some(s) => s,
                    None => 403,
                },
                "blocked by rproxy: "@ + rules[0].pattern,
            ),
        )
    } else {
        block_action(rules.skip(1), uri)
    }
}

impl RequestInterceptor for BlockTool {
    open spec fn request_step(
        &self,
        before: RequestView,
        ctx: CtxView,
        after: RequestView,
        action: ActionView,
    ) -> bool {
        after == before && action == block_action(rule_views(self.0@), before.uri)
    }

    fn on_request(&self, req: &mut HttpRequest, ctx: &ExchangeCtx) -> (action: InterceptAction) {
        let ghost rules = rule_views(self.0@);
        let mut i: usize = 0;
        assert(rules.skip(0) =~= rules);
        while i < self.0.len()
            invariant
                i <= self.0@.len(),
                *req == *old(req),
                rules == rule_views(self.0@),
                block_action(rules, req@.uri) == block_action(rules.skip(i as int), req@.uri),
            decreases self.0@.len() - i,
        {
            let r = &self.0[i];
            if text::contains(req.uri.as_str(), r.pattern.as_str()) {
                let status: u16 = match r.status {
                    Some(s) => s,
                    None => 403,
                };
                let mut body = "blocked by rproxy: ".to_string();
                body.push_str(r.pattern.as_str());
                return InterceptAction::ShortCircuit(HttpResponse::text(status, body.as_str()));
            }
            assert(rules.skip(i as int).skip(1) =~= rules.skip(i + 1));
            i += 1;
        }
        InterceptAction::Continue
    }
}

// ---------------------------------------------------------------- Map Local

/// Answers requests to the listed URLs with local files.
pub struct MapLocalTool(pub Vec<MapLocalRule>);

/// The content type that goes with the extension of a file's name.
pub open spec fn mime_of(file: Seq<char>) -> Seq<char> {
    let ext = after_last(file, '.');
    if ext == "json"@ {
        "application/json"@
    } else if ext == "html"@ || ext == "htm"@ {
        "text/html"@
    } else if ext == "xml"@ {
        "application/xml"@
    } else if ext == "png"@ {
        "image/png"@
    } else if ext == "jpg"@ || ext == "jpeg"@ {
        "image/jpeg"@
    } else {
        "application/octet-stream"@
    }
}

/// The content type that goes with the extension of a file's name.
pub fn guess_mime(file: &str) -> (r: String)
    ensures
        r@ == mime_of(file@),
{
    let ext = text::behind_last(file, '.');
    let e = ext.as_str();
    if text::same(e, "json") {
        "application/json".to_string()
    } else if text::same(e, "html") || text::same(e, "htm") {
        "text/html".to_string()
    } else if text::same(e, "xml") {
        "application/xml".to_string()
    } else if text::same(e, "png") {
        "image/png".to_string()
    } else if text::same(e, "jpg") || text::same(e, "jpeg") {
        "image/jpeg".to_string()
    } else {
        "application/octet-stream".to_string()
    }
}

/// The answer of Map Local: the file of the first rule that applies.
pub open spec fn local_action(rules: Seq<MapLocalView>, uri: Seq<char>) -> ActionView
    decreases rules.len(),
{
    if rules.len() == 0 {
        ActionView::Continue
    } else if has_text(uri, rules[0].pattern) {
        ActionView::ServeFile(rules[0])
    } else {
        local_action(rules.skip(1), uri)
    }
}

/// The response that a rule makes of what reading its file gave: the bytes, or an error.
pub open spec fn file_response(
    rule: MapLocalView,
    read: Result<Seq<u8>, Seq<char>>,
) -> ResponseView {
    match read {
        Ok(body) => ResponseView {
            status: match rule.status {
                Some(s) => s,
                None => 200,
            },
            reason: None,
            headers: seq![
                (
                    "content-type"@,
                    match rule.content_type {
                        Some(t) => t,
                        None => mime_of(rule.file),
                    },
                ),
            ],
            body,
        },
        Err(e) => text_response(500, "map_local: cannot read "@ + rule.file + ": "@ + e),
    }
}

/// What reading a file gave.
pub open spec fn read_view(read: Result<bytes::Bytes, String>) -> Result<Seq<u8>, Seq<char>> {
    match read {
        Ok(b) => Ok(bytes_in(b)),
        Err(e) => Err(e@),
    }
}

impl MapLocalRule {
    /// The response that the rule makes of what reading its file gave.
    pub fn respond(&self, read: Result<bytes::Bytes, String>) -> (r: HttpResponse)
        ensures
            r@ == file_response(self@, read_view(read)),
    {
        match read {
            Ok(body) => {
                let status: u16 = match self.status {
                    Some(s) => s,
                    None => 200,
                };
                let content_type = match &self.content_type {
                    Some(t) => t.clone(),
                    None => guess_mime(self.file.as_str()),
                };
                let mut h: Vec<(String, String)> = Vec::new();
                h.push(field("content-type", content_type.as_str()));
                let r = HttpResponse { status, reason: None, headers: h, body };
                assert(r@.headers =~= file_response(self@, read_view(read)).headers);
                r
            },
            Err(e) => {
                let mut body = "map_local: cannot read ".to_string();
                body.push_str(self.file.as_str());
                body.push_str(": ");
                body.push_str(e.as_str());
                HttpResponse::text(500, body.as_str())
            },
        }
    }
}

impl RequestInterceptor for MapLocalTool {
    open spec fn request_step(
        &self,
        before: RequestView,
        ctx: CtxView,
        after: RequestView,
        action: ActionView,
    ) -> bool {
        after == before && action == local_action(local_views(self.0@), before.uri)
    }

    fn on_request(&self, req: &mut HttpRequest, ctx: &ExchangeCtx) -> (action: InterceptAction) {
        let ghost rules = local_views(self.0@);
        let mut i: usize = 0;
        assert(rules.skip(0) =~= rules);
        while i < self.0.len()
            invariant
                i <= self.0@.len(),
                *req == *old(req),
                rules == local_views(self.0@),
                local_action(rules, req@.uri) == local_action(rules.skip(i as int), req@.uri),
            decreases self.0@.len() - i,
        {
            if text::contains(req.uri.as_str(), self.0[i].pattern.as_str()) {
                return InterceptAction::ServeFile(self.0[i].clone());
            }
            assert(rules.skip(i as int).skip(1) =~= rules.skip(i + 1));
            i += 1;
        }
        InterceptAction::Continue
    }
}

// ---------------------------------------------------------------- Map Remote

/// Sends requests to other places.
pub struct MapRemoteTool(pub Vec<Rule>);

/// The host and port of an absolute `http` or `https` URI.
pub open spec fn authority_of(uri: Seq<char>) -> Option<Seq<char>> {
    match stripped(uri, "https://"@) {
        Some(rest) => Some(before_first(rest, '/')),
        None => match stripped(uri, "http://"@) {
            Some(rest) => Some(before_first(rest, '/')),
            None => None,
        },
    }
}

/// The host and port of an absolute `http` or `https` URI.
pub fn authority(uri: &str) -> (r: Option<String>)
    ensures
        opt_text(r) == authority_of(uri@),
{
    match text::strip_prefix(uri, "https://") {
        Some(rest) => Some(text::before(rest.as_str(), '/')),
        None => match text::strip_prefix(uri, "http://") {
            Some(rest) => Some(text::before(rest.as_str(), '/')),
            None => None,
        },
    }
}

/// The request after one rule: the pattern in the URL replaced once, and the Host header given
/// the new host.
pub open spec fn remapped(rule: RuleView, req: RequestView) -> RequestView {
    if rule.replace is Some && has_text(req.uri, rule.pattern) {
        let uri = replaced_first(req.uri, rule.pattern, rule.replace->Some_0);
        RequestView {
            uri,
            headers: match authority_of(uri) {
                Some(a) => overwritten(req.headers, "host"@, a),
                None => req.headers,
            },
            ..req
        }
    } else {
        req
    }
}

/// The request after several rules, one after the other.
pub open spec fn remapped_all(rules: Seq<RuleView>, req: RequestView) -> RequestView
    decreases rules.len(),
{
    if rules.len() == 0 {
        req
    } else {
        remapped_all(rules.skip(1), remapped(rules[0], req))
    }
}

fn remap(rule: &Rule, req: &mut HttpRequest)
    ensures
        final(req)@ == remapped(rule@, old(req)@),
{
    match &rule.replace {
        Some(replace) => {
            if text::contains(req.uri.as_str(), rule.pattern.as_str()) {
                req.uri =
                text::replace_first(req.uri.as_str(), rule.pattern.as_str(), replace.as_str());
                match authority(req.uri.as_str()) {
                    Some(a) => {
                        headers::overwrite_header(&mut req.headers, "host", a.as_str());
                    },
                    None => {},
                }
            }
        },
        None => {},
    }
}

impl RequestInterceptor for MapRemoteTool {
    open spec fn request_step(
        &self,
        before: RequestView,
        ctx: CtxView,
        after: RequestView,
        action: ActionView,
    ) -> bool {
        after == remapped_all(rule_views(self.0@), before) && action is Continue
    }

    fn on_request(&self, req: &mut HttpRequest, ctx: &ExchangeCtx) -> (action: InterceptAction) {
        let ghost rules = rule_views(self.0@);
        let mut i: usize = 0;
        assert(rules.skip(0) =~= rules);
        while i < self.0.len()
            invariant
                i <= self.0@.len(),
                rules == rule_views(self.0@),
                remapped_all(rules, old(req)@) == remapped_all(rules.skip(i as int), req@),
            decreases self.0@.len() - i,
        {
            remap(&self.0[i], req);
            assert(rules.skip(i as int).skip(1) =~= rules.skip(i + 1));
            i += 1;
        }
        InterceptAction::Continue
    }
}

// ---------------------------------------------------------------- No Caching

/// Keeps caches out of the way.
pub struct NoCachingTool;

/// The header name begins with `If-`, in any case: it puts a condition on the request.
pub open spec fn begins_if(name: Seq<char>) -> bool {
    name.len() >= 3 && text::same_ascii(name.take(3), "if-"@)
}

/// The fields that put no condition on the request, in their order.
pub open spec fn unconditional(h: Seq<(Seq<char>, Seq<char>)>) -> Seq<(Seq<char>, Seq<char>)> {
    h.filter(|p: (Seq<char>, Seq<char>)| !begins_if(p.0))
}

/// The request without conditions on a cached copy, and with a demand for a fresh one.
pub open spec fn uncached_request(req: RequestView) -> RequestView {
    RequestView {
        headers: unconditional(req.headers).push(("cache-control"@, "no-cache"@)),
        ..req
    }
}

/// The response without what a cache goes by, and with a ban on storing it.
pub open spec fn uncached_response(resp: ResponseView) -> ResponseView {
    ResponseView {
        headers: removed(
            removed(removed(resp.headers, "etag"@), "last-modified"@),
            "expires"@,
        ).push(("cache-control"@, "no-store"@)),
        ..resp
    }
}

fn is_condition(name: &str) -> (r: bool)
    ensures
        r == begins_if(name@),
{
    let v = text::chars_of(name);
    if v.len() < 3 {
        return false;
    }
    let head = text::string_of(&v, 0, 3);
    assert(head@ =~= name@.take(3));
    text::eq_ignore_ascii_case(head.as_str(), "if-")
}

fn drop_conditions(h: &mut Vec<(String, String)>)
    ensures
        fields(final(h)@) == unconditional(fields(old(h)@)),
{
    let ghost all = fields(h@);
    let mut r: Vec<(String, String)> = Vec::new();
    let mut i: usize = 0;
    assert(unconditional(all.take(0)) =~= Seq::<(Seq<char>, Seq<char>)>::empty()) by {
        reveal(Seq::filter);
    }
    while i < h.len()
        invariant
            i <= h@.len(),
            h@ == old(h)@,
            all == fields(h@),
            fields(r@) == unconditional(all.take(i as int)),
        decreases h@.len() - i,
    {
        proof {
            reveal(Seq::filter);
            assert(all.take(i + 1).drop_last() =~= all.take(i as int));
        }
        if !is_condition(h[i].0.as_str()) {
            let ghost before = r@;
            r.push((h[i].0.clone(), h[i].1.clone()));
            assert(fields(r@) =~= fields(before).push(all[i as int]));
        }
        i += 1;
    }
    assert(all.take(i as int) =~= all);
    *h = r;
}

impl RequestInterceptor for NoCachingTool {
    open spec fn request_step(
        &self,
        before: RequestView,
        ctx: CtxView,
        after: RequestView,
        action: ActionView,
    ) -> bool {
        after == uncached_request(before) && action is Continue
    }

    fn on_request(&self, req: &mut HttpRequest, ctx: &ExchangeCtx) -> (action: InterceptAction) {
        drop_conditions(&mut req.headers);
        req.headers.push(field("cache-control", "no-cache"));
        assert(req@.headers =~= uncached_request(old(req)@).headers);
        InterceptAction::Continue
    }
}

impl ResponseInterceptor for NoCachingTool {
    open spec fn response_step(
        &self,
        before: ResponseView,
        ctx: CtxView,
        after: ResponseView,
        action: ActionView,
    ) -> bool {
        after == uncached_response(before) && action is Continue
    }

    fn on_response(&self, resp: &mut HttpResponse, ctx: &ExchangeCtx) -> (action:
        InterceptAction) {
        headers::remove_header(&mut resp.headers, "etag");
        headers::remove_header(&mut resp.headers, "last-modified");
        headers::remove_header(&mut resp.headers, "expires");
        resp.headers.push(field("cache-control", "no-store"));
        assert(resp@.headers =~= uncached_response(old(resp)@).headers);
        InterceptAction::Continue
    }
}

// ---------------------------------------------------------------- Block Cookies

/// Keeps cookies from passing.
pub struct BlockCookiesTool;

/// The request without its cookies.
pub open spec fn cookieless_request(req: RequestView) -> RequestView {
    RequestView { headers: removed(req.headers, "cookie"@), ..req }
}

/// The response without the cookies that it sets.
pub open spec fn cookieless_response(resp: ResponseView) -> ResponseView {
    ResponseView { headers: removed(resp.headers, "set-cookie"@), ..resp }
}

impl RequestInterceptor for BlockCookiesTool {
    open spec fn request_step(
        &self,
        before: RequestView,
        ctx: CtxView,
        after: RequestView,
        action: ActionView,
    ) -> bool {
        after == cookieless_request(before) && action is Continue
    }

    fn on_request(&self, req: &mut HttpRequest, ctx: &ExchangeCtx) -> (action: InterceptAction) {
        headers::remove_header(&mut req.headers, "cookie");
        InterceptAction::Continue
    }
}

impl ResponseInterceptor for BlockCookiesTool {
    open spec fn response_step(
        &self,
        before: ResponseView,
        ctx: CtxView,
        after: ResponseView,
        action: ActionView,
    ) -> bool {
        after == cookieless_response(before) && action is Continue
    }

    fn on_response(&self, resp: &mut HttpResponse, ctx: &ExchangeCtx) -> (action:
        InterceptAction) {
        headers::remove_header(&mut resp.headers, "set-cookie");
        InterceptAction::Continue
    }
}

// ---------------------------------------------------------------- Rewrite

/// Rewrites URLs, headers and statuses.
pub struct RewriteTool(pub Vec<RewriteRule>);

/// The request after one rule.
pub open spec fn rewritten_request(rule: RewriteView, req: RequestView) -> RequestView {
    if has_text(req.uri, rule.pattern) {
        RequestView {
            uri: match rule.url_replace {
                Some(u) => replaced_all(req.uri, u.0, u.1),
                None => req.uri,
            },
            headers: removed_all(
                upserted_all(req.headers, rule.set_headers),
                rule.remove_headers,
            ),
            ..req
        }
    } else {
        req
    }
}

/// The request after several rules, one after the other.
pub open spec fn rewritten_requests(rules: Seq<RewriteView>, req: RequestView) -> RequestView
    decreases rules.len(),
{
    if rules.len() == 0 {
        req
    } else {
        rewritten_requests(rules.skip(1), rewritten_request(rules[0], req))
    }
}

/// The response to `url` after one rule.
pub open spec fn rewritten_response(
    rule: RewriteView,
    url: Seq<char>,
    resp: ResponseView,
) -> ResponseView {
    if has_text(url, rule.pattern) {
        ResponseView {
            headers: upserted_all(resp.headers, rule.set_response_headers),
            status: match rule.set_status {
                Some(s) => s,
                None => resp.status,
            },
            ..resp
        }
    } else {
        resp
    }
}

/// The response to `url` after several rules, one after the other.
pub open spec fn rewritten_responses(
    rules: Seq<RewriteView>,
    url: Seq<char>,
    resp: ResponseView,
) -> ResponseView
    decreases rules.len(),
{
    if rules.len() == 0 {
        resp
    } else {
        rewritten_responses(rules.skip(1), url, rewritten_response(rules[0], url, resp))
    }
}

fn upsert_table(h: &mut Vec<(String, String)>, table: &Option<HeaderTable>)
    ensures
        fields(final(h)@) == upserted_all(fields(old(h)@), table_fields(*table)),
{
    match table {
        Some(t) => {
            let mut i: usize = 0;
            assert(t@.take(0) =~= Seq::empty());
            while i < t.len()
                invariant
                    i <= t@.len(),
                    fields(h@) == upserted_all(fields(old(h)@), t@.take(i as int)),
                decreases t@.len() - i,
            {
                let (k, v) = t.get(i);
                headers::upsert_header(h, k, v);
                assert(t@.take(i + 1).drop_last() =~= t@.take(i as int));
                i += 1;
            }
            assert(t@.take(i as int) =~= t@);
        },
        None => {},
    }
}

fn remove_headers(h: &mut Vec<(String, String)>, names: &Vec<String>)
    ensures
        fields(final(h)@) == removed_all(fields(old(h)@), texts(names@)),
{
    let ghost all = texts(names@);
    let mut i: usize = 0;
    assert(all.take(0) =~= Seq::empty());
    while i < names.len()
        invariant
            i <= names@.len(),
            all == texts(names@),
            fields(h@) == removed_all(fields(old(h)@), all.take(i as int)),
        decreases names@.len() - i,
    {
        headers::remove_header(h, names[i].as_str());
        assert(all.take(i + 1).drop_last() =~= all.take(i as int));
        i += 1;
    }
    assert(all.take(i as int) =~= all);
}

fn rewrite_request(rule: &RewriteRule, req: &mut HttpRequest)
    ensures
        final(req)@ == rewritten_request(rule@, old(req)@),
{
    if text::contains(req.uri.as_str(), rule.pattern.as_str()) {
        match &rule.url_replace {
            Some(u) => {
                req.uri = text::replace_all(req.uri.as_str(), u.from.as_str(), u.to.as_str());
            },
            None => {},
        }
        upsert_table(&mut req.headers, &rule.set_headers);
        remove_headers(&mut req.headers, &rule.remove_headers);
    }
}

fn rewrite_response(rule: &RewriteRule, url: &str, resp: &mut HttpResponse)
    ensures
        final(resp)@ == rewritten_response(rule@, url@, old(resp)@),
{
    if text::contains(url, rule.pattern.as_str()) {
        upsert_table(&mut resp.headers, &rule.set_response_headers);
        match rule.set_status {
            Some(s) => {
                resp.status = s;
            },
            None => {},
        }
    }
}

impl RequestInterceptor for RewriteTool {
    open spec fn request_step(
        &self,
        before: RequestView,
        ctx: CtxView,
        after: RequestView,
        action: ActionView,
    ) -> bool {
        after == rewritten_requests(rewrite_views(self.0@), before) && action is Continue
    }

    fn on_request(&self, req: &mut HttpRequest, ctx: &ExchangeCtx) -> (action: InterceptAction) {
        let ghost rules = rewrite_views(self.0@);
        let mut i: usize = 0;
        assert(rules.skip(0) =~= rules);
        while i < self.0.len()
            invariant
                i <= self.0@.len(),
                rules == rewrite_views(self.0@),
                rewritten_requests(rules, old(req)@) == rewritten_requests(
                    rules.skip(i as int),
                    req@,
                ),
            decreases self.0@.len() - i,
        {
            rewrite_request(&self.0[i], req);
            assert(rules.skip(i as int).skip(1) =~= rules.skip(i + 1));
            i += 1;
        }
        InterceptAction::Continue
    }
}

impl ResponseInterceptor for RewriteTool {
    open spec fn response_step(
        &self,
        before: ResponseView,
        ctx: CtxView,
        after: ResponseView,
        action: ActionView,
    ) -> bool {
        after == rewritten_responses(rewrite_views(self.0@), ctx.url, before)
            && action is Continue
    }

    fn on_response(&self, resp: &mut HttpResponse, ctx: &ExchangeCtx) -> (action:
        InterceptAction) {
        let ghost rules = rewrite_views(self.0@);
        let mut i: usize = 0;
        assert(rules.skip(0) =~= rules);
        while i < self.0.len()
            invariant
                i <= self.0@.len(),
                rules == rewrite_views(self.0@),
                rewritten_responses(rules, ctx@.url, old(resp)@) == rewritten_responses(
                    rules.skip(i as int),
                    ctx@.url,
                    resp@,
                ),
            decreases self.0@.len() - i,
        {
            rewrite_response(&self.0[i], ctx.url.as_str(), resp);
            assert(rules.skip(i as int).skip(1) =~= rules.skip(i + 1));
            i += 1;
        }
        InterceptAction::Continue
    }
}

// ---------------------------------------------------------------- all tools

/// One of the tools.
pub enum Tool {
    Block(BlockTool),
    MapLocal(MapLocalTool),
    MapRemote(MapRemoteTool),
    Rewrite(RewriteTool),
    NoCaching(NoCachingTool),
    BlockCookies(BlockCookiesTool),
}

/// What a tool is set up to do.
pub enum ToolView {
    Block(Seq<RuleView>),
    MapLocal(Seq<MapLocalView>),
    MapRemote(Seq<RuleView>),
    Rewrite(Seq<RewriteView>),
    NoCaching,
    BlockCookies,
}

impl View for Tool {
    type V = ToolView;

    open spec fn view(&self) -> ToolView {
        match *self {
            Tool::Block(t) => ToolView::Block(rule_views(t.0@)),
            Tool::MapLocal(t) => ToolView::MapLocal(local_views(t.0@)),
            Tool::MapRemote(t) => ToolView::MapRemote(rule_views(t.0@)),
            Tool::Rewrite(t) => ToolView::Rewrite(rewrite_views(t.0@)),
            Tool::NoCaching(_) => ToolView::NoCaching,
            Tool::BlockCookies(_) => ToolView::BlockCookies,
        }
    }
}

/// What a tool makes of a request, and what it asks for.
pub open spec fn tool_request(tool: ToolView, req: RequestView) -> (RequestView, ActionView) {
    match tool {
        ToolView::Block(rules) => (req, block_action(rules, req.uri)),
        ToolView::MapLocal(rules) => (req, local_action(rules, req.uri)),
        ToolView::MapRemote(rules) => (remapped_all(rules, req), ActionView::Continue),
        ToolView::Rewrite(rules) => (rewritten_requests(rules, req), ActionView::Continue),
        ToolView::NoCaching => (uncached_request(req), ActionView::Continue),
        ToolView::BlockCookies => (cookieless_request(req), ActionView::Continue),
    }
}

/// What a tool makes of the response to `url`.
pub open spec fn tool_response(tool: ToolView, url: Seq<char>, resp: ResponseView) -> ResponseView {
    match tool {
        ToolView::Block(_) => resp,
        ToolView::MapLocal(_) => resp,
        ToolView::MapRemote(_) => resp,
        ToolView::Rewrite(rules) => rewritten_responses(rules, url, resp),
        ToolView::NoCaching => uncached_response(resp),
        ToolView::BlockCookies => cookieless_response(resp),
    }
}

impl RequestInterceptor for Tool {
    open spec fn request_step(
        &self,
        before: RequestView,
        ctx: CtxView,
        after: RequestView,
        action: ActionView,
    ) -> bool {
        (after, action) == tool_request(self@, before)
    }

    fn on_request(&self, req: &mut HttpRequest, ctx: &ExchangeCtx) -> (action: InterceptAction) {
        match self {
            Tool::Block(t) => t.on_request(req, ctx),
            Tool::MapLocal(t) => t.on_request(req, ctx),
            Tool::MapRemote(t) => t.on_request(req, ctx),
            Tool::Rewrite(t) => t.on_request(req, ctx),
            Tool::NoCaching(t) => t.on_request(req, ctx),
            Tool::BlockCookies(t) => t.on_request(req, ctx),
        }
    }
}

impl ResponseInterceptor for Tool {
    open spec fn response_step(
        &self,
        before: ResponseView,
        ctx: CtxView,
        after: ResponseView,
        action: ActionView,
    ) -> bool {
        after == tool_response(self@, ctx.url, before) && action is Continue
    }

    fn on_response(&self, resp: &mut HttpResponse, ctx: &ExchangeCtx) -> (action:
        InterceptAction) {
        match self {
            Tool::Rewrite(t) => t.on_response(resp, ctx),
            Tool::NoCaching(t) => t.on_response(resp, ctx),
            Tool::BlockCookies(t) => t.on_response(resp, ctx),
            _ => InterceptAction::Continue,
        }
    }
}

// ---------------------------------------------------------------- configuration

/// The set-up of the tools.
#[derive(Debug)]
pub struct ToolsConfig {
    pub block: Vec<Rule>,
    pub no_caching: bool,
    pub block_cookies: bool,
    pub rewrite: Vec<RewriteRule>,
    pub map_local: Vec<MapLocalRule>,
    pub map_remote: Vec<Rule>,
}

/// What a set-up says.
pub struct ConfigView {
    pub block: Seq<RuleView>,
    pub no_caching: bool,
    pub block_cookies: bool,
    pub rewrite: Seq<RewriteView>,
    pub map_local: Seq<MapLocalView>,
    pub map_remote: Seq<RuleView>,
}

impl View for ToolsConfig {
    type V = ConfigView;

    open spec fn view(&self) -> ConfigView {
        ConfigView {
            block: rule_views(self.block@),
            no_caching: self.no_caching,
            block_cookies: self.block_cookies,
            rewrite: rewrite_views(self.rewrite@),
            map_local: local_views(self.map_local@),
            map_remote: rule_views(self.map_remote@),
        }
    }
}

/// The set-up in which no tool is on.
pub open spec fn no_tools() -> ConfigView {
    ConfigView {
        block: Seq::empty(),
        no_caching: false,
        block_cookies: false,
        rewrite: Seq::empty(),
        map_local: Seq::empty(),
        map_remote: Seq::empty(),
    }
}

fn clone_rules(v: &Vec<Rule>) -> (r: Vec<Rule>)
    ensures
        rule_views(r@) == rule_views(v@),
{
    let mut r: Vec<Rule> = Vec::new();
    let mut i: usize = 0;
    while i < v.len()
        invariant
            i <= v@.len(),
            r@.len() == i,
            forall|k: int| 0 <= k < i ==> (#[trigger] r@[k])@ == v@[k]@,
        decreases v@.len() - i,
    {
        r.push(v[i].clone());
        i += 1;
    }
    assert(rule_views(r@) =~= rule_views(v@));
    r
}

fn clone_local(v: &Vec<MapLocalRule>) -> (r: Vec<MapLocalRule>)
    ensures
        local_views(r@) == local_views(v@),
{
    let mut r: Vec<MapLocalRule> = Vec::new();
    let mut i: usize = 0;
    while i < v.len()
        invariant
            i <= v@.len(),
            r@.len() == i,
            forall|k: int| 0 <= k < i ==> (#[trigger] r@[k])@ == v@[k]@,
        decreases v@.len() - i,
    {
        r.push(v[i].clone());
        i += 1;
    }
    assert(local_views(r@) =~= local_views(v@));
    r
}

fn clone_rewrite(v: &Vec<RewriteRule>) -> (r: Vec<RewriteRule>)
    ensures
        rewrite_views(r@) == rewrite_views(v@),
{
    let mut r: Vec<RewriteRule> = Vec::new();
    let mut i: usize = 0;
    while i < v.len()
        invariant
            i <= v@.len(),
            r@.len() == i,
            forall|k: int| 0 <= k < i ==> (#[trigger] r@[k])@ == v@[k]@,
        decreases v@.len() - i,
    {
        r.push(v[i].clone());
        i += 1;
    }
    assert(rewrite_views(r@) =~= rewrite_views(v@));
    r
}

impl Clone for ToolsConfig {
    fn clone(&self) -> (r: Self)
        ensures
            r@ == self@,
    {
        ToolsConfig {
            block: clone_rules(&self.block),
            no_caching: self.no_caching,
            block_cookies: self.block_cookies,
            rewrite: clone_rewrite(&self.rewrite),
            map_local: clone_local(&self.map_local),
            map_remote: clone_rules(&self.map_remote),
        }
    }
}

impl Default for ToolsConfig {
    fn default() -> (r: Self)
        ensures
            r@ == no_tools(),
    {
        let r = ToolsConfig {
            block: Vec::new(),
            no_caching: false,
            block_cookies: false,
            rewrite: Vec::new(),
            map_local: Vec::new(),
            map_remote: Vec::new(),
        };
        assert(r@.block =~= Seq::empty());
        assert(r@.rewrite =~= Seq::empty());
        assert(r@.map_local =~= Seq::empty());
        assert(r@.map_remote =~= Seq::empty());
        r
    }
}

/// One element if `on`, else none.
pub open spec fn single_if(on: bool, tool: ToolView) -> Seq<ToolView> {
    if on {
        seq![tool]
    } else {
        Seq::empty()
    }
}

/// The tools that requests pass, in order: each rule of the Block List, Map Local, Map Remote,
/// Rewrite, No Caching, Block Cookies.
pub open spec fn request_tools(cfg: ConfigView) -> Seq<ToolView> {
    cfg.block.map_values(|r: RuleView| ToolView::Block(seq![r])) + single_if(
        cfg.map_local.len() > 0,
        ToolView::MapLocal(cfg.map_local),
    ) + single_if(cfg.map_remote.len() > 0, ToolView::MapRemote(cfg.map_remote)) + single_if(
        cfg.rewrite.len() > 0,
        ToolView::Rewrite(cfg.rewrite),
    ) + single_if(cfg.no_caching, ToolView::NoCaching) + single_if(
        cfg.block_cookies,
        ToolView::BlockCookies,
    )
}

/// The tools that responses pass, in order: Rewrite, No Caching, Block Cookies.
pub open spec fn response_tools(cfg: ConfigView) -> Seq<ToolView> {
    single_if(cfg.rewrite.len() > 0, ToolView::Rewrite(cfg.rewrite)) + single_if(
        cfg.no_caching,
        ToolView::NoCaching,
    ) + single_if(cfg.block_cookies, ToolView::BlockCookies)
}

/// What the tools of a chain are set up to do.
pub open spec fn tool_views(chain: Seq<Tool>) -> Seq<ToolView> {
    chain.map_values(|t: Tool| t@)
}

proof fn lemma_views_push(chain: Seq<Tool>, t: Tool)
    ensures
        tool_views(chain.push(t)) == tool_views(chain).push(t@),
{
    assert(tool_views(chain.push(t)) =~= tool_views(chain).push(t@));
}

/// The pipeline of a set-up.
pub fn build_pipeline(cfg: &ToolsConfig) -> (r: Pipeline<Tool, Tool>)
    ensures
        tool_views(r.requests()) == request_tools(cfg@),
        tool_views(r.responses()) == response_tools(cfg@),
{
    let mut p: Pipeline<Tool, Tool> = Pipeline::new();
    let ghost blocks = cfg@.block.map_values(|r: RuleView| ToolView::Block(seq![r]));
    let mut i: usize = 0;
    assert(tool_views(p.requests()) =~= blocks.take(0));
    assert(tool_views(p.responses()) =~= Seq::empty());
    while i < cfg.block.len()
        invariant
            i <= cfg.block@.len(),
            blocks == cfg@.block.map_values(|r: RuleView| ToolView::Block(seq![r])),
            tool_views(p.requests()) == blocks.take(i as int),
            tool_views(p.responses()) == Seq::<ToolView>::empty(),
        decreases cfg.block@.len() - i,
    {
        let mut rules: Vec<Rule> = Vec::new();
        rules.push(cfg.block[i].clone());
        assert(rule_views(rules@) =~= seq![cfg.block@[i as int]@]);
        let tool = Tool::Block(BlockTool(rules));
        proof {
            lemma_views_push(p.requests(), tool);
        }
        p = p.with_request_interceptor(tool);
        i += 1;
        assert(blocks.take(i as int) =~= blocks.take(i - 1).push(blocks[i - 1]));
    }
    assert(blocks.take(i as int) =~= blocks);
    let ghost c = cfg@;
    if cfg.map_local.len() > 0 {
        let tool = Tool::MapLocal(MapLocalTool(clone_local(&cfg.map_local)));
        proof {
            lemma_views_push(p.requests(), tool);
        }
        p = p.with_request_interceptor(tool);
    }
    let ghost s1 = blocks + single_if(c.map_local.len() > 0, ToolView::MapLocal(c.map_local));
    assert(tool_views(p.requests()) =~= s1);
    if cfg.map_remote.len() > 0 {
        let tool = Tool::MapRemote(MapRemoteTool(clone_rules(&cfg.map_remote)));
        proof {
            lemma_views_push(p.requests(), tool);
        }
        p = p.with_request_interceptor(tool);
    }
    let ghost s2 = s1 + single_if(c.map_remote.len() > 0, ToolView::MapRemote(c.map_remote));
    assert(tool_views(p.requests()) =~= s2);
    if cfg.rewrite.len() > 0 {
        let tool = Tool::Rewrite(RewriteTool(clone_rewrite(&cfg.rewrite)));
        let back = Tool::Rewrite(RewriteTool(clone_rewrite(&cfg.rewrite)));
        proof {
            lemma_views_push(p.requests(), tool);
            lemma_views_push(p.responses(), back);
        }
        p = p.with_request_interceptor(tool);
        p = p.with_response_interceptor(back);
    }
    let ghost s3 = s2 + single_if(c.rewrite.len() > 0, ToolView::Rewrite(c.rewrite));
    let ghost b1 = single_if(c.rewrite.len() > 0, ToolView::Rewrite(c.rewrite));
    assert(tool_views(p.requests()) =~= s3);
    assert(tool_views(p.responses()) =~= b1);
    if cfg.no_caching {
        proof {
            lemma_views_push(p.requests(), Tool::NoCaching(NoCachingTool));
            lemma_views_push(p.responses(), Tool::NoCaching(NoCachingTool));
        }
        p = p.with_request_interceptor(Tool::NoCaching(NoCachingTool));
        p = p.with_response_interceptor(Tool::NoCaching(NoCachingTool));
    }
    let ghost s4 = s3 + single_if(c.no_caching, ToolView::NoCaching);
    let ghost b2 = b1 + single_if(c.no_caching, ToolView::NoCaching);
    assert(tool_views(p.requests()) =~= s4);
    assert(tool_views(p.responses()) =~= b2);
    if cfg.block_cookies {
        proof {
            lemma_views_push(p.requests(), Tool::BlockCookies(BlockCookiesTool));
            lemma_views_push(p.responses(), Tool::BlockCookies(BlockCookiesTool));
        }
        p = p.with_request_interceptor(Tool::BlockCookies(BlockCookiesTool));
        p = p.with_response_interceptor(Tool::BlockCookies(BlockCookiesTool));
    }
    assert(tool_views(p.requests()) =~= request_tools(c));
    assert(tool_views(p.responses()) =~= response_tools(c));
    p
}

/// An example of a set-up, as TOML.
pub const EXAMPLE_TOML: &'static str = "# rproxy tools config (TOML)

[[block]]
match = \"ads.example.com\"
status = 403

no_caching = true

[[map_local]]
match = \"https://api.test/config\"
file = \"mock.json\"
content_type = \"application/json\"

[[map_remote]]
match = \"api.old.com\"
replace = \"api.new.com\"

# Rewrite: правка заголовков/статуса по фильтру URL
[[rewrite]]
match = \"api.new.com\"
set_headers = { \"X-Debug\" = \"1\" }
set_response_headers = { \"X-Proxy\" = \"rproxy\" }
remove_headers = [\"accept-encoding\"]
";

/// An example of a set-up, as TOML.
pub fn example_toml() -> (r: &'static str)
    ensures
        r@ == EXAMPLE_TOML@,
{
    EXAMPLE_TOML
}

// ---------------------------------------------------------------- laws

/// What a chain of tools makes of a request: each tool in turn, until one answers.
pub open spec fn tools_request(tools: Seq<ToolView>, req: RequestView) -> (RequestView, ActionView)
    decreases tools.len(),
{
    if tools.len() == 0 {
        (req, ActionView::Continue)
    } else {
        let (after, action) = tool_request(tools[0], req);
        if action is Continue {
            tools_request(tools.skip(1), after)
        } else {
            (after, action)
        }
    }
}

/// What a chain of tools makes of the response to `url`.
pub open spec fn tools_response(
    tools: Seq<ToolView>,
    url: Seq<char>,
    resp: ResponseView,
) -> ResponseView
    decreases tools.len(),
{
    if tools.len() == 0 {
        resp
    } else {
        tools_response(tools.skip(1), url, tool_response(tools[0], url, resp))
    }
}

/// A pipeline of tools has one outcome for each request, that of its tools in turn.
pub proof fn law_tools_decide_requests(
    chain: Seq<Tool>,
    before: RequestView,
    ctx: CtxView,
    after: RequestView,
    action: ActionView,
)
    ensures
        request_run(chain, before, ctx, after, action) <==> (after, action) == tools_request(
            tool_views(chain),
            before,
        ),
    decreases chain.len(),
{
    if chain.len() > 0 {
        let (mid, first) = tool_request(chain[0]@, before);
        assert(chain[0].request_step(before, ctx, mid, first));
        assert(tool_views(chain).skip(1) =~= tool_views(chain.skip(1)));
        law_tools_decide_requests(chain.skip(1), mid, ctx, after, action);
    }
}

/// The tools do not look at the body of a response, and leave it as it is.
pub proof fn law_tools_leave_bodies(
    tools: Seq<ToolView>,
    url: Seq<char>,
    resp: ResponseView,
    body: Seq<u8>,
)
    ensures
        tools_response(tools, url, ResponseView { body, ..resp }) == (ResponseView {
            body,
            ..tools_response(tools, url, resp)
        }),
    decreases tools.len(),
{
    if tools.len() > 0 {
        if let ToolView::Rewrite(rules) = tools[0] {
            lemma_rules_leave_bodies(rules, url, resp, body);
        }
        law_tools_leave_bodies(
            tools.skip(1),
            url,
            tool_response(tools[0], url, resp),
            body,
        );
    }
}

proof fn lemma_rules_leave_bodies(
    rules: Seq<RewriteView>,
    url: Seq<char>,
    resp: ResponseView,
    body: Seq<u8>,
)
    ensures
        rewritten_responses(rules, url, ResponseView { body, ..resp }) == (ResponseView {
            body,
            ..rewritten_responses(rules, url, resp)
        }),
    decreases rules.len(),
{
    if rules.len() > 0 {
        lemma_rules_leave_bodies(rules.skip(1), url, rewritten_response(rules[0], url, resp), body);
    }
}

/// A pipeline of tools has one outcome for each response, that of its tools in turn, and lets
/// it through.
pub proof fn law_tools_decide_responses(
    chain: Seq<Tool>,
    before: ResponseView,
    ctx: CtxView,
    after: ResponseView,
    action: ActionView,
)
    ensures
        response_run(chain, before, ctx, after, action) <==> (after == tools_response(
            tool_views(chain),
            ctx.url,
            before,
        ) && action is Continue),
    decreases chain.len(),
{
    if chain.len() > 0 {
        let mid = tool_response(chain[0]@, ctx.url, before);
        assert(chain[0].response_step(before, ctx, mid, ActionView::Continue));
        assert(tool_views(chain).skip(1) =~= tool_views(chain.skip(1)));
        law_tools_decide_responses(chain.skip(1), mid, ctx, after, action);
    }
}

proof fn lemma_blocks_in_turn(block: Seq<RuleView>, rest: Seq<ToolView>, req: RequestView)
    ensures
        tools_request(
            block.map_values(|r: RuleView| ToolView::Block(seq![r])) + rest,
            req,
        ) == (if block_action(block, req.uri) is Continue {
            tools_request(rest, req)
        } else {
            (req, block_action(block, req.uri))
        }),
    decreases block.len(),
{
    let tools = block.map_values(|r: RuleView| ToolView::Block(seq![r])) + rest;
    if block.len() == 0 {
        assert(tools =~= rest);
    } else {
        assert(tools.skip(1) =~= block.skip(1).map_values(
            |r: RuleView| ToolView::Block(seq![r]),
        ) + rest);
        assert(tools[0] == ToolView::Block(seq![block[0]]));
        assert(seq![block[0]].skip(1) =~= Seq::empty());
        assert(block_action(seq![block[0]].skip(1), req.uri) is Continue);
        lemma_blocks_in_turn(block.skip(1), rest, req);
    }
}

/// A request to a blocked URL is answered by the Block List, as it came, whatever else is set
/// up.
pub proof fn law_block_list_comes_first(cfg: ConfigView, req: RequestView)
    requires
        exists|i: int|
            0 <= i < cfg.block.len() && has_text(req.uri, (#[trigger] cfg.block[i]).pattern),
    ensures
        tools_request(request_tools(cfg), req) == (req, block_action(cfg.block, req.uri)),
        block_action(cfg.block, req.uri) is ShortCircuit,
{
    lemma_block_answers(cfg.block, req.uri);
    let blocks = cfg.block.map_values(|r: RuleView| ToolView::Block(seq![r]));
    let rest = request_tools(cfg).skip(blocks.len() as int);
    assert(request_tools(cfg) =~= blocks + rest);
    lemma_blocks_in_turn(cfg.block, rest, req);
}

proof fn lemma_block_answers(rules: Seq<RuleView>, uri: Seq<char>)
    ensures
        (block_action(rules, uri) is ShortCircuit) == exists|i: int|
            0 <= i < rules.len() && has_text(uri, (#[trigger] rules[i]).pattern),
        block_action(rules, uri) is ShortCircuit || block_action(rules, uri) is Continue,
    decreases rules.len(),
{
    if rules.len() > 0 && !has_text(uri, rules[0].pattern) {
        lemma_block_answers(rules.skip(1), uri);
        if exists|i: int| 0 <= i < rules.len() && has_text(uri, (#[trigger] rules[i]).pattern) {
            let i = choose|i: int|
                0 <= i < rules.len() && has_text(uri, (#[trigger] rules[i]).pattern);
            assert(rules.skip(1)[i - 1] == rules[i]);
        }
        if block_action(rules.skip(1), uri) is ShortCircuit {
            let i = choose|i: int|
                0 <= i < rules.skip(1).len() && has_text(
                    uri,
                    (#[trigger] rules.skip(1)[i]).pattern,
                );
            assert(rules[i + 1] == rules.skip(1)[i]);
        }
    }
}

/// The Block List leaves URLs that it does not name to the tools behind it.
pub proof fn law_unblocked_passes(rules: Seq<RuleView>, uri: Seq<char>)
    ensures
        (block_action(rules, uri) is Continue) == forall|i: int|
            0 <= i < rules.len() ==> !has_text(uri, (#[trigger] rules[i]).pattern),
{
    lemma_block_answers(rules, uri);
}

/// With no tool set up, requests and responses pass as they are.
pub proof fn law_no_tools(req: RequestView, url: Seq<char>, resp: ResponseView)
    ensures
        tools_request(request_tools(no_tools()), req) == (req, ActionView::Continue),
        tools_response(response_tools(no_tools()), url, resp) == resp,
{
    assert(request_tools(no_tools()) =~= Seq::empty());
    assert(response_tools(no_tools()) =~= Seq::empty());
}

/// After No Caching, a request asks for a fresh copy and puts no condition on a cached one; its
/// other fields are those that it had, in their order.
pub proof fn law_uncached_request(req: RequestView)
    ensures
        forall|i: int|
            0 <= i < uncached_request(req).headers.len() ==> !begins_if(
                (#[trigger] uncached_request(req).headers[i]).0,
            ),
        uncached_request(req).headers.last() == ("cache-control"@, "no-cache"@),
        (forall|i: int| 0 <= i < req.headers.len() ==> !begins_if((#[trigger] req.headers[i]).0))
            ==> uncached_request(req).headers.drop_last() == req.headers,
        uncached_request(req).uri == req.uri,
        uncached_request(req).method == req.method,
        uncached_request(req).is_connect == req.is_connect,
{
    broadcast use vstd::seq_lib::group_filter_ensures;

    let kept = unconditional(req.headers);
    let keep = |p: (Seq<char>, Seq<char>)| !begins_if(p.0);
    assert forall|i: int| 0 <= i < uncached_request(req).headers.len() implies !begins_if(
        (#[trigger] uncached_request(req).headers[i]).0,
    ) by {
        if i < kept.len() {
            assert(keep(kept[i]));
        } else {
            reveal_strlit("cache-control");
            reveal_strlit("if-");
            lemma_differ_at("cache-control"@.take(3), "if-"@, 0);
        }
    }
    assert(uncached_request(req).headers.drop_last() =~= kept);
    if forall|i: int| 0 <= i < req.headers.len() ==> !begins_if((#[trigger] req.headers[i]).0) {
        headers::lemma_filter_keeps_all(req.headers, keep);
    }
}

/// After No Caching, a response may not be stored and carries nothing that a cache goes by.
pub proof fn law_uncached_response(resp: ResponseView)
    ensures
        !headers::has_field(uncached_response(resp).headers, "etag"@),
        !headers::has_field(uncached_response(resp).headers, "last-modified"@),
        !headers::has_field(uncached_response(resp).headers, "expires"@),
        uncached_response(resp).headers.last() == ("cache-control"@, "no-store"@),
        uncached_response(resp).status == resp.status,
        uncached_response(resp).body == resp.body,
{
    let one = removed(resp.headers, "etag"@);
    let two = removed(one, "last-modified"@);
    let three = removed(two, "expires"@);
    headers::law_removed_is_gone(resp.headers, "etag"@);
    headers::law_removed_is_gone(one, "last-modified"@);
    headers::law_removed_is_gone(two, "expires"@);
    headers::law_removing_adds_nothing(one, "last-modified"@, "etag"@);
    headers::law_removing_adds_nothing(two, "expires"@, "etag"@);
    headers::law_removing_adds_nothing(two, "expires"@, "last-modified"@);
    reveal_strlit("cache-control");
    reveal_strlit("etag");
    reveal_strlit("last-modified");
    reveal_strlit("expires");
    lemma_differ_in_length("cache-control"@, "etag"@);
    lemma_differ_at("cache-control"@, "last-modified"@, 0);
    lemma_differ_in_length("cache-control"@, "expires"@);
}

/// After Block Cookies, no cookie passes in either direction, and a second time changes nothing.
pub proof fn law_cookies_are_blocked(req: RequestView, resp: ResponseView)
    ensures
        !headers::has_field(cookieless_request(req).headers, "cookie"@),
        !headers::has_field(cookieless_response(resp).headers, "set-cookie"@),
        cookieless_request(cookieless_request(req)) == cookieless_request(req),
        cookieless_response(cookieless_response(resp)) == cookieless_response(resp),
{
    headers::law_removed_is_gone(req.headers, "cookie"@);
    headers::law_removed_is_gone(resp.headers, "set-cookie"@);
    headers::law_removing_is_idempotent(req.headers, "cookie"@);
    headers::law_removing_is_idempotent(resp.headers, "set-cookie"@);
}

/// After Map Remote, a request to an absolute URL that was remapped names the new host.
pub proof fn law_remapped_names_new_host(rule: RuleView, req: RequestView)
    requires
        rule.replace is Some,
        has_text(req.uri, rule.pattern),
        authority_of(remapped(rule, req).uri) is Some,
        headers::value_of(req.headers, "host"@) is Some,
    ensures
        headers::value_of(remapped(rule, req).headers, "host"@) == authority_of(
            remapped(rule, req).uri,
        ),
{
    let a = authority_of(remapped(rule, req).uri)->Some_0;
    headers::law_overwritten(req.headers, "host"@, a, "host"@);
}

proof fn lemma_differ_in_length(a: Seq<char>, b: Seq<char>)
    requires
        a.len() != b.len(),
    ensures
        !text::same_ascii(a, b),
{
    assert(a.map_values(|c: char| text::ascii_lower(c)).len() == a.len());
}

proof fn lemma_differ_at(a: Seq<char>, b: Seq<char>, i: int)
    requires
        0 <= i < a.len(),
        i < b.len(),
        text::ascii_lower(a[i]) != text::ascii_lower(b[i]),
    ensures
        !text::same_ascii(a, b),
{
    assert(a.map_values(|c: char| text::ascii_lower(c))[i] == text::ascii_lower(a[i]));
    assert(b.map_values(|c: char| text::ascii_lower(c))[i] == text::ascii_lower(b[i]));
}

/// The Block List answers with the first rule whose pattern is in the URL: with the rule's status,
/// or 403 if it has none, and a text that names the pattern.
pub proof fn law_block_list_answers(rules: Seq<RuleView>, uri: Seq<char>, i: int)
    requires
        0 <= i < rules.len(),
        has_text(uri, rules[i].pattern),
        forall|k: int| 0 <= k < i ==> !has_text(uri, (#[trigger] rules[k]).pattern),
    ensures
        block_action(rules, uri) matches ActionView::ShortCircuit(r) && {
            &&& rules[i].status is Some ==> r.status == rules[i].status->0
            &&& rules[i].status is None ==> r.status == 403
            &&& r.reason is None
            &&& r.headers.len() == 1
            &&& r.headers[0] == ("content-type"@, "text/plain"@)
            &&& r.body == encode_utf8("blocked by rproxy: "@ + rules[i].pattern)
        },
    decreases rules.len(),
{
    if i > 0 {
        let rest = rules.skip(1);
        assert(!has_text(uri, rules[0].pattern));
        assert(rest[i - 1] == rules[i]);
        assert forall|k: int| 0 <= k < i - 1 implies !has_text(
            uri,
            (#[trigger] rest[k]).pattern,
        ) by {
            assert(rest[k] == rules[k + 1]);
        }
        law_block_list_answers(rest, uri, i - 1);
    }
}

/// Map Local answers if and only if some rule has a pattern that is in the URL.
pub proof fn law_map_local_answers(rules: Seq<MapLocalView>, uri: Seq<char>)
    ensures
        local_action(rules, uri) is Continue || local_action(rules, uri) is ServeFile,
        local_action(rules, uri) is ServeFile <==> exists|i: int|
            0 <= i < rules.len() && has_text(uri, (#[trigger] rules[i]).pattern),
    decreases rules.len(),
{
    if rules.len() > 0 && !has_text(uri, rules[0].pattern) {
        let rest = rules.skip(1);
        law_map_local_answers(rest, uri);
        if exists|i: int| 0 <= i < rules.len() && has_text(uri, (#[trigger] rules[i]).pattern) {
            let i = choose|i: int|
                0 <= i < rules.len() && has_text(uri, (#[trigger] rules[i]).pattern);
            assert(rest[i - 1] == rules[i]);
        }
        if local_action(rest, uri) is ServeFile {
            let i = choose|i: int|
                0 <= i < rest.len() && has_text(uri, (#[trigger] rest[i]).pattern);
            assert(rules[i + 1] == rest[i]);
        }
    }
}

/// Map Local answers with the file of the first rule whose pattern is in the URL.
pub proof fn law_map_local_takes_the_first(rules: Seq<MapLocalView>, uri: Seq<char>, i: int)
    requires
        0 <= i < rules.len(),
        has_text(uri, rules[i].pattern),
        forall|k: int| 0 <= k < i ==> !has_text(uri, (#[trigger] rules[k]).pattern),
    ensures
        local_action(rules, uri) == ActionView::ServeFile(rules[i]),
    decreases rules.len(),
{
    if i > 0 {
        let rest = rules.skip(1);
        assert(!has_text(uri, rules[0].pattern));
        assert(rest[i - 1] == rules[i]);
        assert forall|k: int| 0 <= k < i - 1 implies !has_text(
            uri,
            (#[trigger] rest[k]).pattern,
        ) by {
            assert(rest[k] == rules[k + 1]);
        }
        law_map_local_takes_the_first(rest, uri, i - 1);
    }
}

/// When Map Local answers, it is with the file of a rule whose pattern is in the URL while that of
/// no rule before it is.
pub proof fn law_map_local_answers_with_a_rule(rules: Seq<MapLocalView>, uri: Seq<char>)
    requires
        local_action(rules, uri) is ServeFile,
    ensures
        exists|i: int|
            #![trigger rules[i]]
            0 <= i < rules.len() && local_action(rules, uri) == ActionView::ServeFile(rules[i])
                && has_text(uri, rules[i].pattern) && forall|k: int|
                0 <= k < i ==> !has_text(uri, (#[trigger] rules[k]).pattern),
    decreases rules.len(),
{
    if has_text(uri, rules[0].pattern) {
        assert(local_action(rules, uri) == ActionView::ServeFile(rules[0]));
    } else {
        let rest = rules.skip(1);
        law_map_local_answers_with_a_rule(rest, uri);
        let i = choose|i: int|
            #![trigger rest[i]]
            0 <= i < rest.len() && local_action(rest, uri) == ActionView::ServeFile(rest[i])
                && has_text(uri, rest[i].pattern) && forall|k: int|
                0 <= k < i ==> !has_text(uri, (#[trigger] rest[k]).pattern);
        assert(rules[i + 1] == rest[i]);
        assert forall|k: int| 0 <= k < i + 1 implies !has_text(
            uri,
            (#[trigger] rules[k]).pattern,
        ) by {
            if k > 0 {
                assert(rules[k] == rest[k - 1]);
            }
        }
    }
}

/// A file that could be read is served as it is, with the rule's status, or 200 if it has none,
/// and the rule's content type, or that of the file's name.
pub proof fn law_file_is_served(rule: MapLocalView, body: Seq<u8>)
    ensures
        ({
            let r = file_response(rule, Ok(body));
            &&& rule.status is Some ==> r.status == rule.status->0
            &&& rule.status is None ==> r.status == 200
            &&& r.reason is None
            &&& r.headers.len() == 1
            &&& r.headers[0].0 == "content-type"@
            &&& rule.content_type is Some ==> r.headers[0].1 == rule.content_type->0
            &&& rule.content_type is None ==> r.headers[0].1 == mime_of(rule.file)
            &&& r.body == body
        }),
{
}

/// A file that could not be read is answered with 500 and a text that names it and the error.
pub proof fn law_unread_file_is_told(rule: MapLocalView, error: Seq<char>)
    ensures
        ({
            let r = file_response(rule, Err(error));
            &&& r.status == 500
            &&& r.reason is None
            &&& r.headers.len() == 1
            &&& r.headers[0] == ("content-type"@, "text/plain"@)
            &&& r.body == encode_utf8("map_local: cannot read "@ + rule.file + ": "@ + error)
        }),
{
}

/// The content type goes by what stands behind the last dot of the name, whatever stands before
/// it.
pub proof fn law_mime_goes_by_the_extension(stem: Seq<char>, ext: Seq<char>)
    requires
        !ext.contains('.'),
    ensures
        ({
            let m = mime_of(stem + seq!['.'] + ext);
            &&& ext == "json"@ ==> m == "application/json"@
            &&& ext == "html"@ || ext == "htm"@ ==> m == "text/html"@
            &&& ext == "xml"@ ==> m == "application/xml"@
            &&& ext == "png"@ ==> m == "image/png"@
            &&& ext == "jpg"@ || ext == "jpeg"@ ==> m == "image/jpeg"@
            &&& ext != "json"@ && ext != "html"@ && ext != "htm"@ && ext != "xml"@ && ext != "png"@
                && ext != "jpg"@ && ext != "jpeg"@ ==> m == "application/octet-stream"@
            &&& m == mime_of(ext)
        }),
{
    text::law_after_last(stem, '.', ext);
    reveal_strlit("json");
    reveal_strlit("html");
    reveal_strlit("htm");
    reveal_strlit("xml");
    reveal_strlit("png");
    reveal_strlit("jpg");
    reveal_strlit("jpeg");
    assert("json"@.len() == 4 && "html"@.len() == 4 && "htm"@.len() == 3 && "xml"@.len() == 3
        && "png"@.len() == 3 && "jpg"@.len() == 3 && "jpeg"@.len() == 4);
    assert("json"@[0] == 'j' && "json"@[1] == 's' && "html"@[0] == 'h' && "htm"@[0] == 'h'
        && "xml"@[0] == 'x' && "png"@[0] == 'p' && "jpg"@[0] == 'j' && "jpeg"@[0] == 'j'
        && "jpeg"@[1] == 'p');
}

/// The authority of an `http` or `https` URI is what stands behind the scheme up to the first
/// slash; no other URI has one.
pub proof fn law_authority_of(host: Seq<char>, tail: Seq<char>, uri: Seq<char>)
    requires
        !host.contains('/'),
    ensures
        authority_of("https://"@ + host) == Some(host),
        authority_of("http://"@ + host) == Some(host),
        authority_of("https://"@ + host + seq!['/'] + tail) == Some(host),
        authority_of("http://"@ + host + seq!['/'] + tail) == Some(host),
        authority_of(uri) is Some <==> "https://"@.is_prefix_of(uri) || "http://"@.is_prefix_of(
            uri,
        ),
{
    let rest = host + seq!['/'] + tail;
    text::law_before_first(host, '/', tail);
    text::law_stripped("https://"@, host, uri);
    text::law_stripped("http://"@, host, uri);
    text::law_stripped("https://"@, rest, uri);
    text::law_stripped("http://"@, rest, uri);
    assert("https://"@ + host + seq!['/'] + tail =~= "https://"@ + rest);
    assert("http://"@ + host + seq!['/'] + tail =~= "http://"@ + rest);
    reveal_strlit("https://");
    reveal_strlit("http://");
    assert("https://"@.len() == 8 && "https://"@[4] == 's');
    assert("http://"@.len() == 7 && "http://"@[4] == ':');
    let a = "http://"@ + host;
    let b = "http://"@ + rest;
    assert(a[4] == ':' && b[4] == ':');
    assert(!"https://"@.is_prefix_of(a)) by {
        if "https://"@.is_prefix_of(a) {
            assert(a.subrange(0, 8)[4] == 's');
        }
    }
    assert(!"https://"@.is_prefix_of(b)) by {
        if "https://"@.is_prefix_of(b) {
            assert(b.subrange(0, 8)[4] == 's');
        }
    }
}

/// A Map Remote rule puts its replacement where its pattern first stands in the URL, and gives the
/// new host to the Host headers; all else stays as it is.
pub proof fn law_remapped(
    rule: RuleView,
    req: RequestView,
    a: Seq<char>,
    b: Seq<char>,
    new: Seq<char>,
    i: int,
)
    requires
        rule.replace == Some(new),
        req.uri == a + rule.pattern + b,
        forall|x: Seq<char>, y: Seq<char>|
            req.uri == #[trigger] (x + rule.pattern + y) ==> a.len() <= x.len(),
        0 <= i < req.headers.len(),
    ensures
        remapped(rule, req).uri == a + new + b,
        remapped(rule, req).method == req.method,
        remapped(rule, req).is_connect == req.is_connect,
        remapped(rule, req).headers.len() == req.headers.len(),
        remapped(rule, req).headers[i].0 == req.headers[i].0,
        text::same_ascii(req.headers[i].0, "host"@) && authority_of(a + new + b) is Some
            ==> remapped(rule, req).headers[i].1 == authority_of(a + new + b)->0,
        !text::same_ascii(req.headers[i].0, "host"@) || authority_of(a + new + b) is None
            ==> remapped(rule, req).headers[i].1 == req.headers[i].1,
{
    text::law_has_text(a, rule.pattern, b, req.uri);
    text::law_replaced_first(a, rule.pattern, b, new);
    if authority_of(a + new + b) is Some {
        headers::law_overwritten_in_place(
            req.headers,
            "host"@,
            authority_of(a + new + b)->0,
            i,
        );
    }
}

/// A Map Remote rule without a replacement, or whose pattern is not in the URL, does nothing.
pub proof fn law_not_remapped(rule: RuleView, req: RequestView)
    requires
        rule.replace is None || !has_text(req.uri, rule.pattern),
    ensures
        remapped(rule, req) == req,
{
}

/// The rules of Map Remote are applied one after the other, each to what the one before it left.
pub proof fn law_remapped_in_turn(
    a: Seq<RuleView>,
    rule: RuleView,
    b: Seq<RuleView>,
    req: RequestView,
)
    ensures
        remapped_all(Seq::empty(), req) == req,
        remapped_all(seq![rule], req) == remapped(rule, req),
        remapped_all(a + b, req) == remapped_all(b, remapped_all(a, req)),
    decreases a.len(),
{
    assert(seq![rule].skip(1) =~= Seq::empty());
    assert(remapped_all(seq![rule].skip(1), remapped(rule, req)) == remapped(rule, req));
    if a.len() > 0 {
        assert((a + b).skip(1) =~= a.skip(1) + b);
        law_remapped_in_turn(a.skip(1), rule, b, remapped(a[0], req));
    } else {
        assert(a + b =~= b);
    }
}

/// A condition is a header whose name begins with the letters I and F and a hyphen.
pub proof fn law_begins_if(name: Seq<char>)
    ensures
        begins_if(name) <==> name.len() >= 3 && (name[0] == 'i' || name[0] == 'I') && (name[1]
            == 'f' || name[1] == 'F') && name[2] == '-',
{
    reveal_strlit("if-");
    assert("if-"@.len() == 3 && "if-"@[0] == 'i' && "if-"@[1] == 'f' && "if-"@[2] == '-');
    if name.len() >= 3 {
        let t = name.take(3);
        text::law_same_ascii(t, "if-"@);
        assert(t[0] == name[0] && t[1] == name[1] && t[2] == name[2]);
        if begins_if(name) {
            assert(text::alike(t[0], "if-"@[0]));
            assert(text::alike(t[1], "if-"@[1]));
            assert(text::alike(t[2], "if-"@[2]));
        }
    }
}

/// No Caching looks at each header of a request by itself: a condition goes, any other stays, and
/// the demand for a fresh copy comes last.
pub proof fn law_uncached_field_by_field(
    req: RequestView,
    a: Seq<(Seq<char>, Seq<char>)>,
    f: (Seq<char>, Seq<char>),
    b: Seq<(Seq<char>, Seq<char>)>,
)
    ensures
        ({
            let with = |h: Seq<(Seq<char>, Seq<char>)>|
                uncached_request(RequestView { headers: h, ..req }).headers.drop_last();
            &&& with(a + b) == with(a) + with(b)
            &&& begins_if(f.0) ==> with(seq![f]).len() == 0
            &&& !begins_if(f.0) ==> with(seq![f]) == seq![f]
        }),
{
    let keep = |p: (Seq<char>, Seq<char>)| !begins_if(p.0);
    let demand = ("cache-control"@, "no-cache"@);
    Seq::filter_distributes_over_add(a, b, keep);
    assert(seq![f].filter(keep) =~= (if begins_if(f.0) {
        Seq::empty()
    } else {
        seq![f]
    })) by {
        reveal_with_fuel(Seq::filter, 2);
        assert(seq![f].drop_last() =~= Seq::empty());
        assert(seq![f].drop_last().filter(keep) =~= Seq::empty());
    }
    assert(unconditional(a + b).push(demand).drop_last() =~= unconditional(a) + unconditional(b));
    assert(unconditional(a).push(demand).drop_last() =~= unconditional(a));
    assert(unconditional(b).push(demand).drop_last() =~= unconditional(b));
    assert(unconditional(seq![f]).push(demand).drop_last() =~= unconditional(seq![f]));
}

/// No Caching looks at each header of a response by itself: the validators and the date of expiry
/// go, any other stays, and the ban on storing comes last.
pub proof fn law_unstored_field_by_field(
    resp: ResponseView,
    a: Seq<(Seq<char>, Seq<char>)>,
    f: (Seq<char>, Seq<char>),
    b: Seq<(Seq<char>, Seq<char>)>,
)
    ensures
        ({
            let with = |h: Seq<(Seq<char>, Seq<char>)>|
                uncached_response(ResponseView { headers: h, ..resp }).headers.drop_last();
            let goes = text::same_ascii(f.0, "etag"@) || text::same_ascii(f.0, "last-modified"@)
                || text::same_ascii(f.0, "expires"@);
            &&& with(a + b) == with(a) + with(b)
            &&& goes ==> with(seq![f]).len() == 0
            &&& !goes ==> with(seq![f]) == seq![f]
        }),
        uncached_response(resp).reason == resp.reason,
{
    let ban = ("cache-control"@, "no-store"@);
    let names = seq!["etag"@, "last-modified"@, "expires"@];
    assert(names.drop_last() =~= seq!["etag"@, "last-modified"@]);
    assert(names.drop_last().drop_last() =~= seq!["etag"@]);
    assert(names.drop_last().drop_last().drop_last() =~= Seq::empty());
    assert forall|h: Seq<(Seq<char>, Seq<char>)>| #[trigger]
        uncached_response(ResponseView { headers: h, ..resp }).headers.drop_last()
            == headers::removed_all(h, names) by {
        reveal_with_fuel(headers::removed_all, 4);
        assert(headers::removed_all(h, names).push(ban).drop_last() =~= headers::removed_all(
            h,
            names,
        ));
    }
    headers::law_removed_all_field_by_field(a, b, f, names);
    if text::same_ascii(f.0, "etag"@) {
        assert(text::same_ascii(f.0, names[0]));
    }
    if text::same_ascii(f.0, "last-modified"@) {
        assert(text::same_ascii(f.0, names[1]));
    }
    if text::same_ascii(f.0, "expires"@) {
        assert(text::same_ascii(f.0, names[2]));
    }
}

/// Block Cookies looks at each header by itself, and takes nothing but the cookies.
pub proof fn law_cookies_field_by_field(
    req: RequestView,
    resp: ResponseView,
    a: Seq<(Seq<char>, Seq<char>)>,
    f: (Seq<char>, Seq<char>),
    b: Seq<(Seq<char>, Seq<char>)>,
)
    ensures
        ({
            let asked = |h: Seq<(Seq<char>, Seq<char>)>|
                cookieless_request(RequestView { headers: h, ..req }).headers;
            let answered = |h: Seq<(Seq<char>, Seq<char>)>|
                cookieless_response(ResponseView { headers: h, ..resp }).headers;
            &&& asked(a + b) == asked(a) + asked(b)
            &&& text::same_ascii(f.0, "cookie"@) ==> asked(seq![f]).len() == 0
            &&& !text::same_ascii(f.0, "cookie"@) ==> asked(seq![f]) == seq![f]
            &&& answered(a + b) == answered(a) + answered(b)
            &&& text::same_ascii(f.0, "set-cookie"@) ==> answered(seq![f]).len() == 0
            &&& !text::same_ascii(f.0, "set-cookie"@) ==> answered(seq![f]) == seq![f]
        }),
        cookieless_request(req).uri == req.uri,
        cookieless_request(req).method == req.method,
        cookieless_request(req).is_connect == req.is_connect,
        cookieless_response(resp).status == resp.status,
        cookieless_response(resp).reason == resp.reason,
        cookieless_response(resp).body == resp.body,
{
    headers::law_removed_field_by_field(a, b, f, "cookie"@);
    headers::law_removed_field_by_field(a, b, f, "set-cookie"@);
}

/// A Rewrite rule whose pattern is in the URL sets each of its headers, whatever else it does: the
/// first field of a name that it sets has the value that it sets, unless the rule also removes the
/// name or sets it again.
pub proof fn law_rewritten_headers_are_set(rule: RewriteView, req: RequestView, i: int)
    requires
        has_text(req.uri, rule.pattern),
        0 <= i < rule.set_headers.len(),
        forall|k: int|
            0 <= k < rule.remove_headers.len() ==> !text::same_ascii(
                rule.set_headers[i].0,
                #[trigger] rule.remove_headers[k],
            ),
        forall|k: int|
            0 <= k < rule.set_headers.len() && k != i ==> !text::same_ascii(
                rule.set_headers[i].0,
                (#[trigger] rule.set_headers[k]).0,
            ),
    ensures
        headers::value_of(rewritten_request(rule, req).headers, rule.set_headers[i].0) == Some(
            rule.set_headers[i].1,
        ),
{
    headers::law_upserted_all_are_found(req.headers, rule.set_headers, i);
    headers::law_removed_all(
        upserted_all(req.headers, rule.set_headers),
        rule.remove_headers,
        rule.set_headers[i].0,
    );
}

/// A Rewrite rule whose pattern is in the URL leaves no header of a name that it removes, and
/// leaves the first field of a name that it neither sets nor removes as it was.
pub proof fn law_rewritten_headers_are_removed(
    rule: RewriteView,
    req: RequestView,
    name: Seq<char>,
)
    requires
        has_text(req.uri, rule.pattern),
    ensures
        (exists|k: int|
            0 <= k < rule.remove_headers.len() && text::same_ascii(
                name,
                #[trigger] rule.remove_headers[k],
            )) ==> headers::value_of(rewritten_request(rule, req).headers, name) is None,
        (forall|k: int|
            0 <= k < rule.remove_headers.len() ==> !text::same_ascii(
                name,
                #[trigger] rule.remove_headers[k],
            )) && (forall|k: int|
            0 <= k < rule.set_headers.len() ==> !text::same_ascii(
                name,
                (#[trigger] rule.set_headers[k]).0,
            )) ==> headers::value_of(rewritten_request(rule, req).headers, name)
            == headers::value_of(req.headers, name),
{
    let set = upserted_all(req.headers, rule.set_headers);
    headers::law_removed_all(set, rule.remove_headers, name);
    if forall|k: int|
        0 <= k < rule.set_headers.len() ==> !text::same_ascii(
            name,
            (#[trigger] rule.set_headers[k]).0,
        ) {
        headers::law_upserted_all_keeps_others(req.headers, rule.set_headers, name);
    }
}

/// A Rewrite rule that only removes headers looks at each by itself; one that only sets them sets
/// them one after the other.
pub proof fn law_rewritten_in_order(
    rule: RewriteView,
    req: RequestView,
    a: Seq<(Seq<char>, Seq<char>)>,
    f: (Seq<char>, Seq<char>),
    b: Seq<(Seq<char>, Seq<char>)>,
)
    requires
        has_text(req.uri, rule.pattern),
    ensures
        ({
            let taken = |h: Seq<(Seq<char>, Seq<char>)>|
                rewritten_request(
                    RewriteView { set_headers: Seq::empty(), ..rule },
                    RequestView { headers: h, ..req },
                ).headers;
            let given = |s: Seq<(Seq<char>, Seq<char>)>, h: Seq<(Seq<char>, Seq<char>)>|
                rewritten_request(
                    RewriteView { set_headers: s, remove_headers: Seq::empty(), ..rule },
                    RequestView { headers: h, ..req },
                ).headers;
            &&& taken(a + b) == taken(a) + taken(b)
            &&& (exists|k: int|
                0 <= k < rule.remove_headers.len() && text::same_ascii(
                    f.0,
                    #[trigger] rule.remove_headers[k],
                )) ==> taken(seq![f]).len() == 0
            &&& (forall|k: int|
                0 <= k < rule.remove_headers.len() ==> !text::same_ascii(
                    f.0,
                    #[trigger] rule.remove_headers[k],
                )) ==> taken(seq![f]) == seq![f]
            &&& given(Seq::empty(), req.headers) == req.headers
            &&& given(seq![f], req.headers) == headers::upserted(req.headers, f.0, f.1)
            &&& given(a + b, req.headers) == given(b, given(a, req.headers))
        }),
{
    headers::law_removed_all_field_by_field(a, b, f, rule.remove_headers);
    headers::law_upserted_in_turn(req.headers, a, b, f);
    assert forall|h: Seq<(Seq<char>, Seq<char>)>| #[trigger]
        upserted_all(h, Seq::empty()) == h by {}
    assert forall|h: Seq<(Seq<char>, Seq<char>)>| #[trigger]
        removed_all(h, Seq::empty()) == h by {}
}

/// A Rewrite rule replaces in the URL what it is told to, wherever it stands, and nothing where it
/// is told nothing; it leaves the method. One whose pattern is not in the URL does nothing.
pub proof fn law_rewritten_url(rule: RewriteView, req: RequestView)
    ensures
        rewritten_request(rule, req).method == req.method,
        rewritten_request(rule, req).is_connect == req.is_connect,
        !has_text(req.uri, rule.pattern) ==> rewritten_request(rule, req) == req,
        rule.url_replace is None ==> rewritten_request(rule, req).uri == req.uri,
        has_text(req.uri, rule.pattern) ==> (rule.url_replace matches Some(u)
            ==> rewritten_request(rule, req).uri == replaced_all(req.uri, u.0, u.1)),
{
}

/// The rules of Rewrite are applied one after the other, each to what the one before it left.
pub proof fn law_rewritten_in_turn(
    a: Seq<RewriteView>,
    rule: RewriteView,
    b: Seq<RewriteView>,
    req: RequestView,
)
    ensures
        rewritten_requests(Seq::empty(), req) == req,
        rewritten_requests(seq![rule], req) == rewritten_request(rule, req),
        rewritten_requests(a + b, req) == rewritten_requests(b, rewritten_requests(a, req)),
    decreases a.len(),
{
    let one = rewritten_request(rule, req);
    assert(seq![rule].skip(1) =~= Seq::empty());
    assert(rewritten_requests(seq![rule].skip(1), one) == one);
    if a.len() > 0 {
        assert((a + b).skip(1) =~= a.skip(1) + b);
        law_rewritten_in_turn(a.skip(1), rule, b, rewritten_request(a[0], req));
    } else {
        assert(a + b =~= b);
    }
}

/// A Rewrite rule whose pattern is in the URL gives the response its status, or leaves it the one
/// that it has, and sets each of its response headers; it leaves the rest. One whose pattern is not
/// in the URL does nothing.
pub proof fn law_rewritten_response(
    rule: RewriteView,
    url: Seq<char>,
    resp: ResponseView,
    i: int,
    name: Seq<char>,
)
    ensures
        ({
            let r = rewritten_response(rule, url, resp);
            &&& r.body == resp.body
            &&& r.reason == resp.reason
            &&& !has_text(url, rule.pattern) ==> r == resp
            &&& rule.set_status is None ==> r.status == resp.status
            &&& has_text(url, rule.pattern) && rule.set_status is Some ==> r.status
                == rule.set_status->0
            &&& has_text(url, rule.pattern) && 0 <= i < rule.set_response_headers.len()
                && (forall|k: int|
                i < k < rule.set_response_headers.len() ==> !text::same_ascii(
                    rule.set_response_headers[i].0,
                    (#[trigger] rule.set_response_headers[k]).0,
                )) ==> headers::value_of(r.headers, rule.set_response_headers[i].0) == Some(
                rule.set_response_headers[i].1,
            )
            &&& (forall|k: int|
                0 <= k < rule.set_response_headers.len() ==> !text::same_ascii(
                    name,
                    (#[trigger] rule.set_response_headers[k]).0,
                )) ==> headers::value_of(r.headers, name) == headers::value_of(resp.headers, name)
        }),
{
    let set = rule.set_response_headers;
    if 0 <= i < set.len() && (forall|k: int|
        i < k < set.len() ==> !text::same_ascii(set[i].0, (#[trigger] set[k]).0)) {
        headers::law_upserted_all_are_found(resp.headers, set, i);
    }
    if forall|k: int| 0 <= k < set.len() ==> !text::same_ascii(name, (#[trigger] set[k]).0) {
        headers::law_upserted_all_keeps_others(resp.headers, set, name);
    }
}

/// A Rewrite rule sets its response headers one after the other, each in the first field of its
/// name or in a new last one.
pub proof fn law_rewritten_response_in_order(
    rule: RewriteView,
    url: Seq<char>,
    resp: ResponseView,
    a: Seq<(Seq<char>, Seq<char>)>,
    f: (Seq<char>, Seq<char>),
    b: Seq<(Seq<char>, Seq<char>)>,
)
    requires
        has_text(url, rule.pattern),
    ensures
        ({
            let given = |s: Seq<(Seq<char>, Seq<char>)>, h: Seq<(Seq<char>, Seq<char>)>|
                rewritten_response(
                    RewriteView { set_response_headers: s, ..rule },
                    url,
                    ResponseView { headers: h, ..resp },
                ).headers;
            &&& given(Seq::empty(), resp.headers) == resp.headers
            &&& given(seq![f], resp.headers) == headers::upserted(resp.headers, f.0, f.1)
            &&& given(a + b, resp.headers) == given(b, given(a, resp.headers))
        }),
{
    headers::law_upserted_in_turn(resp.headers, a, b, f);
}

/// The rules of Rewrite are applied to a response one after the other.
pub proof fn law_responses_rewritten_in_turn(
    a: Seq<RewriteView>,
    rule: RewriteView,
    b: Seq<RewriteView>,
    url: Seq<char>,
    resp: ResponseView,
)
    ensures
        rewritten_responses(Seq::empty(), url, resp) == resp,
        rewritten_responses(seq![rule], url, resp) == rewritten_response(rule, url, resp),
        rewritten_responses(a + b, url, resp) == rewritten_responses(
            b,
            url,
            rewritten_responses(a, url, resp),
        ),
    decreases a.len(),
{
    let one = rewritten_response(rule, url, resp);
    assert(seq![rule].skip(1) =~= Seq::empty());
    assert(rewritten_responses(seq![rule].skip(1), url, one) == one);
    if a.len() > 0 {
        assert((a + b).skip(1) =~= a.skip(1) + b);
        law_responses_rewritten_in_turn(
            a.skip(1),
            rule,
            b,
            url,
            rewritten_response(a[0], url, resp),
        );
    } else {
        assert(a + b =~= b);
    }
}

proof fn lemma_rules_keep_methods(
    remap: Seq<RuleView>,
    rewrite: Seq<RewriteView>,
    req: RequestView,
)
    ensures
        remapped_all(remap, req).method == req.method,
        remapped_all(remap, req).is_connect == req.is_connect,
        rewritten_requests(rewrite, req).method == req.method,
        rewritten_requests(rewrite, req).is_connect == req.is_connect,
    decreases remap.len() + rewrite.len(),
{
    if remap.len() > 0 {
        lemma_rules_keep_methods(remap.skip(1), Seq::empty(), remapped(remap[0], req));
    }
    if rewrite.len() > 0 {
        lemma_rules_keep_methods(
            Seq::empty(),
            rewrite.skip(1),
            rewritten_request(rewrite[0], req),
        );
    }
}

/// No tool, and no chain of tools, changes the method of a request, nor makes a CONNECT of it.
pub proof fn law_tools_keep_methods(tool: ToolView, tools: Seq<ToolView>, req: RequestView)
    ensures
        tool_request(tool, req).0.method == req.method,
        tool_request(tool, req).0.is_connect == req.is_connect,
        tools_request(tools, req).0.method == req.method,
        tools_request(tools, req).0.is_connect == req.is_connect,
    decreases tools.len(),
{
    if let ToolView::MapRemote(rules) = tool {
        lemma_rules_keep_methods(rules, Seq::empty(), req);
    }
    if let ToolView::Rewrite(rules) = tool {
        lemma_rules_keep_methods(Seq::empty(), rules, req);
    }
    if tools.len() > 0 {
        law_tools_keep_methods(
            tools[0],
            tools.skip(1),
            tool_request(tools[0], req).0,
        );
        if let ToolView::MapRemote(rules) = tools[0] {
            lemma_rules_keep_methods(rules, Seq::empty(), req);
        }
        if let ToolView::Rewrite(rules) = tools[0] {
            lemma_rules_keep_methods(Seq::empty(), rules, req);
        }
    }
}

/// The tools of a chain have their turn in order: those of `b` come after those of `a`, and only
/// where none of `a` answered.
pub proof fn law_tools_in_turn(
    a: Seq<ToolView>,
    tool: ToolView,
    b: Seq<ToolView>,
    req: RequestView,
    url: Seq<char>,
    resp: ResponseView,
)
    ensures
        tools_request(seq![tool], req) == tool_request(tool, req),
        tools_request(a, req).1 is Continue ==> tools_request(a + b, req) == tools_request(
            b,
            tools_request(a, req).0,
        ),
        tools_request(a, req).1 !is Continue ==> tools_request(a + b, req) == tools_request(a, req),
        tools_response(seq![tool], url, resp) == tool_response(tool, url, resp),
        tools_response(a + b, url, resp) == tools_response(b, url, tools_response(a, url, resp)),
    decreases a.len(),
{
    assert(seq![tool].skip(1) =~= Seq::empty());
    assert(tools_request(seq![tool].skip(1), tool_request(tool, req).0) == (
        tool_request(tool, req).0,
        ActionView::Continue,
    ));
    assert(tools_response(seq![tool].skip(1), url, tool_response(tool, url, resp))
        == tool_response(tool, url, resp));
    if a.len() > 0 {
        assert((a + b).skip(1) =~= a.skip(1) + b);
        law_tools_in_turn(
            a.skip(1),
            tool,
            b,
            tool_request(a[0], req).0,
            url,
            tool_response(a[0], url, resp),
        );
    } else {
        assert(a + b =~= b);
    }
}

/// What a set-up makes of a request that neither the Block List nor Map Local answers: Map Remote,
/// Rewrite, No Caching and Block Cookies have their turn, in this order, each as far as it is set
/// up, and the request goes on.
pub proof fn law_set_up_changes_requests(cfg: ConfigView, req: RequestView)
    requires
        forall|i: int|
            0 <= i < cfg.block.len() ==> !has_text(req.uri, (#[trigger] cfg.block[i]).pattern),
        forall|i: int|
            0 <= i < cfg.map_local.len() ==> !has_text(
                req.uri,
                (#[trigger] cfg.map_local[i]).pattern,
            ),
    ensures
        ({
            let mapped = rewritten_requests(cfg.rewrite, remapped_all(cfg.map_remote, req));
            let fresh = if cfg.no_caching {
                uncached_request(mapped)
            } else {
                mapped
            };
            let plain = if cfg.block_cookies {
                cookieless_request(fresh)
            } else {
                fresh
            };
            tools_request(request_tools(cfg), req) == (plain, ActionView::Continue)
        }),
{
    law_unblocked_passes(cfg.block, req.uri);
    law_map_local_answers(cfg.map_local, req.uri);
    let blocks = cfg.block.map_values(|r: RuleView| ToolView::Block(seq![r]));
    let local = single_if(cfg.map_local.len() > 0, ToolView::MapLocal(cfg.map_local));
    let remote = single_if(cfg.map_remote.len() > 0, ToolView::MapRemote(cfg.map_remote));
    let rewrite = single_if(cfg.rewrite.len() > 0, ToolView::Rewrite(cfg.rewrite));
    let fresh = single_if(cfg.no_caching, ToolView::NoCaching);
    let plain = single_if(cfg.block_cookies, ToolView::BlockCookies);
    let rest = local + remote + rewrite + fresh + plain;
    assert(request_tools(cfg) =~= blocks + rest);
    lemma_blocks_in_turn(cfg.block, rest, req);
    lemma_single(cfg.map_local.len() > 0, ToolView::MapLocal(cfg.map_local), req);
    let a = remapped_all(cfg.map_remote, req);
    lemma_single(cfg.map_remote.len() > 0, ToolView::MapRemote(cfg.map_remote), req);
    let b = rewritten_requests(cfg.rewrite, a);
    lemma_single(cfg.rewrite.len() > 0, ToolView::Rewrite(cfg.rewrite), a);
    let c = tools_request(fresh, b).0;
    lemma_single(cfg.no_caching, ToolView::NoCaching, b);
    lemma_single(cfg.block_cookies, ToolView::BlockCookies, c);
    let some = ToolView::NoCaching;
    let gone = uncached_response(arbitrary());
    law_tools_in_turn(local, some, remote, req, req.uri, gone);
    law_tools_in_turn(local + remote, some, rewrite, req, req.uri, gone);
    law_tools_in_turn(local + remote + rewrite, some, fresh, req, req.uri, gone);
    law_tools_in_turn(local + remote + rewrite + fresh, some, plain, req, req.uri, gone);
}

proof fn lemma_single(on: bool, tool: ToolView, req: RequestView)
    ensures
        on ==> tools_request(single_if(on, tool), req) == tool_request(tool, req),
        !on ==> tools_request(single_if(on, tool), req) == (req, ActionView::Continue),
{
    assert(seq![tool].skip(1) =~= Seq::empty());
    let after = tool_request(tool, req).0;
    assert(tools_request(seq![tool].skip(1), after) == (after, ActionView::Continue));
}

/// A request that the Block List lets pass and that Map Local has a rule for is answered with the
/// file of the first such rule, and the request stays as it came.
pub proof fn law_set_up_serves_files(cfg: ConfigView, req: RequestView, i: int)
    requires
        forall|k: int|
            0 <= k < cfg.block.len() ==> !has_text(req.uri, (#[trigger] cfg.block[k]).pattern),
        0 <= i < cfg.map_local.len(),
        has_text(req.uri, cfg.map_local[i].pattern),
        forall|k: int|
            0 <= k < i ==> !has_text(req.uri, (#[trigger] cfg.map_local[k]).pattern),
    ensures
        tools_request(request_tools(cfg), req) == (req, ActionView::ServeFile(cfg.map_local[i])),
{
    law_unblocked_passes(cfg.block, req.uri);
    law_map_local_takes_the_first(cfg.map_local, req.uri, i);
    let blocks = cfg.block.map_values(|r: RuleView| ToolView::Block(seq![r]));
    let rest = request_tools(cfg).skip(blocks.len() as int);
    assert(request_tools(cfg) =~= blocks + rest);
    lemma_blocks_in_turn(cfg.block, rest, req);
    assert(rest[0] == ToolView::MapLocal(cfg.map_local));
}

/// What a set-up makes of a response: Rewrite, No Caching and Block Cookies have their turn, in
/// this order, each as far as it is set up.
pub proof fn law_set_up_changes_responses(cfg: ConfigView, url: Seq<char>, resp: ResponseView)
    ensures
        ({
            let rewritten = rewritten_responses(cfg.rewrite, url, resp);
            let fresh = if cfg.no_caching {
                uncached_response(rewritten)
            } else {
                rewritten
            };
            let plain = if cfg.block_cookies {
                cookieless_response(fresh)
            } else {
                fresh
            };
            tools_response(response_tools(cfg), url, resp) == plain
        }),
{
    let rewrite = single_if(cfg.rewrite.len() > 0, ToolView::Rewrite(cfg.rewrite));
    let fresh = single_if(cfg.no_caching, ToolView::NoCaching);
    let plain = single_if(cfg.block_cookies, ToolView::BlockCookies);
    let some = ToolView::NoCaching;
    let req: RequestView = arbitrary();
    let a = rewritten_responses(cfg.rewrite, url, resp);
    let b = tools_response(fresh, url, a);
    law_tools_in_turn(rewrite, ToolView::Rewrite(cfg.rewrite), fresh, req, url, resp);
    law_tools_in_turn(rewrite + fresh, some, plain, req, url, resp);
    law_tools_in_turn(fresh, ToolView::NoCaching, plain, req, url, a);
    law_tools_in_turn(plain, ToolView::BlockCookies, plain, req, url, b);
}

/// Each tool by itself: the Block List and Map Local answer or let the request pass as it came; the
/// others change it and never answer. Only Rewrite, No Caching and Block Cookies touch a response.
pub proof fn law_each_tool(
    rules: Seq<RuleView>,
    local: Seq<MapLocalView>,
    rewrite: Seq<RewriteView>,
    req: RequestView,
    url: Seq<char>,
    resp: ResponseView,
)
    ensures
        tool_request(ToolView::Block(rules), req) == (req, block_action(rules, req.uri)),
        tool_request(ToolView::MapLocal(local), req) == (req, local_action(local, req.uri)),
        tool_request(ToolView::MapRemote(rules), req) == (
            remapped_all(rules, req),
            ActionView::Continue,
        ),
        tool_request(ToolView::Rewrite(rewrite), req) == (
            rewritten_requests(rewrite, req),
            ActionView::Continue,
        ),
        tool_request(ToolView::NoCaching, req) == (uncached_request(req), ActionView::Continue),
        tool_request(ToolView::BlockCookies, req) == (
            cookieless_request(req),
            ActionView::Continue,
        ),
        tool_response(ToolView::Block(rules), url, resp) == resp,
        tool_response(ToolView::MapLocal(local), url, resp) == resp,
        tool_response(ToolView::MapRemote(rules), url, resp) == resp,
        tool_response(ToolView::Rewrite(rewrite), url, resp) == rewritten_responses(
            rewrite,
            url,
            resp,
        ),
        tool_response(ToolView::NoCaching, url, resp) == uncached_response(resp),
        tool_response(ToolView::BlockCookies, url, resp) == cookieless_response(resp),
{
}

/// What is said of a rule is what its fields hold.
pub proof fn law_rules_are_seen(r: Rule, m: MapLocalRule, w: RewriteRule, u: UrlReplace)
    ensures
        r@.pattern == r.pattern@,
        r@.status == r.status,
        r.replace is Some ==> r@.replace == Some(r.replace->0@),
        r.replace is None ==> r@.replace is None,
        m@.pattern == m.pattern@,
        m@.file == m.file@,
        m@.status == m.status,
        m.content_type is Some ==> m@.content_type == Some(m.content_type->0@),
        m.content_type is None ==> m@.content_type is None,
        w@.pattern == w.pattern@,
        w.url_replace == Some(u) ==> w@.url_replace == Some((u.from@, u.to@)),
        w.url_replace is None ==> w@.url_replace is None,
        w.set_headers is Some ==> w@.set_headers == w.set_headers->0@,
        w.set_headers is None ==> w@.set_headers.len() == 0,
        w@.remove_headers.len() == w.remove_headers@.len(),
        forall|i: int|
            0 <= i < w.remove_headers@.len() ==> #[trigger] w@.remove_headers[i]
                == w.remove_headers@[i]@,
        w.set_response_headers is Some ==> w@.set_response_headers == w.set_response_headers->0@,
        w.set_response_headers is None ==> w@.set_response_headers.len() == 0,
        w@.set_status == w.set_status,
{
}

/// What is said of a set-up, or of a tool, is what its rules say, one by one and in their order.
pub proof fn law_set_ups_are_seen(
    c: ToolsConfig,
    a: Seq<Rule>,
    b: Seq<MapLocalRule>,
    w: Seq<RewriteRule>,
    i: int,
)
    ensures
        c@.block == rule_views(c.block@),
        c@.no_caching == c.no_caching,
        c@.block_cookies == c.block_cookies,
        c@.rewrite == rewrite_views(c.rewrite@),
        c@.map_local == local_views(c.map_local@),
        c@.map_remote == rule_views(c.map_remote@),
        rule_views(a).len() == a.len(),
        0 <= i < a.len() ==> rule_views(a)[i] == a[i]@,
        local_views(b).len() == b.len(),
        0 <= i < b.len() ==> local_views(b)[i] == b[i]@,
        rewrite_views(w).len() == w.len(),
        0 <= i < w.len() ==> rewrite_views(w)[i] == w[i]@,
{
}

/// What is said of a chain is what its tools are set up to do, in their order; and a file that was
/// read is its bytes, one that was not the error.
pub proof fn law_tools_are_seen(
    chain: Seq<Tool>,
    i: int,
    t: Tool,
    bytes: bytes::Bytes,
    error: String,
)
    ensures
        tool_views(chain).len() == chain.len(),
        0 <= i < chain.len() ==> tool_views(chain)[i] == chain[i]@,
        t matches Tool::Block(x) ==> t@ == ToolView::Block(rule_views(x.0@)),
        t matches Tool::MapLocal(x) ==> t@ == ToolView::MapLocal(local_views(x.0@)),
        t matches Tool::MapRemote(x) ==> t@ == ToolView::MapRemote(rule_views(x.0@)),
        t matches Tool::Rewrite(x) ==> t@ == ToolView::Rewrite(rewrite_views(x.0@)),
        t is NoCaching ==> t@ is NoCaching,
        t is BlockCookies ==> t@ is BlockCookies,
        read_view(Ok(bytes)) == Ok::<Seq<u8>, Seq<char>>(bytes_in(bytes)),
        read_view(Err(error)) == Err::<Seq<u8>, Seq<char>>(error@),
{
}

} // verus!
