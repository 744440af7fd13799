//! What the window shows: the rows of traffic, the hosts, and what is selected.

use crate::flow::joined;
use crate::har::status_or_zero;
use crate::headers::fields;
use crate::mcp::{lower, small};
use crate::model::{opt_text, Exchange, ExchangeView, RequestView};
use crate::text;
use crate::text::{
    decimal, has_text, lemma_text_less_total, lemma_text_less_trans, padded, same_ascii,
    split_at_first, stripped, text_less,
};
use vstd::arithmetic::div_mod::lemma_fundamental_div_mod_converse;
use vstd::prelude::*;
use vstd::utf8::is_ascii_chars;

verus! {

// ---------------------------------------------------------------- outside

/// The text that the `Debug` of `std::time::Duration` gives, with one digit behind the point,
/// for this many nanoseconds.
pub uninterp spec fn rounded_duration(nanos: u64) -> Seq<char>;

/// The `Debug` of `std::time::Duration`, with one digit behind the point, depends on the
/// duration alone.
#[verifier::external_body]
fn round_duration(nanos: u64) -> (r: String)
    ensures
        r@ == rounded_duration(nanos),
{
    format!("{:.1?}", std::time::Duration::from_nanos(nanos))
}

// ---------------------------------------------------------------- texts

/// The time of day in UTC, to the millisecond, of a moment in nanoseconds since the start of
/// 1970.
pub open spec fn clock_text(nanos: u64) -> Seq<char> {
    let secs = nanos / 1_000_000_000;
    padded(((secs / 3600) % 24) as nat, 2) + ":"@ + padded(((secs / 60) % 60) as nat, 2) + ":"@
        + padded((secs % 60) as nat, 2) + "."@ + padded(
        ((nanos / 1_000_000) % 1000) as nat,
        3,
    )
}

/// The time of day of a moment.
pub fn now_str(nanos: u64) -> (r: String)
    ensures
        r@ == clock_text(nanos),
{
    let secs: u64 = nanos / 1_000_000_000;
    let mut r = text::padded_text((secs / 3600) % 24, 2);
    r.push_str(":");
    r.push_str(text::padded_text((secs / 60) % 60, 2).as_str());
    r.push_str(":");
    r.push_str(text::padded_text(secs % 60, 2).as_str());
    r.push_str(".");
    r.push_str(text::padded_text((nanos / 1_000_000) % 1000, 3).as_str());
    r
}

/// A dash where nothing is known.
pub open spec fn or_dash(s: Option<Seq<char>>) -> Seq<char> {
    match s {
        Some(x) => x,
        None => "-"@,
    }
}

// ---------------------------------------------------------------- rows

/// One row of the table.
pub struct Row {
    pub id: u32,
    pub locked: bool,
    pub method: String,
    pub host: String,
    pub path: String,
    pub status: u16,
    pub time: String,
    pub duration: String,
}

/// What a row says.
pub struct RowView {
    pub id: u32,
    pub locked: bool,
    pub method: Seq<char>,
    pub host: Seq<char>,
    pub path: Seq<char>,
    pub status: u16,
    pub time: Seq<char>,
    pub duration: Seq<char>,
}

impl View for Row {
    type V = RowView;

    open spec fn view(&self) -> RowView {
        RowView {
            id: self.id,
            locked: self.locked,
            method: self.method@,
            host: self.host@,
            path: self.path@,
            status: self.status,
            time: self.time@,
            duration: self.duration@,
        }
    }
}

impl Clone for Row {
    fn clone(&self) -> (r: Self)
        ensures
            r@ == self@,
    {
        Row {
            id: self.id,
            locked: self.locked,
            method: self.method.clone(),
            host: self.host.clone(),
            path: self.path.clone(),
            status: self.status,
            time: self.time.clone(),
            duration: self.duration.clone(),
        }
    }
}

/// What each of the rows says.
pub open spec fn row_views(s: Seq<Row>) -> Seq<RowView> {
    s.map_values(|r: Row| r@)
}

/// A URI without its scheme.
pub open spec fn schemeless(uri: Seq<char>) -> Seq<char> {
    match stripped(uri, "https://"@) {
        Some(rest) => rest,
        None => match stripped(uri, "http://"@) {
            Some(rest) => rest,
            None => uri,
        },
    }
}

/// Host and path of a URI: the host ends at the first slash behind the scheme.
pub open spec fn host_and_path(uri: Seq<char>) -> (Seq<char>, Seq<char>) {
    match split_at_first(schemeless(uri), '/') {
        Some((host, path)) => (host, "/"@ + path),
        None => (schemeless(uri), "/"@),
    }
}

/// Method, host and path of a request, and whether it is a tunnel.
pub open spec fn row_heading(r: Option<RequestView>) -> (Seq<char>, Seq<char>, Seq<char>, bool) {
    match r {
        Some(q) => if q.is_connect {
            ("CONNECT"@, q.uri, "*"@, true)
        } else {
            (q.method, host_and_path(q.uri).0, host_and_path(q.uri).1, false)
        },
        None => ("-"@, "-"@, "-"@, false),
    }
}

/// The row of an exchange that has ended, shown at this moment.
pub open spec fn row_of(e: ExchangeView, now: u64) -> RowView {
    let (method, host, path, locked) = row_heading(e.request);
    RowView {
        id: (e.id.0 as int % 0x1_0000_0000) as u32,
        locked,
        method,
        host,
        path,
        status: status_or_zero(e),
        time: clock_text(now),
        duration: or_dash(
            match e.timing.elapsed() {
                Some(n) => Some(rounded_duration(n)),
                None => None,
            },
        ),
    }
}

fn split_uri(uri: &str) -> (r: (String, String))
    ensures
        (r.0@, r.1@) == host_and_path(uri@),
{
    let rest = match text::strip_prefix(uri, "https://") {
        Some(s) => s,
        None => match text::strip_prefix(uri, "http://") {
            Some(s) => s,
            None => uri.to_string(),
        },
    };
    match text::split_once(rest.as_str(), '/') {
        Some((host, path)) => {
            let mut p = "/".to_string();
            p.push_str(path.as_str());
            (host, p)
        },
        None => (rest, "/".to_string()),
    }
}

/// What a row says of the traffic in its address.
pub open spec fn row_url(r: RowView) -> Seq<char> {
    (if r.locked {
        "https"@
    } else {
        "http"@
    }) + "://"@ + r.host + r.path
}

impl Row {
    /// The row of an exchange that has ended, shown at this moment.
    pub fn from(ex: &Exchange, now: u64) -> (r: Self)
        ensures
            r@ == row_of(ex@, now),
    {
        let (method, host, path, locked) = match &ex.request {
            Some(q) => {
                if q.is_connect {
                    ("CONNECT".to_string(), q.uri.clone(), "*".to_string(), true)
                } else {
                    let (h, p) = split_uri(q.uri.as_str());
                    (q.method.clone(), h, p, false)
                }
            },
            None => ("-".to_string(), "-".to_string(), "-".to_string(), false),
        };
        let status: u16 = match ex.response_status {
            Some(s) => s,
            None => 0,
        };
        let duration = match ex.timing.total() {
            Some(n) => round_duration(n),
            None => "-".to_string(),
        };
        Row {
            id: (ex.id.0 % 0x1_0000_0000) as u32,
            locked,
            method,
            host,
            path,
            status,
            time: now_str(now),
            duration,
        }
    }

    /// The address of the traffic.
    pub fn url(&self) -> (r: String)
        ensures
            r@ == row_url(self@),
    {
        let mut r = if self.locked {
            "https".to_string()
        } else {
            "http".to_string()
        };
        r.push_str("://");
        r.push_str(self.host.as_str());
        r.push_str(self.path.as_str());
        r
    }
}

// ---------------------------------------------------------------- colours

/// A colour: red, green and blue, or the plain grey of the window.
#[derive(Debug, Clone, Copy, PartialEq, Eq, Structural)]
pub enum Paint {
    Rgb(u8, u8, u8),
    Gray,
}

/// The colour behind a method.
pub open spec fn method_paint(method: Seq<char>) -> Paint {
    if method == "GET"@ {
        Paint::Rgb(58, 143, 214)
    } else if method == "POST"@ {
        Paint::Rgb(58, 161, 90)
    } else if method == "PUT"@ {
        Paint::Rgb(181, 134, 42)
    } else if method == "DELETE"@ {
        Paint::Rgb(192, 70, 63)
    } else if method == "PATCH"@ {
        Paint::Rgb(122, 92, 201)
    } else if method == "CONNECT"@ {
        Paint::Rgb(120, 120, 130)
    } else {
        Paint::Gray
    }
}

/// The colour behind a method.
pub fn method_color(method: &str) -> (r: Paint)
    ensures
        r == method_paint(method@),
{
    if text::same(method, "GET") {
        Paint::Rgb(58, 143, 214)
    } else if text::same(method, "POST") {
        Paint::Rgb(58, 161, 90)
    } else if text::same(method, "PUT") {
        Paint::Rgb(181, 134, 42)
    } else if text::same(method, "DELETE") {
        Paint::Rgb(192, 70, 63)
    } else if text::same(method, "PATCH") {
        Paint::Rgb(122, 92, 201)
    } else if text::same(method, "CONNECT") {
        Paint::Rgb(120, 120, 130)
    } else {
        Paint::Gray
    }
}

/// The colour of a status: success, redirection, none at all, trouble.
pub open spec fn status_paint(status: u16) -> Paint {
    if 200 <= status <= 299 {
        Paint::Rgb(46, 158, 75)
    } else if 300 <= status <= 399 {
        Paint::Rgb(201, 138, 26)
    } else if status == 0 {
        Paint::Gray
    } else {
        Paint::Rgb(208, 64, 58)
    }
}

/// The colour of a status.
pub fn status_color(status: u16) -> (r: Paint)
    ensures
        r == status_paint(status),
{
    if 200 <= status && status <= 299 {
        Paint::Rgb(46, 158, 75)
    } else if 300 <= status && status <= 399 {
        Paint::Rgb(201, 138, 26)
    } else if status == 0 {
        Paint::Gray
    } else {
        Paint::Rgb(208, 64, 58)
    }
}

// ---------------------------------------------------------------- hosts

/// One host, with the traffic that it had.
pub struct Host {
    pub name: String,
    pub secure: bool,
    pub count: u32,
}

/// What is said of a host.
pub struct HostView {
    pub name: Seq<char>,
    pub secure: bool,
    pub count: u32,
}

impl View for Host {
    type V = HostView;

    open spec fn view(&self) -> HostView {
        HostView { name: self.name@, secure: self.secure, count: self.count }
    }
}

impl Clone for Host {
    fn clone(&self) -> (r: Self)
        ensures
            r@ == self@,
    {
        Host { name: self.name.clone(), secure: self.secure, count: self.count }
    }
}

/// What is said of each of the hosts.
pub open spec fn host_views(s: Seq<Host>) -> Seq<HostView> {
    s.map_values(|h: Host| h@)
}

/// How many of the rows are of this host.
pub open spec fn visits(rows: Seq<RowView>, name: Seq<char>) -> nat
    decreases rows.len(),
{
    if rows.len() == 0 {
        0
    } else if rows.last().host == name {
        visits(rows.drop_last(), name) + 1
    } else {
        visits(rows.drop_last(), name)
    }
}

/// Whether the first of the rows of this host is that of a tunnel.
pub open spec fn first_locked(rows: Seq<RowView>, name: Seq<char>) -> bool
    decreases rows.len(),
{
    if rows.len() == 0 {
        false
    } else if visits(rows.drop_last(), name) > 0 {
        first_locked(rows.drop_last(), name)
    } else {
        rows.last().locked
    }
}

/// What is said of this host.
pub open spec fn host_of(rows: Seq<RowView>, name: Seq<char>) -> HostView {
    HostView {
        name,
        secure: first_locked(rows, name),
        count: visits(rows, name) as u32,
    }
}

/// The first stands before the second: it had more traffic, or as much and its name comes first.
pub open spec fn ahead(a: HostView, b: HostView) -> bool {
    a.count > b.count || a.count == b.count && text_less(a.name, b.name)
}

/// Each host stands before those behind it.
pub open spec fn ranked(hosts: Seq<HostView>) -> bool {
    forall|i: int, j: int|
        0 <= i < j < hosts.len() ==> ahead(#[trigger] hosts[i], #[trigger] hosts[j])
}

/// The hosts are those of the rows: each is said what the rows say of it, and none is missing.
pub open spec fn of_rows(hosts: Seq<HostView>, rows: Seq<RowView>) -> bool {
    &&& forall|k: int|
        0 <= k < hosts.len() ==> #[trigger] hosts[k] == host_of(rows, hosts[k].name)
            && visits(rows, hosts[k].name) > 0
    &&& forall|i: int| 0 <= i < rows.len() ==> named(hosts, (#[trigger] rows[i]).host)
}

/// One of the hosts has this name.
pub open spec fn named(hosts: Seq<HostView>, name: Seq<char>) -> bool {
    exists|k: int| 0 <= k < hosts.len() && (#[trigger] hosts[k]).name == name
}

/// No two hosts have the same name.
pub open spec fn distinct(hosts: Seq<HostView>) -> bool {
    forall|i: int, j: int|
        0 <= i < j < hosts.len() ==> (#[trigger] hosts[i]).name != (#[trigger] hosts[j]).name
}

/// The hosts of the rows, row by row.
pub open spec fn row_hosts(rows: Seq<RowView>) -> Seq<Seq<char>> {
    rows.map_values(|r: RowView| r.host)
}

/// How often a name is among the names.
pub open spec fn times(names: Seq<Seq<char>>, name: Seq<char>) -> nat
    decreases names.len(),
{
    if names.len() == 0 {
        0
    } else if names.last() == name {
        times(names.drop_last(), name) + 1
    } else {
        times(names.drop_last(), name)
    }
}

/// No name is among the names more often than can be counted.
pub open spec fn countable(names: Seq<Seq<char>>) -> bool {
    forall|n: Seq<char>| #[trigger] times(names, n) <= u32::MAX
}

proof fn lemma_visits(rows: Seq<RowView>, name: Seq<char>)
    ensures
        visits(rows, name) == times(row_hosts(rows), name),
    decreases rows.len(),
{
    if rows.len() > 0 {
        lemma_visits(rows.drop_last(), name);
        assert(row_hosts(rows).drop_last() =~= row_hosts(rows.drop_last()));
        assert(row_hosts(rows).last() == rows.last().host);
    }
}

proof fn lemma_visits_grow(rows: Seq<RowView>, k: int, name: Seq<char>)
    requires
        0 <= k <= rows.len(),
    ensures
        visits(rows.take(k), name) <= visits(rows, name),
    decreases rows.len(),
{
    if k < rows.len() {
        lemma_visits_grow(rows.drop_last(), k, name);
        assert(rows.drop_last().take(k) =~= rows.take(k));
    } else {
        assert(rows.take(k) =~= rows);
    }
}

fn find_host(hosts: &Vec<Host>, name: &str) -> (r: Option<usize>)
    ensures
        match r {
            Some(k) => k < hosts@.len() && hosts@[k as int].name@ == name@,
            None => !named(host_views(hosts@), name@),
        },
{
    let mut k: usize = 0;
    while k < hosts.len()
        invariant
            k <= hosts@.len(),
            forall|j: int| 0 <= j < k ==> (#[trigger] hosts@[j]).name@ != name@,
        decreases hosts@.len() - k,
    {
        if text::same(hosts[k].name.as_str(), name) {
            return Some(k);
        }
        k += 1;
    }
    assert(forall|j: int|
        0 <= j < hosts@.len() ==> (#[trigger] host_views(hosts@)[j]).name == hosts@[j].name@);
    None
}

/// The hosts of the rows, in the order in which they first appear.
fn count_hosts(rows: &Vec<Row>) -> (r: Vec<Host>)
    requires
        countable(row_hosts(row_views(rows@))),
    ensures
        distinct(host_views(r@)),
        of_rows(host_views(r@), row_views(rows@)),
{
    let ghost all = row_views(rows@);
    let mut v: Vec<Host> = Vec::new();
    let mut i: usize = 0;
    while i < rows.len()
        invariant
            i <= rows@.len(),
            countable(row_hosts(all)),
            all == row_views(rows@),
            distinct(host_views(v@)),
            of_rows(host_views(v@), all.take(i as int)),
        decreases rows@.len() - i,
    {
        let ghost seen = all.take(i as int);
        let ghost next = all.take(i + 1);
        let ghost before = host_views(v@);
        let ghost name = rows@[i as int].host@;
        proof {
            assert(next.drop_last() =~= seen);
            assert(next.last() == all[i as int]);
            assert forall|n: Seq<char>| n != name implies #[trigger] host_of(next, n) == host_of(
                seen,
                n,
            ) || visits(seen, n) == 0 by {}
            lemma_visits_grow(all, i + 1, name);
            lemma_visits(all, name);
        }
        match find_host(&v, rows[i].host.as_str()) {
            Some(k) => {
                proof {
                    assert(before[k as int] == host_of(seen, name));
                }
                let h = Host {
                    name: v[k].name.clone(),
                    secure: v[k].secure,
                    count: v[k].count + 1,
                };
                v.set(k, h);
                proof {
                    let after = host_views(v@);
                    assert(after =~= before.update(k as int, host_of(next, name)));
                    assert forall|r: int| 0 <= r < next.len() implies named(
                        after,
                        (#[trigger] next[r]).host,
                    ) by {
                        if r < i {
                            assert(seen[r] == next[r]);
                            let j = choose|j: int|
                                0 <= j < before.len() && (#[trigger] before[j]).name
                                    == seen[r].host;
                            assert(after[j].name == before[j].name);
                        } else {
                            assert(after[k as int].name == name);
                        }
                    }
                }
            },
            None => {
                proof {
                    lemma_unnamed(before, seen, name);
                }
                v.push(
                    Host { name: rows[i].host.clone(), secure: rows[i].locked, count: 1 },
                );
                proof {
                    let after = host_views(v@);
                    assert(after =~= before.push(host_of(next, name)));
                    assert forall|r: int| 0 <= r < next.len() implies named(
                        after,
                        (#[trigger] next[r]).host,
                    ) by {
                        if r < i {
                            assert(seen[r] == next[r]);
                            let j = choose|j: int|
                                0 <= j < before.len() && (#[trigger] before[j]).name
                                    == seen[r].host;
                            assert(after[j].name == before[j].name);
                        } else {
                            assert(after[before.len() as int].name == name);
                        }
                    }
                }
            },
        }
        i += 1;
    }
    assert(all.take(i as int) =~= all);
    v
}

/// A host that is not on the list of the hosts of the rows had no traffic.
proof fn lemma_unnamed(hosts: Seq<HostView>, rows: Seq<RowView>, name: Seq<char>)
    requires
        forall|i: int| 0 <= i < rows.len() ==> named(hosts, (#[trigger] rows[i]).host),
        !named(hosts, name),
    ensures
        visits(rows, name) == 0,
    decreases rows.len(),
{
    if rows.len() > 0 {
        let t = rows.drop_last();
        assert forall|i: int| 0 <= i < t.len() implies named(hosts, (#[trigger] t[i]).host) by {
            assert(t[i] == rows[i]);
        }
        lemma_unnamed(hosts, t, name);
        assert(named(hosts, rows[rows.len() - 1].host));
    }
}

proof fn lemma_ahead_total(a: HostView, b: HostView)
    requires
        a.name != b.name,
    ensures
        ahead(a, b) || ahead(b, a),
{
    lemma_text_less_total(a.name, b.name);
}

proof fn lemma_ahead_trans(a: HostView, b: HostView, c: HostView)
    requires
        ahead(a, b),
        ahead(b, c),
    ensures
        ahead(a, c),
{
    if a.count == b.count && b.count == c.count {
        lemma_text_less_trans(a.name, b.name, c.name);
    }
}

fn is_ahead(a: &Host, b: &Host) -> (r: bool)
    ensures
        r == ahead(a@, b@),
{
    a.count > b.count || a.count == b.count && text::less(a.name.as_str(), b.name.as_str())
}

/// The same hosts, each before those that it stands before.
fn rank_hosts(v: &Vec<Host>) -> (r: Vec<Host>)
    requires
        distinct(host_views(v@)),
    ensures
        ranked(host_views(r@)),
        forall|k: int|
            0 <= k < r@.len() ==> host_views(v@).contains(#[trigger] host_views(r@)[k]),
        forall|k: int|
            0 <= k < v@.len() ==> host_views(r@).contains(#[trigger] host_views(v@)[k]),
{
    let ghost all = host_views(v@);
    let mut out: Vec<Host> = Vec::new();
    let mut i: usize = 0;
    while i < v.len()
        invariant
            i <= v@.len(),
            all == host_views(v@),
            distinct(all),
            ranked(host_views(out@)),
            forall|k: int|
                0 <= k < out@.len() ==> all.take(i as int).contains(
                    #[trigger] host_views(out@)[k],
                ),
            forall|k: int| 0 <= k < i ==> host_views(out@).contains(#[trigger] all[k]),
        decreases v@.len() - i,
    {
        let ghost before = host_views(out@);
        let ghost h = all[i as int];
        let mut p: usize = 0;
        while p < out.len() && is_ahead(&out[p], &v[i])
            invariant
                p <= out@.len(),
                i < v@.len(),
                before == host_views(out@),
                h == v@[i as int]@,
                forall|k: int| 0 <= k < p ==> ahead(#[trigger] before[k], h),
            ensures
                p == out@.len() || !ahead(before[p as int], h),
            decreases out@.len() - p,
        {
            assert(before[p as int] == out@[p as int]@);
            p += 1;
        }
        let c = v[i].clone();
        out.insert(p, c);
        proof {
            let after = host_views(out@);
            let done = all.take(i as int);
            let next = all.take(i + 1);
            assert(after =~= before.insert(p as int, h));
            assert forall|k: int| p <= k < before.len() implies ahead(
                h,
                #[trigger] before[k],
            ) by {
                assert(done.contains(before[p as int]));
                let j = choose|j: int| 0 <= j < done.len() && done[j] == before[p as int];
                assert(all[j].name != all[i as int].name);
                lemma_ahead_total(h, before[p as int]);
                if k > p {
                    lemma_ahead_trans(h, before[p as int], before[k]);
                }
            }
            assert forall|a: int, b: int| 0 <= a < b < after.len() implies ahead(
                #[trigger] after[a],
                #[trigger] after[b],
            ) by {
                let x: int = if a < p {
                    a
                } else {
                    a - 1
                };
                let y: int = if b < p {
                    b
                } else {
                    b - 1
                };
                if a == p {
                    assert(after[b] == before[y]);
                } else if b == p {
                    assert(after[a] == before[x]);
                } else {
                    assert(after[a] == before[x]);
                    assert(after[b] == before[y]);
                }
            }
            assert forall|k: int| 0 <= k < after.len() implies next.contains(
                #[trigger] after[k],
            ) by {
                if k == p {
                    assert(next[i as int] == after[k]);
                } else {
                    let x: int = if k < p {
                        k
                    } else {
                        k - 1
                    };
                    assert(after[k] == before[x]);
                    let j = choose|j: int| 0 <= j < done.len() && done[j] == before[x];
                    assert(next[j] == after[k]);
                }
            }
            assert forall|k: int| 0 <= k < i + 1 implies after.contains(#[trigger] all[k]) by {
                if k == i {
                    assert(after[p as int] == all[k]);
                } else {
                    let j = choose|j: int| 0 <= j < before.len() && before[j] == all[k];
                    let x: int = if j < p {
                        j
                    } else {
                        j + 1
                    };
                    assert(after[x] == all[k]);
                }
            }
        }
        i += 1;
    }
    assert(all.take(i as int) =~= all);
    out
}

/// The hosts of the rows, those with the most traffic first.
pub fn hosts_of(rows: &Vec<Row>) -> (r: Vec<Host>)
    requires
        countable(row_hosts(row_views(rows@))),
    ensures
        ranked(host_views(r@)),
        of_rows(host_views(r@), row_views(rows@)),
{
    let v = count_hosts(rows);
    let r = rank_hosts(&v);
    proof {
        let a = host_views(v@);
        let b = host_views(r@);
        let all = row_views(rows@);
        assert forall|k: int| 0 <= k < b.len() implies #[trigger] b[k] == host_of(all, b[k].name)
            && visits(all, b[k].name) > 0 by {
            let j = choose|j: int| 0 <= j < a.len() && a[j] == b[k];
            assert(a[j] == host_of(all, a[j].name));
        }
        assert forall|i: int| 0 <= i < all.len() implies named(b, (#[trigger] all[i]).host) by {
            let j = choose|j: int| 0 <= j < a.len() && (#[trigger] a[j]).name == all[i].host;
            assert(b.contains(a[j]));
            let k = choose|k: int| 0 <= k < b.len() && b[k] == a[j];
            assert(b[k].name == all[i].host);
        }
    }
    r
}

// ---------------------------------------------------------------- the window

/// What is shown of the selected row.
#[derive(Debug, Clone, Copy, PartialEq, Eq, Structural)]
pub enum Tab {
    Overview,
    Request,
    Response,
    Timing,
}

/// The state of the window.
pub struct App {
    pub port: u16,
    pub recording: bool,
    pub ssl_hint: bool,
    pub filter: String,
    pub sel_host: Option<String>,
    pub tab: Tab,
    pub sel_row: Option<u32>,
    pub rows: Vec<Row>,
    pub hosts: Vec<Host>,
    pub about: bool,
}

/// What the state of the window is.
pub struct AppView {
    pub port: u16,
    pub recording: bool,
    pub ssl_hint: bool,
    pub filter: Seq<char>,
    pub sel_host: Option<Seq<char>>,
    pub tab: Tab,
    pub sel_row: Option<u32>,
    pub rows: Seq<RowView>,
    pub hosts: Seq<HostView>,
    pub about: bool,
}

impl View for App {
    type V = AppView;

    open spec fn view(&self) -> AppView {
        AppView {
            port: self.port,
            recording: self.recording,
            ssl_hint: self.ssl_hint,
            filter: self.filter@,
            sel_host: opt_text(self.sel_host),
            tab: self.tab,
            sel_row: self.sel_row,
            rows: row_views(self.rows@),
            hosts: host_views(self.hosts@),
            about: self.about,
        }
    }
}

/// The rows of exchanges that have ended, each shown at its moment.
pub open spec fn rows_of(s: Seq<(Exchange, u64)>) -> Seq<RowView> {
    s.map_values(|p: (Exchange, u64)| row_of(p.0@, p.1))
}

/// The hosts of exchanges that have ended, one by one.
pub open spec fn arrived_hosts(s: Seq<(Exchange, u64)>) -> Seq<Seq<char>> {
    s.map_values(|p: (Exchange, u64)| row_heading(p.0@.request).1)
}

/// The hosts of the rows of the window, once these exchanges are taken in.
pub open spec fn hosts_with(a: AppView, s: Seq<(Exchange, u64)>) -> Seq<Seq<char>> {
    if a.recording {
        row_hosts(a.rows) + arrived_hosts(s)
    } else {
        row_hosts(a.rows)
    }
}

/// The window without rows and without a selection.
pub open spec fn emptied(a: AppView) -> AppView {
    AppView { rows: Seq::empty(), sel_row: None, sel_host: None, ..a }
}

/// The window without rows, but with its host selected.
pub open spec fn without_rows(a: AppView) -> AppView {
    AppView { rows: Seq::empty(), sel_row: None, ..a }
}

/// The window that takes in traffic if it did not, and does not if it did.
pub open spec fn toggled(a: AppView) -> AppView {
    AppView { recording: !a.recording, ..a }
}

/// The window with this host selected, or with none if it was.
pub open spec fn clicked(a: AppView, name: Seq<char>) -> AppView {
    AppView {
        sel_host: if a.sel_host == Some(name) {
            None
        } else {
            Some(name)
        },
        sel_row: None,
        ..a
    }
}

/// The rows of the window, once these exchanges are taken in.
pub open spec fn rows_with(a: AppView, s: Seq<(Exchange, u64)>) -> Seq<RowView> {
    if a.recording {
        a.rows + rows_of(s)
    } else {
        a.rows
    }
}

/// The row is one that the filter lets through, and of the selected host if one is.
pub open spec fn passes(r: RowView, host: Option<Seq<char>>, filter: Seq<char>) -> bool {
    &&& host is None || r.host == host->0
    &&& filter.len() == 0 || has_text(small(r.host), filter) || has_text(
        small(r.path),
        filter,
    ) || has_text(small(r.method), filter)
}

/// The rows that are shown.
pub open spec fn shown(a: AppView) -> Seq<RowView> {
    a.rows.filter(|r: RowView| passes(r, a.sel_host, small(a.filter)))
}

/// The hosts that are encrypted, or those that are not, in their order.
pub open spec fn hosts_that(hosts: Seq<HostView>, secure: bool) -> Seq<HostView> {
    hosts.filter(|h: HostView| h.secure == secure)
}

/// What each of the rows says.
pub open spec fn ref_views(s: Seq<&Row>) -> Seq<RowView> {
    s.map_values(|r: &Row| r@)
}

/// The row with this id that comes first.
pub open spec fn row_with(rows: Seq<RowView>, id: Option<u32>) -> Option<RowView>
    decreases rows.len(),
{
    if rows.len() == 0 {
        None
    } else if Some(rows[0].id) == id {
        Some(rows[0])
    } else {
        row_with(rows.skip(1), id)
    }
}

/// What is shown of a row under a tab: lines, each with what it is about or with nothing.
pub open spec fn detail_lines(r: RowView, tab: Tab) -> Seq<(Seq<char>, Seq<char>)> {
    match tab {
        Tab::Overview => seq![
            ("URL"@, row_url(r)),
            ("Method"@, r.method),
            ("Status"@, decimal(r.status as nat)),
            ("Host"@, r.host),
            ("Duration"@, r.duration),
        ],
        Tab::Request => seq![
            (""@, r.method + " "@ + r.path + " HTTP/1.1"@),
            (""@, "Host: "@ + r.host),
        ],
        Tab::Response => seq![(""@, "HTTP/1.1 "@ + decimal(r.status as nat))],
        Tab::Timing => seq![(""@, "Total: "@ + r.duration)],
    }
}

/// What is said under the lines of a tab.
pub open spec fn tab_note(tab: Tab) -> Option<Seq<char>> {
    match tab {
        Tab::Request => Some("(тела запросов появятся при захвате тела в ядре)"@),
        Tab::Response => Some("(тела ответов появятся при захвате тела в ядре)"@),
        Tab::Overview => None,
        Tab::Timing => None,
    }
}

impl Tab {
    /// What is said under the lines of the tab.
    pub fn note(self) -> (r: Option<&'static str>)
        ensures
            match r {
                Some(s) => tab_note(self) == Some(s@),
                None => tab_note(self) is None,
            },
    {
        match self {
            Tab::Request => Some("(тела запросов появятся при захвате тела в ядре)"),
            Tab::Response => Some("(тела ответов появятся при захвате тела в ядре)"),
            Tab::Overview => None,
            Tab::Timing => None,
        }
    }
}

fn line(about: &str, text: String) -> (r: (String, String))
    ensures
        (r.0@, r.1@) == (about@, text@),
{
    (about.to_string(), text)
}

impl Row {
    /// What is shown of the row under a tab.
    pub fn detail(&self, tab: Tab) -> (r: Vec<(String, String)>)
        ensures
            fields(r@) == detail_lines(self@, tab),
    {
        let mut v: Vec<(String, String)> = Vec::new();
        match tab {
            Tab::Overview => {
                v.push(line("URL", self.url()));
                v.push(line("Method", self.method.clone()));
                v.push(line("Status", text::decimal_text(self.status as u64)));
                v.push(line("Host", self.host.clone()));
                v.push(line("Duration", self.duration.clone()));
            },
            Tab::Request => {
                let mut first = joined(self.method.as_str(), " ");
                first.push_str(self.path.as_str());
                first.push_str(" HTTP/1.1");
                v.push(line("", first));
                v.push(line("", joined("Host: ", self.host.as_str())));
            },
            Tab::Response => {
                let status = text::decimal_text(self.status as u64);
                v.push(line("", joined("HTTP/1.1 ", status.as_str())));
            },
            Tab::Timing => {
                v.push(line("", joined("Total: ", self.duration.as_str())));
            },
        }
        assert(fields(v@) =~= detail_lines(self@, tab));
        v
    }
}

impl App {
    /// A window without traffic, on this port.
    pub fn new(port: u16) -> (r: Self)
        ensures
            r@ == (AppView {
                port,
                recording: true,
                ssl_hint: true,
                filter: ""@,
                sel_host: None,
                tab: Tab::Overview,
                sel_row: None,
                rows: Seq::empty(),
                hosts: Seq::empty(),
                about: false,
            }),
    {
        let r = App {
            port,
            recording: true,
            ssl_hint: true,
            filter: "".to_string(),
            sel_host: None,
            tab: Tab::Overview,
            sel_row: None,
            rows: Vec::new(),
            hosts: Vec::new(),
            about: false,
        };
        assert(r@.rows =~= Seq::empty());
        assert(r@.hosts =~= Seq::empty());
        r
    }

    /// Takes in exchanges that have ended, each with the moment at which it is shown, and counts
    /// the hosts anew.
    pub fn poll(&mut self, arrived: &Vec<(Exchange, u64)>)
        requires
            countable(hosts_with(old(self)@, arrived@)),
        ensures
            final(self)@.rows == rows_with(old(self)@, arrived@),
            ranked(final(self)@.hosts),
            of_rows(final(self)@.hosts, final(self)@.rows),
            final(self)@ == (AppView {
                rows: final(self)@.rows,
                hosts: final(self)@.hosts,
                ..old(self)@
            }),
    {
        if self.recording {
            let ghost start = *self;
            let mut i: usize = 0;
            assert(rows_of(arrived@).take(0) =~= Seq::empty());
            while i < arrived.len()
                invariant
                    i <= arrived@.len(),
                    self@ == (AppView { rows: self@.rows, ..start@ }),
                    self@.rows == start@.rows + rows_of(arrived@).take(i as int),
                decreases arrived@.len() - i,
            {
                let ghost before = self@;
                self.rows.push(Row::from(&arrived[i].0, arrived[i].1));
                assert(self@.rows =~= before.rows.push(rows_of(arrived@)[i as int]));
                assert(rows_of(arrived@).take(i + 1) =~= rows_of(arrived@).take(i as int).push(
                    rows_of(arrived@)[i as int],
                ));
                i += 1;
            }
            assert(rows_of(arrived@).take(i as int) =~= rows_of(arrived@));
            assert(row_hosts(self@.rows) =~= hosts_with(start@, arrived@));
        }
        self.hosts = hosts_of(&self.rows);
    }

    /// The hosts that are encrypted, or those that are not, in their order.
    pub fn hosts_where(&self, secure: bool) -> (r: Vec<Host>)
        ensures
            host_views(r@) == hosts_that(self@.hosts, secure),
    {
        let ghost all = self@.hosts;
        let mut v: Vec<Host> = Vec::new();
        let mut i: usize = 0;
        assert(hosts_that(all.take(0), secure) =~= Seq::empty()) by {
            reveal(Seq::filter);
        }
        assert(host_views(v@) =~= Seq::empty());
        while i < self.hosts.len()
            invariant
                i <= self.hosts@.len(),
                all == self@.hosts,
                host_views(v@) == hosts_that(all.take(i as int), secure),
            decreases self.hosts@.len() - i,
        {
            proof {
                reveal(Seq::filter);
                assert(all.take(i + 1).drop_last() =~= all.take(i as int));
                assert(all.take(i + 1).last() == self.hosts@[i as int]@);
            }
            if self.hosts[i].secure == secure {
                let ghost before = v@;
                v.push(self.hosts[i].clone());
                assert(host_views(v@) =~= host_views(before).push(self.hosts@[i as int]@));
            }
            i += 1;
        }
        assert(all.take(i as int) =~= all);
        v
    }

    /// The rows that are shown.
    pub fn visible(&self) -> (r: Vec<&Row>)
        ensures
            ref_views(r@) == shown(self@),
    {
        let filter = lower(self.filter.as_str());
        let ghost keep = |r: RowView| passes(r, self@.sel_host, small(self@.filter));
        let ghost all = self@.rows;
        let mut v: Vec<&Row> = Vec::new();
        let mut i: usize = 0;
        assert(all.take(0) =~= Seq::empty());
        assert(all.take(0).filter(keep) =~= Seq::empty()) by {
            reveal(Seq::filter);
        }
        while i < self.rows.len()
            invariant
                i <= self.rows@.len(),
                all == self@.rows,
                filter@ == small(self@.filter),
                keep == (|r: RowView| passes(r, self@.sel_host, small(self@.filter))),
                ref_views(v@) == all.take(i as int).filter(keep),
            decreases self.rows@.len() - i,
        {
            let row = &self.rows[i];
            let ghost before = v@;
            assert(all.take(i + 1).drop_last() =~= all.take(i as int));
            assert(all.take(i + 1).last() == row@);
            let right: bool = match &self.sel_host {
                Some(h) => text::same(row.host.as_str(), h.as_str()),
                None => true,
            };
            if right && (filter.as_str().is_empty() || text::contains(
                lower(row.host.as_str()).as_str(),
                filter.as_str(),
            ) || text::contains(lower(row.path.as_str()).as_str(), filter.as_str())
                || text::contains(lower(row.method.as_str()).as_str(), filter.as_str())) {
                v.push(row);
                assert(ref_views(v@) =~= ref_views(before).push(row@));
            }
            proof {
                reveal(Seq::filter);
                assert(keep(row@) == passes(row@, self@.sel_host, filter@));
            }
            i += 1;
        }
        assert(all.take(i as int) =~= all);
        v
    }

    /// The selected row.
    pub fn selected(&self) -> (r: Option<&Row>)
        ensures
            match r {
                Some(x) => row_with(self@.rows, self@.sel_row) == Some(x@),
                None => row_with(self@.rows, self@.sel_row) is None,
            },
    {
        let ghost all = self@.rows;
        let mut i: usize = 0;
        assert(all.skip(0) =~= all);
        while i < self.rows.len()
            invariant
                i <= self.rows@.len(),
                all == self@.rows,
                row_with(all.skip(i as int), self@.sel_row) == row_with(all, self@.sel_row),
            decreases self.rows@.len() - i,
        {
            let row = &self.rows[i];
            assert(all.skip(i as int)[0] == row@);
            assert(all.skip(i as int).skip(1) =~= all.skip(i + 1));
            if let Some(id) = self.sel_row {
                if row.id == id {
                    return Some(row);
                }
            }
            i += 1;
        }
        None
    }

    /// Clears the table and what is selected.
    pub fn clear_session(&mut self)
        ensures
            final(self)@ == emptied(old(self)@),
    {
        self.rows = Vec::new();
        self.sel_row = None;
        self.sel_host = None;
        assert(self@.rows =~= Seq::empty());
    }

    /// Clears the table; a selected host stays selected.
    pub fn clear_rows(&mut self)
        ensures
            final(self)@ == without_rows(old(self)@),
    {
        self.rows = Vec::new();
        self.sel_row = None;
        assert(self@.rows =~= Seq::empty());
    }

    /// Starts or stops to take in traffic.
    pub fn toggle_recording(&mut self)
        ensures
            final(self)@ == toggled(old(self)@),
    {
        self.recording = !self.recording;
    }

    /// Selects a host, or selects none if this one is; no row stays selected.
    pub fn click_host(&mut self, name: &str)
        ensures
            final(self)@ == clicked(old(self)@, name@),
    {
        let selected: bool = match &self.sel_host {
            Some(h) => text::same(h.as_str(), name),
            None => false,
        };
        self.sel_host = if selected {
            None
        } else {
            Some(name.to_string())
        };
        self.sel_row = None;
    }
}

// ---------------------------------------------------------------- laws

/// A host had traffic if and only if one of the rows is of it.
pub proof fn law_visited_hosts_have_rows(rows: Seq<RowView>, name: Seq<char>)
    ensures
        visits(rows, name) > 0 <==> exists|i: int|
            0 <= i < rows.len() && (#[trigger] rows[i]).host == name,
    decreases rows.len(),
{
    if rows.len() > 0 {
        let t = rows.drop_last();
        law_visited_hosts_have_rows(t, name);
        if exists|i: int| 0 <= i < rows.len() && (#[trigger] rows[i]).host == name {
            let i = choose|i: int| 0 <= i < rows.len() && (#[trigger] rows[i]).host == name;
            if i < t.len() {
                assert(t[i].host == name);
            }
        }
        if visits(rows, name) > 0 {
            if rows.last().host == name {
                assert(rows[rows.len() - 1].host == name);
            } else {
                let i = choose|i: int| 0 <= i < t.len() && (#[trigger] t[i]).host == name;
                assert(rows[i].host == name);
            }
        }
    }
}

/// The counts of the hosts.
pub open spec fn total(hosts: Seq<HostView>) -> int
    decreases hosts.len(),
{
    if hosts.len() == 0 {
        0
    } else {
        total(hosts.drop_last()) + hosts.last().count
    }
}

/// How many of the rows are of hosts with these names, taken name by name.
spec fn sum(rows: Seq<RowView>, names: Seq<Seq<char>>) -> nat
    decreases names.len(),
{
    if names.len() == 0 {
        0
    } else {
        sum(rows, names.drop_last()) + visits(rows, names.last())
    }
}

proof fn lemma_sum_step(rows: Seq<RowView>, names: Seq<Seq<char>>)
    requires
        rows.len() > 0,
        names.no_duplicates(),
    ensures
        sum(rows, names) == sum(rows.drop_last(), names) + if names.contains(rows.last().host) {
            1nat
        } else {
            0nat
        },
    decreases names.len(),
{
    if names.len() > 0 {
        let t = names.drop_last();
        lemma_sum_step(rows, t);
        let n = rows.last().host;
        if names.last() == n {
            assert(names[names.len() - 1] == n);
            assert(!t.contains(n)) by {
                if t.contains(n) {
                    let j = choose|j: int| 0 <= j < t.len() && t[j] == n;
                    assert(names[j] == n);
                }
            }
        } else if names.contains(n) {
            let j = choose|j: int| 0 <= j < names.len() && names[j] == n;
            assert(t[j] == n);
        } else if t.contains(n) {
            let j = choose|j: int| 0 <= j < t.len() && t[j] == n;
            assert(names[j] == n);
        }
    }
}

proof fn lemma_sum_all(rows: Seq<RowView>, names: Seq<Seq<char>>)
    requires
        names.no_duplicates(),
        forall|i: int| 0 <= i < rows.len() ==> names.contains((#[trigger] rows[i]).host),
    ensures
        sum(rows, names) == rows.len(),
    decreases rows.len(), names.len(),
{
    if rows.len() > 0 {
        let t = rows.drop_last();
        lemma_sum_step(rows, names);
        assert(names.contains(rows[rows.len() - 1].host));
        assert forall|i: int| 0 <= i < t.len() implies names.contains((#[trigger] t[i]).host) by {
            assert(t[i] == rows[i]);
        }
        lemma_sum_all(t, names);
    } else if names.len() > 0 {
        assert(names.drop_last().no_duplicates());
        lemma_sum_all(rows, names.drop_last());
    }
}

proof fn lemma_total(hosts: Seq<HostView>, rows: Seq<RowView>)
    requires
        countable(row_hosts(rows)),
        forall|k: int|
            0 <= k < hosts.len() ==> #[trigger] hosts[k] == host_of(rows, hosts[k].name),
    ensures
        total(hosts) == sum(rows, hosts.map_values(|h: HostView| h.name)),
    decreases hosts.len(),
{
    if hosts.len() > 0 {
        let t = hosts.drop_last();
        assert forall|k: int| 0 <= k < t.len() implies #[trigger] t[k] == host_of(
            rows,
            t[k].name,
        ) by {
            assert(t[k] == hosts[k]);
        }
        lemma_total(t, rows);
        lemma_visits(rows, hosts.last().name);
        assert(hosts[hosts.len() - 1] == host_of(rows, hosts[hosts.len() - 1].name));
        assert(hosts.map_values(|h: HostView| h.name).drop_last() =~= t.map_values(
            |h: HostView| h.name,
        ));
    }
}

/// The counts of the hosts add up to the number of rows.
pub proof fn law_counts_add_up(hosts: Seq<HostView>, rows: Seq<RowView>)
    requires
        ranked(hosts),
        of_rows(hosts, rows),
        countable(row_hosts(rows)),
    ensures
        total(hosts) == rows.len(),
{
    let names = hosts.map_values(|h: HostView| h.name);
    law_ranked_hosts_are_distinct(hosts, rows);
    assert(names.no_duplicates()) by {
        assert forall|i: int, j: int| 0 <= i < j < names.len() implies names[i] != names[j] by {
            assert(hosts[i].name != hosts[j].name);
        }
    }
    assert forall|i: int| 0 <= i < rows.len() implies names.contains((#[trigger] rows[i]).host) by {
        let k = choose|k: int| 0 <= k < hosts.len() && (#[trigger] hosts[k]).name == rows[i].host;
        assert(names[k] == rows[i].host);
    }
    lemma_total(hosts, rows);
    lemma_sum_all(rows, names);
}

/// Names that are few enough can be counted.
pub proof fn law_few_can_be_counted(names: Seq<Seq<char>>)
    requires
        names.len() <= u32::MAX,
    ensures
        countable(names),
{
    assert forall|n: Seq<char>| #[trigger] times(names, n) <= u32::MAX by {
        lemma_times(names, n);
    }
}

proof fn lemma_times(names: Seq<Seq<char>>, name: Seq<char>)
    ensures
        times(names, name) <= names.len(),
    decreases names.len(),
{
    if names.len() > 0 {
        lemma_times(names.drop_last(), name);
    }
}

/// Hosts that are ranked have names that differ.
pub proof fn law_ranked_hosts_are_distinct(hosts: Seq<HostView>, rows: Seq<RowView>)
    requires
        ranked(hosts),
        of_rows(hosts, rows),
    ensures
        distinct(hosts),
{
    assert forall|i: int, j: int| 0 <= i < j < hosts.len() implies (#[trigger] hosts[i]).name != (
    #[trigger] hosts[j]).name by {
        assert(ahead(hosts[i], hosts[j]));
        lemma_text_less_total(hosts[i].name, hosts[j].name);
        assert(hosts[i] == host_of(rows, hosts[i].name));
        assert(hosts[j] == host_of(rows, hosts[j].name));
    }
}

proof fn lemma_ahead_one_way(a: HostView, b: HostView)
    requires
        ahead(a, b),
    ensures
        !ahead(b, a),
{
    if ahead(b, a) {
        lemma_ahead_trans(a, b, a);
        lemma_not_less(a.name);
    }
}

proof fn lemma_not_less(s: Seq<char>)
    ensures
        !text_less(s, s),
    decreases s.len(),
{
    if s.len() > 0 {
        lemma_not_less(s.skip(1));
    }
}

proof fn lemma_ranked_once(a: Seq<HostView>, b: Seq<HostView>)
    requires
        ranked(a),
        ranked(b),
        forall|x: HostView| #[trigger] a.contains(x) <==> b.contains(x),
    ensures
        a == b,
    decreases a.len(),
{
    if a.len() == 0 {
        if b.len() > 0 {
            assert(b.contains(b[0]));
            assert(a.contains(b[0]));
        }
        assert(a =~= b);
    } else {
        assert(a.contains(a[0]));
        let j = choose|j: int| 0 <= j < b.len() && b[j] == a[0];
        assert(b.contains(b[0]));
        assert(a.contains(b[0]));
        let i = choose|i: int| 0 <= i < a.len() && a[i] == b[0];
        if i > 0 {
            assert(ahead(a[0], a[i]));
            lemma_ahead_one_way(a[0], b[0]);
            if j > 0 {
                assert(ahead(b[0], b[j]));
            }
        }
        assert(a[0] == b[0]);
        let s = a.skip(1);
        let t = b.skip(1);
        assert forall|x: HostView| #[trigger] s.contains(x) <==> t.contains(x) by {
            lemma_rest(a, b, x);
            lemma_rest(b, a, x);
        }
        assert forall|p: int, q: int| 0 <= p < q < s.len() implies ahead(
            #[trigger] s[p],
            #[trigger] s[q],
        ) by {
            assert(ahead(a[p + 1], a[q + 1]));
        }
        assert forall|p: int, q: int| 0 <= p < q < t.len() implies ahead(
            #[trigger] t[p],
            #[trigger] t[q],
        ) by {
            assert(ahead(b[p + 1], b[q + 1]));
        }
        lemma_ranked_once(s, t);
        assert(a =~= seq![a[0]] + s);
        assert(b =~= seq![b[0]] + t);
    }
}

proof fn lemma_rest(a: Seq<HostView>, b: Seq<HostView>, x: HostView)
    requires
        ranked(a),
        a.len() > 0,
        b.len() > 0,
        a[0] == b[0],
        forall|x: HostView| #[trigger] a.contains(x) <==> b.contains(x),
    ensures
        a.skip(1).contains(x) ==> b.skip(1).contains(x),
{
    if a.skip(1).contains(x) {
        let k = choose|k: int| 0 <= k < a.skip(1).len() && a.skip(1)[k] == x;
        assert(a[k + 1] == x);
        assert(a.contains(x));
        assert(ahead(a[0], a[k + 1]));
        lemma_ahead_one_way(a[0], x);
        let m = choose|m: int| 0 <= m < b.len() && b[m] == x;
        assert(b.skip(1)[m - 1] == x);
    }
}

/// The hosts follow from the rows: there is one list of them, so that counting the same rows
/// again changes nothing.
pub proof fn law_hosts_follow_from_rows(
    a: Seq<HostView>,
    b: Seq<HostView>,
    rows: Seq<RowView>,
)
    requires
        ranked(a),
        of_rows(a, rows),
        ranked(b),
        of_rows(b, rows),
    ensures
        a == b,
{
    assert forall|x: HostView| #[trigger] a.contains(x) <==> b.contains(x) by {
        lemma_same_hosts(a, b, rows, x);
        lemma_same_hosts(b, a, rows, x);
    }
    lemma_ranked_once(a, b);
}

proof fn lemma_same_hosts(
    a: Seq<HostView>,
    b: Seq<HostView>,
    rows: Seq<RowView>,
    x: HostView,
)
    requires
        of_rows(a, rows),
        of_rows(b, rows),
    ensures
        a.contains(x) ==> b.contains(x),
{
    if a.contains(x) {
        let k = choose|k: int| 0 <= k < a.len() && a[k] == x;
        assert(a[k] == host_of(rows, a[k].name));
        law_visited_hosts_have_rows(rows, x.name);
        let i = choose|i: int| 0 <= i < rows.len() && (#[trigger] rows[i]).host == x.name;
        assert(named(b, rows[i].host));
        let m = choose|m: int| 0 <= m < b.len() && (#[trigger] b[m]).name == x.name;
        assert(b[m] == host_of(rows, b[m].name));
    }
}

proof fn lemma_kept_is_there(rows: Seq<RowView>, keep: spec_fn(RowView) -> bool, i: int)
    requires
        0 <= i < rows.filter(keep).len(),
    ensures
        rows.contains(rows.filter(keep)[i]),
    decreases rows.len(),
{
    reveal(Seq::filter);
    if rows.len() > 0 {
        let t = rows.drop_last();
        if i < t.filter(keep).len() {
            lemma_kept_is_there(t, keep, i);
            let j = choose|j: int| 0 <= j < t.len() && t[j] == t.filter(keep)[i];
            assert(rows[j] == t[j]);
        } else {
            assert(rows[rows.len() - 1] == rows.filter(keep)[i]);
        }
    }
}

/// A row that is shown is one of the rows, and passes; every row that passes is shown.
pub proof fn law_shown_rows_pass(a: AppView)
    ensures
        forall|i: int|
            0 <= i < shown(a).len() ==> a.rows.contains(#[trigger] shown(a)[i]) && passes(
                shown(a)[i],
                a.sel_host,
                small(a.filter),
            ),
        forall|i: int|
            0 <= i < a.rows.len() && passes(#[trigger] a.rows[i], a.sel_host, small(a.filter))
                ==> shown(a).contains(a.rows[i]),
{
    broadcast use vstd::seq_lib::group_filter_ensures;

    let keep = |r: RowView| passes(r, a.sel_host, small(a.filter));
    assert forall|i: int| 0 <= i < shown(a).len() implies a.rows.contains(#[trigger] shown(a)[i])
        && passes(shown(a)[i], a.sel_host, small(a.filter)) by {
        assert(keep(a.rows.filter(keep)[i]));
        lemma_kept_is_there(a.rows, keep, i);
    }
    assert forall|i: int|
        0 <= i < a.rows.len() && passes(
            #[trigger] a.rows[i],
            a.sel_host,
            small(a.filter),
        ) implies shown(a).contains(a.rows[i]) by {
        assert(keep(a.rows[i]));
    }
}

/// In ASCII texts the filter of the table does not tell capitals from small letters.
pub proof fn law_filter_ignores_case(
    r: RowView,
    host: Option<Seq<char>>,
    filter: Seq<char>,
    other: Seq<char>,
)
    requires
        is_ascii_chars(filter) && is_ascii_chars(other) && same_ascii(filter, other),
    ensures
        passes(r, host, small(filter)) == passes(r, host, small(other)),
{
}

/// The time of day is shown as hours, minutes, seconds and milliseconds, each with all its digits;
/// the day does not matter, nor what is less than a millisecond.
pub proof fn law_clock_text(day: nat, h: nat, m: nat, s: nat, ms: nat, less: nat, nanos: u64)
    requires
        h < 24,
        m < 60,
        s < 60,
        ms < 1000,
        less < 1_000_000,
        nanos == (((day * 24 + h) * 60 + m) * 60 + s) * 1_000_000_000 + ms * 1_000_000 + less,
    ensures
        clock_text(nanos) == padded(h, 2) + ":"@ + padded(m, 2) + ":"@ + padded(s, 2) + "."@
            + padded(ms, 3),
{
    let hours = (day * 24 + h) as int;
    let minutes = hours * 60 + m;
    let secs = minutes * 60 + s;
    let millis = secs * 1000 + ms;
    let below = (ms * 1_000_000 + less) as int;
    lemma_fundamental_div_mod_converse(nanos as int, 1_000_000_000, secs, below);
    lemma_fundamental_div_mod_converse(nanos as int, 1_000_000, millis, less as int);
    lemma_fundamental_div_mod_converse(millis, 1000, secs, ms as int);
    lemma_fundamental_div_mod_converse(secs, 60, minutes, s as int);
    lemma_fundamental_div_mod_converse(secs, 3600, hours, (m * 60 + s) as int);
    lemma_fundamental_div_mod_converse(minutes, 60, hours, m as int);
    lemma_fundamental_div_mod_converse(hours, 24, day as int, h as int);
}

/// The row of a request that is no tunnel: its method, and the host and the path of its URL,
/// without the scheme.
pub proof fn law_row_of_request(
    e: ExchangeView,
    now: u64,
    q: RequestView,
    host: Seq<char>,
    tail: Seq<char>,
)
    requires
        e.request == Some(q),
        !q.is_connect,
        !host.contains('/'),
    ensures
        ({
            let r = row_of(e, now);
            let slash = seq!['/'] + tail;
            &&& r.method == q.method
            &&& !r.locked
            &&& q.uri == "https://"@ + host + slash || q.uri == "http://"@ + host + slash ==> r.host
                == host && r.path == slash
            &&& q.uri == "https://"@ + host || q.uri == "http://"@ + host ==> r.host == host
                && r.path == seq!['/']
            &&& !"https://"@.is_prefix_of(q.uri) && !"http://"@.is_prefix_of(q.uri) && q.uri
                == host + slash ==> r.host == host && r.path == slash
            &&& !"https://"@.is_prefix_of(q.uri) && !"http://"@.is_prefix_of(q.uri) && q.uri
                == host ==> r.host == host && r.path == seq!['/']
        }),
{
    let slash = seq!['/'] + tail;
    let rest = host + slash;
    let u = q.uri;
    text::law_before_first(host, '/', tail);
    assert(rest =~= host + seq!['/'] + tail);
    reveal_strlit("/");
    assert("/"@ =~= seq!['/']);
    text::law_stripped("https://"@, rest, u);
    text::law_stripped("http://"@, rest, u);
    text::law_stripped("https://"@, host, u);
    text::law_stripped("http://"@, host, u);
    assert("https://"@ + host + slash =~= "https://"@ + rest);
    assert("http://"@ + host + slash =~= "http://"@ + rest);
    reveal_strlit("https://");
    reveal_strlit("http://");
    assert("https://"@.len() == 8 && "https://"@[4] == 's');
    assert("http://"@.len() == 7 && "http://"@[4] == ':');
    if u == "http://"@ + rest || u == "http://"@ + host {
        assert(u[4] == ':');
        if "https://"@.is_prefix_of(u) {
            assert(u.subrange(0, 8)[4] == 's');
        }
    }
}

/// The row of a tunnel names the other end in full; the row of an exchange whose request is not
/// known has dashes.
pub proof fn law_row_of_tunnel(e: ExchangeView, now: u64, q: RequestView)
    requires
        e.request == Some(q),
        q.is_connect,
    ensures
        row_of(e, now).method == "CONNECT"@,
        row_of(e, now).host == q.uri,
        row_of(e, now).path == "*"@,
        row_of(e, now).locked,
        ({
            let r = row_of(ExchangeView { request: None, ..e }, now);
            r.method == "-"@ && r.host == "-"@ && r.path == "-"@ && !r.locked
        }),
{
}

/// A row has the number of its exchange, as far as it fits, the status of the response or zero,
/// the time of day, and how long the exchange took or a dash.
pub proof fn law_row_says(e: ExchangeView, now: u64)
    ensures
        e.id.0 <= u32::MAX ==> row_of(e, now).id == e.id.0,
        row_of(e, now).id as int == e.id.0 as int % 0x1_0000_0000,
        e.response_status is Some ==> row_of(e, now).status == e.response_status->0,
        e.response_status is None ==> row_of(e, now).status == 0,
        row_of(e, now).time == clock_text(now),
        e.timing.elapsed() is Some ==> row_of(e, now).duration == rounded_duration(
            e.timing.elapsed()->0,
        ),
        e.timing.elapsed() is None ==> row_of(e, now).duration == "-"@,
{
}

/// Exchanges that arrive get a row each, in their order.
pub proof fn law_one_row_for_each(s: Seq<(Exchange, u64)>, i: int)
    requires
        0 <= i < s.len(),
    ensures
        rows_of(s).len() == s.len(),
        rows_of(s)[i] == row_of(s[i].0@, s[i].1),
{
}

/// The address of a row is its host and path behind the scheme: `https` for a tunnel, else `http`.
pub proof fn law_row_url(r: RowView)
    ensures
        r.locked ==> row_url(r) == "https://"@ + r.host + r.path,
        !r.locked ==> row_url(r) == "http://"@ + r.host + r.path,
{
    reveal_strlit("https");
    reveal_strlit("http");
    reveal_strlit("://");
    reveal_strlit("https://");
    reveal_strlit("http://");
    assert("https"@ + "://"@ =~= "https://"@);
    assert("http"@ + "://"@ =~= "http://"@);
}

/// A status is green from 200 to 299, yellow from 300 to 399, grey where there is none, and red
/// else.
pub proof fn law_status_paint(status: u16)
    ensures
        status_paint(status) == Paint::Gray <==> status == 0,
        status_paint(status) == Paint::Rgb(46, 158, 75) <==> 200 <= status < 300,
        status_paint(status) == Paint::Rgb(201, 138, 26) <==> 300 <= status < 400,
        status_paint(status) == Paint::Rgb(208, 64, 58) <==> status != 0 && (status < 200 || status
            >= 400),
{
}

/// The methods that are known have colours of their own, and no other method has any of them.
pub proof fn law_method_paint(method: Seq<char>)
    ensures
        method_paint(method) == Paint::Rgb(58, 143, 214) <==> method == "GET"@,
        method_paint(method) == Paint::Rgb(58, 161, 90) <==> method == "POST"@,
        method_paint(method) == Paint::Rgb(181, 134, 42) <==> method == "PUT"@,
        method_paint(method) == Paint::Rgb(192, 70, 63) <==> method == "DELETE"@,
        method_paint(method) == Paint::Rgb(122, 92, 201) <==> method == "PATCH"@,
        method_paint(method) == Paint::Rgb(120, 120, 130) <==> method == "CONNECT"@,
        method_paint(method) == Paint::Gray <==> method != "GET"@ && method != "POST"@ && method
            != "PUT"@ && method != "DELETE"@ && method != "PATCH"@ && method != "CONNECT"@,
{
    reveal_strlit("GET");
    reveal_strlit("POST");
    reveal_strlit("PUT");
    reveal_strlit("DELETE");
    reveal_strlit("PATCH");
    reveal_strlit("CONNECT");
    assert("GET"@.len() == 3 && "GET"@[0] == 'G');
    assert("POST"@.len() == 4);
    assert("PUT"@.len() == 3 && "PUT"@[0] == 'P');
    assert("DELETE"@.len() == 6);
    assert("PATCH"@.len() == 5);
    assert("CONNECT"@.len() == 7);
}

/// Every row counts once for its host, and for no other.
pub proof fn law_visits(a: Seq<RowView>, r: RowView, b: Seq<RowView>, name: Seq<char>)
    ensures
        visits(Seq::empty(), name) == 0,
        r.host == name ==> visits(seq![r], name) == 1,
        r.host != name ==> visits(seq![r], name) == 0,
        visits(a + b, name) == visits(a, name) + visits(b, name),
    decreases b.len(),
{
    assert(seq![r].drop_last() =~= Seq::empty());
    assert(visits(seq![r].drop_last(), name) == 0);
    if b.len() > 0 {
        law_visits(a, r, b.drop_last(), name);
        assert((a + b).drop_last() =~= a + b.drop_last());
    } else {
        assert(a + b =~= a);
    }
}

/// A host counts as encrypted if the first of its rows is that of a tunnel, whatever the others
/// are.
pub proof fn law_first_row_decides(rows: Seq<RowView>, name: Seq<char>, i: int)
    requires
        0 <= i < rows.len(),
        rows[i].host == name,
        forall|k: int| 0 <= k < i ==> (#[trigger] rows[k]).host != name,
    ensures
        first_locked(rows, name) == rows[i].locked,
    decreases rows.len(),
{
    let t = rows.drop_last();
    law_visited_hosts_have_rows(t, name);
    if i < t.len() {
        assert(t[i].host == name);
        assert forall|k: int| 0 <= k < i implies (#[trigger] t[k]).host != name by {
            assert(t[k] == rows[k]);
        }
        law_first_row_decides(t, name, i);
    } else {
        assert forall|k: int| 0 <= k < t.len() implies (#[trigger] t[k]).host != name by {
            assert(t[k] == rows[k]);
        }
    }
}

/// Of two hosts that are ranked, the first had more traffic, or as much and its name comes first.
pub proof fn law_ranked_by_traffic(hosts: Seq<HostView>, i: int, j: int)
    requires
        ranked(hosts),
        0 <= i < j < hosts.len(),
    ensures
        hosts[i].count >= hosts[j].count,
        hosts[i].count == hosts[j].count ==> text_less(hosts[i].name, hosts[j].name),
{
    assert(ahead(hosts[i], hosts[j]));
}

/// A host is listed with the number of its rows and whether its first row is that of a tunnel; the
/// host of every row is listed, and no other.
pub proof fn law_hosts_are_those_of_rows(hosts: Seq<HostView>, rows: Seq<RowView>, k: int, i: int)
    requires
        of_rows(hosts, rows),
        countable(row_hosts(rows)),
        0 <= k < hosts.len(),
        0 <= i < rows.len(),
    ensures
        hosts[k].count == visits(rows, hosts[k].name),
        hosts[k].secure == first_locked(rows, hosts[k].name),
        exists|m: int| 0 <= m < rows.len() && (#[trigger] rows[m]).host == hosts[k].name,
        exists|m: int| 0 <= m < hosts.len() && (#[trigger] hosts[m]).name == rows[i].host,
{
    assert(hosts[k] == host_of(rows, hosts[k].name));
    lemma_visits(rows, hosts[k].name);
    law_visited_hosts_have_rows(rows, hosts[k].name);
    assert(named(hosts, rows[i].host));
}

/// A row passes if it is of the selected host, or none is selected, and if its host, path or method
/// contains what is filtered for, or nothing is.
pub proof fn law_passes(
    r: RowView,
    host: Seq<char>,
    filter: Seq<char>,
    a: Seq<char>,
    b: Seq<char>,
)
    ensures
        passes(r, None, Seq::empty()),
        passes(r, Some(host), filter) <==> r.host == host && passes(r, None, filter),
        small(r.host) == a + filter + b ==> passes(r, None, filter),
        small(r.path) == a + filter + b ==> passes(r, None, filter),
        small(r.method) == a + filter + b ==> passes(r, None, filter),
        passes(r, None, filter) && filter.len() > 0 ==> (exists|x: Seq<char>, y: Seq<char>|
            small(r.host) == #[trigger] (x + filter + y)) || (exists|x: Seq<char>, y: Seq<char>|
            small(r.path) == #[trigger] (x + filter + y)) || (exists|x: Seq<char>, y: Seq<char>|
            small(r.method) == #[trigger] (x + filter + y)),
{
    text::law_has_text(a, filter, b, small(r.host));
    text::law_has_text(a, filter, b, small(r.path));
    text::law_has_text(a, filter, b, small(r.method));
}

/// The rows that are shown keep their order: each is shown or not by itself.
pub proof fn law_shown_row_by_row(app: AppView, a: Seq<RowView>, r: RowView, b: Seq<RowView>)
    ensures
        ({
            let of = |rows: Seq<RowView>| shown(AppView { rows, ..app });
            &&& of(a + b) == of(a) + of(b)
            &&& passes(r, app.sel_host, small(app.filter)) ==> of(seq![r]) == seq![r]
            &&& !passes(r, app.sel_host, small(app.filter)) ==> of(seq![r]).len() == 0
        }),
{
    let keep = |x: RowView| passes(x, app.sel_host, small(app.filter));
    Seq::filter_distributes_over_add(a, b, keep);
    reveal_with_fuel(Seq::filter, 2);
    assert(seq![r].drop_last() =~= Seq::empty());
    assert(seq![r].drop_last().filter(keep) =~= Seq::empty());
    assert(seq![r].drop_last().filter(keep).push(r) =~= seq![r]);
}

/// The encrypted hosts, and the others, keep their order: each is among them or not by itself.
pub proof fn law_hosts_one_by_one(
    a: Seq<HostView>,
    h: HostView,
    b: Seq<HostView>,
    secure: bool,
)
    ensures
        hosts_that(a + b, secure) == hosts_that(a, secure) + hosts_that(b, secure),
        h.secure == secure ==> hosts_that(seq![h], secure) == seq![h],
        h.secure != secure ==> hosts_that(seq![h], secure).len() == 0,
{
    let keep = |x: HostView| x.secure == secure;
    Seq::filter_distributes_over_add(a, b, keep);
    reveal_with_fuel(Seq::filter, 2);
    assert(seq![h].drop_last() =~= Seq::empty());
    assert(seq![h].drop_last().filter(keep) =~= Seq::empty());
    assert(seq![h].drop_last().filter(keep).push(h) =~= seq![h]);
}

/// The selected row is the first with the selected number; without one there is none.
pub proof fn law_row_with(rows: Seq<RowView>, id: u32, i: int)
    ensures
        row_with(rows, None) is None,
        0 <= i < rows.len() && rows[i].id == id && (forall|k: int|
            0 <= k < i ==> (#[trigger] rows[k]).id != id) ==> row_with(rows, Some(id)) == Some(
            rows[i],
        ),
        (forall|k: int| 0 <= k < rows.len() ==> (#[trigger] rows[k]).id != id) ==> row_with(
            rows,
            Some(id),
        ) is None,
    decreases rows.len(),
{
    if rows.len() > 0 {
        let t = rows.skip(1);
        law_row_with(t, id, i - 1);
        if 0 < i < rows.len() && rows[i].id == id && (forall|k: int|
            0 <= k < i ==> (#[trigger] rows[k]).id != id) {
            assert(rows[0].id != id);
            assert(t[i - 1] == rows[i]);
            assert forall|k: int| 0 <= k < i - 1 implies (#[trigger] t[k]).id != id by {
                assert(t[k] == rows[k + 1]);
            }
        }
        if forall|k: int| 0 <= k < rows.len() ==> (#[trigger] rows[k]).id != id {
            assert(rows[0].id != id);
            assert forall|k: int| 0 <= k < t.len() implies (#[trigger] t[k]).id != id by {
                assert(t[k] == rows[k + 1]);
            }
        }
    }
}

/// What is shown of a row: in the overview all that it says, under the request and the response
/// their first lines, under the timing how long it took.
pub proof fn law_detail_lines(r: RowView)
    ensures
        ({
            let over = detail_lines(r, Tab::Overview);
            let asked = detail_lines(r, Tab::Request);
            let answered = detail_lines(r, Tab::Response);
            let timed = detail_lines(r, Tab::Timing);
            &&& over.len() == 5
            &&& over[0] == ("URL"@, row_url(r))
            &&& over[1] == ("Method"@, r.method)
            &&& over[2] == ("Status"@, decimal(r.status as nat))
            &&& over[3] == ("Host"@, r.host)
            &&& over[4] == ("Duration"@, r.duration)
            &&& asked.len() == 2
            &&& asked[0] == (""@, r.method + " "@ + r.path + " HTTP/1.1"@)
            &&& asked[1] == (""@, "Host: "@ + r.host)
            &&& answered.len() == 1
            &&& answered[0] == (""@, "HTTP/1.1 "@ + decimal(r.status as nat))
            &&& timed.len() == 1
            &&& timed[0] == (""@, "Total: "@ + r.duration)
        }),
{
}

/// The request and the response have a note of their own under their lines, the other tabs none.
pub proof fn law_tab_notes(tab: Tab)
    ensures
        tab_note(tab) is Some <==> tab is Request || tab is Response,
        tab is Request ==> tab_note(tab) == Some(
            "(тела запросов появятся при захвате тела в ядре)"@,
        ),
        tab is Response ==> tab_note(tab) == Some(
            "(тела ответов появятся при захвате тела в ядре)"@,
        ),
{
}

/// What is to be counted when exchanges arrive are the hosts of the rows that there will be.
pub proof fn law_hosts_to_count(a: AppView, s: Seq<(Exchange, u64)>)
    ensures
        a.recording ==> hosts_with(a, s) == row_hosts(a.rows + rows_of(s)),
        !a.recording ==> hosts_with(a, s) == row_hosts(a.rows),
        row_hosts(a.rows).len() == a.rows.len(),
        forall|i: int| 0 <= i < a.rows.len() ==> #[trigger] row_hosts(a.rows)[i] == a.rows[i].host,
{
    assert(row_hosts(a.rows + rows_of(s)) =~= row_hosts(a.rows) + arrived_hosts(s));
}

/// Names can be counted if and only if no host that has them would have more rows than fit.
pub proof fn law_when_countable(rows: Seq<RowView>, name: Seq<char>)
    ensures
        countable(row_hosts(rows)) ==> visits(rows, name) <= 0xffff_ffff,
        (forall|n: Seq<char>| #[trigger] visits(rows, n) <= 0xffff_ffff) ==> countable(
            row_hosts(rows),
        ),
{
    lemma_visits(rows, name);
    if forall|n: Seq<char>| #[trigger] visits(rows, n) <= 0xffff_ffff {
        assert forall|n: Seq<char>| #[trigger] times(row_hosts(rows), n) <= u32::MAX by {
            lemma_visits(rows, n);
        }
    }
}

/// A click on a host selects it, a second one selects none, and a click on another selects that;
/// no row stays selected, and the table stays as it is.
pub proof fn law_clicking(a: AppView, name: Seq<char>, other: Seq<char>)
    ensures
        a.sel_host != Some(name) ==> clicked(a, name).sel_host == Some(name),
        a.sel_host != Some(name) ==> clicked(clicked(a, name), name).sel_host is None,
        name != other && a.sel_host != Some(other) ==> clicked(clicked(a, other), name).sel_host
            == Some(name),
        clicked(a, name).sel_row is None,
        same_table(clicked(a, name), a),
        clicked(a, name).recording == a.recording,
{
}

/// Two states of the window show the same table, under the same filter and tab.
pub open spec fn same_table(a: AppView, b: AppView) -> bool {
    &&& a.port == b.port
    &&& a.ssl_hint == b.ssl_hint
    &&& a.filter == b.filter
    &&& a.tab == b.tab
    &&& a.rows == b.rows
    &&& a.hosts == b.hosts
    &&& a.about == b.about
}

/// Clearing leaves no row and none selected; the session goes with the host that was selected, the
/// rows alone leave it. All else stays.
pub proof fn law_clearing(a: AppView)
    ensures
        emptied(a).rows.len() == 0,
        emptied(a).sel_row is None,
        emptied(a).sel_host is None,
        same_table(AppView { rows: a.rows, ..emptied(a) }, a),
        emptied(a).recording == a.recording,
        without_rows(a).rows.len() == 0,
        without_rows(a).sel_row is None,
        without_rows(a).sel_host == a.sel_host,
        same_table(AppView { rows: a.rows, ..without_rows(a) }, a),
        without_rows(a).recording == a.recording,
{
}

/// Toggling twice changes nothing, and once only whether traffic is taken in.
pub proof fn law_toggling(a: AppView)
    ensures
        toggled(a).recording == !a.recording,
        toggled(toggled(a)) == a,
        same_table(toggled(a), a),
        toggled(a).sel_host == a.sel_host,
        toggled(a).sel_row == a.sel_row,
{
}

/// Exchanges that arrive are shown behind the rows that there are, while traffic is taken in, and
/// not otherwise.
pub proof fn law_rows_arrive(a: AppView, s: Seq<(Exchange, u64)>, i: int)
    ensures
        !a.recording ==> rows_with(a, s) == a.rows,
        a.recording ==> rows_with(a, s).len() == a.rows.len() + s.len(),
        0 <= i < a.rows.len() ==> rows_with(a, s)[i] == a.rows[i],
        a.recording && 0 <= i < s.len() ==> rows_with(a, s)[a.rows.len() + i] == row_of(
            s[i].0@,
            s[i].1,
        ),
{
}

/// What is said of rows, of hosts and of the window is what their fields hold.
pub proof fn law_window_is_seen(r: Row, h: Host, a: App, rows: Seq<Row>, hosts: Seq<Host>, i: int)
    ensures
        r@.id == r.id && r@.locked == r.locked && r@.status == r.status,
        r@.method == r.method@ && r@.host == r.host@ && r@.path == r.path@,
        r@.time == r.time@ && r@.duration == r.duration@,
        h@.name == h.name@ && h@.secure == h.secure && h@.count == h.count,
        row_views(rows).len() == rows.len(),
        0 <= i < rows.len() ==> row_views(rows)[i] == rows[i]@,
        host_views(hosts).len() == hosts.len(),
        0 <= i < hosts.len() ==> host_views(hosts)[i] == hosts[i]@,
        a@.port == a.port && a@.recording == a.recording && a@.ssl_hint == a.ssl_hint,
        a@.filter == a.filter@ && a@.tab == a.tab && a@.sel_row == a.sel_row,
        a.sel_host is Some ==> a@.sel_host == Some(a.sel_host->0@),
        a.sel_host is None ==> a@.sel_host is None,
        a@.rows == row_views(a.rows@) && a@.hosts == host_views(a.hosts@) && a@.about == a.about,
{
}

} // verus!
