//! What the window shows, and the log.

use rproxy::gui::{method_color, now_str, status_color, App, Paint, Row, Tab};
use rproxy::log::log_text;
use rproxy::model::{
    Clock, ConnectionId, Exchange, ExchangeId, ExchangeState, HttpRequest, Protocol, Timing,
};

fn at(n: u64) -> Clock {
    Clock { monotonic: n, wall: n }
}

fn exchange(id: u64, method: &str, uri: &str, connect: bool) -> Exchange {
    let mut ex = Exchange::new(ExchangeId(id), ConnectionId(1), Protocol::Http1, at(0));
    ex.request = Some(HttpRequest {
        method: method.into(),
        uri: uri.into(),
        headers: Vec::new(),
        is_connect: connect,
    });
    ex
}

#[test]
fn time_of_day() {
    assert_eq!(now_str(0), "00:00:00.000");
    let t = ((25 * 3600 + 2 * 60 + 3) * 1000 + 45) * 1_000_000 + 999_999;
    assert_eq!(now_str(t), "01:02:03.045");
}

#[test]
fn timing_is_the_time_in_between() {
    let mut t = Timing::start(5);
    assert_eq!(t.total(), None);
    t.completed_at = Some(2_000_007);
    assert_eq!(t.total(), Some(2_000_002));
    assert_eq!(t.total_millis(), Some(2));
    assert_eq!(Timing::default().total(), None);
    assert_eq!(Timing::default().total_millis(), None);
}

#[test]
fn rows_of_exchanges() {
    let mut ex = exchange(0x1_0000_0007, "POST", "https://h.test:8/a/b?c", false);
    ex.response_status = Some(201);
    ex.finish(ExchangeState::Complete, at(1_250_000));
    let r = Row::from(&ex, 0);
    assert_eq!(r.id, 7);
    assert_eq!((r.method.as_str(), r.host.as_str(), r.path.as_str()), ("POST", "h.test:8", "/a/b?c"));
    assert_eq!((r.status, r.locked), (201, false));
    assert_eq!(r.duration, "1.2ms");
    assert_eq!(r.time, "00:00:00.000");
    assert_eq!(r.url(), "http://h.test:8/a/b?c");

    let r = Row::from(&exchange(1, "GET", "http://h.test", false), 0);
    assert_eq!((r.host.as_str(), r.path.as_str(), r.duration.as_str()), ("h.test", "/", "-"));
    assert_eq!(r.status, 0);

    let r = Row::from(&exchange(1, "GET", "ftp:x/y", false), 0);
    assert_eq!((r.host.as_str(), r.path.as_str()), ("ftp:x", "/y"));

    let r = Row::from(&exchange(1, "ignored", "h.test:443", true), 0);
    assert_eq!((r.method.as_str(), r.host.as_str(), r.path.as_str()), ("CONNECT", "h.test:443", "*"));
    assert!(r.locked);
    assert_eq!(r.url(), "https://h.test:443*");

    let mut none = exchange(1, "GET", "x", false);
    none.request = None;
    let r = Row::from(&none, 0);
    assert_eq!((r.method.as_str(), r.host.as_str(), r.path.as_str()), ("-", "-", "-"));
}

#[test]
fn colours() {
    assert_eq!(method_color("GET"), Paint::Rgb(58, 143, 214));
    assert_eq!(method_color("POST"), Paint::Rgb(58, 161, 90));
    assert_eq!(method_color("PUT"), Paint::Rgb(181, 134, 42));
    assert_eq!(method_color("DELETE"), Paint::Rgb(192, 70, 63));
    assert_eq!(method_color("PATCH"), Paint::Rgb(122, 92, 201));
    assert_eq!(method_color("CONNECT"), Paint::Rgb(120, 120, 130));
    assert_eq!(method_color("get"), Paint::Gray);
    assert_eq!(status_color(200), Paint::Rgb(46, 158, 75));
    assert_eq!(status_color(299), Paint::Rgb(46, 158, 75));
    assert_eq!(status_color(300), Paint::Rgb(201, 138, 26));
    assert_eq!(status_color(0), Paint::Gray);
    assert_eq!(status_color(199), Paint::Rgb(208, 64, 58));
    assert_eq!(status_color(404), Paint::Rgb(208, 64, 58));
}

fn filled() -> App {
    let mut app = App::new(8888);
    app.poll(&vec![
        (exchange(1, "GET", "http://b.test/one", false), 0),
        (exchange(2, "GET", "http://a.test/two", false), 0),
        (exchange(3, "POST", "http://c.test/three", false), 0),
        (exchange(4, "GET", "c.test:443", true), 0),
        (exchange(5, "GET", "http://c.test/four", false), 0),
    ]);
    app
}

#[test]
fn hosts_by_encryption() {
    let mut app = filled();
    let names = |v: Vec<rproxy::gui::Host>| v.into_iter().map(|h| h.name).collect::<Vec<_>>();
    let mut both = names(app.hosts_where(false));
    let plain = both.len();
    both.extend(names(app.hosts_where(true)));
    assert_eq!(both.len(), app.hosts.len());
    assert!(app.hosts_where(true).iter().all(|h| h.secure));
    assert!(plain > 0);
    // Counting the same rows again changes nothing.
    let before = names(app.hosts.clone());
    app.poll(&Vec::new());
    assert_eq!(names(app.hosts.clone()), before);
}

#[test]
fn hosts_are_ranked() {
    let app = filled();
    let hosts: Vec<(&str, u32, bool)> =
        app.hosts.iter().map(|h| (h.name.as_str(), h.count, h.secure)).collect();
    assert_eq!(
        hosts,
        vec![("c.test", 2, false), ("a.test", 1, false), ("b.test", 1, false), ("c.test:443", 1, true)]
    );
    let sum: u32 = app.hosts.iter().map(|h| h.count).sum();
    assert_eq!(sum as usize, app.rows.len());
}

#[test]
fn recording_can_be_stopped() {
    let mut app = filled();
    app.toggle_recording();
    app.poll(&vec![(exchange(6, "GET", "http://d.test/", false), 0)]);
    assert_eq!(app.rows.len(), 5);
    app.toggle_recording();
    app.poll(&vec![(exchange(7, "GET", "http://d.test/", false), 0)]);
    assert_eq!(app.rows.len(), 6);
    assert_eq!(app.hosts.len(), 5);
}

fn ids(app: &App) -> Vec<u32> {
    app.visible().iter().map(|r| r.id).collect()
}

#[test]
fn filters() {
    let mut app = filled();
    assert_eq!(ids(&app), vec![1, 2, 3, 4, 5]);
    app.filter = "POST".into();
    assert_eq!(ids(&app), vec![3]);
    app.filter = "T".into();
    assert_eq!(ids(&app), vec![1, 2, 3, 4, 5]);
    app.filter = "/F".into();
    assert_eq!(ids(&app), vec![5]);
    app.filter = String::new();
    app.click_host("c.test");
    assert_eq!(ids(&app), vec![3, 5]);
    app.filter = "three".into();
    assert_eq!(ids(&app), vec![3]);
    app.filter = "one".into();
    assert!(app.visible().is_empty());
}

#[test]
fn selections() {
    let mut app = filled();
    app.sel_row = Some(2);
    assert_eq!(app.selected().map(|r| r.host.as_str()), Some("a.test"));
    app.click_host("a.test");
    assert_eq!(app.sel_host.as_deref(), Some("a.test"));
    assert!(app.selected().is_none());
    app.click_host("a.test");
    assert!(app.sel_host.is_none());
    app.click_host("b.test");
    app.click_host("c.test");
    assert_eq!(app.sel_host.as_deref(), Some("c.test"));
    app.sel_row = Some(1);
    app.clear_rows();
    assert!(app.rows.is_empty() && app.sel_row.is_none());
    assert_eq!(app.sel_host.as_deref(), Some("c.test"));
    app.clear_session();
    assert!(app.sel_host.is_none());
    app.sel_row = Some(77);
    assert!(app.selected().is_none());
}

#[test]
fn details_of_a_row() {
    let mut ex = exchange(1, "GET", "http://h.test/p", false);
    ex.response_status = Some(404);
    ex.finish(ExchangeState::Complete, at(3_000_000_000));
    let row = Row::from(&ex, 0);
    let line = |a: &str, b: &str| (a.to_string(), b.to_string());
    assert_eq!(
        row.detail(Tab::Overview),
        vec![
            line("URL", "http://h.test/p"),
            line("Method", "GET"),
            line("Status", "404"),
            line("Host", "h.test"),
            line("Duration", "3.0s"),
        ]
    );
    assert_eq!(
        row.detail(Tab::Request),
        vec![line("", "GET /p HTTP/1.1"), line("", "Host: h.test")]
    );
    assert_eq!(row.detail(Tab::Response), vec![line("", "HTTP/1.1 404")]);
    assert_eq!(row.detail(Tab::Timing), vec![line("", "Total: 3.0s")]);
    assert_eq!(Tab::Request.note(), Some("(тела запросов появятся при захвате тела в ядре)"));
    assert_eq!(Tab::Response.note(), Some("(тела ответов появятся при захвате тела в ядре)"));
    assert_eq!(Tab::Overview.note(), None);
    assert_eq!(Tab::Timing.note(), None);
}

#[test]
fn log_lines() {
    let mut ex = exchange(1, "GET", "http://h.test/p", false);
    assert_eq!(log_text(&ex), "GET http://h.test/p -> - (-)");
    ex.response_status = Some(200);
    ex.finish(ExchangeState::Complete, at(1_250_000));
    assert_eq!(log_text(&ex), "GET http://h.test/p -> 200 (1.25ms)");
    ex.request = None;
    assert_eq!(log_text(&ex), "- - -> 200 (1.25ms)");
}
