//! Texts, headers and addresses.

use rproxy::headers::{
    find_header, overwrite_header, remove_header, upsert_header, HeaderTable,
};
use rproxy::target::{display_uri, find_target, split_authority};
use rproxy::text;
use rproxy::wire::{fields_for_origin, outgoing_fields, texts_of};

fn list(h: &[(&str, &str)]) -> Vec<(String, String)> {
    h.iter().map(|(k, v)| (k.to_string(), v.to_string())).collect()
}

fn raw(h: &[(&str, &[u8])]) -> Vec<(String, Vec<u8>)> {
    h.iter().map(|(k, v)| (k.to_string(), v.to_vec())).collect()
}

#[test]
fn texts_agree_with_std() {
    let samples = ["", "a", "aa", "abab", "Straße", "x/y/z", "ÄÖ", "aaa"];
    for s in samples {
        for p in samples {
            assert_eq!(text::contains(s, p), s.contains(p));
            assert_eq!(text::same(s, p), s == p);
            assert_eq!(text::less(s, p), s < p);
            assert_eq!(text::eq_ignore_ascii_case(s, p), s.eq_ignore_ascii_case(p));
            assert_eq!(text::strip_prefix(s, p).as_deref(), s.strip_prefix(p));
            for r in ["", "-", "aa"] {
                assert_eq!(text::replace_all(s, p, r), s.replace(p, r));
                assert_eq!(text::replace_first(s, p, r), s.replacen(p, r, 1));
            }
        }
        for c in ['a', '/', 'ß'] {
            let owned = |x: Option<(&str, &str)>| x.map(|(a, b)| (a.to_string(), b.to_string()));
            assert_eq!(text::split_once(s, c), owned(s.split_once(c)));
            assert_eq!(text::rsplit_once(s, c), owned(s.rsplit_once(c)));
            assert_eq!(text::before(s, c), s.split(c).next().unwrap());
            assert_eq!(text::behind_last(s, c), s.rsplit(c).next().unwrap());
        }
    }
    for n in [0u64, 9, 10, 65_535, u64::MAX] {
        assert_eq!(text::decimal_text(n), n.to_string());
        assert_eq!(text::padded_text(n, 3), format!("{n:03}"));
    }
    for s in ["0", "443", "65535", "65536", "", "+1", "-1", "1a", "000001", " 1", "٣"] {
        assert_eq!(text::parse_u16(s), s.parse::<u16>().ok());
    }
}

#[test]
fn headers_are_changed_by_name() {
    let mut h = list(&[("A", "1"), ("b", "2"), ("a", "3")]);
    assert_eq!(find_header(&h, "a").as_deref(), Some("1"));
    assert_eq!(find_header(&h, "c"), None);
    upsert_header(&mut h, "a", "9");
    assert_eq!(h, list(&[("A", "9"), ("b", "2"), ("a", "3")]));
    upsert_header(&mut h, "c", "4");
    assert_eq!(h, list(&[("A", "9"), ("b", "2"), ("a", "3"), ("c", "4")]));
    overwrite_header(&mut h, "a", "0");
    assert!(h.iter().all(|(k, v)| !k.eq_ignore_ascii_case("a") || v == "0"));
    remove_header(&mut h, "A");
    assert_eq!(h, list(&[("b", "2"), ("c", "4")]));
    remove_header(&mut h, "A");
    assert_eq!(h, list(&[("b", "2"), ("c", "4")]));
}

#[test]
fn tables_are_sorted() {
    let t = HeaderTable::new().insert("b", "1").insert("a", "2").insert("b", "3");
    assert_eq!(t.len(), 2);
    assert_eq!(t.get(0), ("a", "2"));
    assert_eq!(t.get(1), ("b", "3"));
    let u = t.clone().insert("B", "4");
    assert_eq!(u.get(0), ("B", "4"));
    assert_eq!(t.len(), 2);
}

#[test]
fn authorities_and_targets() {
    let split = |s: &str| split_authority(s);
    assert_eq!(split("h:80"), ("h".to_string(), 80));
    assert_eq!(split("h"), ("h".to_string(), 443));
    assert_eq!(split("h:x"), ("h".to_string(), 443));
    assert_eq!(split("[::1]:8443"), ("[::1]".to_string(), 8443));
    assert_eq!(display_uri("h:1", "/p"), "https://h:1/p");
    let t = find_target("https://h:1/p/q").unwrap();
    assert_eq!((t.authority.as_str(), t.host.as_str(), t.port, t.path.as_str()), ("h:1", "h", 1, "/p/q"));
    assert_eq!(find_target("https://h").unwrap().path, "/");
    assert!(find_target("http://h/").is_none());
}

#[test]
fn header_values_on_the_wire() {
    let got = raw(&[("a", b"1"), ("b", b"\xff\xfe"), ("c", b"3")]);
    // A value that is no visible text reads as nothing.
    assert_eq!(texts_of(&got), list(&[("a", "1"), ("b", ""), ("c", "3")]));
    // What no tool has touched goes out byte for byte.
    assert_eq!(outgoing_fields(&got, &texts_of(&got)), got);
    // What a tool has changed goes out as it left it.
    let changed = list(&[("a", "9"), ("b", ""), ("d", "4")]);
    let out = outgoing_fields(&got, &changed);
    assert_eq!(out[0], ("a".to_string(), b"9".to_vec()));
    assert!(out.contains(&("d".to_string(), b"4".to_vec())));
    assert!(!out.iter().any(|(k, _)| k == "c"));
}

#[test]
fn headers_for_an_origin() {
    let got = raw(&[("Proxy-Connection", b"x"), ("HOST", b"old"), ("a", b"1")]);
    let out = fields_for_origin(&got, "h:1");
    assert!(out.iter().any(|(k, v)| k.eq_ignore_ascii_case("host") && v == b"h:1"));
    assert_eq!(out.iter().filter(|(k, _)| k.eq_ignore_ascii_case("host")).count(), 1);
    assert!(!out.iter().any(|(k, _)| k.eq_ignore_ascii_case("proxy-connection")));
    assert!(out.contains(&("a".to_string(), b"1".to_vec())));
}
