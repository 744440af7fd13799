//! The certificate authority and what it issues.

use rproxy::cert::{default_ca_dir, leaf_params, CaDir, CertAuthority, CertError};
use rproxy::der::can_rewrite_subject;
use rproxy::mitm::MitmState;
use std::sync::Arc;

#[test]
fn ca_generation_and_leaf_certs() {
    let ca = CertAuthority::generate().ok().expect("CA generation");
    let pem = ca.ca_cert_pem();
    assert!(pem.contains("BEGIN CERTIFICATE"));

    let (chain, key) = ca.leaf_for("example.com").ok().expect("leaf");
    assert_eq!(chain.len(), 2, "leaf + CA");
    assert!(!key.is_empty());

    let (chain, _) = ca.leaf_for("127.0.0.1").ok().expect("leaf ip");
    assert_eq!(chain.len(), 2);

    let (_, key2) = ca.leaf_for("other.example.org").ok().expect("leaf 2");
    assert!(!key2.is_empty());
}

fn holds(haystack: &[u8], needle: &[u8]) -> bool {
    haystack.windows(needle.len()).any(|w| w == needle)
}

#[test]
fn authority_names_itself() {
    let ca = CertAuthority::generate().ok().expect("CA generation");
    let (chain, _) = ca.leaf_for("example.com").ok().expect("leaf");
    assert!(holds(&chain[1], b"rproxy Root CA"));
    assert!(!holds(&chain[1], b"rcgen self signed cert"));
    assert!(!holds(&chain[1], b"example.com"));
    // Basic constraints of an authority: critical, CA, no limit on the depth.
    assert!(holds(&chain[1], &[0x55, 0x1d, 0x13, 0x01, 0x01, 0xff, 0x04, 0x05, 0x30, 0x03, 0x01, 0x01, 0xff]));
    // Key usages of an authority: signing certificates, revocation lists and data.
    assert!(holds(&chain[1], &[0x55, 0x1d, 0x0f, 0x01, 0x01, 0xff, 0x04, 0x04, 0x03, 0x02, 0x01, 0x86]));
    assert!(ca.ca_key_pem().contains("PRIVATE KEY"));
}

#[test]
fn leaf_names_the_host_and_its_issuer() {
    let ca = CertAuthority::generate().ok().expect("CA generation");
    let (chain, _) = ca.leaf_for("example.com").ok().expect("leaf");
    assert!(holds(&chain[0], b"rproxy Root CA"));
    // As a name in the subject, and as a DNS name among the hosts.
    assert!(holds(&chain[0], b"\x0c\x0bexample.com"));
    assert!(holds(&chain[0], b"\x82\x0bexample.com"));
    // The usage of a TLS server.
    assert!(holds(&chain[0], &[0x2b, 0x06, 0x01, 0x05, 0x05, 0x07, 0x03, 0x01]));
    assert!(!holds(&chain[0], &[0x55, 0x1d, 0x13]));
    // Key usage: signing data alone.
    assert!(holds(&chain[0], &[0x55, 0x1d, 0x0f, 0x01, 0x01, 0xff, 0x04, 0x04, 0x03, 0x02, 0x07, 0x80]));
}

#[test]
fn leaf_for_an_address_has_an_address() {
    let ca = CertAuthority::generate().ok().expect("CA generation");
    let (chain, _) = ca.leaf_for("127.0.0.1").ok().expect("leaf");
    assert!(holds(&chain[0], &[0x87, 0x04, 127, 0, 0, 1]));
    assert!(!holds(&chain[0], b"\x82\x09127.0.0.1"));
    // Sixteen bytes.
    let (chain, _) = ca.leaf_for("::1").ok().expect("leaf");
    assert!(holds(&chain[0], &[0x87, 0x10, 0, 0, 0, 0, 0, 0, 0, 0, 0, 0, 0, 0, 0, 0, 0, 1]));
    // A zero in front makes it a name.
    let (chain, _) = ca.leaf_for("127.0.0.01").ok().expect("leaf");
    assert!(holds(&chain[0], b"\x82\x0a127.0.0.01"));
}

#[test]
fn leaf_dates() {
    let p = leaf_params("example.com", 1_700_000_000).ok().expect("params");
    assert_eq!(p.not_before.unix_timestamp(), 1_700_000_000 - 86_400);
    assert_eq!(p.not_after.unix_timestamp(), 1_700_000_000 + 825 * 86_400);
    let p = leaf_params("example.com", i64::MIN).ok().expect("params");
    assert_eq!(p.not_before.unix_timestamp(), -62_167_219_200);
    let p = leaf_params("example.com", 10).ok().expect("params");
    assert_eq!(p.not_before.unix_timestamp(), 10 - 86_400);
    let p = leaf_params("example.com", i64::MAX).ok().expect("params");
    assert_eq!(p.not_after.unix_timestamp(), 253_402_300_799);
}

#[test]
fn authority_is_read_back() {
    let ca = CertAuthority::generate().ok().expect("CA generation");
    let cert = ca.ca_cert_pem().to_string();
    let key = ca.ca_key_pem().to_string();
    let back = CertAuthority::stored(Some(cert.clone()), Some(key)).expect("both");
    assert!(back.has_cert());
    assert!(back.is_usable());
    assert_eq!(back.ca_cert_pem(), cert);
    let (a, _) = ca.leaf_for("a.test").ok().expect("leaf");
    let (b, _) = back.try_leaf_for("b.test").expect("certificate").ok().expect("leaf");
    assert_eq!(a[1], b[1]);
    assert_ne!(a[0], b[0]);
    assert_eq!(ca.chain(vec![1, 2, 3]), vec![vec![1, 2, 3], a[1].clone()]);
    assert_eq!(back.clone().ca_cert_pem(), cert);
}

#[test]
fn half_an_authority_is_none() {
    assert!(CertAuthority::stored(Some("c".into()), None).is_none());
    assert!(CertAuthority::stored(None, Some("k".into())).is_none());
    assert!(CertAuthority::stored(None, None).is_none());
}

#[test]
fn errors_say_what_failed() {
    let ca = CertAuthority::generate().ok().expect("CA generation");
    let cert = ca.ca_cert_pem().to_string();
    let key = ca.ca_key_pem().to_string();

    match ca.leaf_for("пример.рф") {
        Err(e) => {
            assert!(matches!(e, CertError::Host(_)));
            assert!(!e.message().is_empty());
        }
        Ok(_) => panic!("not an ASCII name"),
    }

    let no_key = CertAuthority::stored(Some(cert), Some("no key".into())).expect("both");
    assert!(matches!(no_key.leaf_for("a.test"), Err(CertError::CaKey(_))));

    let no_cert = CertAuthority::stored(Some("no certificate".into()), Some(key)).expect("both");
    assert!(!no_cert.has_cert());
    assert!(!no_cert.is_usable());
    assert!(matches!(no_cert.try_leaf_for("a.test"), Some(Err(CertError::CaCert(_)))));
    assert!(matches!(no_cert.leaf_for("a.test"), Err(CertError::CaCert(_))));
    // The proxy starts with it all the same, and no host can be impersonated.
    assert!(MitmState::new(no_cert).server_config_for("a.test").is_none());
}

#[test]
fn configurations_are_made_once() {
    let ca = CertAuthority::generate().ok().expect("CA generation");
    let pem = ca.ca_cert_pem().to_string();
    let mut state = MitmState::new(ca);
    assert_eq!(state.ca_cert_pem(), pem);
    let a = state.server_config_for("a.test").expect("configuration");
    let b = state.server_config_for("b.test").expect("configuration");
    let again = state.server_config_for("a.test").expect("configuration");
    assert!(Arc::ptr_eq(&a, &again));
    assert!(!Arc::ptr_eq(&a, &b));
    // A failure is kept too.
    assert!(state.server_config_for("пример.рф").is_none());
    assert!(state.server_config_for("пример.рф").is_none());
}

#[test]
fn what_was_made_is_kept() {
    let ca = CertAuthority::generate().ok().expect("CA generation");
    let made = MitmState::new(ca.clone()).server_config_for("a.test").expect("configuration");
    let mut state = MitmState::new(ca);
    let given = state.keep("a.test", Ok(made.clone())).expect("configuration");
    assert!(Arc::ptr_eq(&given, &made));
    assert!(Arc::ptr_eq(&state.server_config_for("a.test").expect("configuration"), &made));
    assert!(state.keep("b.test", Err("no".to_string())).is_none());
    assert!(state.server_config_for("b.test").is_none());
}

#[test]
fn texts_that_hold_no_certificate() {
    let ca = CertAuthority::generate().ok().expect("CA generation");
    let der = pem::parse(ca.ca_cert_pem()).expect("PEM").into_contents();
    assert!(can_rewrite_subject(&der));
    // A key that was read, and a certificate that was not.
    let text = pem::encode(&pem::Pem::new("CERTIFICATE", vec![1, 2, 3]));
    let other = CertAuthority::stored(Some(text), Some(ca.ca_key_pem().to_string())).expect("both");
    assert!(matches!(other.try_leaf_for("a.test"), Some(Err(CertError::CaCert(_)))));
}

#[test]
fn where_the_authority_is_stored() {
    let s = |x: &str| Some(x.to_string());
    assert!(matches!(default_ca_dir(s("/d"), s("/p"), s("/h")), Some(CaDir::At(d)) if d == "/d"));
    assert!(matches!(default_ca_dir(None, s("/p"), s("/h")), Some(CaDir::Under(d)) if d == "/p"));
    assert!(matches!(default_ca_dir(None, None, s("/h")), Some(CaDir::Under(d)) if d == "/h"));
    assert!(default_ca_dir(None, None, None).is_none());
}

fn value(tag: u8, body: &[u8]) -> Vec<u8> {
    let mut v = vec![tag];
    if body.len() < 128 {
        v.push(body.len() as u8);
    } else {
        v.extend([0x82, (body.len() / 256) as u8, (body.len() % 256) as u8]);
    }
    v.extend(body);
    v
}

fn cert_of_owner(with_version: bool, object: &[u8], tag: u8, text: &[u8]) -> Vec<u8> {
    let attribute = value(0x30, &[value(0x06, object), value(tag, text)].concat());
    let name = value(0x30, &value(0x31, &attribute));
    let empty = value(0x30, &[]);
    let mut inner = Vec::new();
    if with_version {
        inner.extend(value(0xa0, &value(0x02, &[2])));
    }
    inner.extend([value(0x02, &[1]), empty.clone(), empty.clone(), empty.clone(), name, empty].concat());
    value(0x30, &value(0x30, &inner))
}

fn cert_of_name(name: &[u8]) -> Vec<u8> {
    let empty = value(0x30, &[]);
    let name = value(0x30, name);
    let inner = [value(0x02, &[1]), empty.clone(), empty.clone(), empty, name].concat();
    value(0x30, &value(0x30, &inner))
}

#[test]
fn which_names_can_be_written_again() {
    let common = [0x55, 0x04, 0x03];
    for v in [true, false] {
        assert!(can_rewrite_subject(&cert_of_owner(v, &common, 0x13, b"a b")));
        assert!(!can_rewrite_subject(&cert_of_owner(v, &common, 0x13, b"a?b")));
        assert!(can_rewrite_subject(&cert_of_owner(v, &common, 0x0c, b"a?b")));
        assert!(can_rewrite_subject(&cert_of_owner(v, &common, 0x0c, &[b'a'; 300])));
        assert!(!can_rewrite_subject(&cert_of_owner(v, &[], 0x0c, b"a")));
        assert!(!can_rewrite_subject(&cert_of_owner(v, &[0], 0x0c, b"a")));
        assert!(can_rewrite_subject(&cert_of_owner(v, &[1], 0x0c, b"a")));
        assert!(can_rewrite_subject(&cert_of_owner(v, &[119, 1], 0x0c, b"a")));
        assert!(!can_rewrite_subject(&cert_of_owner(v, &[120, 1], 0x0c, b"a")));
    }
    // What is behind the two values of an attribute is passed over, and so is what cannot be read
    // behind the parts.
    let attribute = |tail: &[u8], text: &[u8]| {
        let parts = [value(0x06, &common), value(0x13, text), tail.to_vec()].concat();
        value(0x31, &value(0x30, &parts))
    };
    assert!(can_rewrite_subject(&cert_of_name(&attribute(&value(0x13, b"?"), b"a"))));
    assert!(!can_rewrite_subject(&cert_of_name(&attribute(b"", b"?"))));
    let with_rest = |rest: &[u8]| [attribute(b"", b"a"), rest.to_vec()].concat();
    assert!(can_rewrite_subject(&cert_of_name(&with_rest(&[0x30, 0x80]))));
    assert!(can_rewrite_subject(&cert_of_name(&with_rest(&value(0x31, b"")))));
    assert!(!can_rewrite_subject(&cert_of_name(&with_rest(&attribute(b"", b"?")))));
    // Behind what cannot be read nothing is read.
    let hidden = [value(0x30, b""), attribute(b"", b"?")].concat();
    assert!(can_rewrite_subject(&cert_of_name(&with_rest(&hidden))));
    // A tag in bytes of its own, and a length with zeros in front.
    let long = [vec![0x1f, 0x13, 0x83, 0, 0, 1], b"?".to_vec()].concat();
    let part = value(0x31, &value(0x30, &[value(0x06, &common), long].concat()));
    assert!(!can_rewrite_subject(&cert_of_name(&part)));
    // An object identifier that is made of other values cannot be read.
    let part = value(0x31, &value(0x30, &[value(0x26, &[]), value(0x13, b"?")].concat()));
    assert!(can_rewrite_subject(&cert_of_name(&part)));
    assert!(can_rewrite_subject(&cert_of_name(b"")));
    let mut cut = cert_of_owner(true, &common, 0x13, b"a");
    cut.pop();
    assert!(!can_rewrite_subject(&cut));
    assert!(!can_rewrite_subject(b"no certificate"));
    assert!(!can_rewrite_subject(&[]));
}

#[test]
fn authority_with_a_name_that_cannot_be_written_again() {
    let mut params = rcgen::CertificateParams::new(Vec::<String>::new()).expect("params");
    params.is_ca = rcgen::IsCa::Ca(rcgen::BasicConstraints::Unconstrained);
    params.distinguished_name = rcgen::DistinguishedName::new();
    let name = rcgen::string::PrintableString::try_from("rproxyXca").expect("printable");
    params.distinguished_name.push(rcgen::DnType::CommonName, rcgen::DnValue::PrintableString(name));
    let key = rcgen::KeyPair::generate().expect("key");
    let mut der = params.self_signed(&key).expect("certificate").der().to_vec();
    assert!(can_rewrite_subject(&der));
    while let Some(at) = der.windows(9).position(|w| w == b"rproxyXca") {
        der[at + 6] = b'?';
    }
    assert!(!can_rewrite_subject(&der));
    let text = pem::encode(&pem::Pem::new("CERTIFICATE", der));
    let ca = CertAuthority::stored(Some(text), Some(key.serialize_pem())).expect("both");
    assert!(ca.has_cert());
    assert!(!ca.is_usable());
    assert!(ca.try_leaf_for("a.test").is_none());
    assert!(MitmState::new(ca).server_config_for("a.test").is_none());
}
