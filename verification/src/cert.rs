//! The certificate authority of the proxy, and the certificates that it issues.

use crate::der;
use crate::der::subject_fits;
use crate::model::opt_text;
use crate::text::{
    decimal, is_digit, law_before_first, law_decimal_is_read_back, number_of, split_at_first,
};
use vstd::prelude::*;
use vstd::utf8::is_ascii_chars;

verus! {

// ---------------------------------------------------------------- model

/// What a key may be used for.
#[derive(Debug, Clone, Copy, PartialEq, Eq, Structural)]
pub enum Usage {
    KeyCertSign,
    CrlSign,
    DigitalSignature,
}

/// A part of the name of a certificate's owner.
#[derive(Debug, Clone, Copy, PartialEq, Eq, Structural)]
pub enum NamePart {
    Common,
    Organization,
}

/// A host that a certificate is for.
pub enum SubjectHost {
    /// An address, by its bytes.
    Address(Seq<u8>),
    /// A name.
    Name(Seq<char>),
}

/// The byte that a text writes: a number below 256, in digits, without zeros in front.
pub open spec fn octet(s: Seq<char>) -> Option<u8> {
    if s.len() > 0 && (forall|i: int| 0 <= i < s.len() ==> is_digit(#[trigger] s[i])) && (s.len()
        == 1 || s[0] != '0') && number_of(s) < 256 {
        Some(number_of(s) as u8)
    } else {
        None
    }
}

/// The four bytes of an address, as it is commonly written: with points between them.
pub open spec fn v4_bytes(s: Seq<char>) -> Option<Seq<u8>> {
    match split_at_first(s, '.') {
        Some((a, after_a)) => match split_at_first(after_a, '.') {
            Some((b, after_b)) => match split_at_first(after_b, '.') {
                Some((c, d)) => match (octet(a), octet(b), octet(c), octet(d)) {
                    (Some(w), Some(x), Some(y), Some(z)) => Some(seq![w, x, y, z]),
                    _ => None,
                },
                None => None,
            },
            None => None,
        },
        None => None,
    }
}

/// How a host stands in a certificate, where it is known which bytes a text with a colon in it is
/// the address of.
pub open spec fn subject_host(s: Seq<char>, v6: Option<Seq<u8>>) -> SubjectHost {
    match v4_bytes(s) {
        Some(b) => SubjectHost::Address(b),
        None => match v6 {
            Some(b) => if s.contains(':') {
                SubjectHost::Address(b)
            } else {
                SubjectHost::Name(s)
            },
            None => SubjectHost::Name(s),
        },
    }
}

/// What a certificate is to say.
pub struct Profile {
    /// Whether its owner may issue certificates, to any depth.
    pub ca: bool,
    /// The hosts that it is for.
    pub hosts: Seq<SubjectHost>,
    pub common_name: Seq<char>,
    pub organization: Option<Seq<char>>,
    pub usages: Seq<Usage>,
    /// Whether its owner may act as a TLS server.
    pub server: bool,
    /// From when it holds, in seconds since the start of 1970.
    pub not_before: int,
    /// Until when it holds, in seconds since the start of 1970.
    pub not_after: int,
    /// Whether it says anything more.
    pub more: bool,
}

/// The first second of the year 0, in seconds since the start of 1970.
pub const FIRST_SECOND: i64 = -62_167_219_200;

/// The last second of the year 9999, in seconds since the start of 1970.
pub const LAST_SECOND: i64 = 253_402_300_799;

/// The seconds of a day.
pub const DAY: i64 = 86_400;

/// The dates of the certificate can be written: they are from the year 0 to the year 9999.
pub open spec fn dated(p: Profile) -> bool {
    FIRST_SECOND <= p.not_before <= LAST_SECOND && FIRST_SECOND <= p.not_after <= LAST_SECOND
}

/// A certificate for these hosts about which nothing else is said yet.
pub open spec fn blank(hosts: Seq<SubjectHost>) -> Profile {
    Profile {
        ca: false,
        hosts,
        common_name: "rcgen self signed cert"@,
        organization: None,
        usages: Seq::empty(),
        server: false,
        not_before: 157_766_400,
        not_after: 67_090_118_400,
        more: false,
    }
}

/// The certificate of the authority.
pub open spec fn ca_profile() -> Profile {
    Profile {
        ca: true,
        common_name: "rproxy Root CA"@,
        organization: Some("rproxy"@),
        usages: seq![Usage::KeyCertSign, Usage::CrlSign, Usage::DigitalSignature],
        ..blank(Seq::empty())
    }
}

/// A day some days before or after this moment, as far as dates go.
pub open spec fn shifted(now: i64, days: int) -> int {
    let t = now + days * DAY;
    if t < FIRST_SECOND {
        FIRST_SECOND as int
    } else if t > LAST_SECOND {
        LAST_SECOND as int
    } else {
        t
    }
}

/// The certificate of a host, issued at this moment.
pub open spec fn leaf_profile(host: Seq<char>, now: i64) -> Profile {
    Profile {
        common_name: host,
        usages: seq![Usage::DigitalSignature],
        server: true,
        not_before: shifted(now, -1),
        not_after: shifted(now, 825),
        ..blank(seq![subject_host(host, v6_bytes(host))])
    }
}

/// A certificate: what it says, the key of its owner and the key of who signed it.
pub struct CertView {
    pub profile: Profile,
    pub key: Seq<u8>,
    pub signer: Seq<u8>,
}

// ---------------------------------------------------------------- outside

/// The parameters of a certificate, of rcgen.
#[verifier::external_type_specification]
#[verifier::external_body]
pub struct ExCertificateParams(rcgen::CertificateParams);

/// A key pair of rcgen.
#[verifier::external_type_specification]
#[verifier::external_body]
pub struct ExKeyPair(rcgen::KeyPair);

/// A certificate of rcgen.
#[verifier::external_type_specification]
#[verifier::external_body]
pub struct ExCertificate(rcgen::Certificate);

/// Who issues certificates, of rcgen.
#[verifier::external_type_specification]
#[verifier::external_body]
#[verifier::reject_recursive_types(S)]
pub struct ExIssuer<'a, S>(rcgen::Issuer<'a, S>);

/// An error of rcgen.
#[verifier::external_type_specification]
#[verifier::external_body]
pub struct ExError(rcgen::Error);

/// What the certificate with these parameters is to say.
pub uninterp spec fn profile_of(p: rcgen::CertificateParams) -> Profile;

/// The bytes of a key pair, as PKCS #8 has them.
pub uninterp spec fn key_bytes(k: rcgen::KeyPair) -> Seq<u8>;

/// Whether a key pair is one on the curve P-256.
pub uninterp spec fn on_p256(k: rcgen::KeyPair) -> bool;

/// What a certificate is.
pub uninterp spec fn cert_of(c: rcgen::Certificate) -> CertView;

/// The bytes of a certificate.
pub uninterp spec fn cert_bytes(c: rcgen::Certificate) -> Seq<u8>;

/// The key that an issuer signs with.
pub uninterp spec fn issuer_key(i: rcgen::Issuer<'static, rcgen::KeyPair>) -> Seq<u8>;

/// The bytes of the certificate that an issuer was read from.
pub uninterp spec fn issuer_cert(i: rcgen::Issuer<'static, rcgen::KeyPair>) -> Seq<u8>;

/// The bytes of the address that `std::net::IpAddr::from_str` reads out of a text with a colon in
/// it; none where it reads none.
pub uninterp spec fn v6_bytes(s: Seq<char>) -> Option<Seq<u8>>;

/// The bytes of the first key in a PEM text; none where there is no key that can be read.
pub uninterp spec fn key_in_pem(s: Seq<char>) -> Option<Seq<u8>>;

/// Whether `rcgen::Issuer::from_ca_cert_pem` reads a certificate out of this text.
pub uninterp spec fn issuer_reads(s: Seq<char>) -> bool;

/// The bytes that `pem::parse` reads out of this text; none where it gives an error.
pub uninterp spec fn first_block(s: Seq<char>) -> Option<Seq<u8>>;

/// The bytes of the certificate that `rustls_pemfile::certs` gives first for this text; none
/// where it gives none, or an error.
pub uninterp spec fn first_cert(s: Seq<char>) -> Option<Seq<u8>>;

/// `rcgen::CertificateParams::new`: parameters for these hosts, with nothing else said. It takes
/// ASCII names alone. A host that `std::net::IpAddr::from_str` takes is an address: four numbers
/// below 256, in decimal without zeros in front, with points between them, or a text with a colon
/// in it, of which no more is said. It stands there by its bytes. Any other is a name.
#[verifier::external_body]
fn new_params(hosts: Vec<String>) -> (r: Result<rcgen::CertificateParams, rcgen::Error>)
    ensures
        r is Ok <==> forall|i: int| 0 <= i < hosts@.len() ==> is_ascii_chars(#[trigger] hosts@[i]@),
        r is Ok ==> profile_of(r->Ok_0) == blank(
            hosts@.map_values(|h: String| subject_host(h@, v6_bytes(h@))),
        ),
{
    rcgen::CertificateParams::new(hosts)
}

/// The field `is_ca` of the parameters, set to an authority without constraints.
#[verifier::external_body]
fn set_ca(p: &mut rcgen::CertificateParams)
    ensures
        profile_of(*final(p)) == (Profile { ca: true, ..profile_of(*old(p)) }),
{
    p.is_ca = rcgen::IsCa::Ca(rcgen::BasicConstraints::Unconstrained);
}

/// `rcgen::DistinguishedName::push` on the name in the parameters: sets this part of it, in place
/// of what it was.
#[verifier::external_body]
fn set_name(p: &mut rcgen::CertificateParams, part: NamePart, value: &str)
    ensures
        profile_of(*final(p)) == match part {
            NamePart::Common => Profile { common_name: value@, ..profile_of(*old(p)) },
            NamePart::Organization => Profile {
                organization: Some(value@),
                ..profile_of(*old(p))
            },
        },
{
    let kind = match part {
        NamePart::Common => rcgen::DnType::CommonName,
        NamePart::Organization => rcgen::DnType::OrganizationName,
    };
    p.distinguished_name.push(kind, value);
}

/// The field `key_usages` of the parameters, with one usage more.
#[verifier::external_body]
fn add_usage(p: &mut rcgen::CertificateParams, usage: Usage)
    ensures
        profile_of(*final(p)) == (Profile {
            usages: profile_of(*old(p)).usages.push(usage),
            ..profile_of(*old(p))
        }),
{
    p.key_usages.push(match usage {
        Usage::KeyCertSign => rcgen::KeyUsagePurpose::KeyCertSign,
        Usage::CrlSign => rcgen::KeyUsagePurpose::CrlSign,
        Usage::DigitalSignature => rcgen::KeyUsagePurpose::DigitalSignature,
    });
}

/// `rcgen::CertificateParams::insert_extended_key_usage` with the usage of a TLS server.
#[verifier::external_body]
fn set_server(p: &mut rcgen::CertificateParams)
    ensures
        profile_of(*final(p)) == (Profile { server: true, ..profile_of(*old(p)) }),
{
    p.insert_extended_key_usage(rcgen::ExtendedKeyUsagePurpose::ServerAuth);
}

/// The fields `not_before` and `not_after` of the parameters, set to the moments that
/// `time::OffsetDateTime::from_unix_timestamp` gives for these seconds.
#[verifier::external_body]
fn set_validity(p: &mut rcgen::CertificateParams, from: i64, to: i64)
    requires
        FIRST_SECOND <= from <= LAST_SECOND,
        FIRST_SECOND <= to <= LAST_SECOND,
    ensures
        profile_of(*final(p)) == (Profile {
            not_before: from as int,
            not_after: to as int,
            ..profile_of(*old(p))
        }),
{
    p.not_before = time::OffsetDateTime::from_unix_timestamp(from).unwrap();
    p.not_after = time::OffsetDateTime::from_unix_timestamp(to).unwrap();
}

/// `time::OffsetDateTime::now_utc`, as whole seconds since the start of 1970. Nothing is known of
/// the clock.
#[verifier::external_body]
fn read_seconds() -> (r: i64)
{
    time::OffsetDateTime::now_utc().unix_timestamp()
}

/// `rcgen::KeyPair::generate`: a new key pair, drawn by chance, on the curve P-256. Which it is,
/// and whether chance can be had, is not known.
#[verifier::external_body]
fn generate_key() -> (r: Result<rcgen::KeyPair, rcgen::Error>)
    ensures
        r is Ok ==> on_p256(r->Ok_0),
{
    rcgen::KeyPair::generate()
}

/// `rcgen::KeyPair::serialize_der`: the bytes of the key pair.
#[verifier::external_body]
fn key_to_bytes(k: &rcgen::KeyPair) -> (r: Vec<u8>)
    ensures
        r@ == key_bytes(*k),
{
    k.serialize_der()
}

/// `rcgen::KeyPair::serialize_pem`: a text out of which a key pair on the curve P-256 can be read
/// again. How its lines end depends on the system.
#[verifier::external_body]
fn key_to_pem(k: &rcgen::KeyPair) -> (r: String)
    ensures
        on_p256(*k) ==> key_in_pem(r@) == Some(key_bytes(*k)),
{
    k.serialize_pem()
}

/// `rcgen::KeyPair::from_pem`: the first key in the text. Reading one draws on chance, so that
/// no success is promised.
#[verifier::external_body]
fn key_from_pem(s: &str) -> (r: Result<rcgen::KeyPair, rcgen::Error>)
    ensures
        r is Ok ==> key_in_pem(s@) == Some(key_bytes(r->Ok_0)),
{
    rcgen::KeyPair::from_pem(s)
}

/// `rcgen::CertificateParams::self_signed`: a certificate that says what the parameters say, of
/// the owner of the key, signed with the same key. It cannot write a date outside the years 0 to
/// 9999, and what parameters say beyond their profile need not be such that it can be written.
/// Signing draws on chance, so that no success is promised.
#[verifier::external_body]
fn self_sign(p: &rcgen::CertificateParams, k: &rcgen::KeyPair) -> (r: Result<
    rcgen::Certificate,
    rcgen::Error,
>)
    requires
        dated(profile_of(*p)),
        !profile_of(*p).more,
    ensures
        r is Ok ==> cert_of(r->Ok_0) == (CertView {
            profile: profile_of(*p),
            key: key_bytes(*k),
            signer: key_bytes(*k),
        }),
{
    p.self_signed(k)
}

/// `rcgen::CertificateParams::signed_by`: a certificate that says what the parameters say, of the
/// owner of the key, signed with the key of the issuer. It writes the name that it has read out of
/// the certificate of the issuer again, which cannot be done with every name that can be read: a
/// printable string with a question mark in it stops it, and so does an object identifier of one
/// number, or whose first number is three or more. Nor can it write a date outside the years 0 to
/// 9999, and what parameters say beyond their profile need not be such that it can be written.
/// Signing draws on chance, so that no success is promised.
#[verifier::external_body]
fn sign(
    p: &rcgen::CertificateParams,
    k: &rcgen::KeyPair,
    i: &rcgen::Issuer<'static, rcgen::KeyPair>,
) -> (r: Result<rcgen::Certificate, rcgen::Error>)
    requires
        dated(profile_of(*p)),
        !profile_of(*p).more,
        subject_fits(issuer_cert(*i)),
    ensures
        r is Ok ==> cert_of(r->Ok_0) == (CertView {
            profile: profile_of(*p),
            key: key_bytes(*k),
            signer: issuer_key(*i),
        }),
{
    p.signed_by(k, i)
}

/// `rcgen::Certificate::der`: the bytes of the certificate.
#[verifier::external_body]
fn cert_to_bytes(c: &rcgen::Certificate) -> (r: Vec<u8>)
    ensures
        r@ == cert_bytes(*c),
{
    c.der().to_vec()
}

/// `rcgen::Certificate::pem`: a text out of which the certificate can be read again, by
/// `rustls_pemfile::certs`, by `pem::parse` and, where it says nothing beyond its profile, by
/// `rcgen::Issuer::from_ca_cert_pem`. The name in such a certificate is made of a common name and
/// an organization, both as UTF-8 strings, so that it can be written again. How the lines end
/// depends on the system.
#[verifier::external_body]
fn cert_to_pem(c: &rcgen::Certificate) -> (r: String)
    ensures
        first_cert(r@) == Some(cert_bytes(*c)),
        first_block(r@) == Some(cert_bytes(*c)),
        !cert_of(*c).profile.more ==> issuer_reads(r@) && subject_fits(first_block(r@)->0),
{
    c.pem()
}

/// `rcgen::Issuer::from_ca_cert_pem`: an issuer with this key and the certificate that
/// `pem::parse` reads out of the text. Whether the text can be read depends on the text alone.
#[verifier::external_body]
fn issuer_from_pem(s: &str, k: rcgen::KeyPair) -> (r: Result<
    rcgen::Issuer<'static, rcgen::KeyPair>,
    rcgen::Error,
>)
    ensures
        r is Ok <==> issuer_reads(s@),
        r is Ok ==> issuer_key(r->Ok_0) == key_bytes(k) && first_block(s@) == Some(
            issuer_cert(r->Ok_0),
        ),
{
    rcgen::Issuer::from_ca_cert_pem(s, k)
}

/// `pem::parse`: the bytes in the first block of the text, which depend on the text alone.
#[verifier::external_body]
fn read_first_block(s: &str) -> (r: Option<Vec<u8>>)
    ensures
        match r {
            Some(b) => first_block(s@) == Some(b@),
            None => first_block(s@) is None,
        },
{
    pem::parse(s).ok().map(|p| p.into_contents())
}

/// The first certificate of `rustls_pemfile::certs`, which depends on the text alone.
#[verifier::external_body]
fn read_first_cert(s: &str) -> (r: Option<Vec<u8>>)
    ensures
        match r {
            Some(b) => first_cert(s@) == Some(b@),
            None => first_cert(s@) is None,
        },
{
    let mut cursor = std::io::Cursor::new(s.as_bytes());
    let first = rustls_pemfile::certs(&mut cursor).next()?;
    first.ok().map(|c| c.to_vec())
}

/// The `Display` of an error of rcgen. Nothing is said of its words.
#[verifier::external_body]
fn error_text(e: rcgen::Error) -> (r: String)
{
    e.to_string()
}

// ---------------------------------------------------------------- functions

/// Why there is no certificate, with the words of what failed.
pub enum CertError {
    /// The host has a name that no certificate can bear.
    Host(String),
    /// No key could be generated.
    Key(String),
    /// Signing failed.
    Sign(String),
    /// The key of the authority could not be read.
    CaKey(String),
    /// The certificate of the authority could not be read.
    CaCert(String),
}

impl CertError {
    /// The words of what failed.
    pub open spec fn words(self) -> Seq<char> {
        match self {
            CertError::Host(s) => s@,
            CertError::Key(s) => s@,
            CertError::Sign(s) => s@,
            CertError::CaKey(s) => s@,
            CertError::CaCert(s) => s@,
        }
    }

    /// The words of what failed.
    pub fn message(self) -> (r: String)
        ensures
            r@ == self.words(),
    {
        match self {
            CertError::Host(s) => s,
            CertError::Key(s) => s,
            CertError::Sign(s) => s,
            CertError::CaKey(s) => s,
            CertError::CaCert(s) => s,
        }
    }
}

/// The parameters of the certificate of the authority.
fn ca_params() -> (r: Result<rcgen::CertificateParams, CertError>)
    ensures
        r is Ok,
        profile_of(r->Ok_0) == ca_profile(),
{
    let hosts: Vec<String> = Vec::new();
    assert(hosts@.map_values(|h: String| subject_host(h@, v6_bytes(h@))) =~= Seq::empty());
    match new_params(hosts) {
        Ok(params) => {
            let mut p = params;
            set_ca(&mut p);
            set_name(&mut p, NamePart::Common, "rproxy Root CA");
            set_name(&mut p, NamePart::Organization, "rproxy");
            add_usage(&mut p, Usage::KeyCertSign);
            add_usage(&mut p, Usage::CrlSign);
            add_usage(&mut p, Usage::DigitalSignature);
            assert(profile_of(p).usages =~= ca_profile().usages);
            Ok(p)
        },
        Err(e) => Err(CertError::Host(error_text(e))),
    }
}

/// A day some days before or after this moment, as far as dates go.
fn shift(now: i64, days: i64) -> (r: i64)
    requires
        -1000 <= days <= 1000,
    ensures
        r == shifted(now, days as int),
        FIRST_SECOND <= r <= LAST_SECOND,
{
    let by: i64 = days * DAY;
    let t: i128 = now as i128 + by as i128;
    if t < FIRST_SECOND as i128 {
        FIRST_SECOND
    } else if t > LAST_SECOND as i128 {
        LAST_SECOND
    } else {
        t as i64
    }
}

/// The parameters of the certificate of a host, issued at this moment. A host whose name is not
/// ASCII has none.
pub fn leaf_params(host: &str, now: i64) -> (r: Result<rcgen::CertificateParams, CertError>)
    ensures
        r is Ok <==> is_ascii_chars(host@),
        r is Ok ==> profile_of(r->Ok_0) == leaf_profile(host@, now),
        r is Err ==> r->Err_0 is Host,
{
    let mut hosts: Vec<String> = Vec::new();
    hosts.push(host.to_string());
    assert(hosts@[0]@ == host@);
    assert(hosts@.map_values(|h: String| subject_host(h@, v6_bytes(h@))) =~= seq![
        subject_host(host@, v6_bytes(host@)),
    ]);
    match new_params(hosts) {
        Ok(params) => {
            let mut p = params;
            set_validity(&mut p, shift(now, -1), shift(now, 825));
            set_name(&mut p, NamePart::Common, host);
            add_usage(&mut p, Usage::DigitalSignature);
            set_server(&mut p);
            assert(profile_of(p).usages =~= leaf_profile(host@, now).usages);
            Ok(p)
        },
        Err(e) => Err(CertError::Host(error_text(e))),
    }
}

/// The certificate authority: its certificate and its key, as PEM has them.
pub struct CertAuthority {
    ca_cert_pem: String,
    ca_key_pem: String,
}

/// What an authority is.
pub struct CaView {
    pub cert: Seq<char>,
    pub key: Seq<char>,
}

impl View for CertAuthority {
    type V = CaView;

    closed spec fn view(&self) -> CaView {
        CaView { cert: self.ca_cert_pem@, key: self.ca_key_pem@ }
    }
}

impl Clone for CertAuthority {
    fn clone(&self) -> (r: Self)
        ensures
            r@ == self@,
    {
        CertAuthority {
            ca_cert_pem: self.ca_cert_pem.clone(),
            ca_key_pem: self.ca_key_pem.clone(),
        }
    }
}

/// The texts are those of this certificate, which signed itself, and of its key.
pub open spec fn self_made(ca: CaView, c: rcgen::Certificate) -> bool {
    &&& cert_of(c).profile == ca_profile()
    &&& cert_of(c).signer == cert_of(c).key
    &&& first_cert(ca.cert) == Some(cert_bytes(c))
    &&& first_block(ca.cert) == Some(cert_bytes(c))
    &&& subject_fits(cert_bytes(c))
    &&& key_in_pem(ca.key) == Some(cert_of(c).key)
    &&& issuer_reads(ca.cert)
}

/// The text of the authority can be put to use: it holds a certificate for the chain, and the
/// name in the certificate that signs can be written again.
pub open spec fn usable(ca: CaView) -> bool {
    first_cert(ca.cert) is Some && match first_block(ca.cert) {
        Some(b) => subject_fits(b),
        None => true,
    }
}

/// The authority can issue a certificate for this host, as far as that does not rest on chance.
pub open spec fn can_issue(ca: CaView, host: Seq<char>) -> bool {
    key_in_pem(ca.key) is Some && issuer_reads(ca.cert) && is_ascii_chars(host)
}

/// The certificates of a chain.
pub open spec fn blocks(s: Seq<Vec<u8>>) -> Seq<Seq<u8>> {
    s.map_values(|v: Vec<u8>| v@)
}

/// A chain of two: this certificate, issued by the authority for the host at this moment to the
/// owner of this key, and then the authority's own.
pub open spec fn issued(
    ca: CaView,
    host: Seq<char>,
    now: i64,
    c: rcgen::Certificate,
    chain: Seq<Seq<u8>>,
    key: Seq<u8>,
) -> bool {
    &&& can_issue(ca, host)
    &&& first_cert(ca.cert) is Some
    &&& cert_of(c) == (CertView {
        profile: leaf_profile(host, now),
        key,
        signer: key_in_pem(ca.key)->0,
    })
    &&& chain == seq![cert_bytes(c), first_cert(ca.cert)->0]
}

/// What comes of issuing a certificate for a host: a chain, or the reason why there is none.
pub open spec fn issuing(
    ca: CaView,
    host: Seq<char>,
    r: Result<(Vec<Vec<u8>>, Vec<u8>), CertError>,
) -> bool {
    match r {
        Ok((chain, key)) => exists|now: i64, c: rcgen::Certificate| #[trigger]
            issued(ca, host, now, c, blocks(chain@), key@),
        Err(e) => match e {
            CertError::CaKey(_) => true,
            CertError::CaCert(_) => key_in_pem(ca.key) is Some && !issuer_reads(ca.cert),
            CertError::Host(_) => {
                &&& key_in_pem(ca.key) is Some
                &&& issuer_reads(ca.cert)
                &&& !is_ascii_chars(host)
            },
            CertError::Key(_) => can_issue(ca, host),
            CertError::Sign(_) => can_issue(ca, host),
        },
    }
}

impl CertAuthority {
    /// The authority that was stored: there is one if both texts could be read.
    pub fn stored(cert: Option<String>, key: Option<String>) -> (r: Option<Self>)
        ensures
            r is Some <==> cert is Some && key is Some,
            r is Some ==> r->0@ == (CaView { cert: cert->0@, key: key->0@ }),
    {
        match (cert, key) {
            (Some(ca_cert_pem), Some(ca_key_pem)) => Some(
                CertAuthority { ca_cert_pem, ca_key_pem },
            ),
            _ => None,
        }
    }

    /// A new authority, whose certificate is signed with its own key.
    pub fn generate() -> (r: Result<Self, CertError>)
        ensures
            r is Ok ==> exists|c: rcgen::Certificate| #[trigger] self_made(r->Ok_0@, c),
            r is Err ==> r->Err_0 is Key || r->Err_0 is Sign,
    {
        let params = match ca_params() {
            Ok(p) => p,
            Err(e) => return Err(e),
        };
        let key = match generate_key() {
            Ok(k) => k,
            Err(e) => return Err(CertError::Key(error_text(e))),
        };
        let cert = match self_sign(&params, &key) {
            Ok(c) => c,
            Err(e) => return Err(CertError::Sign(error_text(e))),
        };
        let ca = CertAuthority {
            ca_cert_pem: cert_to_pem(&cert),
            ca_key_pem: key_to_pem(&key),
        };
        let r: Result<Self, CertError> = Ok(ca);
        assert(self_made(r->Ok_0@, cert));
        r
    }

    /// The certificate of the authority, as PEM has it.
    pub fn ca_cert_pem(&self) -> (r: &str)
        ensures
            r@ == self@.cert,
    {
        self.ca_cert_pem.as_str()
    }

    /// The key of the authority, as PEM has it.
    pub fn ca_key_pem(&self) -> (r: &str)
        ensures
            r@ == self@.key,
    {
        self.ca_key_pem.as_str()
    }

    /// The authority as an issuer.
    fn issuer(&self) -> (r: Result<rcgen::Issuer<'static, rcgen::KeyPair>, CertError>)
        ensures
            r is Ok ==> {
                &&& issuer_reads(self@.cert)
                &&& first_block(self@.cert) == Some(issuer_cert(r->Ok_0))
                &&& key_in_pem(self@.key) == Some(issuer_key(r->Ok_0))
            },
            r is Err ==> r->Err_0 is CaKey || {
                &&& r->Err_0 is CaCert
                &&& key_in_pem(self@.key) is Some
                &&& !issuer_reads(self@.cert)
            },
    {
        let key = match key_from_pem(self.ca_key_pem.as_str()) {
            Ok(k) => k,
            Err(e) => return Err(CertError::CaKey(error_text(e))),
        };
        match issuer_from_pem(self.ca_cert_pem.as_str(), key) {
            Ok(i) => Ok(i),
            Err(e) => Err(CertError::CaCert(error_text(e))),
        }
    }

    /// The chain of a certificate that the authority has issued.
    pub fn chain(&self, leaf: Vec<u8>) -> (r: Vec<Vec<u8>>)
        requires
            first_cert(self@.cert) is Some,
        ensures
            blocks(r@) == seq![leaf@, first_cert(self@.cert)->0],
    {
        let mut chain: Vec<Vec<u8>> = Vec::new();
        chain.push(leaf);
        chain.push(pem_to_der(self.ca_cert_pem.as_str()));
        assert(blocks(chain@) =~= seq![leaf@, first_cert(self@.cert)->0]);
        chain
    }

    /// Issues a certificate for a host: the chain, and the key that the host gets.
    pub fn leaf_for(&self, host: &str) -> (r: Result<(Vec<Vec<u8>>, Vec<u8>), CertError>)
        requires
            can_issue(self@, host@) ==> usable(self@),
        ensures
            issuing(self@, host@, r),
    {
        let issuer = match self.issuer() {
            Ok(i) => i,
            Err(e) => return Err(e),
        };
        let now: i64 = read_seconds();
        let params = match leaf_params(host, now) {
            Ok(p) => p,
            Err(e) => return Err(e),
        };
        let key = match generate_key() {
            Ok(k) => k,
            Err(e) => return Err(CertError::Key(error_text(e))),
        };
        let leaf = match sign(&params, &key, &issuer) {
            Ok(c) => c,
            Err(e) => return Err(CertError::Sign(error_text(e))),
        };
        let chain = self.chain(cert_to_bytes(&leaf));
        let bytes = key_to_bytes(&key);
        let r: Result<(Vec<Vec<u8>>, Vec<u8>), CertError> = Ok((chain, bytes));
        assert(issued(self@, host@, now, leaf, blocks(r->Ok_0.0@), r->Ok_0.1@));
        r
    }

    /// As `leaf_for`; nothing where the texts of the authority can be read and yet not be put to
    /// use.
    pub fn try_leaf_for(&self, host: &str) -> (r: Option<
        Result<(Vec<Vec<u8>>, Vec<u8>), CertError>,
    >)
        ensures
            usable(self@) ==> r is Some,
            r is Some ==> issuing(self@, host@, r->0),
            r is None ==> issuer_reads(self@.cert) && key_in_pem(self@.key) is Some,
    {
        if self.is_usable() {
            return Some(self.leaf_for(host));
        }
        match self.issuer() {
            Ok(_) => None,
            Err(e) => Some(Err(e)),
        }
    }

    /// Whether the text of the authority can be put to use.
    pub fn is_usable(&self) -> (r: bool)
        ensures
            r == usable(self@),
    {
        let fits = match read_first_block(self.ca_cert_pem.as_str()) {
            Some(b) => der::can_rewrite_subject(b.as_slice()),
            None => true,
        };
        fits && self.has_cert()
    }

    /// Whether the text of the authority holds a certificate.
    pub fn has_cert(&self) -> (r: bool)
        ensures
            r == (first_cert(self@.cert) is Some),
    {
        read_first_cert(self.ca_cert_pem.as_str()).is_some()
    }
}

/// The bytes of the first certificate in a text.
fn pem_to_der(pem: &str) -> (r: Vec<u8>)
    requires
        first_cert(pem@) is Some,
    ensures
        first_cert(pem@) == Some(r@),
{
    match read_first_cert(pem) {
        Some(b) => b,
        None => Vec::new(),
    }
}

/// Where the authority is stored.
pub enum CaDir {
    /// In this directory.
    At(String),
    /// In the directory of the proxy under this one.
    Under(String),
}

/// Where the authority is stored, in words.
pub enum CaDirView {
    At(Seq<char>),
    Under(Seq<char>),
}

impl View for CaDir {
    type V = CaDirView;

    open spec fn view(&self) -> CaDirView {
        match *self {
            CaDir::At(d) => CaDirView::At(d@),
            CaDir::Under(d) => CaDirView::Under(d@),
        }
    }
}

/// The name of the directory of the proxy.
pub const CA_DIR_NAME: &'static str = ".rproxy";

/// Where the authority is stored: in the directory that the user names, or else under the home of
/// the user, for which the first of two names counts.
pub open spec fn ca_dir(
    named: Option<Seq<char>>,
    profile: Option<Seq<char>>,
    home: Option<Seq<char>>,
) -> Option<CaDirView> {
    match (named, profile, home) {
        (Some(d), _, _) => Some(CaDirView::At(d)),
        (None, Some(h), _) => Some(CaDirView::Under(h)),
        (None, None, Some(h)) => Some(CaDirView::Under(h)),
        (None, None, None) => None,
    }
}

/// Where the authority is stored.
pub fn default_ca_dir(
    named: Option<String>,
    profile: Option<String>,
    home: Option<String>,
) -> (r: Option<CaDir>)
    ensures
        match r {
            Some(d) => ca_dir(opt_text(named), opt_text(profile), opt_text(home)) == Some(d@),
            None => ca_dir(opt_text(named), opt_text(profile), opt_text(home)) is None,
        },
{
    if let Some(d) = named {
        return Some(CaDir::At(d));
    }
    if let Some(h) = profile {
        return Some(CaDir::Under(h));
    }
    match home {
        Some(h) => Some(CaDir::Under(h)),
        None => None,
    }
}

// ---------------------------------------------------------------- laws

/// An authority that was generated never fails for want of a certificate that can be read: what
/// stands between it and a chain for a host with an ASCII name is chance alone.
pub proof fn law_generated_authority_can_issue(
    ca: CaView,
    c: rcgen::Certificate,
    host: Seq<char>,
    r: Result<(Vec<Vec<u8>>, Vec<u8>), CertError>,
)
    requires
        self_made(ca, c),
        is_ascii_chars(host),
        issuing(ca, host, r),
    ensures
        can_issue(ca, host),
        usable(ca),
        r is Err ==> r->Err_0 is CaKey || r->Err_0 is Key || r->Err_0 is Sign,
{
}

/// A chain has two certificates: one for the host, to be used by a TLS server, that an authority
/// with this key has signed, and the certificate of that authority.
pub proof fn law_chain_ends_in_the_authority(
    ca: CaView,
    c: rcgen::Certificate,
    host: Seq<char>,
    r: Result<(Vec<Vec<u8>>, Vec<u8>), CertError>,
)
    requires
        self_made(ca, c),
        issuing(ca, host, r),
        r is Ok,
    ensures
        r->Ok_0.0@.len() == 2,
        r->Ok_0.0@[1]@ == cert_bytes(c),
        exists|leaf: rcgen::Certificate|
            {
                &&& (#[trigger] cert_of(leaf)).signer == cert_of(c).key
                &&& cert_of(leaf).key == r->Ok_0.1@
                &&& cert_of(leaf).profile.hosts == seq![subject_host(host, v6_bytes(host))]
                &&& cert_of(leaf).profile.common_name == host
                &&& cert_of(leaf).profile.server
                &&& !cert_of(leaf).profile.ca
                &&& cert_bytes(leaf) == r->Ok_0.0@[0]@
            },
{
    let (chain, key) = r->Ok_0;
    let (now, leaf) = choose|now: i64, leaf: rcgen::Certificate| #[trigger]
        issued(ca, host, now, leaf, blocks(chain@), key@);
    assert(blocks(chain@).len() == 2);
    assert(blocks(chain@)[0] == chain@[0]@);
    assert(blocks(chain@)[1] == chain@[1]@);
    assert(cert_of(leaf).signer == cert_of(c).key);
}

/// An address of four bytes, as it is commonly written, stands in the certificate by its bytes; a
/// text that is no such address and has no colon in it stands there as a name.
pub proof fn law_how_a_host_stands(host: Seq<char>, now: i64)
    ensures
        leaf_profile(host, now).hosts.len() == 1,
        v4_bytes(host) is Some ==> leaf_profile(host, now).hosts[0] == SubjectHost::Address(
            v4_bytes(host)->0,
        ),
        v4_bytes(host) is None && !host.contains(':') ==> leaf_profile(host, now).hosts[0]
            == SubjectHost::Name(host),
{
}

/// The certificate of a host is for that host alone, holds from a day before it is issued until 825
/// days after, and lets its owner sign and act as a TLS server, but issue nothing.
pub proof fn law_leaf_profile(host: Seq<char>, now: i64)
    requires
        -62_167_219_200 <= now - 86_400,
        now + 825 * 86_400 <= 253_402_300_799,
    ensures
        ({
            let p = leaf_profile(host, now);
            &&& p.not_before == now - 86_400
            &&& p.not_after == now + 825 * 86_400
            &&& p.common_name == host
            &&& p.organization is None
            &&& p.usages.len() == 1
            &&& p.usages[0] == Usage::DigitalSignature
            &&& p.server
            &&& !p.ca
            &&& !p.more
            &&& p.hosts.len() == 1
        }),
{
}

/// Dates that a certificate cannot bear are brought to the nearest that it can.
pub proof fn law_dates_can_be_written(host: Seq<char>, now: i64)
    ensures
        dated(leaf_profile(host, now)),
        leaf_profile(host, now).not_before <= leaf_profile(host, now).not_after,
        now - 86_400 < -62_167_219_200 ==> leaf_profile(host, now).not_before == -62_167_219_200,
        now + 825 * 86_400 > 253_402_300_799 ==> leaf_profile(host, now).not_after
            == 253_402_300_799,
{
}

/// The certificate of the authority bears its name, is for no host, and lets its owner issue and
/// revoke certificates and sign, but not act as a TLS server.
pub proof fn law_ca_profile()
    ensures
        ({
            let p = ca_profile();
            &&& p.ca
            &&& p.common_name == "rproxy Root CA"@
            &&& p.organization == Some("rproxy"@)
            &&& p.hosts.len() == 0
            &&& p.usages.len() == 3
            &&& p.usages[0] == Usage::KeyCertSign
            &&& p.usages[1] == Usage::CrlSign
            &&& p.usages[2] == Usage::DigitalSignature
            &&& !p.server
            &&& !p.more
            &&& dated(p)
        }),
{
}

/// A byte is written in digits without zeros in front, and is read back from them; nothing greater
/// is one.
pub proof fn law_octet(n: nat, s: Seq<char>)
    ensures
        n < 256 ==> octet(decimal(n)) == Some(n as u8),
        n >= 256 ==> octet(decimal(n)) is None,
        s.len() > 0 ==> octet(seq!['0'] + s) is None,
        octet(s) is Some ==> forall|i: int| 0 <= i < s.len() ==> '0' <= #[trigger] s[i] <= '9',
        octet(Seq::empty()) is None,
{
    law_decimal_is_read_back(n);
    let d = decimal(n);
    assert forall|i: int| 0 <= i < d.len() implies is_digit(#[trigger] d[i]) by {}
    if n == 0 {
        assert(d.len() == 1);
    }
    if octet(s) is Some {
        assert forall|i: int| 0 <= i < s.len() implies '0' <= #[trigger] s[i] <= '9' by {
            assert(is_digit(s[i]));
        }
    }
}

/// Four bytes with points between them are an address of these bytes.
pub proof fn law_v4_address(a: u8, b: u8, c: u8, d: u8)
    ensures
        v4_bytes(
            decimal(a as nat) + seq!['.'] + (decimal(b as nat) + seq!['.'] + (decimal(c as nat)
                + seq!['.'] + decimal(d as nat))),
        ) == Some(seq![a, b, c, d]),
{
    let (w, x, y, z) = (decimal(a as nat), decimal(b as nat), decimal(c as nat), decimal(d as nat));
    lemma_no_point(a as nat);
    lemma_no_point(b as nat);
    lemma_no_point(c as nat);
    law_before_first(w, '.', x + seq!['.'] + (y + seq!['.'] + z));
    law_before_first(x, '.', y + seq!['.'] + z);
    law_before_first(y, '.', z);
    law_octet(a as nat, w);
    law_octet(b as nat, w);
    law_octet(c as nat, w);
    law_octet(d as nat, w);
}

proof fn lemma_no_point(n: nat)
    ensures
        !decimal(n).contains('.'),
{
    let d = decimal(n);
    law_decimal_is_read_back(n);
    if d.contains('.') {
        let i = choose|i: int| 0 <= i < d.len() && d[i] == '.';
        assert('0' <= d[i] <= '9');
    }
}

/// A text that stands for an address of four bytes has three points, and a byte before, between and
/// behind them.
pub proof fn law_only_v4_addresses(s: Seq<char>)
    requires
        v4_bytes(s) is Some,
    ensures
        exists|w: Seq<char>, x: Seq<char>, y: Seq<char>, z: Seq<char>|
            s == #[trigger] (w + seq!['.'] + (x + seq!['.'] + (y + seq!['.'] + z))) && octet(w)
                is Some && octet(x) is Some && octet(y) is Some && octet(z) is Some
                && v4_bytes(s)->0 == seq![octet(w)->0, octet(x)->0, octet(y)->0, octet(z)->0],
{
    let (w, p) = split_at_first(s, '.')->0;
    lemma_split_joins(s);
    let (x, q) = split_at_first(p, '.')->0;
    lemma_split_joins(p);
    let (y, z) = split_at_first(q, '.')->0;
    lemma_split_joins(q);
    assert(s == w + seq!['.'] + (x + seq!['.'] + (y + seq!['.'] + z)));
}

proof fn lemma_split_joins(s: Seq<char>)
    ensures
        split_at_first(s, '.') matches Some(p) ==> s == p.0 + seq!['.'] + p.1,
{
    s.index_of_first_ensures('.');
    if let Some(i) = s.index_of_first('.') {
        assert(s =~= s.take(i) + seq!['.'] + s.skip(i + 1));
    }
}

/// A host that is no address of four bytes stands by the bytes of the address that it is otherwise,
/// if it has a colon in it, else as a name.
pub proof fn law_other_addresses(s: Seq<char>, b: Seq<u8>)
    requires
        v4_bytes(s) is None,
    ensures
        s.contains(':') ==> subject_host(s, Some(b)) == SubjectHost::Address(b),
        !s.contains(':') ==> subject_host(s, Some(b)) == SubjectHost::Name(s),
        subject_host(s, None) == SubjectHost::Name(s),
{
}

/// What is issued is a chain of two: a certificate that says what one for this host is to say, to
/// the owner of the key and signed with that of the authority; and the authority's own.
pub proof fn law_what_is_issued(
    ca: CaView,
    host: Seq<char>,
    now: i64,
    c: rcgen::Certificate,
    chain: Seq<Seq<u8>>,
    key: Seq<u8>,
)
    requires
        issued(ca, host, now, c, chain, key),
    ensures
        is_ascii_chars(host),
        chain.len() == 2,
        chain[0] == cert_bytes(c),
        Some(chain[1]) == first_cert(ca.cert),
        cert_of(c).profile == leaf_profile(host, now),
        cert_of(c).key == key,
        Some(cert_of(c).signer) == key_in_pem(ca.key),
{
}

/// A certificate is not issued for a host whose name is not ASCII, nor with an authority whose key
/// or certificate cannot be read; the reason that is given is the one that holds.
pub proof fn law_why_none_is_issued(
    ca: CaView,
    host: Seq<char>,
    r: Result<(Vec<Vec<u8>>, Vec<u8>), CertError>,
)
    requires
        issuing(ca, host, r),
    ensures
        r is Ok ==> key_in_pem(ca.key) is Some && issuer_reads(ca.cert) && is_ascii_chars(host)
            && first_cert(ca.cert) is Some,
        r is Err && r->Err_0 is CaCert ==> !issuer_reads(ca.cert),
        r is Err && r->Err_0 is Host ==> !is_ascii_chars(host),
        r is Err && (r->Err_0 is Key || r->Err_0 is Sign) ==> key_in_pem(ca.key) is Some
            && issuer_reads(ca.cert) && is_ascii_chars(host),
{
}

/// An authority can be put to use if and only if its text holds a certificate, and the name in the
/// first block of the text, if there is one, can be written again.
pub proof fn law_when_usable(ca: CaView, b: Seq<u8>)
    ensures
        first_cert(ca.cert) is None ==> !usable(ca),
        first_cert(ca.cert) is Some && first_block(ca.cert) is None ==> usable(ca),
        first_cert(ca.cert) is Some && first_block(ca.cert) == Some(b) ==> (usable(ca)
            <==> subject_fits(b)),
{
}

/// The directory that the user names counts before any other; then the one of the proxy under the
/// first home that is known.
pub proof fn law_ca_dir(
    dir: Seq<char>,
    first: Seq<char>,
    second: Seq<char>,
    profile: Option<Seq<char>>,
    home: Option<Seq<char>>,
)
    ensures
        ca_dir(Some(dir), profile, home) == Some(CaDirView::At(dir)),
        ca_dir(None, Some(first), home) == Some(CaDirView::Under(first)),
        ca_dir(None, None, Some(second)) == Some(CaDirView::Under(second)),
        ca_dir(None, None, None) is None,
{
}

/// An error is told in its own words.
pub proof fn law_cert_errors_in_words(s: String)
    ensures
        CertError::Host(s).words() == s@,
        CertError::Key(s).words() == s@,
        CertError::Sign(s).words() == s@,
        CertError::CaKey(s).words() == s@,
        CertError::CaCert(s).words() == s@,
{
}

} // verus!
