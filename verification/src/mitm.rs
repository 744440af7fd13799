//! What is needed to decrypt TLS: the authority, and for each host the configuration under which
//! it is impersonated.

use crate::cert::{
    blocks, can_issue, cert_bytes, cert_of, first_cert, issued, issuing, key_in_pem,
    law_what_is_issued, usable, CaView, CertAuthority, CertError,
};
use crate::flow::joined;
use crate::text;
use std::sync::Arc;
use vstd::prelude::*;

verus! {

// ---------------------------------------------------------------- outside

/// The configuration of a TLS server, of rustls.
#[verifier::external_type_specification]
#[verifier::external_body]
pub struct ExServerConfig(rustls::ServerConfig);

/// An error of rustls.
#[verifier::external_type_specification]
#[verifier::external_body]
pub struct ExRustlsError(rustls::Error);

/// The chain that a server with this configuration shows.
pub uninterp spec fn shown_chain(c: rustls::ServerConfig) -> Seq<Seq<u8>>;

/// The key with which a server with this configuration proves that the chain is its own.
pub uninterp spec fn server_key(c: rustls::ServerConfig) -> Seq<u8>;

/// `rustls::ServerConfig::builder_with_provider`, up to `with_single_cert`: the configuration of
/// a server that asks for no certificate of its clients, shows this chain and has this key.
/// Whether the chain and the key go together is not said, so that no success is promised.
#[verifier::external_body]
fn build_config(chain: &Vec<Vec<u8>>, key: Vec<u8>) -> (r: Result<
    Arc<rustls::ServerConfig>,
    rustls::Error,
>)
    ensures
        r is Ok ==> shown_chain(*r->Ok_0) == blocks(chain@) && server_key(*r->Ok_0) == key@,
{
    let provider = Arc::new(rustls::crypto::ring::default_provider());
    let chain = chain.iter().map(|c| rustls::pki_types::CertificateDer::from(c.clone()));
    let key = rustls::pki_types::PrivatePkcs8KeyDer::from(key);
    rustls::ServerConfig::builder_with_provider(provider)
        .with_safe_default_protocol_versions()?
        .with_no_client_auth()
        .with_single_cert(chain.collect(), key.into())
        .map(Arc::new)
}

/// The `Display` of an error of rustls. Nothing is said of its words.
#[verifier::external_body]
fn tls_error_text(e: rustls::Error) -> (r: String)
{
    e.to_string()
}

// ---------------------------------------------------------------- the state

/// The authority, and the configurations that were made for hosts. Where none could be made, that
/// is kept too.
pub struct MitmState {
    ca: CertAuthority,
    servers: Vec<(String, Option<Arc<rustls::ServerConfig>>)>,
}

/// What the state is.
pub struct MitmView {
    pub ca: CaView,
    pub servers: Map<Seq<char>, Option<Arc<rustls::ServerConfig>>>,
}

/// What a list of hosts with configurations says: the first of a host counts.
pub open spec fn table(s: Seq<(String, Option<Arc<rustls::ServerConfig>>)>) -> Map<
    Seq<char>,
    Option<Arc<rustls::ServerConfig>>,
>
    decreases s.len(),
{
    if s.len() == 0 {
        Map::empty()
    } else {
        table(s.skip(1)).insert(s[0].0@, s[0].1)
    }
}

impl View for MitmState {
    type V = MitmView;

    closed spec fn view(&self) -> MitmView {
        MitmView { ca: self.ca@, servers: table(self.servers@) }
    }
}

/// The configuration shows a chain that the authority issued for this host, with its key.
pub open spec fn impersonates(c: rustls::ServerConfig, ca: CaView, host: Seq<char>) -> bool {
    exists|now: i64, leaf: rcgen::Certificate| #[trigger]
        issued(ca, host, now, leaf, shown_chain(c), server_key(c))
}

/// What is said where no certificate could be issued for a host.
pub open spec fn leaf_failure(host: Seq<char>, words: Seq<char>) -> Seq<char> {
    "leaf cert for "@ + host + ": "@ + words
}

/// What is said of an authority whose texts can be read and yet not be put to use.
pub const UNUSABLE: &'static str = "the certificate of the authority cannot be used";

/// What comes of making a configuration for a host: one that impersonates it, or words. The words
/// are those of why no certificate could be issued, with the host in them, or, where one was
/// issued, those of why TLS would not have it.
pub open spec fn configuring(
    ca: CaView,
    host: Seq<char>,
    r: Result<Arc<rustls::ServerConfig>, String>,
) -> bool {
    match r {
        Ok(c) => impersonates(*c, ca, host),
        Err(s) => {
            ||| exists|e: CertError| #[trigger]
                issuing(ca, host, Err(e)) && s@ == leaf_failure(host, e.words())
            ||| !usable(ca) && s@ == leaf_failure(host, UNUSABLE@)
            ||| can_issue(ca, host)
        },
    }
}

/// What is given where this was made: the configuration, if there is one.
pub open spec fn given_for(made: Result<Arc<rustls::ServerConfig>, String>) -> Option<
    Arc<rustls::ServerConfig>,
> {
    match made {
        Ok(c) => Some(c),
        Err(_) => None,
    }
}

/// A host was asked for. What is known of it is given, and nothing changes; if nothing is, a
/// configuration is made for it, and what came of that is given and kept. Either way, a
/// configuration that is given impersonates the host.
pub open spec fn looked_up(
    before: MitmView,
    host: Seq<char>,
    after: MitmView,
    given: Option<Arc<rustls::ServerConfig>>,
) -> bool {
    &&& given is Some ==> impersonates(*given->0, before.ca, host)
    &&& if before.servers.contains_key(host) {
        after == before && given == before.servers[host]
    } else {
        &&& after == (MitmView { servers: before.servers.insert(host, given), ..before })
        &&& exists|made: Result<Arc<rustls::ServerConfig>, String>| #[trigger]
            configuring(before.ca, host, made) && given == given_for(made)
    }
}

proof fn lemma_table_push(
    s: Seq<(String, Option<Arc<rustls::ServerConfig>>)>,
    e: (String, Option<Arc<rustls::ServerConfig>>),
)
    requires
        !table(s).contains_key(e.0@),
    ensures
        table(s.push(e)) == table(s).insert(e.0@, e.1),
    decreases s.len(),
{
    if s.len() > 0 {
        assert(s.push(e).skip(1) =~= s.skip(1).push(e));
        lemma_table_push(s.skip(1), e);
        assert(table(s.push(e)) =~= table(s).insert(e.0@, e.1));
    } else {
        assert(s.push(e).skip(1) =~= s);
    }
}

/// A second hold on the same configuration.
fn share(c: &Option<Arc<rustls::ServerConfig>>) -> (r: Option<Arc<rustls::ServerConfig>>)
    ensures
        r == *c,
{
    match c {
        Some(x) => Some(x.clone()),
        None => None,
    }
}

impl MitmState {
    /// Every configuration that is kept impersonates its host.
    #[verifier::type_invariant]
    spec fn all_impersonate(self) -> bool {
        forall|k: int|
            0 <= k < self.servers@.len() && (#[trigger] self.servers@[k]).1 is Some
                ==> impersonates(*self.servers@[k].1->0, self.ca@, self.servers@[k].0@)
    }

    /// The state with this authority and no configurations.
    pub fn new(ca: CertAuthority) -> (r: Self)
        ensures
            r@ == (MitmView { ca: ca@, servers: Map::empty() }),
    {
        MitmState { ca, servers: Vec::new() }
    }

    /// The certificate of the authority, as PEM has it.
    pub fn ca_cert_pem(&self) -> (r: &str)
        ensures
            r@ == self@.ca.cert,
    {
        self.ca.ca_cert_pem()
    }

    fn find(&self, host: &str) -> (r: Option<&Option<Arc<rustls::ServerConfig>>>)
        ensures
            match r {
                Some(c) => {
                    &&& self@.servers.contains_key(host@)
                    &&& self@.servers[host@] == *c
                    &&& *c is Some ==> impersonates(*c->0, self@.ca, host@)
                },
                None => !self@.servers.contains_key(host@),
            },
    {
        proof {
            use_type_invariant(self);
        }
        let ghost all = self.servers@;
        let mut i: usize = 0;
        assert(all.skip(0) =~= all);
        while i < self.servers.len()
            invariant
                i <= self.servers@.len(),
                all == self.servers@,
                self.all_impersonate(),
                table(all).contains_key(host@) == table(all.skip(i as int)).contains_key(host@),
                table(all).contains_key(host@) ==> table(all)[host@] == table(
                    all.skip(i as int),
                )[host@],
            decreases self.servers@.len() - i,
        {
            assert(all.skip(i as int)[0] == all[i as int]);
            assert(all.skip(i as int).skip(1) =~= all.skip(i + 1));
            if text::same(self.servers[i].0.as_str(), host) {
                return Some(&self.servers[i].1);
            }
            i += 1;
        }
        None
    }

    /// The configuration under which this host is impersonated. It is made once: what came of it
    /// the first time is given every time.
    pub fn server_config_for(&mut self, host: &str) -> (r: Option<Arc<rustls::ServerConfig>>)
        ensures
            looked_up(old(self)@, host@, final(self)@, r),
    {
        proof {
            use_type_invariant(&*self);
        }
        if let Some(c) = self.find(host) {
            return share(c);
        }
        let made = self.build_server_config(host);
        assert(configuring(self@.ca, host@, made));
        self.keep(host, made)
    }

    /// Keeps what came of making a configuration for a host of which nothing was known, and gives
    /// the configuration, if there is one.
    pub fn keep(&mut self, host: &str, made: Result<Arc<rustls::ServerConfig>, String>) -> (r:
        Option<Arc<rustls::ServerConfig>>)
        requires
            !old(self)@.servers.contains_key(host@),
            made is Ok ==> impersonates(*made->Ok_0, old(self)@.ca, host@),
        ensures
            r == given_for(made),
            final(self)@ == (MitmView {
                servers: old(self)@.servers.insert(host@, r),
                ..old(self)@
            }),
    {
        proof {
            use_type_invariant(&*self);
        }
        let given = match made {
            Ok(c) => Some(c),
            Err(_) => None,
        };
        let entry = (host.to_string(), share(&given));
        let mut servers: Vec<(String, Option<Arc<rustls::ServerConfig>>)> = Vec::new();
        std::mem::swap(&mut servers, &mut self.servers);
        proof {
            lemma_table_push(servers@, entry);
        }
        servers.push(entry);
        self.servers = servers;
        given
    }

    fn build_server_config(&self, host: &str) -> (r: Result<Arc<rustls::ServerConfig>, String>)
        ensures
            configuring(self@.ca, host@, r),
    {
        match self.ca.try_leaf_for(host) {
            Some(Ok((chain, key))) => {
                let ghost k = key@;
                proof {
                    let (now, leaf) = choose|now: i64, leaf: rcgen::Certificate| #[trigger]
                        issued(self.ca@, host@, now, leaf, blocks(chain@), key@);
                    assert(issued(self.ca@, host@, now, leaf, blocks(chain@), k));
                }
                match build_config(&chain, key) {
                    Ok(c) => Ok(c),
                    Err(e) => Err(tls_error_text(e)),
                }
            },
            Some(Err(e)) => {
                let ghost error = e;
                let s = refusal(host, e.message().as_str());
                assert(issuing(self@.ca, host@, Err(error)));
                Err(s)
            },
            None => Err(refusal(host, UNUSABLE)),
        }
    }
}

fn refusal(host: &str, words: &str) -> (r: String)
    ensures
        r@ == leaf_failure(host@, words@),
{
    let mut s = joined("leaf cert for ", host);
    s.push_str(": ");
    s.push_str(words);
    s
}

// ---------------------------------------------------------------- laws

/// Once a host was asked for, the same is given for it from then on, whatever is asked for in
/// between.
pub proof fn law_known_hosts_stay(
    before: MitmView,
    asked: Seq<char>,
    after: MitmView,
    given: Option<Arc<rustls::ServerConfig>>,
    host: Seq<char>,
)
    requires
        looked_up(before, asked, after, given),
    ensures
        after.servers.contains_key(asked) && after.servers[asked] == given,
        before.servers.contains_key(host) ==> after.servers.contains_key(host)
            && after.servers[host] == before.servers[host],
        after.ca == before.ca,
{
}

/// What is known of a host is given as it is; for a host of which nothing was known, what is given
/// is kept under its name, and nothing else changes. What is given impersonates the host.
pub proof fn law_asked_once(
    before: MitmView,
    host: Seq<char>,
    after: MitmView,
    given: Option<Arc<rustls::ServerConfig>>,
)
    requires
        looked_up(before, host, after, given),
    ensures
        before.servers.contains_key(host) ==> after == before && given == before.servers[host],
        !before.servers.contains_key(host) ==> after.ca == before.ca && after.servers
            == before.servers.insert(host, given),
        given is Some ==> impersonates(*given->0, before.ca, host),
{
}

/// A configuration that impersonates a host shows a chain of two, the certificate that the
/// authority signed for the host and the authority's own, and has the key of the first.
pub proof fn law_impersonating(c: rustls::ServerConfig, ca: CaView, host: Seq<char>)
    requires
        impersonates(c, ca, host),
    ensures
        shown_chain(c).len() == 2,
        Some(shown_chain(c)[1]) == first_cert(ca.cert),
        exists|leaf: rcgen::Certificate|
            {
                &&& (#[trigger] cert_of(leaf)).profile.common_name == host
                &&& cert_of(leaf).profile.server
                &&& cert_of(leaf).key == server_key(c)
                &&& Some(cert_of(leaf).signer) == key_in_pem(ca.key)
                &&& cert_bytes(leaf) == shown_chain(c)[0]
            },
{
    let (now, leaf) = choose|now: i64, leaf: rcgen::Certificate| #[trigger]
        issued(ca, host, now, leaf, shown_chain(c), server_key(c));
    law_what_is_issued(ca, host, now, leaf, shown_chain(c), server_key(c));
    assert(cert_of(leaf).key == server_key(c));
}

/// Making a configuration gives it if it could be made, and nothing else; a failure that does not
/// come from TLS names the host and says why.
pub proof fn law_what_is_given(
    ca: CaView,
    host: Seq<char>,
    c: Arc<rustls::ServerConfig>,
    words: String,
)
    ensures
        given_for(Ok(c)) == Some(c),
        given_for(Err(words)) is None,
        configuring(ca, host, Ok(c)) ==> impersonates(*c, ca, host),
        configuring(ca, host, Err(words)) && !can_issue(ca, host) ==> exists|why: Seq<char>|
            words@ == #[trigger] ("leaf cert for "@ + host + ": "@ + why),
{
    if configuring(ca, host, Err(words)) && !can_issue(ca, host) {
        if exists|e: CertError| #[trigger]
            issuing(ca, host, Err(e)) && words@ == leaf_failure(host, e.words()) {
            let e = choose|e: CertError| #[trigger]
                issuing(ca, host, Err(e)) && words@ == leaf_failure(host, e.words());
            assert(words@ == "leaf cert for "@ + host + ": "@ + e.words());
        } else {
            assert(words@ == "leaf cert for "@ + host + ": "@ + UNUSABLE@);
        }
    }
}

} // verus!
