//! Encrypting the connection to the database: asking for TLS, and deciding whom to trust.
//!
//! `rustls` and `rustls_pemfile` read certificates. What is stated of them here is not proved: it
//! is what their documentation and source say. The decisions are here; the caller reads and
//! writes, and does the handshake.

use std::io::{BufReader, Error as IoError};

use bytes::Bytes;
use rustls::pki_types::{CertificateDer, InvalidDnsNameError, ServerName};
use rustls::RootCertStore;
use vstd::prelude::*;

use crate::backend_config::BackendConfig;
use crate::buffer::{buf_bytes, buf_freeze, buf_new, shared_bytes};
use crate::postgres_wire::{put_ssl_request, ssl_request_frame};
use crate::text::io_text;
use crate::wire::be_i32;

verus! {

// ---------------------------------------------------------------------------
// Certificates and names
// ---------------------------------------------------------------------------

#[verifier::external_type_specification]
#[verifier::external_body]
pub struct ExRootCertStore(RootCertStore);

#[verifier::external_type_specification]
#[verifier::external_body]
pub struct ExRustlsError(rustls::Error);

#[verifier::external_type_specification]
#[verifier::external_body]
pub struct ExServerName<'a>(ServerName<'a>);

#[verifier::external_type_specification]
#[verifier::external_body]
pub struct ExInvalidDnsNameError(InvalidDnsNameError);

/// What an error of `rustls` says.
pub uninterp spec fn rustls_text(error: rustls::Error) -> Seq<char>;

/// What an `InvalidDnsNameError` says.
pub uninterp spec fn dns_text(error: InvalidDnsNameError) -> Seq<char>;

/// The trust anchors in a `RootCertStore`, in the order in which they were added: of each the
/// subject, the public key and the name constraints, as they stand in its certificate.
pub uninterp spec fn anchors(store: RootCertStore) -> Seq<(Seq<u8>, Seq<u8>, Option<Seq<u8>>)>;

/// The trust anchor in a DER-encoded certificate, or what is said of one that is not well formed.
pub uninterp spec fn trust_anchor(der: Seq<u8>) -> Result<
    (Seq<u8>, Seq<u8>, Option<Seq<u8>>),
    Seq<char>,
>;

/// The DER-encoded certificates in a PEM file, in order, or what is said of a file that is not well
/// formed.
pub uninterp spec fn pem_certificates(pem: Seq<u8>) -> Result<Seq<Seq<u8>>, Seq<char>>;

/// The identity that a host name stands for, if it is a DNS name or an IP address.
pub uninterp spec fn server_identity(hostname: Seq<char>) -> Option<ServerName<'static>>;

/// `RootCertStore::empty`: a store without trust anchors.
#[verifier::external_body]
fn store_empty() -> (store: RootCertStore)
    ensures
        anchors(store) == Seq::<(Seq<u8>, Seq<u8>, Option<Seq<u8>>)>::empty(),
{
    RootCertStore::empty()
}

/// `RootCertStore::add`: adds the trust anchor in a certificate. A certificate that is not well
/// formed is refused, with an error that says why, and the store then stays as it was.
#[verifier::external_body]
fn store_add(store: &mut RootCertStore, der: Vec<u8>) -> (added: Result<(), rustls::Error>)
    ensures
        match trust_anchor(der@) {
            Ok(anchor) => added is Ok && anchors(*final(store)) == anchors(*old(store)).push(
                anchor,
            ),
            Err(fault) => {
                &&& added matches Err(e)
                &&& rustls_text(e) == fault
                &&& anchors(*final(store)) == anchors(*old(store))
            },
        },
{
    store.add(CertificateDer::from(der))
}

/// `rustls_pemfile::certs`: the certificates in a PEM file. The error says what is wrong with a
/// file that is not well formed.
#[verifier::external_body]
fn pem_certs(pem_data: &[u8]) -> (certs: Result<Vec<Vec<u8>>, IoError>)
    ensures
        match pem_certificates(pem_data@) {
            Ok(found) => certs matches Ok(list) && byte_strings(list@) == found,
            Err(fault) => certs matches Err(e) && io_text(e) == fault,
        },
{
    rustls_pemfile::certs(&mut BufReader::new(pem_data))
}

/// `ServerName::try_from`: the identity that a host name stands for. The error is always the same.
#[verifier::external_body]
fn server_name_from(hostname: String) -> (name: Result<ServerName<'static>, InvalidDnsNameError>)
    ensures
        match name {
            Ok(found) => server_identity(hostname@) == Some(found),
            Err(e) => server_identity(hostname@) is None && dns_text(e) == "invalid dns name"@,
        },
{
    ServerName::try_from(hostname)
}

/// Byte strings as sequences.
pub open spec fn byte_strings(vecs: Seq<Vec<u8>>) -> Seq<Seq<u8>> {
    Seq::new(vecs.len(), |i: int| vecs[i]@)
}

/// The trust anchors in these certificates, or what is said of the first that is not well formed.
pub open spec fn trust_anchors(certs: Seq<Seq<u8>>) -> Result<
    Seq<(Seq<u8>, Seq<u8>, Option<Seq<u8>>)>,
    Seq<char>,
>
    decreases certs.len(),
{
    if certs.len() == 0 {
        Ok(Seq::empty())
    } else {
        match trust_anchors(certs.drop_last()) {
            Err(fault) => Err(fault),
            Ok(trusted) => match trust_anchor(certs.last()) {
                Err(fault) => Err(fault),
                Ok(anchor) => Ok(trusted.push(anchor)),
            },
        }
    }
}

/// If some of the certificates are not all well formed, neither are all of them, and the same is
/// said of both.
proof fn lemma_fault_stays(certs: Seq<Seq<u8>>, end: int)
    requires
        0 <= end <= certs.len(),
        trust_anchors(certs.take(end)) is Err,
    ensures
        trust_anchors(certs) == trust_anchors(certs.take(end)),
    decreases certs.len(),
{
    if end < certs.len() {
        assert(certs.drop_last().take(end) =~= certs.take(end));
        lemma_fault_stays(certs.drop_last(), end);
    } else {
        assert(certs.take(end) =~= certs);
    }
}

/// What comes of building a store of these certificates: the trust anchors in it, or an error.
pub open spec fn store_outcome(certs: Seq<Seq<u8>>) -> Result<
    Seq<(Seq<u8>, Seq<u8>, Option<Seq<u8>>)>,
    CertStoreErrorView,
> {
    if certs.len() == 0 {
        Err(CertStoreErrorView::NoCertificates)
    } else {
        match trust_anchors(certs) {
            Ok(trusted) => Ok(trusted),
            Err(fault) => Err(CertStoreErrorView::BadCertificate(fault)),
        }
    }
}

/// What comes of building a store of the certificates in a PEM file.
pub open spec fn bundle_outcome(pem: Seq<u8>) -> Result<
    Seq<(Seq<u8>, Seq<u8>, Option<Seq<u8>>)>,
    CertStoreErrorView,
> {
    match pem_certificates(pem) {
        Ok(certs) => store_outcome(certs),
        Err(fault) => Err(CertStoreErrorView::Pem(fault)),
    }
}

/// A store as its trust anchors, an error as what it says.
pub open spec fn store_view(built: Result<RootCertStore, CertStoreError>) -> Result<
    Seq<(Seq<u8>, Seq<u8>, Option<Seq<u8>>)>,
    CertStoreErrorView,
> {
    match built {
        Ok(store) => Ok(anchors(store)),
        Err(e) => Err(e@),
    }
}

#[derive(Debug)]
pub enum CertStoreError {
    Pem(IoError),
    NoCertificates,
    BadCertificate(rustls::Error),
}

/// A `CertStoreError` with what the outside errors say.
pub enum CertStoreErrorView {
    Pem(Seq<char>),
    NoCertificates,
    BadCertificate(Seq<char>),
}

impl View for CertStoreError {
    type V = CertStoreErrorView;

    open spec fn view(&self) -> CertStoreErrorView {
        match self {
            CertStoreError::Pem(e) => CertStoreErrorView::Pem(io_text(*e)),
            CertStoreError::NoCertificates => CertStoreErrorView::NoCertificates,
            CertStoreError::BadCertificate(e) => CertStoreErrorView::BadCertificate(
                rustls_text(*e),
            ),
        }
    }
}

/// Builds a store that trusts the given certificates: all of them, and at least one.
pub fn store_of(certs: Vec<Vec<u8>>) -> (built: Result<RootCertStore, CertStoreError>)
    ensures
        store_view(built) == store_outcome(byte_strings(certs@)),
{
    if certs.len() == 0 {
        return Err(CertStoreError::NoCertificates);
    }
    let mut root_store = store_empty();
    let ghost all = byte_strings(certs@);
    proof {
        assert(all.take(0) =~= Seq::<Seq<u8>>::empty());
    }
    for cert in iter: certs
        invariant
            all == byte_strings(certs@),
            all.len() > 0,
            iter.seq() == certs@,
            trust_anchors(all.take(iter.index() as int)) matches Ok(trusted) && trusted == anchors(
                root_store,
            ),
    {
        proof {
            let next = all.take(iter.index() + 1);
            assert(next.drop_last() =~= all.take(iter.index() as int));
            assert(next.last() == cert@);
            if trust_anchors(next) is Err {
                lemma_fault_stays(all, iter.index() + 1);
            }
        }
        if let Err(e) = store_add(&mut root_store, cert) {
            return Err(CertStoreError::BadCertificate(e));
        }
    }
    proof {
        assert(all.take(certs@.len() as int) =~= all);
    }
    Ok(root_store)
}

/// Builds the store that trusts the certificates of a PEM bundle.
pub fn build_root_cert_store(pem_data: &[u8]) -> (built: Result<RootCertStore, CertStoreError>)
    ensures
        store_view(built) == bundle_outcome(pem_data@),
{
    match pem_certs(pem_data) {
        Ok(certs) => store_of(certs),
        Err(e) => Err(CertStoreError::Pem(e)),
    }
}

// ---------------------------------------------------------------------------
// The upgrade
// ---------------------------------------------------------------------------

/// `S`: the server agrees to TLS.
pub const TLS_ACCEPTED: u8 = 0x53;

/// How far an upgrade has come.
#[derive(Clone, Copy, Debug, PartialEq, Eq, Structural)]
pub enum TlsState {
    /// The connection is open, and nothing is said yet.
    Plain,
    /// The request for TLS is out.
    AwaitingReply,
    /// The certificates to trust are to be loaded.
    AwaitingBundle,
    /// The handshake is the caller's turn.
    Handshake,
    Failed,
}

/// What the caller has to tell.
#[derive(Debug)]
pub enum TlsEvent {
    /// The server has to be asked for TLS first.
    Ask,
    /// The server expects TLS at once.
    Raw,
    /// The server answered the request.
    Reply(u8),
    /// The certificates to trust are loaded.
    Bundle(Vec<u8>),
}

/// Where the certificates to trust come from.
#[derive(Debug)]
pub enum BundleSource {
    /// The file with this path.
    File(String),
    /// The RDS global bundle.
    RdsGlobal,
}

/// Whom to trust.
#[derive(Debug)]
pub enum Trust {
    /// Anyone. Certificates are not looked at.
    Anyone,
    /// Whoever these roots vouch for.
    Roots(RootCertStore),
}

#[derive(Debug)]
pub enum TlsError {
    NotSupported,
    CertStore(CertStoreError),
    InvalidServerName(InvalidDnsNameError),
}

/// What the caller has to do next.
#[derive(Debug)]
pub enum TlsAction {
    /// Send this, then wait for one byte.
    Send(Bytes),
    /// Load the certificates to trust.
    LoadBundle(BundleSource),
    /// Do the handshake with a server of this name.
    Connect { trust: Trust, server_name: ServerName<'static> },
    Fail(TlsError),
}

/// A `TlsEvent` with bytes as sequences.
pub enum TlsEventView {
    Ask,
    Raw,
    Reply(u8),
    Bundle(Seq<u8>),
}

impl View for TlsEvent {
    type V = TlsEventView;

    open spec fn view(&self) -> TlsEventView {
        match self {
            TlsEvent::Ask => TlsEventView::Ask,
            TlsEvent::Raw => TlsEventView::Raw,
            TlsEvent::Reply(byte) => TlsEventView::Reply(*byte),
            TlsEvent::Bundle(pem) => TlsEventView::Bundle(pem@),
        }
    }
}

/// A `Trust` with its trust anchors.
pub enum TrustView {
    Anyone,
    Roots(Seq<(Seq<u8>, Seq<u8>, Option<Seq<u8>>)>),
}

impl View for Trust {
    type V = TrustView;

    open spec fn view(&self) -> TrustView {
        match self {
            Trust::Anyone => TrustView::Anyone,
            Trust::Roots(store) => TrustView::Roots(anchors(*store)),
        }
    }
}

/// A `TlsError` with what the outside errors say.
pub enum TlsErrorView {
    NotSupported,
    CertStore(CertStoreErrorView),
    InvalidServerName(Seq<char>),
}

impl View for TlsError {
    type V = TlsErrorView;

    open spec fn view(&self) -> TlsErrorView {
        match self {
            TlsError::NotSupported => TlsErrorView::NotSupported,
            TlsError::CertStore(e) => TlsErrorView::CertStore(e@),
            TlsError::InvalidServerName(e) => TlsErrorView::InvalidServerName(dns_text(*e)),
        }
    }
}

/// A `TlsAction` with bytes and texts as sequences. A bundle without a path is the RDS global
/// bundle.
pub enum TlsActionView {
    Send(Seq<u8>),
    LoadBundle(Option<Seq<char>>),
    Connect { trust: TrustView, server_name: ServerName<'static> },
    Fail(TlsErrorView),
}

impl View for TlsAction {
    type V = TlsActionView;

    open spec fn view(&self) -> TlsActionView {
        match self {
            TlsAction::Send(bytes) => TlsActionView::Send(shared_bytes(*bytes)),
            TlsAction::LoadBundle(BundleSource::File(path)) => TlsActionView::LoadBundle(
                Some(path@),
            ),
            TlsAction::LoadBundle(BundleSource::RdsGlobal) => TlsActionView::LoadBundle(None),
            TlsAction::Connect { trust, server_name } => TlsActionView::Connect {
                trust: trust@,
                server_name: *server_name,
            },
            TlsAction::Fail(e) => TlsActionView::Fail(e@),
        }
    }
}

/// What the upgrade depends on. The proxy in between, if any, is not part of it.
pub struct TlsPolicy {
    pub hostname: Seq<char>,
    pub ca_bundle: Option<Seq<char>>,
    pub accept_anyone: bool,
}

/// What a configuration says about the upgrade.
pub open spec fn tls_policy(config: BackendConfig) -> TlsPolicy {
    TlsPolicy {
        hostname: config.endpoint.hostname@,
        ca_bundle: match config.ca_bundle {
            Some(path) => Some(path@),
            None => None,
        },
        accept_anyone: config.danger_accept_invalid_certs,
    }
}

/// A step that ends the upgrade.
pub open spec fn failed(error: TlsErrorView) -> (TlsState, TlsActionView) {
    (TlsState::Failed, TlsActionView::Fail(error))
}

/// The handshake, once it is settled whom to trust. The server must show that it is the database's
/// host, whatever address the connection went to.
pub open spec fn handshake_with(policy: TlsPolicy, trust: TrustView) -> (TlsState, TlsActionView) {
    match server_identity(policy.hostname) {
        Some(server_name) => (
            TlsState::Handshake,
            TlsActionView::Connect { trust, server_name },
        ),
        None => failed(TlsErrorView::InvalidServerName("invalid dns name"@)),
    }
}

/// What follows once the server is ready for TLS: certificates are loaded, unless they are not
/// looked at.
pub open spec fn after_agreement(policy: TlsPolicy) -> (TlsState, TlsActionView) {
    if policy.accept_anyone {
        handshake_with(policy, TrustView::Anyone)
    } else {
        (TlsState::AwaitingBundle, TlsActionView::LoadBundle(policy.ca_bundle))
    }
}

/// What follows once the certificates are loaded.
pub open spec fn after_bundle(policy: TlsPolicy, pem: Seq<u8>) -> (TlsState, TlsActionView) {
    match bundle_outcome(pem) {
        Ok(trusted) => handshake_with(policy, TrustView::Roots(trusted)),
        Err(error) => failed(TlsErrorView::CertStore(error)),
    }
}

/// One step of an upgrade. In a state that does not wait for the event, nothing is defined.
pub open spec fn tls_step(policy: TlsPolicy, state: TlsState, event: TlsEventView) -> (
    TlsState,
    TlsActionView,
) {
    match (state, event) {
        (TlsState::Plain, TlsEventView::Ask) => (
            TlsState::AwaitingReply,
            TlsActionView::Send(ssl_request_frame()),
        ),
        (TlsState::Plain, TlsEventView::Raw) => after_agreement(policy),
        (TlsState::AwaitingReply, TlsEventView::Reply(byte)) => if byte == TLS_ACCEPTED {
            after_agreement(policy)
        } else {
            failed(TlsErrorView::NotSupported)
        },
        (TlsState::AwaitingBundle, TlsEventView::Bundle(pem)) => after_bundle(policy, pem),
        _ => arbitrary(),
    }
}

/// Whether an upgrade in this state waits for this event.
pub open spec fn expects(state: TlsState, event: TlsEventView) -> bool {
    match (state, event) {
        (TlsState::Plain, TlsEventView::Ask) => true,
        (TlsState::Plain, TlsEventView::Raw) => true,
        (TlsState::AwaitingReply, TlsEventView::Reply(_)) => true,
        (TlsState::AwaitingBundle, TlsEventView::Bundle(_)) => true,
        _ => false,
    }
}

/// Decides the next step in the encryption of a connection.
pub fn upgrade_to_tls(config: &BackendConfig, state: TlsState, event: TlsEvent) -> (step: (
    TlsState,
    TlsAction,
))
    requires
        expects(state, event@),
    ensures
        (step.0, step.1@) == tls_step(tls_policy(*config), state, event@),
{
    match (state, event) {
        (TlsState::Plain, TlsEvent::Ask) => {
            let mut buf = buf_new();
            put_ssl_request(&mut buf);
            proof {
                assert(buf_bytes(buf) =~= ssl_request_frame());
            }
            (TlsState::AwaitingReply, TlsAction::Send(buf_freeze(buf)))
        },
        (TlsState::Plain, TlsEvent::Raw) => agreed(config),
        (TlsState::AwaitingReply, TlsEvent::Reply(byte)) => {
            if byte != TLS_ACCEPTED {
                return (TlsState::Failed, TlsAction::Fail(TlsError::NotSupported));
            }
            agreed(config)
        },
        (TlsState::AwaitingBundle, TlsEvent::Bundle(pem_data)) => {
            match build_root_cert_store(pem_data.as_slice()) {
                Ok(root_store) => named(config, Trust::Roots(root_store)),
                Err(e) => (TlsState::Failed, TlsAction::Fail(TlsError::CertStore(e))),
            }
        },
        _ => vstd::pervasive::unreached(),
    }
}

/// The server is ready for TLS.
fn agreed(config: &BackendConfig) -> (step: (TlsState, TlsAction))
    ensures
        (step.0, step.1@) == after_agreement(tls_policy(*config)),
{
    if config.danger_accept_invalid_certs {
        named(config, Trust::Anyone)
    } else {
        let source = match &config.ca_bundle {
            Some(path) => BundleSource::File(path.clone()),
            None => BundleSource::RdsGlobal,
        };
        (TlsState::AwaitingBundle, TlsAction::LoadBundle(source))
    }
}

/// It is settled whom to trust; the server's name is all that is missing.
fn named(config: &BackendConfig, trust: Trust) -> (step: (TlsState, TlsAction))
    ensures
        (step.0, step.1@) == handshake_with(tls_policy(*config), trust@),
{
    match server_name_from(config.endpoint.hostname.clone()) {
        Ok(server_name) => (TlsState::Handshake, TlsAction::Connect { trust, server_name }),
        Err(e) => (TlsState::Failed, TlsAction::Fail(TlsError::InvalidServerName(e))),
    }
}

/// Certificates go unchecked only where the configuration says so; and where it says so, none are
/// loaded.
pub proof fn law_anyone_only_by_choice(policy: TlsPolicy, state: TlsState, event: TlsEventView)
    requires
        expects(state, event),
        state == TlsState::AwaitingBundle ==> !policy.accept_anyone,
    ensures
        ({
            let (next, action) = tls_step(policy, state, event);
            &&& action matches TlsActionView::Connect { trust, .. } ==> (trust is Anyone
                <==> policy.accept_anyone)
            &&& action is LoadBundle ==> !policy.accept_anyone
            &&& next == TlsState::AwaitingBundle ==> !policy.accept_anyone
        }),
{
}

/// A bundle that is configured is the one that is loaded; without one it is the RDS global bundle.
pub proof fn law_configured_bundle_is_loaded(
    policy: TlsPolicy,
    state: TlsState,
    event: TlsEventView,
)
    requires
        expects(state, event),
    ensures
        tls_step(policy, state, event).1 matches TlsActionView::LoadBundle(source) ==> source
            == policy.ca_bundle,
{
}

/// A server that does not agree to TLS is not talked to any more.
pub proof fn law_no_tls_no_connection(policy: TlsPolicy, reply: u8)
    requires
        reply != TLS_ACCEPTED,
    ensures
        tls_step(policy, TlsState::AwaitingReply, TlsEventView::Reply(reply)) == failed(
            TlsErrorView::NotSupported,
        ),
{
}

/// The way to the database changes nothing about whom to trust: two configurations that differ in
/// the proxy alone take the same steps, and ask for the database's own host name.
pub proof fn law_proxy_changes_no_trust(
    config: BackendConfig,
    other: BackendConfig,
    state: TlsState,
    event: TlsEventView,
)
    requires
        other == (BackendConfig { proxy_endpoint: other.proxy_endpoint, ..config }),
        expects(state, event),
    ensures
        tls_step(tls_policy(config), state, event) == tls_step(tls_policy(other), state, event),
        tls_step(tls_policy(config), state, event).1 matches TlsActionView::Connect {
            server_name,
            ..
        } ==> Some(server_name) == server_identity(config.endpoint.hostname@),
{
}

/// How an upgrade begins: a server that has to be asked gets the eight bytes of a request for TLS,
/// and agrees with the letter `S` and with nothing else; a server that expects TLS at once is not
/// asked.
pub proof fn law_upgrade_begins(policy: TlsPolicy, reply: u8)
    ensures
        tls_step(policy, TlsState::Plain, TlsEventView::Ask) == (
            TlsState::AwaitingReply,
            TlsActionView::Send(seq![0u8, 0, 0, 8, 0x04, 0xD2, 0x16, 0x2F]),
        ),
        reply == 0x53 ==> tls_step(policy, TlsState::AwaitingReply, TlsEventView::Reply(reply))
            == tls_step(policy, TlsState::Plain, TlsEventView::Raw),
        reply != 0x53 ==> tls_step(policy, TlsState::AwaitingReply, TlsEventView::Reply(reply)) == (
            TlsState::Failed,
            TlsActionView::Fail(TlsErrorView::NotSupported),
        ),
{
    reveal_with_fuel(crate::wire::be_bytes, 5);
    assert(be_i32(80877103) =~= seq![0x04u8, 0xD2, 0x16, 0x2F]);
    assert(be_i32(8) =~= seq![0u8, 0, 0, 8]);
    assert(ssl_request_frame() =~= seq![0u8, 0, 0, 8, 0x04, 0xD2, 0x16, 0x2F]);
}

/// Whom an upgrade trusts: where certificates are not to be looked at, anyone, and at once;
/// otherwise the configured bundle, or else the RDS global bundle, is loaded first, and its
/// certificates are trusted. Either way the server must be the database's own host, and a host name
/// that is none ends the upgrade.
pub proof fn law_trust_is_settled(policy: TlsPolicy, pem: Seq<u8>)
    ensures
        policy.accept_anyone ==> tls_step(policy, TlsState::Plain, TlsEventView::Raw) == (
        match server_identity(policy.hostname) {
            Some(server_name) => (
                TlsState::Handshake,
                TlsActionView::Connect { trust: TrustView::Anyone, server_name },
            ),
            None => (
                TlsState::Failed,
                TlsActionView::Fail(TlsErrorView::InvalidServerName("invalid dns name"@)),
            ),
        }),
        !policy.accept_anyone ==> tls_step(policy, TlsState::Plain, TlsEventView::Raw) == (
            TlsState::AwaitingBundle,
            TlsActionView::LoadBundle(policy.ca_bundle),
        ),
        tls_step(policy, TlsState::AwaitingBundle, TlsEventView::Bundle(pem)) == (
        match bundle_outcome(pem) {
            Err(error) => (
                TlsState::Failed,
                TlsActionView::Fail(TlsErrorView::CertStore(error)),
            ),
            Ok(trusted) => match server_identity(policy.hostname) {
                Some(server_name) => (
                    TlsState::Handshake,
                    TlsActionView::Connect { trust: TrustView::Roots(trusted), server_name },
                ),
                None => (
                    TlsState::Failed,
                    TlsActionView::Fail(TlsErrorView::InvalidServerName("invalid dns name"@)),
                ),
            },
        }),
{
}

/// What a configuration says about an upgrade: the host name of the database itself, the configured
/// bundle, and whether certificates are not to be looked at.
pub proof fn law_policy_is_the_configuration(config: BackendConfig)
    ensures
        tls_policy(config).hostname == config.endpoint.hostname@,
        tls_policy(config).accept_anyone == config.danger_accept_invalid_certs,
        match config.ca_bundle {
            Some(path) => tls_policy(config).ca_bundle == Some(path@),
            None => tls_policy(config).ca_bundle is None,
        },
{
}

/// All certificates of a bundle are trusted, each as its own trust anchor and in order, and there
/// is at least one; a bundle is refused as a whole if one of them is not well formed, and it is
/// said what is wrong with the first such.
pub proof fn law_all_certificates_are_trusted(certs: Seq<Seq<u8>>)
    ensures
        certs.len() == 0 ==> store_outcome(certs) == Err::<
            Seq<(Seq<u8>, Seq<u8>, Option<Seq<u8>>)>,
            CertStoreErrorView,
        >(CertStoreErrorView::NoCertificates),
        (certs.len() > 0 && forall|i: int|
            0 <= i < certs.len() ==> trust_anchor(#[trigger] certs[i]) is Ok) ==> (store_outcome(
            certs,
        ) matches Ok(trusted) && trusted.len() == certs.len() && forall|i: int|
            0 <= i < certs.len() ==> #[trigger] trusted[i] == trust_anchor(certs[i])->Ok_0),
        forall|bad: int|
            (0 <= bad < certs.len() && trust_anchor(#[trigger] certs[bad]) is Err && forall|i: int|
                0 <= i < bad ==> trust_anchor(#[trigger] certs[i]) is Ok) ==> store_outcome(certs)
                == Err::<Seq<(Seq<u8>, Seq<u8>, Option<Seq<u8>>)>, CertStoreErrorView>(
                CertStoreErrorView::BadCertificate(trust_anchor(certs[bad])->Err_0),
            ),
{
    if forall|i: int| 0 <= i < certs.len() ==> trust_anchor(#[trigger] certs[i]) is Ok {
        lemma_good_certificates(certs);
    }
    assert forall|bad: int|
        (0 <= bad < certs.len() && trust_anchor(#[trigger] certs[bad]) is Err && forall|i: int|
            0 <= i < bad ==> trust_anchor(#[trigger] certs[i]) is Ok) implies store_outcome(certs)
        == Err::<Seq<(Seq<u8>, Seq<u8>, Option<Seq<u8>>)>, CertStoreErrorView>(
        CertStoreErrorView::BadCertificate(trust_anchor(certs[bad])->Err_0),
    ) by {
        let good = certs.take(bad);
        let cut = certs.take(bad + 1);
        assert forall|i: int| 0 <= i < good.len() implies trust_anchor(
            #[trigger] good[i],
        ) is Ok by {
            assert(good[i] == certs[i]);
        }
        lemma_good_certificates(good);
        assert(cut.drop_last() =~= good);
        assert(cut.last() == certs[bad]);
        lemma_fault_stays(certs, bad + 1);
    }
}

/// Certificates that are all well formed are all trusted.
proof fn lemma_good_certificates(certs: Seq<Seq<u8>>)
    requires
        forall|i: int| 0 <= i < certs.len() ==> trust_anchor(#[trigger] certs[i]) is Ok,
    ensures
        trust_anchors(certs) matches Ok(trusted) && trusted.len() == certs.len() && forall|i: int|
            0 <= i < certs.len() ==> #[trigger] trusted[i] == trust_anchor(certs[i])->Ok_0,
    decreases certs.len(),
{
    if certs.len() > 0 {
        let rest = certs.drop_last();
        assert forall|i: int| 0 <= i < rest.len() implies trust_anchor(
            #[trigger] rest[i],
        ) is Ok by {
            assert(rest[i] == certs[i]);
        }
        lemma_good_certificates(rest);
        assert(certs.last() == certs[certs.len() - 1]);
        let trusted = trust_anchors(certs)->Ok_0;
        assert forall|i: int| 0 <= i < certs.len() implies #[trigger] trusted[i] == trust_anchor(
            certs[i],
        )->Ok_0 by {
            if i < rest.len() {
                assert(rest[i] == certs[i]);
            }
        }
    }
}

/// A bundle is what its PEM file holds, and a file that is not well formed is refused with what is
/// said of it.
pub proof fn law_bundle_is_its_certificates(pem: Seq<u8>)
    ensures
        match pem_certificates(pem) {
            Ok(certs) => bundle_outcome(pem) == store_outcome(certs),
            Err(fault) => bundle_outcome(pem) == Err::<
                Seq<(Seq<u8>, Seq<u8>, Option<Seq<u8>>)>,
                CertStoreErrorView,
            >(CertStoreErrorView::Pem(fault)),
        },
{
}

/// Which events an upgrade waits for.
pub proof fn law_upgrade_waits_for(reply: u8, pem: Seq<u8>)
    ensures
        expects(TlsState::Plain, TlsEventView::Ask),
        expects(TlsState::Plain, TlsEventView::Raw),
        expects(TlsState::AwaitingReply, TlsEventView::Reply(reply)),
        expects(TlsState::AwaitingBundle, TlsEventView::Bundle(pem)),
        forall|event: TlsEventView|
            !expects(TlsState::Handshake, event) && !expects(TlsState::Failed, event),
{
}

/// What is stated of a step is stated of the very bytes, names and trust anchors that go in and
/// out.
pub proof fn law_steps_are_what_they_say(
    event: TlsEvent,
    action: TlsAction,
    trust: Trust,
    error: TlsError,
    built: Result<RootCertStore, CertStoreError>,
)
    ensures
        match event {
            TlsEvent::Ask => event@ is Ask,
            TlsEvent::Raw => event@ is Raw,
            TlsEvent::Reply(byte) => event@ == TlsEventView::Reply(byte),
            TlsEvent::Bundle(pem) => event@ == TlsEventView::Bundle(pem@),
        },
        match action {
            TlsAction::Send(bytes) => action@ == TlsActionView::Send(shared_bytes(bytes)),
            TlsAction::LoadBundle(BundleSource::File(path)) => action@ == TlsActionView::LoadBundle(
                Some(path@),
            ),
            TlsAction::LoadBundle(BundleSource::RdsGlobal) => action@ == TlsActionView::LoadBundle(
                None,
            ),
            TlsAction::Connect { trust, server_name } => action@ == (TlsActionView::Connect {
                trust: trust@,
                server_name,
            }),
            TlsAction::Fail(e) => action@ == TlsActionView::Fail(e@),
        },
        match trust {
            Trust::Anyone => trust@ is Anyone,
            Trust::Roots(store) => trust@ == TrustView::Roots(anchors(store)),
        },
        match error {
            TlsError::NotSupported => error@ is NotSupported,
            TlsError::CertStore(e) => error@ == TlsErrorView::CertStore(e@),
            TlsError::InvalidServerName(e) => error@ == TlsErrorView::InvalidServerName(
                dns_text(e),
            ),
        },
        match built {
            Ok(store) => store_view(built) matches Ok(trusted) && trusted == anchors(store),
            Err(e) => store_view(built) matches Err(why) && why == (match e {
                CertStoreError::Pem(e) => CertStoreErrorView::Pem(io_text(e)),
                CertStoreError::NoCertificates => CertStoreErrorView::NoCertificates,
                CertStoreError::BadCertificate(e) => CertStoreErrorView::BadCertificate(
                    rustls_text(e),
                ),
            }),
        },
{
}

} // verus!
