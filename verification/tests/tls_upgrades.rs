use rds_proxy::backend_config::{Addr, BackendConfig, DbType};
use rds_proxy::tls::{
    build_root_cert_store, store_of, upgrade_to_tls, BundleSource, CertStoreError, TlsAction,
    TlsError, TlsEvent, TlsState, Trust,
};
use rustls::pki_types::ServerName;

/// A certificate with nothing in it but a subject and a public key.
const CERT: [u8; 48] = [
    0x30, 0x2e, 0x30, 0x22, 0xa0, 0x03, 0x02, 0x01, 0x02, 0x02, 0x01, 0x01, 0x30, 0x04, 0x06, 0x02,
    0x2a, 0x03, 0x30, 0x00, 0x30, 0x00, 0x30, 0x06, 0x0c, 0x04, 0x72, 0x6f, 0x6f, 0x74, 0x30, 0x06,
    0x30, 0x00, 0x03, 0x02, 0x00, 0x6b, 0x30, 0x04, 0x06, 0x02, 0x2a, 0x03, 0x03, 0x02, 0x00, 0x73,
];

const PEM: &str = "\
-----BEGIN CERTIFICATE-----
MC4wIqADAgECAgEBMAQGAioDMAAwADAGDARyb290MAYwAAMCAGswBAYCKgMDAgBz
-----END CERTIFICATE-----
";

fn config() -> BackendConfig {
    BackendConfig {
        db_type: DbType::Postgres,
        endpoint: Addr { hostname: "db.example.com".to_string(), port: 5432 },
        region: "us-east-1".to_string(),
        proxy_endpoint: None,
        ca_bundle: None,
        danger_accept_invalid_certs: false,
        local_password: None,
    }
}

fn error(step: (TlsState, TlsAction)) -> TlsError {
    assert_eq!(step.0, TlsState::Failed);
    match step.1 {
        TlsAction::Fail(e) => e,
        other => panic!("expected a failure, got {:?}", other),
    }
}

#[test]
fn store_holds_the_certificates_of_a_bundle() {
    let store = build_root_cert_store(format!("{}{}", PEM, PEM).as_bytes()).unwrap();
    assert_eq!(store.roots.len(), 2);
    assert_eq!(store.roots[0].subject.as_ref(), b"\x0c\x04root");
    assert_eq!(store.roots[1].subject_public_key_info.as_ref(), b"\x30\x00\x03\x02\x00k");
    assert!(store.roots[0].name_constraints.is_none());
}

#[test]
fn store_of_certificates() {
    assert_eq!(store_of(vec![CERT.to_vec()]).unwrap().roots.len(), 1);
    assert!(matches!(store_of(vec![]), Err(CertStoreError::NoCertificates)));
    match store_of(vec![CERT.to_vec(), vec![1, 2, 3], vec![]]) {
        Err(CertStoreError::BadCertificate(e)) => assert_eq!(
            e.to_string(),
            "invalid peer certificate: BadEncoding"
        ),
        other => panic!("unexpected {:?}", other),
    }
}

#[test]
fn bundle_errors() {
    assert!(matches!(build_root_cert_store(b"nothing"), Err(CertStoreError::NoCertificates)));
    match build_root_cert_store(b"-----BEGIN CERTIFICATE-----\nAAAA\n") {
        Err(CertStoreError::Pem(e)) => {
            assert!(e.to_string().contains("-----END CERTIFICATE-----"), "{}", e)
        }
        other => panic!("unexpected {:?}", other),
    }
    assert!(matches!(
        build_root_cert_store(b"-----BEGIN CERTIFICATE-----\nAAAA\n-----END CERTIFICATE-----\n"),
        Err(CertStoreError::BadCertificate(_))
    ));
}

#[test]
fn upgrade_with_the_global_bundle() {
    let config = config();
    let (state, action) = upgrade_to_tls(&config, TlsState::Plain, TlsEvent::Ask);
    match action {
        TlsAction::Send(bytes) => assert_eq!(&bytes[..], &[0, 0, 0, 8, 4, 210, 22, 47]),
        other => panic!("unexpected {:?}", other),
    }
    let (state, action) = upgrade_to_tls(&config, state, TlsEvent::Reply(b'S'));
    assert!(matches!(action, TlsAction::LoadBundle(BundleSource::RdsGlobal)));
    let bundle = TlsEvent::Bundle(PEM.as_bytes().to_vec());
    let (state, action) = upgrade_to_tls(&config, state, bundle);
    assert_eq!(state, TlsState::Handshake);
    match action {
        TlsAction::Connect { trust: Trust::Roots(store), server_name } => {
            assert_eq!(store.roots.len(), 1);
            assert_eq!(server_name, ServerName::try_from("db.example.com").unwrap());
        }
        other => panic!("unexpected {:?}", other),
    }
}

#[test]
fn configured_bundle_is_loaded() {
    let config = BackendConfig { ca_bundle: Some("/etc/ca.pem".to_string()), ..config() };
    let (state, action) = upgrade_to_tls(&config, TlsState::Plain, TlsEvent::Raw);
    assert_eq!(state, TlsState::AwaitingBundle);
    match action {
        TlsAction::LoadBundle(BundleSource::File(path)) => assert_eq!(path, "/etc/ca.pem"),
        other => panic!("unexpected {:?}", other),
    }
}

#[test]
fn certificates_go_unchecked_by_choice() {
    let config = BackendConfig {
        danger_accept_invalid_certs: true,
        ca_bundle: Some("/etc/ca.pem".to_string()),
        ..config()
    };
    for (state, event) in
        [(TlsState::Plain, TlsEvent::Raw), (TlsState::AwaitingReply, TlsEvent::Reply(b'S'))]
    {
        match upgrade_to_tls(&config, state, event) {
            (TlsState::Handshake, TlsAction::Connect { trust: Trust::Anyone, server_name }) => {
                assert_eq!(server_name, ServerName::try_from("db.example.com").unwrap());
            }
            other => panic!("unexpected {:?}", other),
        }
    }
}

#[test]
fn the_name_is_that_of_the_database_not_of_the_proxy() {
    let config = BackendConfig {
        proxy_endpoint: Some(Addr { hostname: "localhost".to_string(), port: 1 }),
        danger_accept_invalid_certs: true,
        ..config()
    };
    match upgrade_to_tls(&config, TlsState::Plain, TlsEvent::Raw).1 {
        TlsAction::Connect { server_name, .. } => {
            assert_eq!(server_name, ServerName::try_from("db.example.com").unwrap());
        }
        other => panic!("unexpected {:?}", other),
    }
}

#[test]
fn server_without_tls() {
    let refused = upgrade_to_tls(&config(), TlsState::AwaitingReply, TlsEvent::Reply(b'N'));
    assert!(matches!(error(refused), TlsError::NotSupported));
}

#[test]
fn upgrade_errors() {
    let config = config();
    let bundle = TlsEvent::Bundle(vec![]);
    assert!(matches!(
        error(upgrade_to_tls(&config, TlsState::AwaitingBundle, bundle)),
        TlsError::CertStore(CertStoreError::NoCertificates)
    ));
    let nameless = BackendConfig {
        endpoint: Addr { hostname: "not a host".to_string(), port: 5432 },
        danger_accept_invalid_certs: true,
        ..config
    };
    match error(upgrade_to_tls(&nameless, TlsState::Plain, TlsEvent::Raw)) {
        TlsError::InvalidServerName(e) => assert_eq!(e.to_string(), "invalid dns name"),
        other => panic!("unexpected {:?}", other),
    }
}
