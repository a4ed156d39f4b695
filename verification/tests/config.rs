use rds_proxy::backend_config::{Addr, BackendConfig, DbSpec, DbType};

fn config(proxy_endpoint: Option<Addr>, local_password: Option<&str>) -> BackendConfig {
    BackendConfig {
        db_type: DbType::Postgres,
        endpoint: Addr { hostname: "db.example.com".to_string(), port: 5432 },
        region: "us-east-1".to_string(),
        proxy_endpoint,
        ca_bundle: None,
        danger_accept_invalid_certs: false,
        local_password: local_password.map(|p| p.to_string()),
    }
}

#[test]
fn connect_str_joins_host_and_port() {
    let addr = Addr { hostname: "db.example.com".to_string(), port: 5432 };
    assert_eq!(addr.connect_str(), "db.example.com:5432");
    let addr = Addr { hostname: "".to_string(), port: 0 };
    assert_eq!(addr.connect_str(), ":0");
    let addr = Addr { hostname: "::1".to_string(), port: 65535 };
    assert_eq!(addr.connect_str(), "::1:65535");
}

#[test]
fn connection_goes_to_the_endpoint() {
    let config = config(None, None);
    assert_eq!(config.connect_endpoint().hostname, "db.example.com");
    assert_eq!(config.connect_str(), "db.example.com:5432");
}

#[test]
fn connection_goes_to_the_proxy_if_there_is_one() {
    let config = config(Some(Addr { hostname: "localhost".to_string(), port: 7 }), None);
    assert_eq!(config.connect_endpoint().hostname, "localhost");
    assert_eq!(config.connect_str(), "localhost:7");
}

#[test]
fn local_password_is_optional() {
    assert_eq!(config(None, None).local_password(), None);
    assert_eq!(config(None, Some("sesame")).local_password(), Some("sesame"));
}

#[test]
fn startup_message_bytes() {
    let spec = DbSpec::new("me".to_string(), "db".to_string());
    let bytes = spec.startup_message().unwrap();
    let mut expected = vec![0u8, 0, 0, 50, 0, 3, 0, 0];
    expected.extend_from_slice(b"client_encoding\0UTF8\0user\0me\0database\0db\0\0");
    expected[3] = expected.len() as u8;
    assert_eq!(&bytes[..], &expected[..]);
    assert!(spec.startup_fits());
}

#[test]
fn startup_message_takes_no_nul() {
    assert!(DbSpec::new("a\0".to_string(), "db".to_string()).startup_message().is_err());
    let error = DbSpec::new("a".to_string(), "d\0b".to_string()).startup_message().unwrap_err();
    assert_eq!(error.to_string(), "string contains embedded null");
    assert!(DbSpec::new("".to_string(), "".to_string()).startup_message().is_ok());
}
