use deboa::conn::{ConnectionConfig, ConnectionConfigBuilder, Duration, IpAddr};
use deboa::method::Version;

struct Id;
struct Cert;

#[test]
fn test_connection_defaults() {
    let config: ConnectionConfig<Id, Cert> = ConnectionConfigBuilder::new().build();
    assert_eq!(config.scheme(), "http");
    assert_eq!(config.host(), "");
    assert_eq!(config.port(), 80);
    assert_eq!(*config.protocol_version(), Version::HTTP_2);
    assert_eq!(config.connection_timeout(), Duration::from_secs(30));
    assert!(config.identity().is_none());
    assert!(config.certificate().is_none());
    assert!(!config.skip_cert_verification());
    assert_eq!(*config.client_bind_addr(), IpAddr::V4(0, 0, 0, 0));
    assert!(!config.prior_knowledge());
}

#[test]
fn test_connection_settings() {
    let id = Id;
    let config = ConnectionConfig::<Id, Cert>::builder()
        .scheme("https")
        .host("example.com")
        .port(8443)
        .protocol_version(Version::HTTP_11)
        .connection_timeout(Duration { secs: 5, nanos: 500 })
        .identity(Some(&id))
        .skip_cert_verification(true)
        .client_bind_addr(IpAddr::V4(127, 0, 0, 1))
        .prior_knowledge(true)
        .build();
    assert_eq!(config.scheme(), "https");
    assert_eq!(config.host(), "example.com");
    assert_eq!(config.port(), 8443);
    assert_eq!(*config.protocol_version(), Version::HTTP_11);
    assert_eq!(config.connection_timeout(), Duration { secs: 5, nanos: 500 });
    assert!(config.identity().is_some());
    assert!(config.certificate().is_none());
    assert!(config.skip_cert_verification());
    assert_eq!(*config.client_bind_addr(), IpAddr::V4(127, 0, 0, 1));
    assert!(config.prior_knowledge());
}

#[test]
fn test_builder_last_setting_wins() {
    let config: ConnectionConfig<Id, Cert> = ConnectionConfigBuilder::new()
        .port(8080)
        .host("a.example")
        .port(9090)
        .prior_knowledge(true)
        .host("b.example")
        .prior_knowledge(false)
        .build();
    assert_eq!(config.port(), 9090);
    assert_eq!(config.host(), "b.example");
    assert!(!config.prior_knowledge());
    assert_eq!(config.scheme(), "http");
    assert_eq!(config.connection_timeout(), Duration::from_secs(30));
}
