use oh_my_kiwi::config::TcpConfig;

#[test]
fn test_default() {
    let config = TcpConfig::default();
    assert_eq!(config.host_str(), "127.0.0.1");
    assert_eq!(config.port_u16(), 6669);
}

#[test]
fn test_new() {
    let config = TcpConfig::new();
    let default = TcpConfig::default();
    assert_eq!(config.host_str(), default.host_str());
    assert_eq!(config.port_u16(), default.port_u16());
}

#[test]
fn test_port_builder() {
    let config = TcpConfig::new().port(8080);
    assert_eq!(config.port_u16(), 8080);
    assert_eq!(config.host_str(), "127.0.0.1");
}

#[test]
fn test_host_builder() {
    let config = TcpConfig::new().host("localhost");
    assert_eq!(config.host_str(), "localhost");
    assert_eq!(config.port_u16(), 6669);
}

#[test]
fn test_chained_builders() {
    let config = TcpConfig::new().host("example.com").port(443);
    assert_eq!(config.port_u16(), 443);
    assert_eq!(config.host_str(), "example.com");
}

#[test]
fn test_set_port() {
    let mut config = TcpConfig::new();
    config.set_port(9000);
    assert_eq!(config.port_u16(), 9000);
}

#[test]
fn test_set_host() {
    let mut config = TcpConfig::new();
    config.set_host("test.domain");
    assert_eq!(config.host_str(), "test.domain");
}

#[test]
fn test_host_str() {
    let config = TcpConfig::new().host("test.host");
    assert_eq!(config.host_str(), "test.host");
}

#[test]
fn test_port_u16() {
    let config = TcpConfig::new().port(8888);
    assert_eq!(config.port_u16(), 8888);
}
