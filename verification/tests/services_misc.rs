use sysport::geo::GeoDatabase;
use sysport::notifications::Notification;
use sysport::remote::{new_packet_log, ExampleServers, RemoteClient, RemoteConfig};

#[test]
fn remote_config_default_values() {
    let config = RemoteConfig::default();
    assert_eq!(config.servers, vec!["127.0.0.1:8080".to_string()]);
    assert!(config.auth_token.is_none());
    assert!(config.custom_headers.is_empty());
}

#[test]
fn set_config_replaces_wholesale() {
    let mut client = RemoteClient { config: RemoteConfig::default() };
    let mut next = RemoteConfig::default();
    next.servers = vec!["10.0.0.2:9000".to_string()];
    next.auth_token = Some("local-test-token".to_string());
    client.set_config(next);
    assert_eq!(client.config.servers, vec!["10.0.0.2:9000".to_string()]);
    assert!(client.config.auth_token.is_some());
}

#[test]
fn proxy_echoes_and_logs_each_chunk() {
    let mut log = new_packet_log();
    let reply = ExampleServers::handle_proxy_chunk(&mut log, b"ping");
    assert_eq!(reply, b"ping");
    assert_eq!(log.len(), 1);
    assert_eq!(log.get(0).as_slice(), &b"ping"[..]);
}

#[test]
fn packet_log_is_bounded_under_bursts() {
    let mut log = new_packet_log();
    for i in 0..1500u32 {
        let chunk = i.to_be_bytes();
        let reply = ExampleServers::handle_proxy_chunk(&mut log, &chunk);
        assert_eq!(reply.as_slice(), &chunk[..]);
        assert!(log.len() <= 1000);
    }
    assert_eq!(log.len(), 1000);
    // FIFO: the oldest retained chunk is number 500.
    assert_eq!(log.get(0).as_slice(), &500u32.to_be_bytes()[..]);
}

#[test]
fn geo_database_rejects_malformed_bytes() {
    assert!(GeoDatabase::load(vec![1, 2, 3, 4]).is_none());
    assert!(GeoDatabase::load(Vec::new()).is_none());
}

#[test]
fn notification_carries_title_and_message() {
    let n = Notification { title: "CPU".to_string(), message: "high".to_string() };
    let copy = n.clone();
    assert_eq!(copy.title, "CPU");
    assert_eq!(copy.message, "high");
}
