use sysport::packet_stats::{decode_protocol, PacketStats};

fn ipv4_buf(len: usize, proto: u8) -> Vec<u8> {
    let mut buf = vec![0u8; len];
    buf[0] = 0x45;
    buf[9] = proto;
    buf
}

#[test]
fn classify_tcp() {
    let buf = ipv4_buf(34, 6);
    assert_eq!(decode_protocol(&buf), "TCP");
}

#[test]
fn classify_udp() {
    let buf = ipv4_buf(34, 17);
    assert_eq!(decode_protocol(&buf), "UDP");
}

#[test]
fn classify_icmp() {
    let buf = ipv4_buf(34, 1);
    assert_eq!(decode_protocol(&buf), "ICMP");
}

#[test]
fn classify_bare_ipv4() {
    let buf = ipv4_buf(34, 99);
    assert_eq!(decode_protocol(&buf), "IPv4");
}

#[test]
fn classify_arp() {
    let mut buf = vec![0u8; 20];
    buf[12] = 0x08;
    buf[13] = 0x06;
    assert_eq!(decode_protocol(&buf), "ARP");
}

#[test]
fn classify_short_buffer_is_other() {
    let buf = vec![0x45u8; 10];
    assert_eq!(decode_protocol(&buf), "Other");
}

#[test]
fn classify_is_deterministic() {
    let buf = ipv4_buf(60, 17);
    let first = decode_protocol(&buf);
    let second = decode_protocol(&buf);
    assert_eq!(first, second);
    assert_eq!(first, "UDP");
}

#[test]
fn stats_update_counts_tcp() {
    let mut stats = PacketStats::default();
    let buf = ipv4_buf(40, 6);
    stats.update(&buf);
    stats.update(&buf);
    assert_eq!(stats.tcp_count, 2);
    assert_eq!(stats.tcp_bytes, 80);
    assert_eq!(stats.udp_count, 0);
}

#[test]
fn stats_ignores_untracked_protocol() {
    let mut stats = PacketStats::default();
    let buf = ipv4_buf(40, 99);
    stats.update(&buf);
    assert_eq!(stats.tcp_count + stats.udp_count + stats.icmp_count + stats.arp_count, 0);
}

#[test]
fn stats_reset_zeroes_everything() {
    let mut stats = PacketStats::default();
    stats.update(&ipv4_buf(40, 6));
    stats.update(&ipv4_buf(40, 1));
    stats.reset();
    assert_eq!(stats.tcp_count, 0);
    assert_eq!(stats.icmp_count, 0);
    assert_eq!(stats.tcp_bytes, 0);
    assert_eq!(stats.icmp_bytes, 0);
}
