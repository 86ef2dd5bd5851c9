use sysport::capture::{ipv4_string, new_packet_ring, parse_frame, record_frame, RawPacketInfo};
use sysport::filter::packet_matches_filter;
use sysport::query::{packet_count_by_country, query_packets, top_ports};
use sysport::ring::BoundedRing;

fn tcp_frame() -> Vec<u8> {
    let mut buf = vec![0u8; 54];
    buf[12] = 0x08;
    buf[13] = 0x00;
    buf[23] = 6;
    buf[26] = 10;
    buf[27] = 0;
    buf[28] = 0;
    buf[29] = 1;
    buf[30] = 192;
    buf[31] = 168;
    buf[32] = 1;
    buf[33] = 7;
    buf[34] = 0;
    buf[35] = 80;
    buf[36] = 1;
    buf[37] = 187;
    buf
}

fn stored_packet() -> RawPacketInfo {
    let mut p = parse_frame(tcp_frame(), 1);
    p.country = Some("US".to_string());
    p
}

#[test]
fn parse_frame_extracts_addresses_and_ports() {
    let p = parse_frame(tcp_frame(), 99);
    assert_eq!(p.timestamp, 99);
    assert_eq!(p.src, Some((10, 0, 0, 1)));
    assert_eq!(p.dst, Some((192, 168, 1, 7)));
    assert_eq!(p.src_port, Some(80));
    assert_eq!(p.dst_port, Some(443));
    assert_eq!(p.protocol, "TCP");
    assert!(p.country.is_none());
    assert!(p.app.is_none());
}

#[test]
fn parse_frame_short_input_is_other() {
    let p = parse_frame(vec![1, 2, 3], 0);
    assert!(p.src.is_none());
    assert!(p.dst.is_none());
    assert!(p.src_port.is_none());
    assert!(p.dst_port.is_none());
    assert_eq!(p.protocol, "Other");
}

#[test]
fn parse_frame_truncated_ports_yield_none() {
    let mut buf = tcp_frame();
    buf.truncate(36);
    let p = parse_frame(buf, 0);
    assert_eq!(p.protocol, "TCP");
    assert!(p.src_port.is_none());
    assert!(p.dst_port.is_none());
}

#[test]
fn ipv4_rendering_is_dotted_decimal() {
    assert_eq!(ipv4_string((10, 0, 0, 1)), "10.0.0.1");
    assert_eq!(ipv4_string((255, 255, 255, 255)), "255.255.255.255");
}

#[test]
fn packet_ring_evicts_fifo_at_capacity() {
    let mut ring = new_packet_ring();
    for t in 0..10001u64 {
        record_frame(&mut ring, None, vec![0u8; 4], t);
    }
    assert_eq!(ring.len(), 10000);
    // The packet evicted by the 10001st insert is the very first one.
    assert_eq!(ring.get(0).timestamp, 1);
    assert_eq!(ring.get(9999).timestamp, 10000);
}

#[test]
fn interleaved_writers_never_exceed_capacity() {
    // The capture path and a service-layer observer write to the same
    // ring; however their pushes interleave, the bound holds.
    let mut ring = new_packet_ring();
    for t in 0..7000u64 {
        record_frame(&mut ring, None, vec![0u8; 8], 2 * t);
        let observed = parse_frame(vec![0u8; 16], 2 * t + 1);
        ring.push(observed);
        assert!(ring.len() <= 10000);
    }
    assert_eq!(ring.len(), 10000);
}

#[test]
fn filter_typed_predicates() {
    let p = stored_packet();
    assert!(packet_matches_filter(&p, "proto:tcp,country:us", ""));
    assert!(!packet_matches_filter(&p, "proto:udp", ""));
    assert!(packet_matches_filter(&p, "src:10.0", ""));
    assert!(!packet_matches_filter(&p, "src:11.", ""));
    assert!(packet_matches_filter(&p, "sport:80", ""));
    assert!(!packet_matches_filter(&p, "sport:8", ""));
    assert!(packet_matches_filter(&p, "dport:443", ""));
    assert!(packet_matches_filter(&p, "dst:192.168", ""));
}

#[test]
fn filter_invalid_regex_falls_back_to_substring() {
    let mut p = stored_packet();
    p.data = b"abc(def".to_vec();
    // "(" is no valid pattern; the fallback finds it in the rendering.
    assert!(packet_matches_filter(&p, "(", ""));
    let q = stored_packet();
    assert!(!packet_matches_filter(&q, "(", ""));
}

#[test]
fn filter_regex_clause_matches_hex_dump() {
    let mut p = stored_packet();
    p.data = vec![0x41, 0x42];
    assert!(packet_matches_filter(&p, "^41 42", ""));
    assert!(!packet_matches_filter(&p, "^43", ""));
}

#[test]
fn filter_clauses_are_anded() {
    let p = stored_packet();
    assert!(packet_matches_filter(&p, "proto:tcp, country:us , sport:80", ""));
    assert!(!packet_matches_filter(&p, "proto:tcp,country:de", ""));
}

#[test]
fn search_is_case_insensitive_over_renderings() {
    let mut p = stored_packet();
    p.data = b"Hello".to_vec();
    assert!(packet_matches_filter(&p, "", "hello"));
    assert!(packet_matches_filter(&p, "", "HELLO"));
    assert!(!packet_matches_filter(&p, "", "absent"));
    assert!(packet_matches_filter(&p, "", ""));
}

#[test]
fn query_is_newest_first_and_capped() {
    let mut ring: BoundedRing<RawPacketInfo> = new_packet_ring();
    for t in 0..150u64 {
        let mut p = parse_frame(vec![0u8; 4], t);
        p.country = Some("US".to_string());
        ring.push(p);
    }
    let hits = query_packets(&ring, "", "");
    assert_eq!(hits.len(), 100);
    assert_eq!(hits[0].timestamp, 149);
    assert_eq!(hits[99].timestamp, 50);
    for w in 0..99 {
        assert!(hits[w].timestamp >= hits[w + 1].timestamp);
    }
}

#[test]
fn query_applies_the_filter() {
    let mut ring: BoundedRing<RawPacketInfo> = new_packet_ring();
    for t in 0..10u64 {
        let mut p = parse_frame(tcp_frame(), t);
        if t % 2 == 0 {
            p.country = Some("US".to_string());
        }
        ring.push(p);
    }
    let hits = query_packets(&ring, "country:us", "");
    assert_eq!(hits.len(), 5);
    for h in hits {
        assert_eq!(h.country.as_deref(), Some("US"));
    }
}

#[test]
fn country_table_counts_exactly() {
    let mut ring: BoundedRing<RawPacketInfo> = new_packet_ring();
    let countries = ["US", "US", "CN", "US", "CN", "DE"];
    for (t, c) in countries.iter().enumerate() {
        let mut p = parse_frame(vec![0u8; 4], t as u64);
        p.country = Some(c.to_string());
        ring.push(p);
    }
    let mut table = packet_count_by_country(&ring);
    table.sort_by(|a, b| a.0.cmp(&b.0));
    assert_eq!(table.len(), 3);
    assert_eq!(table[0], ("CN".to_string(), 2));
    assert_eq!(table[1], ("DE".to_string(), 1));
    assert_eq!(table[2], ("US".to_string(), 3));
}

#[test]
fn top_ports_orders_by_count_and_caps() {
    let mut ring: BoundedRing<RawPacketInfo> = new_packet_ring();
    let ports = [80u16, 80, 80, 443, 443, 22];
    for (t, port) in ports.iter().enumerate() {
        let mut p = parse_frame(vec![0u8; 4], t as u64);
        p.dst_port = Some(*port);
        ring.push(p);
    }
    let top = top_ports(&ring, 2);
    assert_eq!(top, vec![(80, 3), (443, 2)]);
    let all = top_ports(&ring, 10);
    assert_eq!(all.len(), 3);
    assert_eq!(all[2], (22, 1));
}
