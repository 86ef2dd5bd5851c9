use sysport::export::{parse_metrics_table, render_metrics_table};
use sysport::metrics::Metrics;
use sysport::text::u64_to_string;

fn sample(ts: u64, cpu: u32, used: u64, total: u64, rx: u64, tx: u64) -> Metrics {
    let mut m = Metrics::default();
    m.timestamp = ts;
    m.cpu_total = cpu;
    m.mem_used = used;
    m.mem_total = total;
    m.net_rx = rx;
    m.net_tx = tx;
    m
}

#[test]
fn rendered_table_is_exact() {
    let history = vec![sample(5, 1234, 10, 20, 7, 9)];
    let text = render_metrics_table(&history);
    assert_eq!(
        text,
        "timestamp,cpu_total,mem_used,mem_total,net_rx,net_tx\n5,12.34,10,20,7,9\n"
    );
}

#[test]
fn empty_history_renders_header_only() {
    let history: Vec<Metrics> = Vec::new();
    let text = render_metrics_table(&history);
    assert_eq!(text, "timestamp,cpu_total,mem_used,mem_total,net_rx,net_tx\n");
    let back = parse_metrics_table(&text, 77).expect("header-only table must parse");
    assert!(back.is_empty());
}

#[test]
fn export_import_round_trip_preserves_numeric_fields() {
    let history = vec![
        sample(1, 0, 0, 0, 0, 0),
        sample(2, 9999, 123456789, 987654321, 42, 24),
        sample(3, 10000, u64::MAX, u64::MAX, u64::MAX, u64::MAX),
    ];
    let text = render_metrics_table(&history);
    let back = parse_metrics_table(&text, 555).expect("rendered table must parse");
    assert_eq!(back.len(), history.len());
    for (orig, imported) in history.iter().zip(back.iter()) {
        assert_eq!(imported.cpu_total, orig.cpu_total);
        assert_eq!(imported.mem_used, orig.mem_used);
        assert_eq!(imported.mem_total, orig.mem_total);
        assert_eq!(imported.net_rx, orig.net_rx);
        assert_eq!(imported.net_tx, orig.net_tx);
        // Timestamps are exempt from the round trip: imports are
        // stamped with the caller's clock.
        assert_eq!(imported.timestamp, 555);
    }
}

#[test]
fn malformed_tables_are_rejected() {
    assert!(parse_metrics_table("", 0).is_none());
    assert!(parse_metrics_table("garbage", 0).is_none());
    assert!(parse_metrics_table("a,b,c\n", 0).is_none());
    // Right header, but a row with too few fields.
    assert!(parse_metrics_table(
        "timestamp,cpu_total,mem_used,mem_total,net_rx,net_tx\n1,2.00,3,4,5\n",
        0
    )
    .is_none());
    // Right header, but a non-numeric field.
    assert!(parse_metrics_table(
        "timestamp,cpu_total,mem_used,mem_total,net_rx,net_tx\n1,2.00,x,4,5,6\n",
        0
    )
    .is_none());
    // CPU field without its two decimal places.
    assert!(parse_metrics_table(
        "timestamp,cpu_total,mem_used,mem_total,net_rx,net_tx\n1,2,3,4,5,6\n",
        0
    )
    .is_none());
    // Missing final newline leaves a non-empty last line.
    assert!(parse_metrics_table(
        "timestamp,cpu_total,mem_used,mem_total,net_rx,net_tx\n1,2.00,3,4,5,6",
        0
    )
    .is_none());
}

#[test]
fn counter_overflow_in_a_row_is_rejected() {
    // One more than u64::MAX cannot be represented and must not wrap.
    let text = "timestamp,cpu_total,mem_used,mem_total,net_rx,net_tx\n1,2.00,18446744073709551616,4,5,6\n";
    assert!(parse_metrics_table(text, 0).is_none());
}

#[test]
fn decimal_rendering_is_exact() {
    assert_eq!(u64_to_string(0), "0");
    assert_eq!(u64_to_string(7), "7");
    assert_eq!(u64_to_string(1234567890), "1234567890");
    assert_eq!(u64_to_string(u64::MAX), "18446744073709551615");
}
