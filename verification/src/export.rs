//! Export and import of metrics history in a line-delimited tabular
//! format: one header line, then one line per snapshot with the
//! timestamp, the aggregate CPU percentage with two decimal places,
//! memory used and total, and the network deltas. Importing rebuilds
//! snapshots from the numeric fields; wall-clock instants are not
//! portable, so imported timestamps are set to the caller's "now" and
//! the numeric fields round-trip exactly.

use vstd::prelude::*;
use vstd::string::*;
use crate::metrics::Metrics;
use crate::text::{
    all_digits, chars_equal, chars_of, dec_digits, dec_value, digit_char, digit_val, is_digit, join_with,
    lemma_dec_round_trip, lemma_join_free_of, lemma_join_push, lemma_split_join, parse_dec,
    parse_u64, split_chars, split_on, two_dec, two_dec_string, u64_to_string,
};

verus! {

/// The serialization targets the export path offers.
pub enum ExportFormat {
    Json,
    Csv,
}

/// A field the tabular format can hold unquoted: non-empty, and free
/// of the delimiter, the quote and the record terminator bytes.
pub open spec fn csv_safe_field(f: Seq<char>) -> bool {
    f.len() > 0 && forall|i: int|
        0 <= i < f.len() ==> (#[trigger] f[i]) != ',' && f[i] != '"' && f[i] != '\n' && f[i]
            != '\r'
}

/// One encoded record: the fields joined with commas, terminated by a
/// newline.
pub open spec fn csv_row(fields: Seq<Seq<char>>) -> Seq<char> {
    join_with(fields, ',').push('\n')
}

/// Relies on `csv::Writer::write_record` with the default settings
/// (comma delimiter, newline terminator, quoting only when necessary):
/// fields free of the delimiter, quote and terminator bytes are
/// written as they are, so the record is exactly the fields joined
/// with commas and terminated by a newline. Writing into a `Vec`
/// cannot fail.
#[verifier::external_body]
fn csv_encode_row(fields: &Vec<String>) -> (r: String)
    requires
        fields@.len() > 0,
        forall|i: int| 0 <= i < fields@.len() ==> csv_safe_field((#[trigger] fields@[i])@),
    ensures
        r@ == csv_row(fields@.map_values(|f: String| f@)),
{
    let mut wtr = csv::Writer::from_writer(Vec::new());
    let _ = wtr.write_record(fields);
    let bytes = wtr.into_inner().unwrap_or_default();
    String::from_utf8(bytes).unwrap_or_default()
}

/// The header fields of the tabular format.
pub open spec fn header_fields() -> Seq<Seq<char>> {
    seq!["timestamp"@, "cpu_total"@, "mem_used"@, "mem_total"@, "net_rx"@, "net_tx"@]
}

/// The fields of one snapshot's line, all rendered in decimal; the
/// aggregate CPU keeps its two decimal places.
pub open spec fn row_fields(m: Metrics) -> Seq<Seq<char>> {
    seq![
        dec_digits(m.timestamp as nat),
        two_dec(m.cpu_total as nat),
        dec_digits(m.mem_used as nat),
        dec_digits(m.mem_total as nat),
        dec_digits(m.net_rx as nat),
        dec_digits(m.net_tx as nat),
    ]
}

/// The whole table: the header record, then one record per snapshot.
pub open spec fn table_spec(h: Seq<Metrics>) -> Seq<char>
    decreases h.len(),
{
    if h.len() == 0 {
        csv_row(header_fields())
    } else {
        table_spec(h.drop_last()) + csv_row(row_fields(h.last()))
    }
}

proof fn lemma_digits_csv_safe(n: nat)
    ensures
        csv_safe_field(dec_digits(n)),
        !dec_digits(n).contains('.'),
{
    lemma_dec_round_trip(n);
    assert forall|i: int| 0 <= i < dec_digits(n).len() implies (#[trigger] dec_digits(n)[i])
        != ',' && dec_digits(n)[i] != '"' && dec_digits(n)[i] != '\n' && dec_digits(n)[i]
        != '\r' && dec_digits(n)[i] != '.' by {
        assert(is_digit(dec_digits(n)[i]));
    }
    if dec_digits(n).contains('.') {
        let i = choose|i: int| 0 <= i < dec_digits(n).len() && dec_digits(n)[i] == '.';
    }
}

proof fn lemma_two_dec_csv_safe(n: nat)
    ensures
        csv_safe_field(two_dec(n)),
{
    lemma_digits_csv_safe(n / 100);
    let f = two_dec(n);
    assert forall|i: int| 0 <= i < f.len() implies (#[trigger] f[i]) != ',' && f[i] != '"'
        && f[i] != '\n' && f[i] != '\r' by {
        if i < f.len() - 3 {
            assert(f[i] == dec_digits(n / 100)[i]);
        } else if i == f.len() - 3 {
            assert(f[i] == '.');
        } else {
            assert(is_digit(f[i]));
        }
    }
}

proof fn lemma_header_fields_safe()
    ensures
        forall|i: int|
            0 <= i < header_fields().len() ==> csv_safe_field(#[trigger] header_fields()[i]),
{
    reveal_strlit("timestamp");
    reveal_strlit("cpu_total");
    reveal_strlit("mem_used");
    reveal_strlit("mem_total");
    reveal_strlit("net_rx");
    reveal_strlit("net_tx");
    assert(csv_safe_field("timestamp"@));
    assert(csv_safe_field("cpu_total"@));
    assert(csv_safe_field("mem_used"@));
    assert(csv_safe_field("mem_total"@));
    assert(csv_safe_field("net_rx"@));
    assert(csv_safe_field("net_tx"@));
    assert forall|i: int|
        0 <= i < header_fields().len() implies csv_safe_field(
        #[trigger] header_fields()[i],
    ) by {
        if i == 0 {
            assert(header_fields()[i] == "timestamp"@);
        } else if i == 1 {
            assert(header_fields()[i] == "cpu_total"@);
        } else if i == 2 {
            assert(header_fields()[i] == "mem_used"@);
        } else if i == 3 {
            assert(header_fields()[i] == "mem_total"@);
        } else if i == 4 {
            assert(header_fields()[i] == "net_rx"@);
        } else {
            assert(header_fields()[i] == "net_tx"@);
        }
    }
}

/// Renders a metrics history as the tabular text: header line first,
/// then one line per snapshot in history order.
pub fn render_metrics_table(history: &Vec<Metrics>) -> (r: String)
    ensures
        r@ == table_spec(history@),
{
    let mut header: Vec<String> = Vec::new();
    header.push(String::from_str("timestamp"));
    header.push(String::from_str("cpu_total"));
    header.push(String::from_str("mem_used"));
    header.push(String::from_str("mem_total"));
    header.push(String::from_str("net_rx"));
    header.push(String::from_str("net_tx"));
    proof {
        lemma_header_fields_safe();
        assert(header@.map_values(|f: String| f@) =~= header_fields());
        assert forall|i: int| 0 <= i < header@.len() implies csv_safe_field(
            (#[trigger] header@[i])@,
        ) by {
            assert(header@[i]@ == header_fields()[i]);
        }
    }
    let mut r = csv_encode_row(&header);
    let mut i: usize = 0;
    proof {
        assert(r@ =~= table_spec(history@.subrange(0, 0)));
    }
    while i < history.len()
        invariant
            i <= history.len(),
            r@ == table_spec(history@.subrange(0, i as int)),
        decreases history.len() - i,
    {
        let m = &history[i];
        let mut fields: Vec<String> = Vec::new();
        fields.push(u64_to_string(m.timestamp));
        fields.push(two_dec_string(m.cpu_total as u64));
        fields.push(u64_to_string(m.mem_used));
        fields.push(u64_to_string(m.mem_total));
        fields.push(u64_to_string(m.net_rx));
        fields.push(u64_to_string(m.net_tx));
        proof {
            assert(fields@.map_values(|f: String| f@) =~= row_fields(history@[i as int]));
            lemma_digits_csv_safe(m.timestamp as nat);
            lemma_two_dec_csv_safe(m.cpu_total as nat);
            lemma_digits_csv_safe(m.mem_used as nat);
            lemma_digits_csv_safe(m.mem_total as nat);
            lemma_digits_csv_safe(m.net_rx as nat);
            lemma_digits_csv_safe(m.net_tx as nat);
            assert forall|k: int| 0 <= k < fields@.len() implies csv_safe_field(
                (#[trigger] fields@[k])@,
            ) by {
                assert(fields@[k]@ == row_fields(history@[i as int])[k]);
            }
        }
        let row = csv_encode_row(&fields);
        r.append(row.as_str());
        i = i + 1;
        proof {
            let pre = history@.subrange(0, i as int);
            assert(pre.drop_last() =~= history@.subrange(0, i as int - 1));
            assert(pre.last() == history@[i as int - 1]);
        }
    }
    proof {
        assert(history@.subrange(0, history@.len() as int) =~= history@);
    }
    r
}

/// Whether a field is a plain decimal number that fits in a `u64`.
pub open spec fn dec_field_ok(f: Seq<char>) -> bool {
    parse_dec(f) is Some && parse_dec(f).unwrap() <= u64::MAX
}

/// The value of a two-decimal-place field, in hundredths.
pub open spec fn two_dec_val(f: Seq<char>) -> nat {
    let ps = split_on(f, '.');
    dec_value(ps[0]) * 100 + dec_value(ps[1])
}

/// Whether a field is a decimal with exactly two decimal places, and
/// its value in hundredths fits the aggregate-CPU representation.
pub open spec fn two_dec_ok(f: Seq<char>) -> bool {
    let ps = split_on(f, '.');
    &&& ps.len() == 2
    &&& ps[1].len() == 2
    &&& parse_dec(ps[0]) is Some
    &&& parse_dec(ps[1]) is Some
    &&& two_dec_val(f) <= u32::MAX
}

/// Whether one data line is well-formed: exactly six comma-separated
/// fields, the timestamp and the four byte counters plain decimals in
/// range, and the CPU field a two-decimal-place number.
pub open spec fn row_wf(line: Seq<char>) -> bool {
    let fs = split_on(line, ',');
    &&& fs.len() == 6
    &&& dec_field_ok(fs[0])
    &&& two_dec_ok(fs[1])
    &&& dec_field_ok(fs[2])
    &&& dec_field_ok(fs[3])
    &&& dec_field_ok(fs[4])
    &&& dec_field_ok(fs[5])
}

/// Whether a whole text is a well-formed table: the header line, any
/// number of well-formed data lines, and a final newline.
pub open spec fn table_wf(text: Seq<char>) -> bool {
    let lines = split_on(text, '\n');
    &&& lines.len() >= 2
    &&& lines[0] == join_with(header_fields(), ',')
    &&& lines[lines.len() - 1].len() == 0
    &&& forall|j: int| 1 <= j < lines.len() - 1 ==> row_wf(#[trigger] lines[j])
}

/// How an imported snapshot relates to the data line it came from: the
/// numeric fields carry over exactly, the timestamp is the caller's
/// "now", and everything the format does not carry is empty.
pub open spec fn imported_matches(m: Metrics, line: Seq<char>, now: u64) -> bool {
    let fs = split_on(line, ',');
    &&& m.timestamp == now
    &&& m.cpu_total as nat == two_dec_val(fs[1])
    &&& m.mem_used as nat == dec_value(fs[2])
    &&& m.mem_total as nat == dec_value(fs[3])
    &&& m.net_rx as nat == dec_value(fs[4])
    &&& m.net_tx as nat == dec_value(fs[5])
    &&& m.cpu_usage@.len() == 0
    &&& m.disks@.len() == 0
    &&& m.selected_interface is None
    &&& m.interfaces@.len() == 0
    &&& m.net_per_interface@.len() == 0
}

fn parse_row(line: &Vec<char>, now: u64) -> (r: Option<Metrics>)
    ensures
        r is Some <==> row_wf(line@),
        r matches Some(m) ==> imported_matches(m, line@, now),
{
    let fs = split_chars(line, ',');
    if fs.len() != 6 {
        return None;
    }
    proof {
        assert(fs.deep_view()[0] == fs@[0]@ && fs.deep_view()[1] == fs@[1]@ && fs.deep_view()[2]
            == fs@[2]@ && fs.deep_view()[3] == fs@[3]@ && fs.deep_view()[4] == fs@[4]@
            && fs.deep_view()[5] == fs@[5]@);
    }
    if parse_u64(&fs[0]).is_none() {
        return None;
    }
    let ps = split_chars(&fs[1], '.');
    if ps.len() != 2 {
        return None;
    }
    proof {
        assert(ps.deep_view()[0] == ps@[0]@ && ps.deep_view()[1] == ps@[1]@);
    }
    if ps[1].len() != 2 {
        return None;
    }
    let whole = match parse_u64(&ps[0]) {
        Some(v) => v,
        None => {
            return None;
        },
    };
    let frac = match parse_u64(&ps[1]) {
        Some(v) => v,
        None => {
            return None;
        },
    };
    proof {
        assert(frac as nat == dec_value(ps@[1]@));
        lemma_two_digit_value(ps@[1]@);
    }
    if whole > (u32::MAX as u64) / 100 {
        proof {
            assert(two_dec_val(fs@[1]@) > u32::MAX);
        }
        return None;
    }
    let cpu = whole * 100 + frac;
    if cpu > u32::MAX as u64 {
        return None;
    }
    let mem_used = match parse_u64(&fs[2]) {
        Some(v) => v,
        None => {
            return None;
        },
    };
    let mem_total = match parse_u64(&fs[3]) {
        Some(v) => v,
        None => {
            return None;
        },
    };
    let net_rx = match parse_u64(&fs[4]) {
        Some(v) => v,
        None => {
            return None;
        },
    };
    let net_tx = match parse_u64(&fs[5]) {
        Some(v) => v,
        None => {
            return None;
        },
    };
    Some(
        Metrics {
            timestamp: now,
            cpu_usage: Vec::new(),
            cpu_total: cpu as u32,
            mem_total,
            mem_used,
            disks: Vec::new(),
            net_rx,
            net_tx,
            selected_interface: None,
            interfaces: Vec::new(),
            net_per_interface: Vec::new(),
        },
    )
}

proof fn lemma_two_digit_value(s: Seq<char>)
    requires
        s.len() == 2,
        all_digits(s),
    ensures
        dec_value(s) <= 99,
{
    assert(s.drop_last().drop_last() =~= Seq::<char>::empty());
    assert(dec_value(s.drop_last().drop_last()) == 0);
    assert(dec_value(s.drop_last()) == crate::text::digit_val(s.drop_last().last()));
    assert(s.drop_last().last() == s[0]);
    assert(crate::text::digit_val(s[0]) <= 9 && crate::text::digit_val(s[1]) <= 9);
}

/// Reads a tabular text back into snapshots: `None` exactly on a
/// malformed table, otherwise one snapshot per data line, in order,
/// with the numeric fields carried over exactly and every timestamp
/// set to `now`.
pub fn parse_metrics_table(text: &str, now: u64) -> (r: Option<Vec<Metrics>>)
    ensures
        r is Some <==> table_wf(text@),
        r matches Some(v) ==> {
            &&& v@.len() + 2 == split_on(text@, '\n').len()
            &&& forall|i: int|
                0 <= i < v@.len() ==> imported_matches(
                    #[trigger] v@[i],
                    split_on(text@, '\n')[i + 1],
                    now,
                )
        },
{
    let tchars = chars_of(text);
    let lines = split_chars(&tchars, '\n');
    proof {
        crate::text::lemma_split_on_nonempty(text@, '\n');
    }
    if lines.len() < 2 {
        return None;
    }
    let header: &str = "timestamp,cpu_total,mem_used,mem_total,net_rx,net_tx";
    let hchars = chars_of(header);
    proof {
        lemma_header_join();
        assert(lines.deep_view()[0] == lines@[0]@);
    }
    if !chars_equal(&lines[0], &hchars) {
        return None;
    }
    proof {
        assert(lines.deep_view()[lines@.len() - 1] == lines@[lines@.len() - 1]@);
    }
    if lines[lines.len() - 1].len() != 0 {
        return None;
    }
    let mut v: Vec<Metrics> = Vec::new();
    let mut j: usize = 1;
    let stop = lines.len() - 1;
    while j < stop
        invariant
            1 <= j <= stop,
            stop == lines@.len() - 1,
            lines.deep_view() == split_on(text@, '\n'),
            v@.len() == j - 1,
            forall|k: int| 1 <= k < j ==> row_wf(#[trigger] split_on(text@, '\n')[k]),
            forall|i: int|
                0 <= i < v@.len() ==> imported_matches(
                    #[trigger] v@[i],
                    split_on(text@, '\n')[i + 1],
                    now,
                ),
        decreases stop - j,
    {
        proof {
            assert(lines.deep_view()[j as int] == lines@[j as int]@);
        }
        match parse_row(&lines[j], now) {
            Some(m) => {
                v.push(m);
            },
            None => {
                return None;
            },
        }
        j = j + 1;
    }
    Some(v)
}

/// The header line as a single literal: what `join_with` makes of the
/// header fields.
proof fn lemma_header_join()
    ensures
        join_with(header_fields(), ',')
            == "timestamp,cpu_total,mem_used,mem_total,net_rx,net_tx"@,
{
    reveal_strlit("timestamp");
    reveal_strlit("cpu_total");
    reveal_strlit("mem_used");
    reveal_strlit("mem_total");
    reveal_strlit("net_rx");
    reveal_strlit("net_tx");
    reveal_strlit("timestamp,cpu_total,mem_used,mem_total,net_rx,net_tx");
    let hf = header_fields();
    let t1 = hf.drop_first();
    let t2 = t1.drop_first();
    let t3 = t2.drop_first();
    let t4 = t3.drop_first();
    let t5 = t4.drop_first();
    assert(t5 =~= seq!["net_tx"@]);
    assert(join_with(t5, ',') == "net_tx"@);
    assert(t4 =~= seq!["net_rx"@, "net_tx"@]);
    assert(join_with(t4, ',') == "net_rx"@ + seq![','] + join_with(t5, ','));
    assert(t3 =~= seq!["mem_total"@, "net_rx"@, "net_tx"@]);
    assert(join_with(t3, ',') == "mem_total"@ + seq![','] + join_with(t4, ','));
    assert(t2 =~= seq!["mem_used"@, "mem_total"@, "net_rx"@, "net_tx"@]);
    assert(join_with(t2, ',') == "mem_used"@ + seq![','] + join_with(t3, ','));
    assert(t1 =~= seq!["cpu_total"@, "mem_used"@, "mem_total"@, "net_rx"@, "net_tx"@]);
    assert(join_with(t1, ',') == "cpu_total"@ + seq![','] + join_with(t2, ','));
    assert(join_with(hf, ',') == "timestamp"@ + seq![','] + join_with(t1, ','));
    assert(join_with(hf, ',')
        =~= "timestamp,cpu_total,mem_used,mem_total,net_rx,net_tx"@);
}


proof fn lemma_csv_safe_free(f: Seq<char>)
    requires
        csv_safe_field(f),
    ensures
        !f.contains(','),
        !f.contains('\n'),
{
    if f.contains(',') {
        let i = choose|i: int| 0 <= i < f.len() && f[i] == ',';
    }
    if f.contains('\n') {
        let i = choose|i: int| 0 <= i < f.len() && f[i] == '\n';
    }
}

proof fn lemma_digits_no_dot_contains(n: nat)
    ensures
        !dec_digits(n).contains('.'),
        !dec_digits(n).contains(','),
        !dec_digits(n).contains('\n'),
{
    lemma_digits_csv_safe(n);
    lemma_csv_safe_free(dec_digits(n));
}

/// What one data line splits back into, and the values its fields
/// carry: rendering is the exact inverse of field splitting and
/// decimal parsing.
proof fn lemma_row_splits(m: Metrics)
    ensures
        split_on(join_with(row_fields(m), ','), ',') == row_fields(m),
        !join_with(row_fields(m), ',').contains('\n'),
        row_wf(join_with(row_fields(m), ',')),
        two_dec_val(row_fields(m)[1]) == m.cpu_total,
        dec_value(row_fields(m)[2]) == m.mem_used,
        dec_value(row_fields(m)[3]) == m.mem_total,
        dec_value(row_fields(m)[4]) == m.net_rx,
        dec_value(row_fields(m)[5]) == m.net_tx,
{
    let rf = row_fields(m);
    lemma_digits_csv_safe(m.timestamp as nat);
    lemma_two_dec_csv_safe(m.cpu_total as nat);
    lemma_digits_csv_safe(m.mem_used as nat);
    lemma_digits_csv_safe(m.mem_total as nat);
    lemma_digits_csv_safe(m.net_rx as nat);
    lemma_digits_csv_safe(m.net_tx as nat);
    assert forall|i: int| 0 <= i < rf.len() implies !(#[trigger] rf[i]).contains(',') by {
        lemma_csv_safe_free(rf[i]);
    }
    lemma_split_join(rf, ',');
    assert forall|i: int| 0 <= i < rf.len() implies !(#[trigger] rf[i]).contains('\n') by {
        lemma_csv_safe_free(rf[i]);
    }
    lemma_join_free_of(rf, ',', '\n');
    // The timestamp and byte-counter fields read back as themselves.
    lemma_dec_round_trip(m.timestamp as nat);
    lemma_dec_round_trip(m.mem_used as nat);
    lemma_dec_round_trip(m.mem_total as nat);
    lemma_dec_round_trip(m.net_rx as nat);
    lemma_dec_round_trip(m.net_tx as nat);
    // The CPU field splits at the decimal point into its whole and
    // fractional digits.
    let c = m.cpu_total as nat;
    let frac = seq![digit_char((c % 100) / 10), digit_char(c % 10)];
    let parts = seq![dec_digits(c / 100), frac];
    assert(join_with(parts, ',') == parts[0] + seq![','] + join_with(parts.drop_first(), ','))
        by {
        assert(parts.len() == 2);
    }
    assert(parts.drop_first() =~= seq![frac]);
    assert(join_with(seq![frac], '.') == frac);
    assert(join_with(parts, '.') == parts[0] + seq!['.'] + frac);
    assert(join_with(parts, '.') =~= two_dec(c));
    lemma_digits_no_dot_contains(c / 100);
    assert(is_digit(frac[0]) && is_digit(frac[1]));
    assert(!frac.contains('.')) by {
        if frac.contains('.') {
            let i = choose|i: int| 0 <= i < frac.len() && frac[i] == '.';
        }
    }
    assert forall|i: int| 0 <= i < parts.len() implies !(#[trigger] parts[i]).contains('.') by {
        if i == 0 {
            assert(parts[i] == dec_digits(c / 100));
        } else {
            assert(parts[i] == frac);
        }
    }
    lemma_split_join(parts, '.');
    assert(split_on(two_dec(c), '.') == parts);
    lemma_dec_round_trip(c / 100);
    assert(all_digits(frac));
    assert(frac.drop_last() =~= seq![frac[0]]);
    assert(frac.drop_last().drop_last() =~= Seq::<char>::empty());
    assert(dec_value(Seq::<char>::empty()) == 0);
    assert(dec_value(frac.drop_last()) == digit_val(frac[0]));
    assert(dec_value(frac) == digit_val(frac[0]) * 10 + digit_val(frac[1]));
    assert(digit_val(frac[0]) == (c % 100) / 10 && digit_val(frac[1]) == c % 10);
    assert((c % 100) % 10 == c % 10 && ((c % 100) / 10) * 10 + (c % 100) % 10 == c % 100)
        by (nonlinear_arith);
    assert(dec_value(frac) == c % 100);
    assert(two_dec_val(two_dec(c)) == (c / 100) * 100 + c % 100);
    assert((c / 100) * 100 + c % 100 == c) by (nonlinear_arith);
}

/// The lines of the table: the header, then one line per snapshot.
pub open spec fn table_lines(h: Seq<Metrics>) -> Seq<Seq<char>> {
    seq![join_with(header_fields(), ',')] + h.map_values(
        |m: Metrics| join_with(row_fields(m), ','),
    )
}

proof fn lemma_table_as_join(h: Seq<Metrics>)
    ensures
        table_spec(h) == join_with(table_lines(h).push(Seq::<char>::empty()), '\n'),
    decreases h.len(),
{
    let tl = table_lines(h);
    if h.len() == 0 {
        assert(tl =~= seq![join_with(header_fields(), ',')]);
        lemma_join_push(tl, Seq::<char>::empty(), '\n');
        assert(table_spec(h) =~= join_with(tl.push(Seq::<char>::empty()), '\n'));
    } else {
        let prev = table_lines(h.drop_last());
        lemma_table_as_join(h.drop_last());
        let rj = join_with(row_fields(h.last()), ',');
        assert(tl =~= prev.push(rj));
        lemma_join_push(prev, Seq::<char>::empty(), '\n');
        lemma_join_push(prev, rj, '\n');
        lemma_join_push(prev.push(rj), Seq::<char>::empty(), '\n');
        assert(table_spec(h) =~= join_with(tl.push(Seq::<char>::empty()), '\n'));
    }
}

/// Exporting a history to the tabular text and reading it back is
/// lossless for the numeric fields: the text is well-formed, it has
/// one data line per snapshot, and each line carries the snapshot's
/// aggregate CPU, memory used and total, and network deltas exactly.
/// Timestamps are exempt: the format does not carry portable instants.
pub proof fn lemma_table_round_trip(h: Seq<Metrics>)
    ensures
        table_wf(table_spec(h)),
        split_on(table_spec(h), '\n').len() == h.len() + 2,
        forall|i: int|
            0 <= i < h.len() ==> {
                let fs = split_on(#[trigger] split_on(table_spec(h), '\n')[i + 1], ',');
                &&& two_dec_val(fs[1]) == h[i].cpu_total
                &&& dec_value(fs[2]) == h[i].mem_used
                &&& dec_value(fs[3]) == h[i].mem_total
                &&& dec_value(fs[4]) == h[i].net_rx
                &&& dec_value(fs[5]) == h[i].net_tx
            },
{
    lemma_table_as_join(h);
    let tl = table_lines(h);
    let all = tl.push(Seq::<char>::empty());
    assert forall|i: int| 0 <= i < all.len() implies !(#[trigger] all[i]).contains('\n') by {
        if i == 0 {
            lemma_header_fields_safe();
            assert forall|k: int|
                0 <= k < header_fields().len() implies !(#[trigger] header_fields()[k]).contains(
                '\n',
            ) by {
                lemma_csv_safe_free(header_fields()[k]);
            }
            lemma_join_free_of(header_fields(), ',', '\n');
            assert(all[0] == join_with(header_fields(), ','));
        } else if i < all.len() - 1 {
            lemma_row_splits(h[i - 1]);
            assert(all[i] == join_with(row_fields(h[i - 1]), ','));
        } else {
            assert(all[i] =~= Seq::<char>::empty());
            if all[i].contains('\n') {
                let k = choose|k: int| 0 <= k < all[i].len() && all[i][k] == '\n';
            }
        }
    }
    lemma_split_join(all, '\n');
    let lines = split_on(table_spec(h), '\n');
    assert(lines == all);
    assert(lines.len() == h.len() + 2);
    assert(lines[0] == join_with(header_fields(), ','));
    assert(lines[lines.len() - 1].len() == 0);
    assert forall|j: int| 1 <= j < lines.len() - 1 implies row_wf(#[trigger] lines[j]) by {
        lemma_row_splits(h[j - 1]);
        assert(lines[j] == join_with(row_fields(h[j - 1]), ','));
    }
    assert forall|i: int|
        0 <= i < h.len() implies {
            let fs = split_on(#[trigger] split_on(table_spec(h), '\n')[i + 1], ',');
            &&& two_dec_val(fs[1]) == h[i].cpu_total
            &&& dec_value(fs[2]) == h[i].mem_used
            &&& dec_value(fs[3]) == h[i].mem_total
            &&& dec_value(fs[4]) == h[i].net_rx
            &&& dec_value(fs[5]) == h[i].net_tx
        } by {
        lemma_row_splits(h[i]);
        assert(lines[i + 1] == join_with(row_fields(h[i]), ','));
    }
}

} // verus!
