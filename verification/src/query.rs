//! Read-only queries over the packet ring: the capped display/export
//! query (newest first, up to a fixed number of matches) and the
//! aggregate tables (packet counts by country, top destination ports)
//! that the read-only scripting interface serves. Queries never mutate
//! the ring.

use vstd::prelude::*;
use crate::capture::RawPacketInfo;
use crate::filter::packet_matches_spec;
use crate::filter::packet_matches_filter;
use crate::ring::BoundedRing;

verus! {

/// How many packets a query returns at most; display and export share
/// this cap.
pub const QUERY_RESULT_CAP: usize = 100;

/// Inserting one packet into a newest-first sequence, behind every
/// entry at least as new: the insertion step of a stable sort.
pub open spec fn insert_desc(s: Seq<RawPacketInfo>, p: RawPacketInfo) -> Seq<RawPacketInfo>
    decreases s.len(),
{
    if s.len() == 0 {
        seq![p]
    } else if s[0].timestamp >= p.timestamp {
        seq![s[0]] + insert_desc(s.drop_first(), p)
    } else {
        seq![p] + s
    }
}

/// The stable sort of a packet sequence by timestamp, newest first:
/// entries with equal timestamps keep their relative order.
pub open spec fn sort_desc(s: Seq<RawPacketInfo>) -> Seq<RawPacketInfo>
    decreases s.len(),
{
    if s.len() == 0 {
        Seq::<RawPacketInfo>::empty()
    } else {
        insert_desc(sort_desc(s.drop_last()), s.last())
    }
}

proof fn lemma_insert_desc_elems_sorted(t: Seq<RawPacketInfo>, p: RawPacketInfo)
    requires
        forall|i: int, j: int| 0 <= i < j < t.len() ==> t[i].timestamp >= t[j].timestamp,
    ensures
        insert_desc(t, p).len() == t.len() + 1,
        forall|m: int|
            0 <= m < insert_desc(t, p).len() ==> insert_desc(t, p)[m] == p || t.contains(
                #[trigger] insert_desc(t, p)[m],
            ),
        forall|i: int, j: int|
            0 <= i < j < insert_desc(t, p).len() ==> insert_desc(t, p)[i].timestamp
                >= insert_desc(t, p)[j].timestamp,
    decreases t.len(),
{
    let r = insert_desc(t, p);
    if t.len() == 0 {
    } else if t[0].timestamp >= p.timestamp {
        let t2 = t.drop_first();
        assert(forall|i: int, j: int|
            0 <= i < j < t2.len() ==> t2[i].timestamp >= t2[j].timestamp) by {
            assert(forall|i: int| 0 <= i < t2.len() ==> t2[i] == #[trigger] t[i + 1]);
        }
        lemma_insert_desc_elems_sorted(t2, p);
        let r2 = insert_desc(t2, p);
        assert(r == seq![t[0]] + r2);
        assert forall|m: int| 0 <= m < r.len() implies r[m] == p || t.contains(
            #[trigger] r[m],
        ) by {
            if m == 0 {
                assert(r[0] == t[0]);
            } else {
                assert(r[m] == r2[m - 1]);
                if r2[m - 1] != p {
                    let i2 = choose|i2: int| 0 <= i2 < t2.len() && t2[i2] == r2[m - 1];
                    assert(t[i2 + 1] == r[m]);
                }
            }
        }
        assert forall|i: int, j: int| 0 <= i < j < r.len() implies r[i].timestamp
            >= r[j].timestamp by {
            if i == 0 {
                assert(r[j] == r2[j - 1]);
                if r2[j - 1] != p {
                    let i2 = choose|i2: int| 0 <= i2 < t2.len() && t2[i2] == r2[j - 1];
                    assert(t[0].timestamp >= t[i2 + 1].timestamp);
                }
            } else {
                assert(r[i] == r2[i - 1] && r[j] == r2[j - 1]);
            }
        }
    } else {
        assert(r == seq![p] + t);
        assert forall|i: int, j: int| 0 <= i < j < r.len() implies r[i].timestamp
            >= r[j].timestamp by {
            if i == 0 {
                assert(r[j] == t[j - 1]);
                if j > 1 {
                    assert(t[0].timestamp >= t[j - 1].timestamp);
                }
            } else {
                assert(r[i] == t[i - 1] && r[j] == t[j - 1]);
            }
        }
    }
}

/// The sort the query uses really orders: its result has the input's
/// length, is ordered newest first, and consists of the input's own
/// entries.
pub proof fn lemma_sort_desc_sorted(s: Seq<RawPacketInfo>)
    ensures
        sort_desc(s).len() == s.len(),
        forall|i: int, j: int|
            0 <= i < j < sort_desc(s).len() ==> sort_desc(s)[i].timestamp
                >= sort_desc(s)[j].timestamp,
        forall|m: int| 0 <= m < sort_desc(s).len() ==> s.contains(#[trigger] sort_desc(s)[m]),
    decreases s.len(),
{
    if s.len() > 0 {
        let s2 = s.drop_last();
        lemma_sort_desc_sorted(s2);
        let prev = sort_desc(s2);
        lemma_insert_desc_elems_sorted(prev, s.last());
        let r = sort_desc(s);
        assert(r == insert_desc(prev, s.last()));
        assert forall|m: int| 0 <= m < r.len() implies s.contains(#[trigger] r[m]) by {
            if r[m] == s.last() {
                assert(s[s.len() - 1] == s.last());
            } else {
                assert(prev.contains(r[m]));
                let k = choose|k: int| 0 <= k < prev.len() && prev[k] == r[m];
                assert(s2.contains(r[m]));
                let k2 = choose|k2: int| 0 <= k2 < s2.len() && s2[k2] == r[m];
                assert(s[k2] == r[m]);
            }
        }
    }
}

/// The first `n` entries, or all of them if there are fewer.
pub open spec fn take_up_to<T>(s: Seq<T>, n: nat) -> Seq<T> {
    if s.len() <= n {
        s
    } else {
        s.subrange(0, n as int)
    }
}

/// What a query returns, at the level of sequences: the ring's
/// contents sorted newest first, filtered, and capped.
pub open spec fn query_spec(
    packets: Seq<RawPacketInfo>,
    filter: Seq<char>,
    search: Seq<char>,
) -> Seq<RawPacketInfo> {
    take_up_to(
        sort_desc(packets).filter(|p: RawPacketInfo| packet_matches_spec(p, filter, search)),
        QUERY_RESULT_CAP as nat,
    )
}

/// The packet values a vector of packet references points at.
pub open spec fn deref_all(s: Seq<&RawPacketInfo>) -> Seq<RawPacketInfo> {
    s.map_values(|r: &RawPacketInfo| *r)
}

proof fn lemma_insert_desc_at(s: Seq<RawPacketInfo>, p: RawPacketInfo, k: int)
    requires
        0 <= k <= s.len(),
        forall|j: int| 0 <= j < k ==> s[j].timestamp >= p.timestamp,
        k < s.len() ==> s[k].timestamp < p.timestamp,
    ensures
        insert_desc(s, p) == s.subrange(0, k) + seq![p] + s.subrange(k, s.len() as int),
    decreases s.len(),
{
    if s.len() == 0 {
        assert(insert_desc(s, p) =~= s.subrange(0, k) + seq![p] + s.subrange(k, s.len() as int));
    } else if k == 0 {
        assert(insert_desc(s, p) =~= s.subrange(0, 0) + seq![p] + s.subrange(0, s.len() as int));
    } else {
        let t = s.drop_first();
        assert(forall|j: int| 0 <= j < k - 1 ==> t[j].timestamp >= p.timestamp) by {
            assert(forall|j: int| 0 <= j < k - 1 ==> t[j] == s[j + 1]);
        }
        lemma_insert_desc_at(t, p, k - 1);
        assert(seq![s[0]] + (t.subrange(0, k - 1) + seq![p] + t.subrange(k - 1, t.len() as int))
            =~= s.subrange(0, k) + seq![p] + s.subrange(k, s.len() as int));
    }
}

/// Collects references to every packet in the ring, oldest first.
fn snapshot_refs(ring: &BoundedRing<RawPacketInfo>) -> (r: Vec<&RawPacketInfo>)
    ensures
        deref_all(r@) == ring@,
{
    let mut r: Vec<&RawPacketInfo> = Vec::new();
    let n = ring.len();
    let mut i: usize = 0;
    while i < n
        invariant
            i <= n,
            n == ring@.len(),
            r@.len() == i,
            forall|j: int| 0 <= j < i ==> *(#[trigger] r@[j]) == ring@[j],
        decreases n - i,
    {
        r.push(ring.get(i));
        i = i + 1;
    }
    proof {
        assert(deref_all(r@) =~= ring@);
    }
    r
}

/// Sorts packet references by timestamp, newest first and stable.
fn sort_refs_desc<'a>(packets: Vec<&'a RawPacketInfo>) -> (r: Vec<&'a RawPacketInfo>)
    ensures
        deref_all(r@) == sort_desc(deref_all(packets@)),
{
    let mut out: Vec<&'a RawPacketInfo> = Vec::new();
    let mut i: usize = 0;
    proof {
        assert(deref_all(packets@.subrange(0, 0)) =~= Seq::<RawPacketInfo>::empty());
        assert(sort_desc(deref_all(packets@.subrange(0, 0))) =~= Seq::<RawPacketInfo>::empty());
        assert(deref_all(out@) =~= Seq::<RawPacketInfo>::empty());
    }
    while i < packets.len()
        invariant
            i <= packets.len(),
            deref_all(out@) == sort_desc(deref_all(packets@.subrange(0, i as int))),
        decreases packets.len() - i,
    {
        let p = packets[i];
        let mut k: usize = 0;
        while k < out.len() && out[k].timestamp >= p.timestamp
            invariant
                k <= out.len(),
                forall|j: int| 0 <= j < k ==> deref_all(out@)[j].timestamp >= p.timestamp,
            decreases out.len() - k,
        {
            k = k + 1;
        }
        proof {
            lemma_insert_desc_at(deref_all(out@), *p, k as int);
        }
        let ghost pre_out = deref_all(out@);
        out.insert(k, p);
        i = i + 1;
        proof {
            let prefix = deref_all(packets@.subrange(0, i as int));
            assert(prefix.drop_last() =~= deref_all(packets@.subrange(0, i as int - 1)));
            assert(prefix.last() == *p);
            assert(deref_all(out@) =~= pre_out.subrange(0, k as int) + seq![*p]
                + pre_out.subrange(k as int, pre_out.len() as int));
            assert(deref_all(out@) =~= sort_desc(prefix));
        }
    }
    proof {
        assert(packets@.subrange(0, packets@.len() as int) =~= packets@);
    }
    out
}

/// The capped query the display and the export path share: the ring's
/// packets sorted newest first, those matching the filter and search
/// kept, and at most the first hundred matches returned. The ring is
/// only read.
pub fn query_packets<'a>(
    ring: &'a BoundedRing<RawPacketInfo>,
    filter: &str,
    search: &str,
) -> (r: Vec<&'a RawPacketInfo>)
    ensures
        deref_all(r@) == query_spec(ring@, filter@, search@),
{
    let refs = snapshot_refs(ring);
    let sorted = sort_refs_desc(refs);
    let ghost sorted_vals = deref_all(sorted@);
    let ghost pred = |p: RawPacketInfo| packet_matches_spec(p, filter@, search@);
    let mut out: Vec<&'a RawPacketInfo> = Vec::new();
    let mut i: usize = 0;
    proof {
        reveal(Seq::filter);
        assert(sorted_vals.subrange(0, 0).filter(pred) =~= Seq::<RawPacketInfo>::empty());
        assert(deref_all(out@) =~= Seq::<RawPacketInfo>::empty());
    }
    while i < sorted.len()
        invariant
            i <= sorted.len(),
            sorted_vals == deref_all(sorted@),
            pred == (|p: RawPacketInfo| packet_matches_spec(p, filter@, search@)),
            out@.len() <= QUERY_RESULT_CAP,
            deref_all(out@) == take_up_to(
                sorted_vals.subrange(0, i as int).filter(pred),
                QUERY_RESULT_CAP as nat,
            ),
        decreases sorted.len() - i,
    {
        let p = sorted[i];
        let ghost prefix = sorted_vals.subrange(0, i as int);
        let ghost prefix1 = sorted_vals.subrange(0, i as int + 1);
        proof {
            reveal(Seq::filter);
            assert(prefix1.drop_last() =~= prefix);
            assert(prefix1.last() == *p);
        }
        let matched = packet_matches_filter(p, filter, search);
        if matched && out.len() < QUERY_RESULT_CAP {
            let ghost pre_out = deref_all(out@);
            out.push(p);
            proof {
                assert(deref_all(out@) =~= pre_out.push(*p));
            }
        }
        i = i + 1;
        proof {
            reveal(Seq::filter);
            assert(prefix1.filter(pred) == if pred(*p) {
                prefix.filter(pred).push(*p)
            } else {
                prefix.filter(pred)
            });
        }
    }
    proof {
        assert(sorted_vals.subrange(0, sorted_vals.len() as int) =~= sorted_vals);
    }
    out
}


/// Whether a packet is annotated with exactly this country code.
pub open spec fn has_country(p: RawPacketInfo, c: Seq<char>) -> bool {
    match p.country {
        Some(x) => x@ == c,
        None => false,
    }
}

/// How many packets in the sequence carry this country code.
pub open spec fn country_count(s: Seq<RawPacketInfo>, c: Seq<char>) -> nat
    decreases s.len(),
{
    if s.len() == 0 {
        0
    } else {
        country_count(s.drop_last(), c) + if has_country(s.last(), c) {
            1nat
        } else {
            0nat
        }
    }
}

/// How many packets in the sequence have this destination port.
pub open spec fn port_count(s: Seq<RawPacketInfo>, port: u16) -> nat
    decreases s.len(),
{
    if s.len() == 0 {
        0
    } else {
        port_count(s.drop_last(), port) + if s.last().dst_port == Some(port) {
            1nat
        } else {
            0nat
        }
    }
}

fn count_country(ring: &BoundedRing<RawPacketInfo>, c: &String) -> (r: u64)
    ensures
        r as nat == country_count(ring@, c@),
{
    let mut cnt: u64 = 0;
    let n = ring.len();
    let mut i: usize = 0;
    while i < n
        invariant
            i <= n,
            n == ring@.len(),
            cnt as nat == country_count(ring@.subrange(0, i as int), c@),
            cnt as nat <= i as nat,
        decreases n - i,
    {
        proof {
            let pre = ring@.subrange(0, i as int + 1);
            assert(pre.drop_last() =~= ring@.subrange(0, i as int));
            assert(pre.last() == ring@[i as int]);
        }
        let p = ring.get(i);
        if let Some(x) = &p.country {
            if *x == *c {
                cnt = cnt + 1;
            }
        }
        i = i + 1;
    }
    proof {
        assert(ring@.subrange(0, n as int) =~= ring@);
    }
    cnt
}

fn count_port(ring: &BoundedRing<RawPacketInfo>, port: u16) -> (r: u64)
    ensures
        r as nat == port_count(ring@, port),
{
    let mut cnt: u64 = 0;
    let n = ring.len();
    let mut i: usize = 0;
    while i < n
        invariant
            i <= n,
            n == ring@.len(),
            cnt as nat == port_count(ring@.subrange(0, i as int), port),
            cnt as nat <= i as nat,
        decreases n - i,
    {
        proof {
            let pre = ring@.subrange(0, i as int + 1);
            assert(pre.drop_last() =~= ring@.subrange(0, i as int));
            assert(pre.last() == ring@[i as int]);
        }
        let p = ring.get(i);
        let hit = match p.dst_port {
            Some(x) => x == port,
            None => false,
        };
        if hit {
            cnt = cnt + 1;
        }
        i = i + 1;
    }
    proof {
        assert(ring@.subrange(0, n as int) =~= ring@);
    }
    cnt
}

fn contains_name(names: &Vec<String>, c: &String) -> (r: bool)
    ensures
        r == exists|k: int| 0 <= k < names@.len() && (#[trigger] names@[k])@ == c@,
{
    let mut i: usize = 0;
    while i < names.len()
        invariant
            i <= names.len(),
            forall|k: int| 0 <= k < i ==> (#[trigger] names@[k])@ != c@,
        decreases names.len() - i,
    {
        if names[i] == *c {
            return true;
        }
        i = i + 1;
    }
    false
}

fn contains_port(ports: &Vec<u16>, p: u16) -> (r: bool)
    ensures
        r == ports@.contains(p),
{
    let mut i: usize = 0;
    while i < ports.len()
        invariant
            i <= ports.len(),
            forall|k: int| 0 <= k < i ==> ports@[k] != p,
        decreases ports.len() - i,
    {
        if ports[i] == p {
            return true;
        }
        i = i + 1;
    }
    proof {
        assert(!ports@.contains(p));
    }
    false
}

/// The packet count for every country seen in the ring: each annotated
/// country appears exactly once, with the exact number of packets that
/// carry it. The table the read-only scripting interface serves.
pub fn packet_count_by_country(ring: &BoundedRing<RawPacketInfo>) -> (r: Vec<(String, u64)>)
    ensures
        forall|k: int|
            0 <= k < r@.len() ==> (#[trigger] r@[k]).1 as nat == country_count(ring@, r@[k].0@),
        forall|k: int, l: int| 0 <= k < l < r@.len() ==> r@[k].0@ != r@[l].0@,
        forall|i: int|
            0 <= i < ring@.len() ==> match (#[trigger] ring@[i]).country {
                Some(c) => exists|k: int| 0 <= k < r@.len() && (#[trigger] r@[k]).0@ == c@,
                None => true,
            },
{
    let mut names: Vec<String> = Vec::new();
    let n = ring.len();
    let mut i: usize = 0;
    while i < n
        invariant
            i <= n,
            n == ring@.len(),
            forall|k: int, l: int| 0 <= k < l < names@.len() ==> names@[k]@ != names@[l]@,
            forall|j: int|
                0 <= j < i ==> match (#[trigger] ring@[j]).country {
                    Some(c) => exists|k: int|
                        0 <= k < names@.len() && (#[trigger] names@[k])@ == c@,
                    None => true,
                },
        decreases n - i,
    {
        let p = ring.get(i);
        let ghost old_names = names@;
        if let Some(c) = &p.country {
            if !contains_name(&names, c) {
                names.push(c.clone());
            }
        }
        i = i + 1;
        proof {
            assert forall|j: int|
                0 <= j < i implies match (#[trigger] ring@[j]).country {
                    Some(cc) => exists|k: int|
                        0 <= k < names@.len() && (#[trigger] names@[k])@ == cc@,
                    None => true,
                } by {
                if ring@[j].country is Some {
                    let cc = ring@[j].country.unwrap();
                    if j < i - 1 {
                        let k0 = choose|k0: int|
                            0 <= k0 < old_names.len() && (#[trigger] old_names[k0])@ == cc@;
                        assert(names@[k0]@ == cc@);
                    } else {
                        if names@.len() > old_names.len() {
                            assert(names@[names@.len() - 1]@ == cc@);
                        } else {
                            let k0 = choose|k0: int|
                                0 <= k0 < names@.len() && (#[trigger] names@[k0])@ == cc@;
                        }
                    }
                }
            }
        }
    }
    let mut r: Vec<(String, u64)> = Vec::new();
    let mut k: usize = 0;
    while k < names.len()
        invariant
            k <= names.len(),
            r@.len() == k,
            forall|j: int| 0 <= j < k ==> (#[trigger] r@[j]).0@ == names@[j]@,
            forall|j: int| 0 <= j < k ==> (#[trigger] r@[j]).1 as nat == country_count(
                ring@,
                names@[j]@,
            ),
        decreases names.len() - k,
    {
        let name = names[k].clone();
        let cnt = count_country(ring, &name);
        r.push((name, cnt));
        k = k + 1;
    }
    proof {
        assert forall|i: int|
            0 <= i < ring@.len() implies match (#[trigger] ring@[i]).country {
                Some(c) => exists|k2: int| 0 <= k2 < r@.len() && (#[trigger] r@[k2]).0@ == c@,
                None => true,
            } by {
            if ring@[i].country is Some {
                let c = ring@[i].country.unwrap();
                let k0 = choose|k0: int|
                    0 <= k0 < names@.len() && (#[trigger] names@[k0])@ == c@;
                assert(r@[k0].0@ == c@);
            }
        }
    }
    r
}

/// Whether some packet in the sequence has this destination port.
pub open spec fn port_in_ring(s: Seq<RawPacketInfo>, p: u16) -> bool {
    exists|i: int| 0 <= i < s.len() && (#[trigger] s[i]).dst_port == Some(p)
}

/// A count table ordered by count, largest first.
pub open spec fn counts_sorted_desc(s: Seq<(u16, u64)>) -> bool {
    forall|i: int, j: int| 0 <= i < j < s.len() ==> s[i].1 >= s[j].1
}

/// The destination ports with the most traffic: at most `n` entries,
/// each a port seen in the ring with its exact packet count, no port
/// twice, ordered by count with the largest first; and any port left
/// out has a count no larger than the smallest one kept.
#[verifier::rlimit(60)]
pub fn top_ports(ring: &BoundedRing<RawPacketInfo>, n: usize) -> (r: Vec<(u16, u64)>)
    ensures
        r@.len() <= n,
        counts_sorted_desc(r@),
        forall|k: int|
            0 <= k < r@.len() ==> (#[trigger] r@[k]).1 as nat == port_count(ring@, r@[k].0),
        forall|k: int, l: int| 0 <= k < l < r@.len() ==> r@[k].0 != r@[l].0,
        forall|k: int| 0 <= k < r@.len() ==> port_in_ring(ring@, (#[trigger] r@[k]).0),
        forall|i: int|
            0 <= i < ring@.len() ==> match (#[trigger] ring@[i]).dst_port {
                Some(p) => (exists|k: int| 0 <= k < r@.len() && (#[trigger] r@[k]).0 == p) || (
                r@.len() == n && (n == 0 || port_count(ring@, p) <= r@[n - 1].1)),
                None => true,
            },
{
    let mut ports: Vec<u16> = Vec::new();
    let rn = ring.len();
    let mut i: usize = 0;
    while i < rn
        invariant
            i <= rn,
            rn == ring@.len(),
            forall|k: int, l: int| 0 <= k < l < ports@.len() ==> ports@[k] != ports@[l],
            forall|k: int| 0 <= k < ports@.len() ==> port_in_ring(ring@, #[trigger] ports@[k]),
            forall|j: int|
                0 <= j < i ==> match (#[trigger] ring@[j]).dst_port {
                    Some(p) => ports@.contains(p),
                    None => true,
                },
        decreases rn - i,
    {
        let p = ring.get(i);
        let ghost old_ports = ports@;
        if let Some(port) = p.dst_port {
            if !contains_port(&ports, port) {
                ports.push(port);
                proof {
                    assert(ring@[i as int].dst_port == Some(port));
                    assert(port_in_ring(ring@, port));
                }
            }
        }
        i = i + 1;
        proof {
            assert forall|j: int|
                0 <= j < i implies match (#[trigger] ring@[j]).dst_port {
                    Some(q) => ports@.contains(q),
                    None => true,
                } by {
                if ring@[j].dst_port is Some {
                    let q = ring@[j].dst_port.unwrap();
                    if j < i - 1 {
                        let k0 = choose|k0: int|
                            0 <= k0 < old_ports.len() && old_ports[k0] == q;
                        assert(ports@[k0] == q);
                    } else {
                        if ports@.len() > old_ports.len() {
                            assert(ports@[ports@.len() - 1] == q);
                        } else {
                            let k0 = choose|k0: int|
                                0 <= k0 < old_ports.len() && old_ports[k0] == q;
                            assert(ports@[k0] == q);
                        }
                    }
                }
            }
        }
    }
    let mut full: Vec<(u16, u64)> = Vec::new();
    let mut k: usize = 0;
    while k < ports.len()
        invariant
            k <= ports.len(),
            full@.len() == k,
            forall|j: int| 0 <= j < k ==> (#[trigger] full@[j]).0 == ports@[j],
            forall|j: int| 0 <= j < k ==> (#[trigger] full@[j]).1 as nat == port_count(
                ring@,
                ports@[j],
            ),
        decreases ports.len() - k,
    {
        let port = ports[k];
        let cnt = count_port(ring, port);
        full.push((port, cnt));
        k = k + 1;
    }
    let sorted = sort_counts_desc(full);
    // Keep the first n entries.
    let mut r: Vec<(u16, u64)> = Vec::new();
    let mut t: usize = 0;
    let keep = if sorted.len() < n {
        sorted.len()
    } else {
        n
    };
    while t < keep
        invariant
            t <= keep,
            keep <= sorted@.len(),
            keep <= n,
            r@ == sorted@.subrange(0, t as int),
        decreases keep - t,
    {
        r.push(sorted[t]);
        t = t + 1;
        proof {
            assert(r@ =~= sorted@.subrange(0, t as int));
        }
    }
    proof {
        assert(r@ =~= sorted@.subrange(0, keep as int));
        assert forall|k: int|
            0 <= k < r@.len() implies (#[trigger] r@[k]).1 as nat == port_count(ring@, r@[k].0)
            && port_in_ring(ring@, r@[k].0) by {
            assert(r@[k] == sorted@[k]);
            assert(among_first(sorted@[k], full@, full@.len() as int));
            let j = choose|j: int| #![trigger full@[j]] 0 <= j < full@.len() && sorted@[k]
                == full@[j];
            assert(full@[j].0 == ports@[j]);
            assert(port_in_ring(ring@, ports@[j]));
        }
        assert forall|i: int|
            0 <= i < ring@.len() implies match (#[trigger] ring@[i]).dst_port {
                Some(p) => (exists|k: int| 0 <= k < r@.len() && (#[trigger] r@[k]).0 == p) || (
                r@.len() == n && (n == 0 || port_count(ring@, p) <= r@[n - 1].1)),
                None => true,
            } by {
            if ring@[i].dst_port is Some {
                let p = ring@[i].dst_port.unwrap();
                assert(ports@.contains(p));
                let idx = choose|idx: int| 0 <= idx < ports@.len() && ports@[idx] == p;
                assert(full@[idx].0 == p);
                assert(among_first(full@[idx], sorted@, sorted@.len() as int));
                let k = choose|k: int|
                    #![trigger sorted@[k]]
                    0 <= k < sorted@.len() && full@[idx] == sorted@[k];
                if k < keep {
                    assert(r@[k].0 == p);
                } else {
                    assert(sorted@.len() > keep);
                    assert(keep == n);
                    if n > 0 {
                        assert(sorted@[n - 1].1 >= sorted@[k].1);
                        assert(r@[n - 1] == sorted@[n - 1]);
                        assert(sorted@[k].1 as nat == port_count(ring@, p));
                    }
                }
            }
        }
    }
    r
}


/// Whether `x` is one of the first `n` entries of `s`.
pub open spec fn among_first(x: (u16, u64), s: Seq<(u16, u64)>, n: int) -> bool {
    exists|j: int| #![trigger s[j]] 0 <= j < n && x == s[j]
}

/// The facts one insertion step preserves: sortedness by count, the
/// entries being exactly those of the processed prefix, and pairwise
/// distinct ports.
proof fn lemma_insert_step(
    pre: Seq<(u16, u64)>,
    full: Seq<(u16, u64)>,
    e: (u16, u64),
    pos: int,
    i2: int,
    post: Seq<(u16, u64)>,
)
    requires
        1 <= i2 <= full.len(),
        e == full[i2 - 1],
        0 <= pos <= pre.len(),
        pre.len() == i2 - 1,
        post == pre.subrange(0, pos) + seq![e] + pre.subrange(pos, pre.len() as int),
        counts_sorted_desc(pre),
        forall|j: int| 0 <= j < pos ==> (#[trigger] pre[j]).1 >= e.1,
        pos < pre.len() ==> pre[pos].1 < e.1,
        forall|k: int| 0 <= k < pre.len() ==> among_first(#[trigger] pre[k], full, i2 - 1),
        forall|j: int| 0 <= j < i2 - 1 ==> among_first(#[trigger] full[j], pre, pre.len() as int),
        forall|k: int, l: int| 0 <= k < l < full.len() ==> full[k].0 != full[l].0,
        forall|k: int, l: int| 0 <= k < l < pre.len() ==> pre[k].0 != pre[l].0,
    ensures
        post.len() == i2,
        counts_sorted_desc(post),
        forall|k: int| 0 <= k < post.len() ==> among_first(#[trigger] post[k], full, i2),
        forall|j: int| 0 <= j < i2 ==> among_first(#[trigger] full[j], post, post.len() as int),
        forall|k: int, l: int| 0 <= k < l < post.len() ==> post[k].0 != post[l].0,
{
    assert forall|k: int, l: int| 0 <= k < l < post.len() implies post[k].1 >= post[l].1 by {
        if k < pos && l > pos {
            assert(post[k] == pre[k]);
            assert(post[l] == pre[l - 1]);
        }
    }
    assert forall|k: int| 0 <= k < post.len() implies among_first(
        #[trigger] post[k],
        full,
        i2,
    ) by {
        if k < pos {
            assert(post[k] == pre[k]);
            let j = choose|j: int| #![trigger full[j]] 0 <= j < i2 - 1 && pre[k] == full[j];
            assert(post[k] == full[j]);
        } else if k == pos {
            assert(post[k] == full[i2 - 1]);
        } else {
            assert(post[k] == pre[k - 1]);
            let j = choose|j: int| #![trigger full[j]] 0 <= j < i2 - 1 && pre[k - 1] == full[j];
            assert(post[k] == full[j]);
        }
    }
    assert forall|j: int| 0 <= j < i2 implies among_first(
        #[trigger] full[j],
        post,
        post.len() as int,
    ) by {
        if j == i2 - 1 {
            assert(full[j] == post[pos]);
        } else {
            let k0 = choose|k0: int| #![trigger pre[k0]] 0 <= k0 < pre.len() && full[j]
                == pre[k0];
            if k0 < pos {
                assert(post[k0] == full[j]);
            } else {
                assert(post[k0 + 1] == full[j]);
            }
        }
    }
    assert forall|k: int, l: int| 0 <= k < l < post.len() implies post[k].0 != post[l].0 by {
        if k == pos || l == pos {
            let m = if k == pos {
                l
            } else {
                k
            };
            let old_m = if m < pos {
                m
            } else {
                m - 1
            };
            assert(post[m] == pre[old_m]);
            let j = choose|j: int| #![trigger full[j]] 0 <= j < i2 - 1 && pre[old_m] == full[j];
            assert(post[pos] == full[i2 - 1]);
            assert(full[j].0 != full[i2 - 1].0);
        } else {
            let ok = if k < pos {
                k
            } else {
                k - 1
            };
            let ol = if l < pos {
                l
            } else {
                l - 1
            };
            assert(post[k] == pre[ok] && post[l] == pre[ol]);
        }
    }
}

/// Insertion sort of a count table, largest count first. The entries
/// of the result are exactly the entries of the input, and ports stay
/// pairwise distinct.
fn sort_counts_desc(full: Vec<(u16, u64)>) -> (sorted: Vec<(u16, u64)>)
    requires
        forall|k: int, l: int| 0 <= k < l < full@.len() ==> full@[k].0 != full@[l].0,
    ensures
        sorted@.len() == full@.len(),
        counts_sorted_desc(sorted@),
        forall|k: int|
            0 <= k < sorted@.len() ==> among_first(
                #[trigger] sorted@[k],
                full@,
                full@.len() as int,
            ),
        forall|j: int|
            0 <= j < full@.len() ==> among_first(
                #[trigger] full@[j],
                sorted@,
                sorted@.len() as int,
            ),
        forall|k: int, l: int| 0 <= k < l < sorted@.len() ==> sorted@[k].0 != sorted@[l].0,
{
    let mut sorted: Vec<(u16, u64)> = Vec::new();
    let mut i2: usize = 0;
    while i2 < full.len()
        invariant
            i2 <= full.len(),
            sorted@.len() == i2,
            counts_sorted_desc(sorted@),
            forall|k: int|
                0 <= k < sorted@.len() ==> among_first(#[trigger] sorted@[k], full@, i2 as int),
            forall|j: int|
                0 <= j < i2 ==> among_first(#[trigger] full@[j], sorted@, sorted@.len() as int),
            forall|k: int, l: int| 0 <= k < l < full@.len() ==> full@[k].0 != full@[l].0,
            forall|k: int, l: int| 0 <= k < l < sorted@.len() ==> sorted@[k].0 != sorted@[l].0,
        decreases full.len() - i2,
    {
        let e = full[i2];
        let mut pos: usize = 0;
        while pos < sorted.len() && sorted[pos].1 >= e.1
            invariant
                pos <= sorted@.len(),
                forall|j: int| 0 <= j < pos ==> (#[trigger] sorted@[j]).1 >= e.1,
            decreases sorted.len() - pos,
        {
            pos = pos + 1;
        }
        let ghost pre = sorted@;
        let ghost oldpos = pos as int;
        sorted.insert(pos, e);
        i2 = i2 + 1;
        proof {
            assert(sorted@ =~= pre.subrange(0, oldpos) + seq![e] + pre.subrange(
                oldpos,
                pre.len() as int,
            ));
            lemma_insert_step(pre, full@, e, oldpos, i2 as int, sorted@);
        }
    }
    sorted
}

} // verus!
