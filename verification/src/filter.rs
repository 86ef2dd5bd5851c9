//! The packet filter: a comma-separated list of clauses, each either a
//! typed `field:value` predicate or a pattern tested against the
//! packet's hex dump and printable rendering, all ANDed together, plus
//! an independent free-text search over the dump alone. A clause that
//! fails to compile as a regular expression falls back to
//! case-insensitive substring matching instead of failing the query.

use vstd::prelude::*;
use vstd::string::*;
use crate::capture::{RawPacketInfo, ipv4_chars, ipv4_string};
use crate::text::{
    ascii_chars, ascii_of, chars_of, chars_equal, contains_chars, contains_seq, dec_digits,
    hex_chars, hex_of, lower_seq, split_chars, split_on, string_of_chars, strip_prefix_chars,
    to_lower, trim_chars, trim_spec, u64_to_string,
};

verus! {

/// Whether a pattern is a valid regular expression, as `regex::Regex::new`
/// decides it. The answer depends on the pattern alone.
pub uninterp spec fn regex_compiles(pattern: Seq<char>) -> bool;

/// Whether a compiled pattern matches somewhere in a text, as
/// `regex::Regex::is_match` decides it. The answer depends on the
/// pattern and the text alone.
pub uninterp spec fn regex_matches(pattern: Seq<char>, text: Seq<char>) -> bool;

/// Relies on `regex::Regex::new` and `regex::Regex::is_match`: compiles
/// the pattern and tests it against the text. `None` exactly when the
/// pattern is not a valid regular expression.
#[verifier::external_body]
fn regex_match(pattern: &str, text: &str) -> (r: Option<bool>)
    ensures
        r is Some <==> regex_compiles(pattern@),
        r matches Some(b) ==> b == regex_matches(pattern@, text@),
{
    match regex::Regex::new(pattern) {
        Ok(re) => Some(re.is_match(text)),
        Err(_) => None,
    }
}

/// The string form of the packet's source address: dotted decimal, or
/// empty when absent.
pub open spec fn packet_src_chars(p: RawPacketInfo) -> Seq<char> {
    match p.src {
        Some(o) => ipv4_chars(o),
        None => Seq::<char>::empty(),
    }
}

/// The string form of the packet's destination address.
pub open spec fn packet_dst_chars(p: RawPacketInfo) -> Seq<char> {
    match p.dst {
        Some(o) => ipv4_chars(o),
        None => Seq::<char>::empty(),
    }
}

/// The string form of the packet's source port: decimal, or empty when
/// absent.
pub open spec fn packet_sport_chars(p: RawPacketInfo) -> Seq<char> {
    match p.src_port {
        Some(x) => dec_digits(x as nat),
        None => Seq::<char>::empty(),
    }
}

/// The string form of the packet's destination port.
pub open spec fn packet_dport_chars(p: RawPacketInfo) -> Seq<char> {
    match p.dst_port {
        Some(x) => dec_digits(x as nat),
        None => Seq::<char>::empty(),
    }
}

/// The packet's country code, or empty when absent.
pub open spec fn packet_country_chars(p: RawPacketInfo) -> Seq<char> {
    match p.country {
        Some(c) => c@,
        None => Seq::<char>::empty(),
    }
}

/// The fallback for a clause that is no typed predicate and no valid
/// regular expression: a case-insensitive substring test against the
/// hex dump, the printable rendering, the addresses, the ports, the
/// protocol and the country. `needle` is the clause already lowered.
pub open spec fn fallback_matches(p: RawPacketInfo, needle: Seq<char>) -> bool {
    ||| contains_seq(lower_seq(hex_of(p.data@)), needle)
    ||| contains_seq(lower_seq(ascii_of(p.data@)), needle)
    ||| contains_seq(lower_seq(packet_src_chars(p)), needle)
    ||| contains_seq(lower_seq(packet_dst_chars(p)), needle)
    ||| contains_seq(packet_sport_chars(p), needle)
    ||| contains_seq(packet_dport_chars(p), needle)
    ||| contains_seq(lower_seq(p.protocol@), needle)
    ||| contains_seq(lower_seq(packet_country_chars(p)), needle)
}

/// Whether one (trimmed, non-empty) clause matches a packet: a typed
/// predicate when it carries a known field prefix, otherwise a regular
/// expression over the hex dump and printable rendering, otherwise the
/// substring fallback.
pub open spec fn clause_matches(p: RawPacketInfo, clause: Seq<char>) -> bool {
    if "proto:"@.is_prefix_of(clause) {
        let rest = clause.subrange("proto:"@.len() as int, clause.len() as int);
        lower_seq(p.protocol@) == lower_seq(rest)
    } else if "country:"@.is_prefix_of(clause) {
        let rest = clause.subrange("country:"@.len() as int, clause.len() as int);
        lower_seq(packet_country_chars(p)) == lower_seq(rest)
    } else if "src:"@.is_prefix_of(clause) {
        let rest = clause.subrange("src:"@.len() as int, clause.len() as int);
        contains_seq(packet_src_chars(p), rest)
    } else if "dst:"@.is_prefix_of(clause) {
        let rest = clause.subrange("dst:"@.len() as int, clause.len() as int);
        contains_seq(packet_dst_chars(p), rest)
    } else if "sport:"@.is_prefix_of(clause) {
        let rest = clause.subrange("sport:"@.len() as int, clause.len() as int);
        packet_sport_chars(p) == rest
    } else if "dport:"@.is_prefix_of(clause) {
        let rest = clause.subrange("dport:"@.len() as int, clause.len() as int);
        packet_dport_chars(p) == rest
    } else if regex_compiles(clause) {
        regex_matches(clause, hex_of(p.data@)) || regex_matches(clause, ascii_of(p.data@))
    } else {
        fallback_matches(p, lower_seq(clause))
    }
}

/// Whether every clause of the filter expression matches: the filter is
/// split on commas, each piece trimmed, and empty pieces ignored.
pub open spec fn filter_matches(p: RawPacketInfo, filter: Seq<char>) -> bool {
    forall|i: int|
        0 <= i < split_on(filter, ',').len() ==> {
            let clause = trim_spec(#[trigger] split_on(filter, ',')[i]);
            clause.len() > 0 ==> clause_matches(p, clause)
        }
}

/// Whether the free-text search matches: an empty search always does,
/// a non-empty one must occur case-insensitively in the hex dump or
/// the printable rendering.
pub open spec fn search_matches(p: RawPacketInfo, search: Seq<char>) -> bool {
    ||| search.len() == 0
    ||| contains_seq(lower_seq(hex_of(p.data@)), lower_seq(search))
    ||| contains_seq(lower_seq(ascii_of(p.data@)), lower_seq(search))
}

/// Whether a packet passes both the filter expression and the search.
pub open spec fn packet_matches_spec(p: RawPacketInfo, filter: Seq<char>, search: Seq<char>) -> bool {
    filter_matches(p, filter) && search_matches(p, search)
}

fn src_chars_exec(p: &RawPacketInfo) -> (r: Vec<char>)
    ensures
        r@ == packet_src_chars(*p),
{
    match p.src {
        Some(o) => {
            let s = ipv4_string(o);
            chars_of(s.as_str())
        },
        None => Vec::new(),
    }
}

fn dst_chars_exec(p: &RawPacketInfo) -> (r: Vec<char>)
    ensures
        r@ == packet_dst_chars(*p),
{
    match p.dst {
        Some(o) => {
            let s = ipv4_string(o);
            chars_of(s.as_str())
        },
        None => Vec::new(),
    }
}

fn port_chars_exec(port: Option<u16>) -> (r: Vec<char>)
    ensures
        port matches Some(x) ==> r@ == dec_digits(x as nat),
        port is None ==> r@ == Seq::<char>::empty(),
{
    match port {
        Some(x) => {
            let s = u64_to_string(x as u64);
            chars_of(s.as_str())
        },
        None => Vec::new(),
    }
}

fn country_chars_exec(p: &RawPacketInfo) -> (r: Vec<char>)
    ensures
        r@ == packet_country_chars(*p),
{
    match &p.country {
        Some(c) => chars_of(c.as_str()),
        None => Vec::new(),
    }
}

fn clause_matches_exec(p: &RawPacketInfo, clause: &Vec<char>) -> (r: bool)
    ensures
        r == clause_matches(*p, clause@),
{
    let proto_prefix = chars_of("proto:");
    let country_prefix = chars_of("country:");
    let src_prefix = chars_of("src:");
    let dst_prefix = chars_of("dst:");
    let sport_prefix = chars_of("sport:");
    let dport_prefix = chars_of("dport:");
    if let Some(rest) = strip_prefix_chars(clause, &proto_prefix) {
        let protocol = chars_of(p.protocol.as_str());
        let a = to_lower(&protocol);
        let b = to_lower(&rest);
        chars_equal(&a, &b)
    } else if let Some(rest) = strip_prefix_chars(clause, &country_prefix) {
        let country = country_chars_exec(p);
        let a = to_lower(&country);
        let b = to_lower(&rest);
        chars_equal(&a, &b)
    } else if let Some(rest) = strip_prefix_chars(clause, &src_prefix) {
        let src = src_chars_exec(p);
        contains_chars(&src, &rest)
    } else if let Some(rest) = strip_prefix_chars(clause, &dst_prefix) {
        let dst = dst_chars_exec(p);
        contains_chars(&dst, &rest)
    } else if let Some(rest) = strip_prefix_chars(clause, &sport_prefix) {
        let sport = port_chars_exec(p.src_port);
        chars_equal(&sport, &rest)
    } else if let Some(rest) = strip_prefix_chars(clause, &dport_prefix) {
        let dport = port_chars_exec(p.dst_port);
        chars_equal(&dport, &rest)
    } else {
        let pattern = string_of_chars(clause);
        let hex = hex_chars(p.data.as_slice());
        let ascii = ascii_chars(p.data.as_slice());
        let hex_str = string_of_chars(&hex);
        let ascii_str = string_of_chars(&ascii);
        match regex_match(pattern.as_str(), hex_str.as_str()) {
            Some(hex_hit) => {
                if hex_hit {
                    true
                } else {
                    match regex_match(pattern.as_str(), ascii_str.as_str()) {
                        Some(ascii_hit) => ascii_hit,
                        None => {
                            proof {
                                assert(false);
                            }
                            false
                        },
                    }
                }
            },
            None => {
                let needle = to_lower(clause);
                let hex_low = to_lower(&hex);
                if contains_chars(&hex_low, &needle) {
                    return true;
                }
                let ascii_low = to_lower(&ascii);
                if contains_chars(&ascii_low, &needle) {
                    return true;
                }
                let src = src_chars_exec(p);
                let src_low = to_lower(&src);
                if contains_chars(&src_low, &needle) {
                    return true;
                }
                let dst = dst_chars_exec(p);
                let dst_low = to_lower(&dst);
                if contains_chars(&dst_low, &needle) {
                    return true;
                }
                let sport = port_chars_exec(p.src_port);
                if contains_chars(&sport, &needle) {
                    return true;
                }
                let dport = port_chars_exec(p.dst_port);
                if contains_chars(&dport, &needle) {
                    return true;
                }
                let protocol = chars_of(p.protocol.as_str());
                let proto_low = to_lower(&protocol);
                if contains_chars(&proto_low, &needle) {
                    return true;
                }
                let country = country_chars_exec(p);
                let country_low = to_lower(&country);
                contains_chars(&country_low, &needle)
            },
        }
    }
}

/// Decides whether a stored packet passes a filter expression and a
/// free-text search. Matching never mutates anything; an invalid
/// pattern in a clause falls back to substring matching rather than
/// failing the query, and lower-casing is by ASCII letter.
pub fn packet_matches_filter(p: &RawPacketInfo, filter: &str, search: &str) -> (r: bool)
    ensures
        r == packet_matches_spec(*p, filter@, search@),
{
    let fchars = chars_of(filter);
    let parts = split_chars(&fchars, ',');
    let ghost clauses = split_on(filter@, ',');
    let mut i: usize = 0;
    while i < parts.len()
        invariant
            i <= parts.len(),
            parts.deep_view() == clauses,
            clauses == split_on(filter@, ','),
            forall|j: int|
                0 <= j < i ==> {
                    let clause = trim_spec(#[trigger] clauses[j]);
                    clause.len() > 0 ==> clause_matches(*p, clause)
                },
        decreases parts.len() - i,
    {
        let part = trim_chars(&parts[i]);
        proof {
            assert(parts.deep_view()[i as int] == parts[i as int]@);
            assert(part@ == trim_spec(clauses[i as int]));
        }
        if part.len() > 0 {
            if !clause_matches_exec(p, &part) {
                return false;
            }
        }
        i = i + 1;
    }
    let hex = hex_chars(p.data.as_slice());
    let ascii = ascii_chars(p.data.as_slice());
    let schars = chars_of(search);
    if schars.len() == 0 {
        return true;
    }
    let needle = to_lower(&schars);
    let hex_low = to_lower(&hex);
    if contains_chars(&hex_low, &needle) {
        return true;
    }
    let ascii_low = to_lower(&ascii);
    contains_chars(&ascii_low, &needle)
}

} // verus!
