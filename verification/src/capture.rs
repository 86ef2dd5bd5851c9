//! The capture pipeline below the device handle: parsing an Ethernet
//! frame into a captured-packet record, annotating it with geolocation,
//! and storing it in the bounded packet ring. Reading frames off the
//! device is the caller's business; everything from raw bytes onward is
//! verified here.

use vstd::prelude::*;
use vstd::string::*;
use crate::geo::GeoDatabase;
use crate::ring::{BoundedRing, ring_push_spec};
use crate::text::{dec_digits, u64_to_string, push_char};

verus! {

/// One captured packet: immutable once built. Addresses and ports are
/// present only for well-formed Ethernet IPv4 frames; the application
/// tag is reserved and currently always absent.
#[derive(Debug, Clone)]
pub struct RawPacketInfo {
    pub timestamp: u64,
    pub data: Vec<u8>,
    pub src: Option<(u8, u8, u8, u8)>,
    pub dst: Option<(u8, u8, u8, u8)>,
    pub src_port: Option<u16>,
    pub dst_port: Option<u16>,
    pub protocol: String,
    pub country: Option<String>,
    pub app: Option<String>,
}

/// Whether the frame is long enough to carry Ethernet plus an IPv4
/// header and has the IPv4 EtherType 0x0800 at offsets 12 and 13.
pub open spec fn is_eth_ipv4(data: Seq<u8>) -> bool {
    data.len() > 34 && data[12] == 0x08 && data[13] == 0x00
}

/// The protocol label the capture engine assigns: by the IPv4 protocol
/// byte at offset 23 for Ethernet IPv4 frames, "Other" for everything
/// else.
pub open spec fn frame_label(data: Seq<u8>) -> Seq<char> {
    if is_eth_ipv4(data) {
        if data[23] == 6 {
            "TCP"@
        } else if data[23] == 17 {
            "UDP"@
        } else if data[23] == 1 {
            "ICMP"@
        } else {
            "IPv4"@
        }
    } else {
        "Other"@
    }
}

/// Whether the frame carries readable TCP or UDP ports: the right
/// protocol, and long enough that the four port bytes at offsets 34
/// through 37 exist. A frame truncated inside the port fields yields a
/// portless record rather than a fault.
pub open spec fn has_ports(data: Seq<u8>) -> bool {
    is_eth_ipv4(data) && (data[23] == 6 || data[23] == 17) && data.len() >= 38
}

/// A big-endian 16-bit value from two bytes.
pub open spec fn u16_be(hi: u8, lo: u8) -> u16 {
    (hi * 256 + lo) as u16
}

/// How a captured-packet record relates to the frame it was parsed
/// from: source and destination IPv4 addresses from offsets 26 and 30,
/// ports from offset 34 where present, and the protocol label by the
/// protocol byte.
pub open spec fn packet_parses_to(data: Seq<u8>, p: RawPacketInfo) -> bool {
    &&& p.src == if is_eth_ipv4(data) {
        Some((data[26], data[27], data[28], data[29]))
    } else {
        None::<(u8, u8, u8, u8)>
    }
    &&& p.dst == if is_eth_ipv4(data) {
        Some((data[30], data[31], data[32], data[33]))
    } else {
        None::<(u8, u8, u8, u8)>
    }
    &&& p.src_port == if has_ports(data) {
        Some(u16_be(data[34], data[35]))
    } else {
        None::<u16>
    }
    &&& p.dst_port == if has_ports(data) {
        Some(u16_be(data[36], data[37]))
    } else {
        None::<u16>
    }
    &&& p.protocol@ == frame_label(data)
}

/// Parses one raw frame into a captured-packet record, with no country
/// annotation yet.
pub fn parse_frame(data: Vec<u8>, timestamp: u64) -> (p: RawPacketInfo)
    ensures
        p.data == data,
        p.timestamp == timestamp,
        p.country is None,
        p.app is None,
        packet_parses_to(data@, p),
{
    let is_ipv4 = data.len() > 34 && data[12] == 0x08 && data[13] == 0x00;
    let (src, dst) = if is_ipv4 {
        (
            Some((data[26], data[27], data[28], data[29])),
            Some((data[30], data[31], data[32], data[33])),
        )
    } else {
        (None, None)
    };
    let protocol = if is_ipv4 {
        let proto = data[23];
        if proto == 6 {
            String::from_str("TCP")
        } else if proto == 17 {
            String::from_str("UDP")
        } else if proto == 1 {
            String::from_str("ICMP")
        } else {
            String::from_str("IPv4")
        }
    } else {
        String::from_str("Other")
    };
    let (src_port, dst_port) = if is_ipv4 && (data[23] == 6 || data[23] == 17) && data.len() >= 38
    {
        (
            Some((data[34] as u16) * 256 + (data[35] as u16)),
            Some((data[36] as u16) * 256 + (data[37] as u16)),
        )
    } else {
        (None, None)
    };
    RawPacketInfo {
        timestamp,
        data,
        src,
        dst,
        src_port,
        dst_port,
        protocol,
        country: None,
        app: None,
    }
}

/// How many packets the capture ring retains.
pub const PACKET_RING_CAPACITY: usize = 10000;

/// An empty packet ring of the capture engine's capacity.
pub fn new_packet_ring() -> (r: BoundedRing<RawPacketInfo>)
    ensures
        r@ == Seq::<RawPacketInfo>::empty(),
        r.cap() == PACKET_RING_CAPACITY,
{
    BoundedRing::new(PACKET_RING_CAPACITY)
}

/// One step of the capture loop: parses the frame, annotates the
/// source address with a country where a database is loaded and knows
/// one, and pushes the record onto the ring, evicting the oldest entry
/// once the ring is full. Without a database the country is always
/// absent; with one, it is whatever the lookup returned.
pub fn record_frame(
    ring: &mut BoundedRing<RawPacketInfo>,
    geo: Option<&GeoDatabase>,
    data: Vec<u8>,
    timestamp: u64,
)
    ensures
        final(ring)@ == ring_push_spec(old(ring)@, old(ring).cap(), final(ring)@.last()),
        final(ring).cap() == old(ring).cap(),
        final(ring)@.len() <= final(ring).cap(),
        packet_parses_to(data@, final(ring)@.last()),
        final(ring)@.last().data == data,
        final(ring)@.last().timestamp == timestamp,
        final(ring)@.last().app is None,
        geo is None ==> final(ring)@.last().country is None,
{
    let mut packet = parse_frame(data, timestamp);
    if let Some(db) = geo {
        if let Some(src) = packet.src {
            packet.country = db.lookup_country(src);
        }
    }
    ring.push(packet);
}

/// The dotted-decimal rendering of an IPv4 address.
pub open spec fn ipv4_chars(o: (u8, u8, u8, u8)) -> Seq<char> {
    dec_digits(o.0 as nat) + seq!['.'] + dec_digits(o.1 as nat) + seq!['.'] + dec_digits(
        o.2 as nat,
    ) + seq!['.'] + dec_digits(o.3 as nat)
}

/// Renders an IPv4 address in dotted decimal.
pub fn ipv4_string(o: (u8, u8, u8, u8)) -> (r: String)
    ensures
        r@ == ipv4_chars(o),
{
    let mut s = u64_to_string(o.0 as u64);
    push_char(&mut s, '.');
    let b = u64_to_string(o.1 as u64);
    s.append(b.as_str());
    push_char(&mut s, '.');
    let c = u64_to_string(o.2 as u64);
    s.append(c.as_str());
    push_char(&mut s, '.');
    let d = u64_to_string(o.3 as u64);
    s.append(d.as_str());
    proof {
        assert(s@ =~= ipv4_chars(o));
    }
    s
}

} // verus!
