//! Shallow protocol classification of raw frames, and per-protocol
//! running counters fed by whichever component observes packets.

use vstd::prelude::*;
use vstd::string::*;

verus! {

/// Protocol label of a raw frame, as the classifier assigns it.
///
/// The classification is best-effort and shallow: a payload longer than
/// 20 bytes whose first byte carries IP version 4 is classified by its
/// protocol-number byte at offset 9 (6 is TCP, 17 is UDP, 1 is ICMP,
/// anything else bare IPv4); otherwise a payload longer than 14 bytes
/// with the ARP EtherType 0x0806 at offsets 12 and 13 is ARP; all other
/// input is labelled "Other". Malformed input is never rejected, only
/// mislabelled.
pub open spec fn classify_spec(data: Seq<u8>) -> Seq<char> {
    if data.len() > 20 && (data[0] >> 4) == 4 {
        if data[9] == 6 {
            "TCP"@
        } else if data[9] == 17 {
            "UDP"@
        } else if data[9] == 1 {
            "ICMP"@
        } else {
            "IPv4"@
        }
    } else if data.len() > 14 && data[12] == 0x08 && data[13] == 0x06 {
        "ARP"@
    } else {
        "Other"@
    }
}

/// Maps raw bytes to a protocol label. Pure: the result depends on the
/// bytes alone, so equal inputs always classify equally.
pub fn decode_protocol(pkt: &[u8]) -> (label: String)
    ensures
        label@ == classify_spec(pkt@),
{
    if pkt.len() > 20 && (pkt[0] >> 4) == 4 {
        let proto = pkt[9];
        if proto == 6 {
            String::from_str("TCP")
        } else if proto == 17 {
            String::from_str("UDP")
        } else if proto == 1 {
            String::from_str("ICMP")
        } else {
            String::from_str("IPv4")
        }
    } else if pkt.len() > 14 && pkt[12] == 0x08 && pkt[13] == 0x06 {
        String::from_str("ARP")
    } else {
        String::from_str("Other")
    }
}

/// Per-protocol running packet counts and byte totals.
///
/// Counters saturate at `usize::MAX` instead of overflowing, so updates
/// are total and never panic.
pub struct PacketStats {
    pub tcp_count: usize,
    pub udp_count: usize,
    pub icmp_count: usize,
    pub arp_count: usize,
    pub tcp_bytes: usize,
    pub udp_bytes: usize,
    pub icmp_bytes: usize,
    pub arp_bytes: usize,
}

/// Saturating increment used by the counter specs.
pub open spec fn sat_add_spec(a: usize, b: nat) -> usize {
    if a + b <= usize::MAX {
        (a + b) as usize
    } else {
        usize::MAX
    }
}

impl PacketStats {
    /// The value of the counters after observing one packet: the pair of
    /// counters for the packet's protocol grows by one packet and by the
    /// packet's byte length, under the same shallow conditions by which
    /// `classify_spec` assigns labels; a packet classified outside the
    /// four tracked protocols leaves every counter unchanged.
    pub open spec fn spec_update(self, data: Seq<u8>) -> PacketStats {
        if data.len() > 20 && (data[0] >> 4) == 4 {
            if data[9] == 6 {
                PacketStats {
                    tcp_count: sat_add_spec(self.tcp_count, 1),
                    tcp_bytes: sat_add_spec(self.tcp_bytes, data.len()),
                    ..self
                }
            } else if data[9] == 17 {
                PacketStats {
                    udp_count: sat_add_spec(self.udp_count, 1),
                    udp_bytes: sat_add_spec(self.udp_bytes, data.len()),
                    ..self
                }
            } else if data[9] == 1 {
                PacketStats {
                    icmp_count: sat_add_spec(self.icmp_count, 1),
                    icmp_bytes: sat_add_spec(self.icmp_bytes, data.len()),
                    ..self
                }
            } else {
                self
            }
        } else if data.len() > 14 && data[12] == 0x08 && data[13] == 0x06 {
            PacketStats {
                arp_count: sat_add_spec(self.arp_count, 1),
                arp_bytes: sat_add_spec(self.arp_bytes, data.len()),
                ..self
            }
        } else {
            self
        }
    }

    /// Observes one packet, bumping the counters of its protocol.
    pub fn update(&mut self, pkt: &[u8])
        ensures
            *final(self) == old(self).spec_update(pkt@),
    {
        if pkt.len() > 20 && (pkt[0] >> 4) == 4 {
            let proto = pkt[9];
            if proto == 6 {
                self.tcp_count = sat_add(self.tcp_count, 1);
                self.tcp_bytes = sat_add(self.tcp_bytes, pkt.len());
            } else if proto == 17 {
                self.udp_count = sat_add(self.udp_count, 1);
                self.udp_bytes = sat_add(self.udp_bytes, pkt.len());
            } else if proto == 1 {
                self.icmp_count = sat_add(self.icmp_count, 1);
                self.icmp_bytes = sat_add(self.icmp_bytes, pkt.len());
            }
        } else if pkt.len() > 14 && pkt[12] == 0x08 && pkt[13] == 0x06 {
            self.arp_count = sat_add(self.arp_count, 1);
            self.arp_bytes = sat_add(self.arp_bytes, pkt.len());
        }
    }

    /// Clears every counter to zero.
    pub fn reset(&mut self)
        ensures
            *final(self) == PacketStats::zeroed_spec(),
    {
        self.tcp_count = 0;
        self.udp_count = 0;
        self.icmp_count = 0;
        self.arp_count = 0;
        self.tcp_bytes = 0;
        self.udp_bytes = 0;
        self.icmp_bytes = 0;
        self.arp_bytes = 0;
    }

    /// All counters zero.
    pub open spec fn zeroed_spec() -> PacketStats {
        PacketStats {
            tcp_count: 0,
            udp_count: 0,
            icmp_count: 0,
            arp_count: 0,
            tcp_bytes: 0,
            udp_bytes: 0,
            icmp_bytes: 0,
            arp_bytes: 0,
        }
    }
}

impl Default for PacketStats {
    fn default() -> (r: PacketStats)
        ensures
            r == PacketStats::zeroed_spec(),
    {
        PacketStats {
            tcp_count: 0,
            udp_count: 0,
            icmp_count: 0,
            arp_count: 0,
            tcp_bytes: 0,
            udp_bytes: 0,
            icmp_bytes: 0,
            arp_bytes: 0,
        }
    }
}

/// Saturating add on `usize`.
pub fn sat_add(a: usize, b: usize) -> (r: usize)
    ensures
        r == sat_add_spec(a, b as nat),
{
    if a <= usize::MAX - b {
        a + b
    } else {
        usize::MAX
    }
}

} // verus!
