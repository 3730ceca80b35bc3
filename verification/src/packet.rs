//! From a captured Ethernet frame to the one thing the detector wants to
//! know: did a client just try to open a TCP connection, and to which port.
//!
//! Frames are taken apart by the `pnet` crate. What it reads out of the
//! bytes is believed, not proved; what is decided on those values is
//! proved here.

use crate::text::{dotted, format_ipv4};
use pnet::packet::ethernet::EthernetPacket;
use pnet::packet::ipv4::Ipv4Packet;
use pnet::packet::tcp::TcpPacket;
use pnet::packet::Packet;
use vstd::prelude::*;

verus! {

/// EtherType of IPv4.
pub const ETHERTYPE_IPV4: u16 = 0x0800;

/// IP protocol number of TCP.
pub const PROTOCOL_TCP: u8 = 6;

/// The SYN bit of the TCP flags.
pub const TCP_SYN: u8 = 0x02;

/// The ACK bit of the TCP flags.
pub const TCP_ACK: u8 = 0x10;

/// What the detector reads of an Ethernet frame.
#[derive(Debug)]
pub struct EthernetFrame {
    pub ethertype: u16,
    pub payload: Vec<u8>,
}

/// What the detector reads of an IPv4 packet.
#[derive(Debug)]
pub struct Ipv4Header {
    pub protocol: u8,
    pub source: [u8; 4],
    pub payload: Vec<u8>,
}

/// What the detector reads of a TCP segment.
#[derive(Debug)]
pub struct TcpHeader {
    pub destination: u16,
    pub flags: u8,
}

/// A connection attempt seen on the wire.
#[derive(Debug)]
pub struct SynEvent {
    pub client_address: String,
    pub destination_port: i32,
}

/// Mathematical value of a [`SynEvent`].
pub struct SynEventView {
    pub client_address: Seq<char>,
    pub destination_port: i32,
}

impl View for SynEvent {
    type V = SynEventView;

    open spec fn view(&self) -> SynEventView {
        SynEventView {
            client_address: self.client_address@,
            destination_port: self.destination_port,
        }
    }
}

/// What `pnet` reads of the bytes of an Ethernet frame: the EtherType and
/// the payload, or `None` for a frame too short to hold a header.
pub uninterp spec fn ethernet_fields(frame: Seq<u8>) -> Option<(u16, Seq<u8>)>;

/// What `pnet` reads of the bytes of an IPv4 packet: the protocol number,
/// the four octets of the source address and the payload, or `None` for a
/// packet too short to hold a header.
pub uninterp spec fn ipv4_fields(packet: Seq<u8>) -> Option<(u8, Seq<u8>, Seq<u8>)>;

/// What `pnet` reads of the bytes of a TCP segment: the destination port
/// and the flags, or `None` for a segment too short to hold a header.
pub uninterp spec fn tcp_fields(segment: Seq<u8>) -> Option<(u16, u8)>;

/// Parses an Ethernet frame with `pnet::packet::ethernet::EthernetPacket`
/// (`new`, `get_ethertype`, `payload`). The contract claims only that the
/// outcome is a function of the frame's bytes, and gives that function a
/// name.
#[verifier::external_body]
fn read_ethernet(frame: &[u8]) -> (parsed: Option<EthernetFrame>)
    ensures
        match parsed {
            Some(f) => ethernet_fields(frame@) == Some((f.ethertype, f.payload@)),
            None => ethernet_fields(frame@).is_none(),
        },
{
    EthernetPacket::new(frame).map(
        |p| EthernetFrame { ethertype: p.get_ethertype().0, payload: p.payload().to_vec() },
    )
}

/// Parses an IPv4 packet with `pnet::packet::ipv4::Ipv4Packet` (`new`,
/// `get_next_level_protocol`, `get_source`, `payload`). The contract claims
/// only that the outcome is a function of the packet's bytes, and gives that
/// function a name.
#[verifier::external_body]
fn read_ipv4(packet: &[u8]) -> (parsed: Option<Ipv4Header>)
    ensures
        match parsed {
            Some(h) => ipv4_fields(packet@) == Some((h.protocol, h.source@, h.payload@)),
            None => ipv4_fields(packet@).is_none(),
        },
{
    Ipv4Packet::new(packet).map(
        |p|
            Ipv4Header {
                protocol: p.get_next_level_protocol().0,
                source: p.get_source().octets(),
                payload: p.payload().to_vec(),
            },
    )
}

/// Parses a TCP segment with `pnet::packet::tcp::TcpPacket` (`new`,
/// `get_destination`, `get_flags`). The contract claims only that the
/// outcome is a function of the segment's bytes, and gives that function a
/// name.
#[verifier::external_body]
fn read_tcp(segment: &[u8]) -> (parsed: Option<TcpHeader>)
    ensures
        match parsed {
            Some(h) => tcp_fields(segment@) == Some((h.destination, h.flags)),
            None => tcp_fields(segment@).is_none(),
        },
{
    TcpPacket::new(segment).map(
        |p| TcpHeader { destination: p.get_destination(), flags: p.get_flags() },
    )
}

/// The flags of a connection attempt: SYN set, ACK clear.
pub open spec fn is_syn(flags: u8) -> bool {
    flags & TCP_SYN != 0 && flags & TCP_ACK == 0
}

/// Decides whether TCP flags are those of a connection attempt.
pub fn is_connection_attempt(flags: u8) -> (attempt: bool)
    ensures
        attempt == is_syn(flags),
{
    flags & TCP_SYN != 0 && flags & TCP_ACK == 0
}

/// The event that a TCP segment from `source` stands for: a connection
/// attempt if its flags say so, nothing otherwise.
pub open spec fn segment_event(source: Seq<u8>, destination: u16, flags: u8) -> Option<
    SynEventView,
> {
    if is_syn(flags) {
        Some(SynEventView { client_address: dotted(source), destination_port: destination as i32 })
    } else {
        None
    }
}

/// The event that an IPv4 packet with these fields stands for.
pub open spec fn packet_event(protocol: u8, source: Seq<u8>, payload: Seq<u8>) -> Option<
    SynEventView,
> {
    if protocol != PROTOCOL_TCP {
        None
    } else {
        match tcp_fields(payload) {
            Some((destination, flags)) => segment_event(source, destination, flags),
            None => None,
        }
    }
}

/// The event that a frame stands for: a connection attempt if the frame
/// carries IPv4, the packet carries TCP, and the segment has SYN set and ACK
/// clear; nothing for any other frame, or one that is cut short.
pub open spec fn frame_event(frame: Seq<u8>) -> Option<SynEventView> {
    match ethernet_fields(frame) {
        Some((ethertype, payload)) => if ethertype != ETHERTYPE_IPV4 {
            None
        } else {
            match ipv4_fields(payload) {
                Some((protocol, source, body)) => packet_event(protocol, source, body),
                None => None,
            }
        },
        None => None,
    }
}

/// `event` is `expected`, value for value.
pub open spec fn event_is(event: Option<SynEvent>, expected: Option<SynEventView>) -> bool {
    match event {
        Some(e) => expected == Some(e@),
        None => expected.is_none(),
    }
}

/// Turns the fields of a TCP segment into the event it stands for.
pub fn syn_event(source: &[u8; 4], header: &TcpHeader) -> (event: Option<SynEvent>)
    ensures
        event_is(event, segment_event(source@, header.destination, header.flags)),
{
    if is_connection_attempt(header.flags) {
        Some(
            SynEvent {
                client_address: format_ipv4(source),
                destination_port: header.destination as i32,
            },
        )
    } else {
        None
    }
}

/// Looks into an IPv4 packet for a connection attempt.
pub fn inspect_packet(header: &Ipv4Header) -> (event: Option<SynEvent>)
    ensures
        event_is(event, packet_event(header.protocol, header.source@, header.payload@)),
{
    if header.protocol != PROTOCOL_TCP {
        return None;
    }
    match read_tcp(header.payload.as_slice()) {
        Some(tcp) => syn_event(&header.source, &tcp),
        None => None,
    }
}

/// Looks into a captured frame for a connection attempt.
pub fn inspect_frame(frame: &[u8]) -> (event: Option<SynEvent>)
    ensures
        event_is(event, frame_event(frame@)),
{
    match read_ethernet(frame) {
        Some(ethernet) => {
            if ethernet.ethertype != ETHERTYPE_IPV4 {
                return None;
            }
            match read_ipv4(ethernet.payload.as_slice()) {
                Some(header) => inspect_packet(&header),
                None => None,
            }
        },
        None => None,
    }
}

} // verus!
