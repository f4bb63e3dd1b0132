//! The headers of an Ethernet frame, as plain values, and where they come from.
use vstd::prelude::*;
use etherparse::{InternetSlice, LinkSlice, SlicedPacket, TransportSlice, VlanHeader};

verus! {

/// An Ethernet II header.
#[derive(Debug)]
pub struct EthInfo {
    pub source: Vec<u8>,
    pub destination: Vec<u8>,
    pub ether_type: u16,
}

pub struct EthView {
    pub source: Seq<u8>,
    pub destination: Seq<u8>,
    pub ether_type: u16,
}

impl View for EthInfo {
    type V = EthView;

    open spec fn view(&self) -> EthView {
        EthView { source: self.source@, destination: self.destination@, ether_type: self.ether_type }
    }
}

/// One or two VLAN tags.
#[derive(Debug, Clone, Copy, PartialEq, Eq, Structural)]
pub enum VlanInfo {
    Single { vlan_identifier: u16, ether_type: u16 },
    Double { outer_identifier: u16, inner_identifier: u16 },
}

/// An IPv4 header; addresses as 32-bit numbers, most significant byte first.
#[derive(Debug, Clone, Copy, PartialEq, Eq, Structural)]
pub struct Ipv4Info {
    pub source: u32,
    pub destination: u32,
    pub ttl: u8,
    pub identification: u16,
    pub fragments_offset: u16,
    pub dont_fragment: bool,
    pub more_fragments: bool,
    pub protocol: u8,
    pub ihl: u8,
    pub total_len: u16,
    pub header_checksum: u16,
}

/// An IPv6 header; addresses as their text.
#[derive(Debug)]
pub struct Ipv6Info {
    pub source: String,
    pub destination: String,
    pub hop_limit: u8,
    pub next_header: u8,
    pub traffic_class: u8,
    pub flow_label: u32,
    pub payload_length: u16,
    pub fragmenting: bool,
}

pub struct Ipv6View {
    pub source: Seq<char>,
    pub destination: Seq<char>,
    pub hop_limit: u8,
    pub next_header: u8,
    pub traffic_class: u8,
    pub flow_label: u32,
    pub payload_length: u16,
    pub fragmenting: bool,
}

impl View for Ipv6Info {
    type V = Ipv6View;

    open spec fn view(&self) -> Ipv6View {
        Ipv6View {
            source: self.source@,
            destination: self.destination@,
            hop_limit: self.hop_limit,
            next_header: self.next_header,
            traffic_class: self.traffic_class,
            flow_label: self.flow_label,
            payload_length: self.payload_length,
            fragmenting: self.fragmenting,
        }
    }
}

#[derive(Debug)]
pub enum IpInfo {
    V4(Ipv4Info),
    V6(Ipv6Info),
}

pub enum IpView {
    V4(Ipv4Info),
    V6(Ipv6View),
}

impl View for IpInfo {
    type V = IpView;

    open spec fn view(&self) -> IpView {
        match self {
            IpInfo::V4(h) => IpView::V4(*h),
            IpInfo::V6(h) => IpView::V6(h@),
        }
    }
}

/// A TCP header.
#[derive(Debug, Clone, Copy, PartialEq, Eq, Structural)]
pub struct TcpInfo {
    pub source_port: u16,
    pub destination_port: u16,
    pub sequence_number: u32,
    pub acknowledgment_number: u32,
    pub window_size: u16,
    pub fin: bool,
    pub syn: bool,
    pub rst: bool,
    pub psh: bool,
    pub ack: bool,
    pub urg: bool,
    pub data_offset: u8,
    pub checksum: u16,
    pub urgent_pointer: u16,
}

/// A UDP header.
#[derive(Debug, Clone, Copy, PartialEq, Eq, Structural)]
pub struct UdpInfo {
    pub source_port: u16,
    pub destination_port: u16,
    pub length: u16,
    pub checksum: u16,
}

/// An ICMP header (v4 or v6).
#[derive(Debug, Clone, Copy, PartialEq, Eq, Structural)]
pub struct ControlInfo {
    pub type_u8: u8,
    pub code_u8: u8,
    pub checksum: u16,
}

/// The transport header of a frame.
#[derive(Debug, Clone, Copy, PartialEq, Eq, Structural)]
pub enum TransportInfo {
    Tcp(TcpInfo),
    Udp(UdpInfo),
    ControlV4(ControlInfo),
    ControlV6(ControlInfo),
    Unknown(u8),
}

/// The headers and the payload of a frame.
#[derive(Debug)]
pub struct Frame {
    pub link: Option<EthInfo>,
    pub vlan: Option<VlanInfo>,
    pub ip: Option<IpInfo>,
    pub transport: Option<TransportInfo>,
    pub payload: Vec<u8>,
}

pub struct FrameView {
    pub link: Option<EthView>,
    pub vlan: Option<VlanInfo>,
    pub ip: Option<IpView>,
    pub transport: Option<TransportInfo>,
    pub payload: Seq<u8>,
}

pub open spec fn opt_eth(e: Option<EthInfo>) -> Option<EthView> {
    match e {
        Some(x) => Some(x@),
        None => None,
    }
}

pub open spec fn opt_ip(e: Option<IpInfo>) -> Option<IpView> {
    match e {
        Some(x) => Some(x@),
        None => None,
    }
}

impl View for Frame {
    type V = FrameView;

    open spec fn view(&self) -> FrameView {
        FrameView {
            link: opt_eth(self.link),
            vlan: self.vlan,
            ip: opt_ip(self.ip),
            transport: self.transport,
            payload: self.payload@,
        }
    }
}

// ---------------------------------------------------------------------------
// What `etherparse` finds in the bytes of a frame

/// Whether `SlicedPacket::from_ethernet` accepts the bytes.
pub uninterp spec fn ethernet_ok(d: Seq<u8>) -> bool;

/// The Ethernet II header that `SlicedPacket::from_ethernet` finds.
pub uninterp spec fn eth_part(d: Seq<u8>) -> Option<EthView>;

/// The VLAN tags that `SlicedPacket::from_ethernet` finds.
pub uninterp spec fn vlan_part(d: Seq<u8>) -> Option<VlanInfo>;

/// The IPv4 header that `SlicedPacket::from_ethernet` finds.
pub uninterp spec fn ipv4_part(d: Seq<u8>) -> Option<Ipv4Info>;

/// The IPv6 header that `SlicedPacket::from_ethernet` finds, with its
/// addresses as `Ipv6Addr` displays them.
pub uninterp spec fn ipv6_part(d: Seq<u8>) -> Option<Ipv6View>;

/// The TCP header that `SlicedPacket::from_ethernet` finds.
pub uninterp spec fn tcp_part(d: Seq<u8>) -> Option<TcpInfo>;

/// The UDP header that `SlicedPacket::from_ethernet` finds.
pub uninterp spec fn udp_part(d: Seq<u8>) -> Option<UdpInfo>;

/// The ICMP header that `SlicedPacket::from_ethernet` finds, and whether it
/// is ICMPv6.
pub uninterp spec fn control_part(d: Seq<u8>) -> Option<(bool, ControlInfo)>;

/// The protocol number of a transport that `SlicedPacket::from_ethernet`
/// does not decode.
pub uninterp spec fn unknown_transport_part(d: Seq<u8>) -> Option<u8>;

/// The payload after the last header that `SlicedPacket::from_ethernet` finds.
pub uninterp spec fn payload_part(d: Seq<u8>) -> Seq<u8>;

/// Calls `SlicedPacket::from_ethernet` and tells whether it succeeded.
#[verifier::external_body]
fn sliced_ok(data: &[u8]) -> (b: bool)
    ensures
        b == ethernet_ok(data@),
{
    SlicedPacket::from_ethernet(data).is_ok()
}

/// Calls `SlicedPacket::from_ethernet` and copies out the Ethernet II header.
#[verifier::external_body]
fn sliced_eth(data: &[u8]) -> (r: Option<EthInfo>)
    ensures
        opt_eth(r) == eth_part(data@),
{
    match SlicedPacket::from_ethernet(data) {
        Ok(SlicedPacket { link: Some(LinkSlice::Ethernet2(e)), .. }) => Some(
            EthInfo { source: e.source().to_vec(), destination: e.destination().to_vec(), ether_type: e.ether_type() },
        ),
        _ => None,
    }
}

/// Calls `SlicedPacket::from_ethernet` and copies out the VLAN tags.
#[verifier::external_body]
fn sliced_vlan(data: &[u8]) -> (r: Option<VlanInfo>)
    ensures
        r == vlan_part(data@),
{
    match SlicedPacket::from_ethernet(data).ok().and_then(|p| p.vlan).map(|v| v.to_header()) {
        Some(VlanHeader::Single(s)) => Some(VlanInfo::Single { vlan_identifier: s.vlan_identifier, ether_type: s.ether_type }),
        Some(VlanHeader::Double(d)) => Some(VlanInfo::Double { outer_identifier: d.outer.vlan_identifier, inner_identifier: d.inner.vlan_identifier }),
        None => None,
    }
}

/// Calls `SlicedPacket::from_ethernet` and copies out the IPv4 header.
#[verifier::external_body]
fn sliced_ipv4(data: &[u8]) -> (r: Option<Ipv4Info>)
    ensures
        r == ipv4_part(data@),
{
    match SlicedPacket::from_ethernet(data) {
        Ok(SlicedPacket { ip: Some(InternetSlice::Ipv4(h, _)), .. }) => Some(Ipv4Info {
            source: u32::from_be_bytes(h.source()), destination: u32::from_be_bytes(h.destination()), ttl: h.ttl(),
            identification: h.identification(), fragments_offset: h.fragments_offset(), dont_fragment: h.dont_fragment(),
            more_fragments: h.more_fragments(), protocol: h.protocol(), ihl: h.ihl(), total_len: h.total_len(),
            header_checksum: h.header_checksum() }),
        _ => None,
    }
}

/// Calls `SlicedPacket::from_ethernet` and copies out the IPv6 header, with
/// its addresses displayed as `Ipv6Addr` does.
#[verifier::external_body]
fn sliced_ipv6(data: &[u8]) -> (r: Option<Ipv6Info>)
    ensures
        match r { Some(h) => ipv6_part(data@) == Some(h@), None => ipv6_part(data@) is None },
{
    match SlicedPacket::from_ethernet(data) {
        Ok(SlicedPacket { ip: Some(InternetSlice::Ipv6(h, x)), .. }) => Some(Ipv6Info {
            source: format!("{}", h.source_addr()), destination: format!("{}", h.destination_addr()),
            hop_limit: h.hop_limit(), next_header: h.next_header(), traffic_class: h.traffic_class(),
            flow_label: h.flow_label(), payload_length: h.payload_length(), fragmenting: x.is_fragmenting_payload() }),
        _ => None,
    }
}

/// Calls `SlicedPacket::from_ethernet` and copies out a TCP header.
#[verifier::external_body]
fn sliced_tcp(data: &[u8]) -> (r: Option<TcpInfo>)
    ensures
        r == tcp_part(data@),
{
    match SlicedPacket::from_ethernet(data).ok().and_then(|p| p.transport) {
        Some(TransportSlice::Tcp(t)) => Some(TcpInfo { source_port: t.source_port(), destination_port: t.destination_port(),
            sequence_number: t.sequence_number(), acknowledgment_number: t.acknowledgment_number(), window_size: t.window_size(),
            fin: t.fin(), syn: t.syn(), rst: t.rst(), psh: t.psh(), ack: t.ack(), urg: t.urg(), data_offset: t.data_offset(),
            checksum: t.checksum(), urgent_pointer: t.urgent_pointer() }),
        _ => None,
    }
}

/// Calls `SlicedPacket::from_ethernet` and copies out a UDP header.
#[verifier::external_body]
fn sliced_udp(data: &[u8]) -> (r: Option<UdpInfo>)
    ensures
        r == udp_part(data@),
{
    match SlicedPacket::from_ethernet(data).ok().and_then(|p| p.transport) {
        Some(TransportSlice::Udp(u)) => Some(UdpInfo { source_port: u.source_port(), destination_port: u.destination_port(), length: u.length(), checksum: u.checksum() }),
        _ => None,
    }
}

/// Calls `SlicedPacket::from_ethernet` and copies out an ICMPv4 or ICMPv6
/// header, telling which.
#[verifier::external_body]
fn sliced_control(data: &[u8]) -> (r: Option<(bool, ControlInfo)>)
    ensures
        r == control_part(data@),
{
    match SlicedPacket::from_ethernet(data).ok().and_then(|p| p.transport) {
        Some(TransportSlice::Icmpv4(i)) => Some((false, ControlInfo { type_u8: i.type_u8(), code_u8: i.code_u8(), checksum: i.checksum() })),
        Some(TransportSlice::Icmpv6(i)) => Some((true, ControlInfo { type_u8: i.type_u8(), code_u8: i.code_u8(), checksum: i.checksum() })),
        _ => None,
    }
}

/// Calls `SlicedPacket::from_ethernet` and copies out the protocol number of
/// an undecoded transport.
#[verifier::external_body]
fn sliced_unknown_transport(data: &[u8]) -> (r: Option<u8>)
    ensures
        r == unknown_transport_part(data@),
{
    match SlicedPacket::from_ethernet(data).ok().and_then(|p| p.transport) {
        Some(TransportSlice::Unknown(n)) => Some(n),
        _ => None,
    }
}

/// Calls `SlicedPacket::from_ethernet` and copies out the payload.
#[verifier::external_body]
fn sliced_payload(data: &[u8]) -> (r: Vec<u8>)
    ensures
        r@ == payload_part(data@),
{
    SlicedPacket::from_ethernet(data).map(|p| p.payload.to_vec()).unwrap_or_default()
}

/// The transport header, whichever kind it is.
pub open spec fn transport_spec(d: Seq<u8>) -> Option<TransportInfo> {
    match tcp_part(d) {
        Some(t) => Some(TransportInfo::Tcp(t)),
        None => match udp_part(d) {
            Some(u) => Some(TransportInfo::Udp(u)),
            None => match control_part(d) {
                Some((v6, i)) => Some(if v6 {
                    TransportInfo::ControlV6(i)
                } else {
                    TransportInfo::ControlV4(i)
                }),
                None => match unknown_transport_part(d) {
                    Some(n) => Some(TransportInfo::Unknown(n)),
                    None => None,
                },
            },
        },
    }
}

fn transport_of(data: &[u8]) -> (r: Option<TransportInfo>)
    ensures
        r == transport_spec(data@),
{
    match sliced_tcp(data) {
        Some(t) => Some(TransportInfo::Tcp(t)),
        None => match sliced_udp(data) {
            Some(u) => Some(TransportInfo::Udp(u)),
            None => match sliced_control(data) {
                Some((v6, i)) => Some(if v6 {
                    TransportInfo::ControlV6(i)
                } else {
                    TransportInfo::ControlV4(i)
                }),
                None => match sliced_unknown_transport(data) {
                    Some(n) => Some(TransportInfo::Unknown(n)),
                    None => None,
                },
            },
        },
    }
}

/// The frame's headers as `etherparse` parts them.
pub open spec fn frame_spec(d: Seq<u8>) -> Option<FrameView> {
    if ethernet_ok(d) {
        Some(
            FrameView {
                link: eth_part(d),
                vlan: vlan_part(d),
                ip: match ipv4_part(d) {
                    Some(h) => Some(IpView::V4(h)),
                    None => match ipv6_part(d) {
                        Some(h) => Some(IpView::V6(h)),
                        None => None,
                    },
                },
                transport: transport_spec(d),
                payload: payload_part(d),
            },
        )
    } else {
        None
    }
}

/// Parts a frame into its headers; `None` where `etherparse` rejects it.
pub fn slice_frame(data: &[u8]) -> (r: Option<Frame>)
    ensures
        match r {
            Some(f) => frame_spec(data@) == Some(f@),
            None => frame_spec(data@) is None,
        },
{
    if !sliced_ok(data) {
        return None;
    }
    let ip = match sliced_ipv4(data) {
        Some(h) => Some(IpInfo::V4(h)),
        None => match sliced_ipv6(data) {
            Some(h) => Some(IpInfo::V6(h)),
            None => None,
        },
    };
    Some(
        Frame {
            link: sliced_eth(data),
            vlan: sliced_vlan(data),
            ip,
            transport: transport_of(data),
            payload: sliced_payload(data),
        },
    )
}

} // verus!
