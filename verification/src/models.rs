//! The packet, session and capture records that the analysis modules share.
use vstd::prelude::*;
use crate::text::{copy_opt_string, join, push_joined, same_text};

verus! {

/// A capture interface as the host reports it.
#[derive(Debug)]
pub struct NetworkInterface {
    pub name: String,
    pub friendly_name: String,
    pub ips: Vec<String>,
    pub mac: Option<String>,
    pub is_up: bool,
    pub is_loopback: bool,
}

/// The summary of one captured packet.
#[derive(Debug)]
pub struct PacketMetadata {
    pub no: u64,
    pub timestamp_secs: u64,
    pub timestamp_micros: u32,
    pub src_addr: String,
    pub src_port: Option<u16>,
    pub dst_addr: String,
    pub dst_port: Option<u16>,
    pub protocol: ProtocolType,
    pub length: u32,
    pub summary: String,
    pub ttl: Option<u8>,
    pub window_size: Option<u16>,
    pub tcp_flags: Option<String>,
    pub ip_id: Option<u16>,
    pub fragment_offset: Option<u16>,
}

/// The packet seen from the other end: source and destination exchanged.
pub open spec fn reply_of(m: PacketMetadata) -> PacketMetadata {
    PacketMetadata {
        src_addr: m.dst_addr,
        src_port: m.dst_port,
        dst_addr: m.src_addr,
        dst_port: m.src_port,
        ..m
    }
}

impl Clone for PacketMetadata {
    fn clone(&self) -> (r: Self)
        ensures
            r == *self,
    {
        PacketMetadata {
            no: self.no,
            timestamp_secs: self.timestamp_secs,
            timestamp_micros: self.timestamp_micros,
            src_addr: self.src_addr.clone(),
            src_port: self.src_port,
            dst_addr: self.dst_addr.clone(),
            dst_port: self.dst_port,
            protocol: self.protocol,
            length: self.length,
            summary: self.summary.clone(),
            ttl: self.ttl,
            window_size: self.window_size,
            tcp_flags: copy_opt_string(&self.tcp_flags),
            ip_id: self.ip_id,
            fragment_offset: self.fragment_offset,
        }
    }
}

/// The last second, in seconds since the Unix epoch, of the year 9999.
pub const LAST_SECS: u64 = 253402300799;

/// The digit character of `d`.
pub open spec fn digit(d: int) -> char {
    crate::text::hex_char(d as nat)
}

/// `n` in `k` decimal digits, with leading zeros.
pub open spec fn padded_dec(n: int, k: nat) -> Seq<char>
    decreases k,
{
    if k == 0 {
        Seq::empty()
    } else {
        padded_dec(n / 10, (k - 1) as nat).push(digit(n % 10))
    }
}

/// The UTC time of day of a moment, as `HH:MM:SS.ffffff`.
pub open spec fn time_of_day_text(secs: int, nanos: int) -> Seq<char> {
    let d = secs % 86400;
    padded_dec(d / 3600, 2) + ":"@ + padded_dec((d % 3600) / 60, 2) + ":"@ + padded_dec(d % 60, 2) + "."@
        + padded_dec(nanos / 1000, 6)
}

/// What `chrono` formats as `%H:%M:%S%.6f` for a moment, if it takes the
/// moment at all.
pub uninterp spec fn chrono_time_text(secs: i64, nanos: u32) -> Option<Seq<char>>;

/// Moments from the epoch to the end of the year 9999, with fewer than a
/// billion nanoseconds.
pub open spec fn in_day_range(secs: i64, nanos: u32) -> bool {
    0 <= secs <= LAST_SECS && nanos < 1_000_000_000
}

pub open spec fn day_text(secs: i64, nanos: u32) -> Seq<char> {
    time_of_day_text(secs as int, nanos as int)
}

/// The characters of an optional text.
pub open spec fn opt_text(o: Option<String>) -> Option<Seq<char>> {
    match o {
        Some(t) => Some(t@),
        None => None,
    }
}

/// Calls `DateTime::from_timestamp` and formats the moment with
/// `%H:%M:%S%.6f`. Between the epoch and the end of the year 9999, and
/// with fewer than a billion nanoseconds, that is the UTC time of day with
/// microseconds; elsewhere the result is left to the name.
#[verifier::external_body]
fn chrono_time_of_day(secs: i64, nanos: u32) -> (r: Option<String>)
    ensures
        opt_text(r) == (if in_day_range(secs, nanos) { Some(day_text(secs, nanos)) } else { chrono_time_text(secs, nanos) }),
{
    chrono::DateTime::from_timestamp(secs, nanos).map(|dt| dt.format("%H:%M:%S%.6f").to_string())
}

impl PacketMetadata {
    /// The packet's UTC time of day, `HH:MM:SS.ffffff`; empty when the time
    /// cannot be shown.
    pub fn timestamp_str(&self) -> (s: String)
        requires
            self.timestamp_micros * 1000 <= u32::MAX,
        ensures
            self.timestamp_secs <= LAST_SECS && self.timestamp_micros < 1_000_000 ==> s@ == time_of_day_text(
                self.timestamp_secs as int,
                self.timestamp_micros * 1000,
            ),
    {
        let secs = self.timestamp_secs as i64;
        match chrono_time_of_day(secs, self.timestamp_micros * 1000) {
            Some(t) => t,
            None => String::new(),
        }
    }
}

/// The protocol that a packet is classified as.
#[derive(Debug, Clone, Copy, PartialEq, Eq, Hash, Structural)]
pub enum ProtocolType {
    Ethernet,
    IPv4,
    IPv6,
    ARP,
    ICMP,
    TCP,
    UDP,
    HTTP,
    DNS,
    TLS,
    Unknown,
}

impl ProtocolType {
    /// The display color of the protocol.
    pub open spec fn color_of(self) -> Seq<char> {
        match self {
            ProtocolType::HTTP => "#c8e6c9"@,
            ProtocolType::DNS => "#bbdefb"@,
            ProtocolType::TCP => "#e0e0e0"@,
            ProtocolType::UDP => "#e1bee7"@,
            ProtocolType::TLS => "#ffe0b2"@,
            ProtocolType::ICMP => "#f8bbd0"@,
            ProtocolType::ARP => "#fff9c4"@,
            _ => "#ffffff"@,
        }
    }

    /// The short name of the protocol.
    pub open spec fn name_of(self) -> Seq<char> {
        match self {
            ProtocolType::Ethernet => "ETH"@,
            ProtocolType::IPv4 => "IPv4"@,
            ProtocolType::IPv6 => "IPv6"@,
            ProtocolType::ARP => "ARP"@,
            ProtocolType::ICMP => "ICMP"@,
            ProtocolType::TCP => "TCP"@,
            ProtocolType::UDP => "UDP"@,
            ProtocolType::HTTP => "HTTP"@,
            ProtocolType::DNS => "DNS"@,
            ProtocolType::TLS => "TLS"@,
            ProtocolType::Unknown => "???"@,
        }
    }

    /// The variant's name, as `{:?}` prints it.
    pub open spec fn variant_name(self) -> Seq<char> {
        match self {
            ProtocolType::Ethernet => "Ethernet"@,
            ProtocolType::IPv4 => "IPv4"@,
            ProtocolType::IPv6 => "IPv6"@,
            ProtocolType::ARP => "ARP"@,
            ProtocolType::ICMP => "ICMP"@,
            ProtocolType::TCP => "TCP"@,
            ProtocolType::UDP => "UDP"@,
            ProtocolType::HTTP => "HTTP"@,
            ProtocolType::DNS => "DNS"@,
            ProtocolType::TLS => "TLS"@,
            ProtocolType::Unknown => "Unknown"@,
        }
    }

    pub fn variant_str(&self) -> (s: &'static str)
        ensures
            s@ == self.variant_name(),
    {
        match self {
            ProtocolType::Ethernet => "Ethernet",
            ProtocolType::IPv4 => "IPv4",
            ProtocolType::IPv6 => "IPv6",
            ProtocolType::ARP => "ARP",
            ProtocolType::ICMP => "ICMP",
            ProtocolType::TCP => "TCP",
            ProtocolType::UDP => "UDP",
            ProtocolType::HTTP => "HTTP",
            ProtocolType::DNS => "DNS",
            ProtocolType::TLS => "TLS",
            ProtocolType::Unknown => "Unknown",
        }
    }

    pub fn bg_color(&self) -> (s: &'static str)
        ensures
            s@ == self.color_of(),
    {
        match self {
            ProtocolType::HTTP => "#c8e6c9",
            ProtocolType::DNS => "#bbdefb",
            ProtocolType::TCP => "#e0e0e0",
            ProtocolType::UDP => "#e1bee7",
            ProtocolType::TLS => "#ffe0b2",
            ProtocolType::ICMP => "#f8bbd0",
            ProtocolType::ARP => "#fff9c4",
            _ => "#ffffff",
        }
    }

    pub fn as_str(&self) -> (s: &'static str)
        ensures
            s@ == self.name_of(),
    {
        match self {
            ProtocolType::Ethernet => "ETH",
            ProtocolType::IPv4 => "IPv4",
            ProtocolType::IPv6 => "IPv6",
            ProtocolType::ARP => "ARP",
            ProtocolType::ICMP => "ICMP",
            ProtocolType::TCP => "TCP",
            ProtocolType::UDP => "UDP",
            ProtocolType::HTTP => "HTTP",
            ProtocolType::DNS => "DNS",
            ProtocolType::TLS => "TLS",
            ProtocolType::Unknown => "???",
        }
    }
}

/// The decoded layers of one packet.
#[derive(Debug)]
pub struct PacketDetail {
    pub no: u64,
    pub layers: Vec<ProtocolLayer>,
    pub raw_data: Vec<u8>,
}

/// One protocol layer of a decoded packet.
#[derive(Debug)]
pub struct ProtocolLayer {
    pub protocol: String,
    pub fields: Vec<FieldEntry>,
    pub byte_range: (usize, usize),
}

/// One named field of a protocol layer.
#[derive(Debug)]
pub struct FieldEntry {
    pub name: String,
    pub value: String,
    pub byte_range: (usize, usize),
}

#[derive(Debug)]
pub struct EthernetLayer {
    pub src_mac: String,
    pub dst_mac: String,
    pub ether_type: String,
}

#[derive(Debug)]
pub struct IpLayer {
    pub version: u8,
    pub header_len: u8,
    pub ttl: u8,
    pub protocol: u8,
    pub src_ip: String,
    pub dst_ip: String,
    pub identification: u16,
    pub fragment_offset: u16,
    pub more_fragments: bool,
    pub dont_fragment: bool,
}

#[derive(Debug)]
pub struct TcpLayer {
    pub src_port: u16,
    pub dst_port: u16,
    pub seq_num: u32,
    pub ack_num: u32,
    pub data_offset: u8,
    pub flags: TcpFlags,
    pub window_size: u16,
    pub checksum: u16,
}

/// The six TCP control flags.
#[derive(Debug, Clone, Copy, PartialEq, Eq, Structural)]
pub struct TcpFlags {
    pub fin: bool,
    pub syn: bool,
    pub rst: bool,
    pub psh: bool,
    pub ack: bool,
    pub urg: bool,
}

/// The names of the flags that are set, in the order FIN, SYN, RST, PSH, ACK, URG.
pub open spec fn flag_names(f: TcpFlags) -> Seq<Seq<char>> {
    (if f.fin { seq!["FIN"@] } else { Seq::empty() })
        + (if f.syn { seq!["SYN"@] } else { Seq::empty() })
        + (if f.rst { seq!["RST"@] } else { Seq::empty() })
        + (if f.psh { seq!["PSH"@] } else { Seq::empty() })
        + (if f.ack { seq!["ACK"@] } else { Seq::empty() })
        + (if f.urg { seq!["URG"@] } else { Seq::empty() })
}

/// The text of a flag set: the names of the set flags joined by ", ".
pub open spec fn flags_text(f: TcpFlags) -> Seq<char> {
    join(flag_names(f), ", "@)
}

impl TcpFlags {
    pub fn from_bits(bits: u8) -> (f: Self)
        ensures
            f.fin == (bits & 0x01 != 0),
            f.syn == (bits & 0x02 != 0),
            f.rst == (bits & 0x04 != 0),
            f.psh == (bits & 0x08 != 0),
            f.ack == (bits & 0x10 != 0),
            f.urg == (bits & 0x20 != 0),
    {
        TcpFlags {
            fin: bits & 0x01 != 0,
            syn: bits & 0x02 != 0,
            rst: bits & 0x04 != 0,
            psh: bits & 0x08 != 0,
            ack: bits & 0x10 != 0,
            urg: bits & 0x20 != 0,
        }
    }

    pub fn to_string_flags(&self) -> (s: String)
        ensures
            s@ == flags_text(*self),
    {
        let mut out = String::new();
        let ghost mut parts: Seq<Seq<char>> = Seq::empty();
        let mut first = true;
        assert(out@ =~= join(parts, ", "@));
        if self.fin {
            push_joined(&mut out, Ghost(parts), first, ", ", "FIN");
            proof { parts = parts.push("FIN"@); }
            first = false;
        }
        if self.syn {
            push_joined(&mut out, Ghost(parts), first, ", ", "SYN");
            proof { parts = parts.push("SYN"@); }
            first = false;
        }
        if self.rst {
            push_joined(&mut out, Ghost(parts), first, ", ", "RST");
            proof { parts = parts.push("RST"@); }
            first = false;
        }
        if self.psh {
            push_joined(&mut out, Ghost(parts), first, ", ", "PSH");
            proof { parts = parts.push("PSH"@); }
            first = false;
        }
        if self.ack {
            push_joined(&mut out, Ghost(parts), first, ", ", "ACK");
            proof { parts = parts.push("ACK"@); }
            first = false;
        }
        if self.urg {
            push_joined(&mut out, Ghost(parts), first, ", ", "URG");
            proof { parts = parts.push("URG"@); }
        }
        assert(parts =~= flag_names(*self));
        out
    }
}

#[derive(Debug)]
pub struct UdpLayer {
    pub src_port: u16,
    pub dst_port: u16,
    pub length: u16,
}

#[derive(Debug)]
pub struct ArpLayer {
    pub hardware_type: u16,
    pub protocol_type: u16,
    pub operation: u16,
    pub sender_mac: String,
    pub sender_ip: String,
    pub target_mac: String,
    pub target_ip: String,
}

#[derive(Debug)]
pub struct IcmpLayer {
    pub icmp_type: u8,
    pub code: u8,
    pub checksum: u16,
    pub type_label: String,
}

#[derive(Debug)]
pub struct HttpLayer {
    pub is_request: bool,
    pub method: Option<String>,
    pub url: Option<String>,
    pub status_code: Option<u16>,
    pub status_text: Option<String>,
    pub headers: Vec<(String, String)>,
}

#[derive(Debug)]
pub struct DnsLayer {
    pub is_query: bool,
    pub query_type: Option<String>,
    pub domain: Option<String>,
    pub answers: Vec<DnsAnswer>,
}

#[derive(Debug)]
pub struct DnsAnswer {
    pub name: String,
    pub record_type: String,
    pub data: String,
    pub ttl: u32,
}

#[derive(Debug)]
pub struct TlsLayer {
    pub version: Option<String>,
    pub handshake_type: Option<String>,
    pub cipher_suites: Vec<String>,
}

/// A conversation between two endpoints.
#[derive(Debug)]
pub struct SessionInfo {
    pub id: String,
    pub src_addr: String,
    pub src_port: u16,
    pub dst_addr: String,
    pub dst_port: u16,
    pub protocol: ProtocolType,
    pub packet_count: u64,
    pub byte_count: u64,
    pub duration_ms: u64,
    pub state: SessionState,
    pub first_packet_no: u64,
    pub last_packet_no: u64,
}

impl Clone for SessionInfo {
    fn clone(&self) -> (r: Self)
        ensures
            r == *self,
    {
        SessionInfo {
            id: self.id.clone(),
            src_addr: self.src_addr.clone(),
            src_port: self.src_port,
            dst_addr: self.dst_addr.clone(),
            dst_port: self.dst_port,
            protocol: self.protocol,
            packet_count: self.packet_count,
            byte_count: self.byte_count,
            duration_ms: self.duration_ms,
            state: self.state,
            first_packet_no: self.first_packet_no,
            last_packet_no: self.last_packet_no,
        }
    }
}

#[derive(Debug, Clone, Copy, PartialEq, Eq, Structural)]
pub enum SessionState {
    Active,
    Closed,
    Expired,
}

/// The reassembled payload of both directions of a TCP conversation.
#[derive(Debug)]
pub struct TcpStreamData {
    pub session_id: String,
    pub client_data: Vec<StreamSegment>,
    pub server_data: Vec<StreamSegment>,
    pub has_gap: bool,
    pub gap_info: Option<String>,
}

/// One segment of a reassembled direction.
#[derive(Debug)]
pub struct StreamSegment {
    pub seq_start: u32,
    pub seq_end: u32,
    pub data: Vec<u8>,
    pub is_retransmission: bool,
    pub missing: bool,
}

/// A stream segment with its payload as a byte sequence.
pub struct SegmentView {
    pub seq_start: u32,
    pub seq_end: u32,
    pub data: Seq<u8>,
    pub is_retransmission: bool,
    pub missing: bool,
}

impl View for StreamSegment {
    type V = SegmentView;

    open spec fn view(&self) -> SegmentView {
        SegmentView {
            seq_start: self.seq_start,
            seq_end: self.seq_end,
            data: self.data@,
            is_retransmission: self.is_retransmission,
            missing: self.missing,
        }
    }
}

#[derive(Debug)]
pub struct CaptureStatus {
    pub is_capturing: bool,
    pub interface_name: Option<String>,
    pub packet_count: u64,
    pub dropped_count: u32,
}

/// One line of a hex dump: sixteen bytes at most.
#[derive(Debug)]
pub struct HexDumpLine {
    pub offset: String,
    pub hex: Vec<String>,
    pub ascii: String,
}

/// Aggregated traffic statistics.
#[derive(Debug)]
pub struct StatsSnapshot {
    pub protocol_counts: Vec<(String, u64)>,
    pub protocol_bytes: Vec<(String, u64)>,
    pub pps_timeline: Vec<(u64, u64)>,
    pub bps_timeline: Vec<(u64, u64)>,
    pub top_src_ips: Vec<(String, u64)>,
    pub top_dst_ips: Vec<(String, u64)>,
    pub top_ports: Vec<(u16, u64)>,
    pub tcp_states: Vec<(String, u64)>,
}

/// The bytes of one packet as captured, with its capture time.
#[derive(Debug)]
pub struct RawPacket {
    pub timestamp_secs: u64,
    pub timestamp_micros: u32,
    pub data: Vec<u8>,
}

/// A captured packet as plain values: seconds, microseconds, bytes.
pub open spec fn raw_view(p: RawPacket) -> (u64, u32, Seq<u8>) {
    (p.timestamp_secs, p.timestamp_micros, p.data@)
}

impl Clone for RawPacket {
    fn clone(&self) -> (r: Self)
        ensures
            r.timestamp_secs == self.timestamp_secs,
            r.timestamp_micros == self.timestamp_micros,
            r.data@ == self.data@,
    {
        RawPacket {
            timestamp_secs: self.timestamp_secs,
            timestamp_micros: self.timestamp_micros,
            data: copy_bytes(&self.data),
        }
    }
}

/// A copy of a byte vector.
pub fn copy_bytes(v: &Vec<u8>) -> (r: Vec<u8>)
    ensures
        r@ == v@,
{
    let mut r: Vec<u8> = Vec::new();
    let mut i: usize = 0;
    while i < v.len()
        invariant
            i <= v.len(),
            r@ == v@.subrange(0, i as int),
        decreases v.len() - i,
    {
        r.push(v[i]);
        i = i + 1;
    }
    assert(r@ =~= v@);
    r
}

/// The level of a user mark on a packet.
#[derive(Debug, Clone, Copy, PartialEq, Eq, Hash, Structural)]
pub enum MarkLevel {
    Starred,
    Warning,
    Important,
}

impl MarkLevel {
    pub open spec fn name_of(self) -> Seq<char> {
        match self {
            MarkLevel::Starred => "starred"@,
            MarkLevel::Warning => "warning"@,
            MarkLevel::Important => "important"@,
        }
    }

    /// The level whose name is exactly `s`.
    pub open spec fn parse_spec(s: Seq<char>) -> Option<MarkLevel> {
        if s == "starred"@ {
            Some(MarkLevel::Starred)
        } else if s == "warning"@ {
            Some(MarkLevel::Warning)
        } else if s == "important"@ {
            Some(MarkLevel::Important)
        } else {
            None
        }
    }

    pub fn as_str(&self) -> (s: &'static str)
        ensures
            s@ == self.name_of(),
    {
        match self {
            MarkLevel::Starred => "starred",
            MarkLevel::Warning => "warning",
            MarkLevel::Important => "important",
        }
    }

    pub fn from_str(s: &str) -> (r: Option<Self>)
        ensures
            r == Self::parse_spec(s@),
    {
        if same_text(s, "starred") {
            Some(MarkLevel::Starred)
        } else if same_text(s, "warning") {
            Some(MarkLevel::Warning)
        } else if same_text(s, "important") {
            Some(MarkLevel::Important)
        } else {
            None
        }
    }
}

/// A parsed mark level names the level it was parsed from: `from_str(as_str(l)) == Some(l)`.
pub proof fn lemma_mark_level_roundtrip(l: MarkLevel)
    ensures
        MarkLevel::parse_spec(l.name_of()) == Some(l),
{
    reveal_strlit("starred");
    reveal_strlit("warning");
    reveal_strlit("important");
    assert("starred"@ != "warning"@ && "starred"@ != "important"@ && "warning"@ != "important"@) by {
        assert("starred"@[0] != "warning"@[0]);
        assert("starred"@.len() != "important"@.len());
        assert("warning"@.len() != "important"@.len());
    }
}

/// A user mark on a packet.
#[derive(Debug)]
pub struct PacketMark {
    pub packet_no: u64,
    pub level: MarkLevel,
    pub comment: String,
    pub created_at: u64,
}

impl Clone for PacketMark {
    fn clone(&self) -> (r: Self)
        ensures
            r == *self,
    {
        PacketMark {
            packet_no: self.packet_no,
            level: self.level,
            comment: self.comment.clone(),
            created_at: self.created_at,
        }
    }
}

/// One TCP segment on the sequence timeline of a conversation.
#[derive(Debug)]
pub struct TcpSequenceEntry {
    pub packet_no: u64,
    pub timestamp_secs: u64,
    pub timestamp_micros: u32,
    pub direction: bool,
    pub seq_num: u32,
    pub ack_num: u32,
    pub payload_size: u32,
    pub flags: String,
    pub is_retransmission: bool,
    pub window_size: u16,
}

#[derive(Debug)]
pub struct TcpTimelineData {
    pub session_id: String,
    pub client_addr: String,
    pub client_port: u16,
    pub server_addr: String,
    pub server_port: u16,
    pub entries: Vec<TcpSequenceEntry>,
    pub is_truncated: bool,
    pub total_packets: u64,
}

/// A saved capture configuration.
#[derive(Debug)]
pub struct CaptureTemplate {
    pub name: String,
    pub interface_name: String,
    pub bpf_filter: String,
    pub promiscuous: bool,
    pub description: Option<String>,
    pub created_at: u64,
    pub updated_at: u64,
}

} // verus!
