//! Simulated traffic for attack patterns.
use vstd::prelude::*;
use rand::Rng;
use vstd::utf8::encode_utf8;
use crate::models::{PacketMetadata, ProtocolType};
use crate::protocol::parser::{dec, opt_chars};
use crate::replay::models::{AttackCategory, AttackPattern, AttackPatternParams};
use crate::rule::rate_counter::SlidingWindowCounter;
use crate::text::{
    chars_of, join, parse_u8, parse_u8_spec, pieces_view, push_decimal, push_joined, same_text,
    split_chars, split_on, to_uppercase, uppercase,
};

verus! {

/// Generated packets and their raw bytes, in the same order.
pub struct GeneratedTraffic {
    pub packets: Vec<PacketMetadata>,
    pub raw_data: Vec<Vec<u8>>,
}

// ---------------------------------------------------------------------------
// Draws from the outside world

/// Calls `rand::Rng::gen_range(lo..hi)` on the thread-local generator. The
/// crate documents the result as lying in the half-open range, and panics on
/// an empty range, which `requires` leaves out. Which value comes out is not
/// stated: it is random.
#[verifier::external_body]
fn random_in(lo: u64, hi: u64) -> (r: u64)
    requires
        lo < hi,
    ensures
        lo <= r < hi,
{
    rand::thread_rng().gen_range(lo..hi)
}

/// Calls `rand::random::<u8>()`: any byte, at random.
#[verifier::external_body]
fn random_byte() -> u8 {
    rand::random::<u8>()
}

/// Calls `SystemTime::now` and returns the nanoseconds part of the time since
/// the Unix epoch (0 if the clock is before it). `Duration::subsec_nanos` is
/// documented to be below one billion.
#[verifier::external_body]
fn current_subsec_nanos() -> (r: u32)
    ensures
        r < 1_000_000_000,
{
    match std::time::SystemTime::now().duration_since(std::time::UNIX_EPOCH) {
        Ok(d) => d.subsec_nanos(),
        Err(_) => 0,
    }
}

// ---------------------------------------------------------------------------
// Protocol, timing and ports

/// The protocol named (in upper case) by a pattern; TCP for any other name.
pub open spec fn protocol_named(u: Seq<char>) -> ProtocolType {
    if u == "TCP"@ {
        ProtocolType::TCP
    } else if u == "UDP"@ {
        ProtocolType::UDP
    } else if u == "ICMP"@ {
        ProtocolType::ICMP
    } else if u == "HTTP"@ {
        ProtocolType::HTTP
    } else if u == "DNS"@ {
        ProtocolType::DNS
    } else if u == "ARP"@ {
        ProtocolType::ARP
    } else if u == "TLS"@ {
        ProtocolType::TLS
    } else {
        ProtocolType::TCP
    }
}

/// The protocol a pattern's protocol name stands for, case aside.
pub fn protocol_for(name: &str) -> (p: ProtocolType)
    ensures
        p == protocol_named(uppercase(name@)),
{
    let u = to_uppercase(name);
    let s = u.as_str();
    if same_text(s, "TCP") {
        ProtocolType::TCP
    } else if same_text(s, "UDP") {
        ProtocolType::UDP
    } else if same_text(s, "ICMP") {
        ProtocolType::ICMP
    } else if same_text(s, "HTTP") {
        ProtocolType::HTTP
    } else if same_text(s, "DNS") {
        ProtocolType::DNS
    } else if same_text(s, "ARP") {
        ProtocolType::ARP
    } else if same_text(s, "TLS") {
        ProtocolType::TLS
    } else {
        ProtocolType::TCP
    }
}

pub open spec fn interval_spec(pps: u32) -> u64 {
    if pps > 0 {
        (1_000_000int / (pps as int)) as u64
    } else {
        1_000_000
    }
}

/// Microseconds between two generated packets: one second spread over the
/// packets of a second, or a whole second where the rate is zero.
pub fn packet_interval_micros(pps: u32) -> (r: u64)
    ensures
        r == interval_spec(pps),
        r <= 1_000_000,
{
    if pps > 0 {
        1_000_000u64 / (pps as u64)
    } else {
        1_000_000u64
    }
}

/// The seconds of the `i`-th packet's time stamp, modulo 2^64.
pub open spec fn ts_secs_spec(now_secs: u64, i: u32, interval: u64) -> u64 {
    let s = now_secs + (i as int * interval as int) / 1_000_000;
    if s > u64::MAX {
        (s - 0x1_0000_0000_0000_0000) as u64
    } else {
        s as u64
    }
}

/// The microseconds of the `i`-th packet's time stamp (not carried into the
/// seconds).
pub open spec fn ts_micros_spec(now_micros: u32, i: u32, interval: u64) -> u32 {
    (now_micros + (i as int * interval as int) % 1_000_000) as u32
}

/// The time stamp of the `i`-th packet of a run that starts at the given time.
pub fn packet_timestamp(now_secs: u64, now_micros: u32, i: u32, interval: u64) -> (r: (u64, u32))
    requires
        now_micros < 1_000_000,
        interval <= 1_000_000,
    ensures
        r.0 == ts_secs_spec(now_secs, i, interval),
        r.1 == ts_micros_spec(now_micros, i, interval),
{
    assert(i as int * interval as int <= 0xffff_ffff * 1_000_000) by (nonlinear_arith)
        requires
            interval <= 1_000_000,
            i <= 0xffff_ffff,
    ;
    let offset = i as u64 * interval;
    let secs = now_secs.wrapping_add(offset / 1_000_000);
    let micros = (now_micros as u64 + offset % 1_000_000) as u32;
    (secs, micros)
}

/// The source port of a generated packet: any in the range, or its low end
/// where the range is empty or a single port.
pub open spec fn source_port_ok(p: AttackPatternParams, port: u16) -> bool {
    if p.source_port_max > p.source_port_min {
        p.source_port_min <= port <= p.source_port_max
    } else {
        port == p.source_port_min
    }
}

/// The `i`-th port of a port scan: the range walked from its low end,
/// wrapping around (a range of all 65536 ports counts as a single port).
pub open spec fn scan_port(min: u16, max: u16, i: u32) -> u16 {
    let range = (max - min + 1) % 65536;
    let r = if range < 1 {
        1
    } else {
        range
    };
    (min + (i as int % 65536) % r) as u16
}

/// The target port of the `i`-th packet: the scan order for a port scan, any
/// in the range otherwise, or the range's low end where the range is empty or
/// a single port.
pub open spec fn target_port_ok(pat: AttackPattern, i: u32, port: u16) -> bool {
    let p = pat.params;
    if p.target_port_max > p.target_port_min {
        if pat.category == AttackCategory::PortScan {
            port == scan_port(p.target_port_min, p.target_port_max, i)
        } else {
            p.target_port_min <= port <= p.target_port_max
        }
    } else {
        port == p.target_port_min
    }
}

fn pick_source_port(p: &AttackPatternParams) -> (port: u16)
    ensures
        source_port_ok(*p, port),
{
    if p.source_port_max > p.source_port_min {
        random_in(p.source_port_min as u64, p.source_port_max as u64 + 1) as u16
    } else {
        p.source_port_min
    }
}

fn pick_target_port(pat: &AttackPattern, i: u32) -> (port: u16)
    ensures
        target_port_ok(*pat, i, port),
{
    let p = &pat.params;
    if p.target_port_max > p.target_port_min {
        match pat.category {
            AttackCategory::PortScan => {
                let diff = p.target_port_max - p.target_port_min;
                let range: u16 = if diff == 65535 {
                    0
                } else {
                    diff + 1
                };
                let r: u16 = if range < 1 {
                    1
                } else {
                    range
                };
                let step: u16 = (i % 65536) as u16 % r;
                p.target_port_min + step
            },
            _ => random_in(p.target_port_min as u64, p.target_port_max as u64 + 1) as u16,
        }
    } else {
        p.target_port_min
    }
}

// ---------------------------------------------------------------------------
// Addresses

pub open spec fn dotted(a: int, b: int, c: int, d: int) -> Seq<char> {
    dec(a) + "."@ + dec(b) + "."@ + dec(c) + "."@ + dec(d)
}

/// A random source address: first octet 1..224, middle ones 0..256, last
/// one 1..255.
pub open spec fn random_source_text(s: Seq<char>) -> bool {
    exists|a: int, b: int, c: int, d: int|
        1 <= a < 224 && 0 <= b < 256 && 0 <= c < 256 && 1 <= d < 255 && s == #[trigger] dotted(a, b, c, d)
}

fn random_source_ip() -> (s: String)
    ensures
        random_source_text(s@),
{
    let a = random_in(1, 224);
    let b = random_in(0, 256);
    let c = random_in(0, 256);
    let d = random_in(1, 255);
    let mut s = String::new();
    push_decimal(&mut s, a);
    s.append(".");
    push_decimal(&mut s, b);
    s.append(".");
    push_decimal(&mut s, c);
    s.append(".");
    push_decimal(&mut s, d);
    proof {
        reveal_strlit(".");
        reveal_strlit("");
        assert(s@ =~= dotted(a as int, b as int, c as int, d as int));
    }
    s
}

/// The octets among the pieces: each piece that reads as a byte, in order.
pub open spec fn octets(pieces: Seq<Seq<char>>) -> Seq<u8>
    decreases pieces.len(),
{
    if pieces.len() == 0 {
        Seq::empty()
    } else {
        let r = octets(pieces.drop_last());
        match parse_u8_spec(pieces.last()) {
            Some(v) => r.push(v),
            None => r,
        }
    }
}

/// The four bytes of a dotted address, or 127.0.0.1 unless exactly four of
/// its dot-separated pieces read as bytes.
pub open spec fn ip_bytes_spec(s: Seq<char>) -> Seq<u8> {
    let o = octets(split_on(s, '.'));
    if o.len() == 4 {
        o
    } else {
        seq![127u8, 0u8, 0u8, 1u8]
    }
}

fn ip_to_bytes(ip: &str) -> (r: Vec<u8>)
    ensures
        r@ == ip_bytes_spec(ip@),
{
    let chars = chars_of(ip);
    let pieces = split_chars(&chars, '.');
    let mut parts: Vec<u8> = Vec::new();
    let mut i: usize = 0;
    while i < pieces.len()
        invariant
            i <= pieces@.len(),
            parts@ == octets(pieces_view(pieces@).take(i as int)),
        decreases pieces.len() - i,
    {
        let ghost t = pieces_view(pieces@).take(i as int + 1);
        assert(t.drop_last() =~= pieces_view(pieces@).take(i as int));
        assert(t.last() == pieces@[i as int]@);
        match parse_u8(&pieces[i]) {
            Some(v) => parts.push(v),
            None => {},
        }
        i = i + 1;
    }
    assert(pieces_view(pieces@).take(i as int) =~= pieces_view(pieces@));
    if parts.len() == 4 {
        parts
    } else {
        let r = vec![127u8, 0u8, 0u8, 1u8];
        assert(r@ =~= seq![127u8, 0u8, 0u8, 1u8]);
        r
    }
}

// ---------------------------------------------------------------------------
// Flags, lengths and summaries

pub open spec fn strings_view(v: Seq<String>) -> Seq<Seq<char>> {
    v.map_values(|s: String| s@)
}

/// The TCP flags a TCP or HTTP packet is labelled with: the pattern's list
/// joined by ", ", or SYN; no label for other protocols.
pub open spec fn flags_label(p: AttackPatternParams, proto: ProtocolType) -> Option<Seq<char>> {
    if proto == ProtocolType::TCP || proto == ProtocolType::HTTP {
        match p.tcp_flags {
            Some(f) => Some(join(strings_view(f@), ", "@)),
            None => Some("SYN"@),
        }
    } else {
        None
    }
}

pub(crate) fn join_strings(v: &Vec<String>, sep: &str) -> (s: String)
    ensures
        s@ == join(strings_view(v@), sep@),
{
    let mut out = String::new();
    let mut i: usize = 0;
    proof {
        reveal_strlit("");
    }
    assert(strings_view(v@).take(0) =~= Seq::<Seq<char>>::empty());
    while i < v.len()
        invariant
            i <= v@.len(),
            out@ == join(strings_view(v@).take(i as int), sep@),
        decreases v.len() - i,
    {
        let ghost parts = strings_view(v@).take(i as int);
        push_joined(&mut out, Ghost(parts), i == 0, sep, v[i].as_str());
        assert(parts.push(v@[i as int]@) =~= strings_view(v@).take(i as int + 1));
        i = i + 1;
    }
    assert(strings_view(v@).take(i as int) =~= strings_view(v@));
    out
}

fn tcp_flags_label(p: &AttackPatternParams, proto: ProtocolType) -> (r: Option<String>)
    ensures
        opt_chars(r) == flags_label(*p, proto),
{
    if proto == ProtocolType::TCP || proto == ProtocolType::HTTP {
        match &p.tcp_flags {
            Some(flags) => Some(join_strings(flags, ", ")),
            None => Some(String::from_str("SYN")),
        }
    } else {
        None
    }
}

pub open spec fn is_tcp_like(proto: ProtocolType) -> bool {
    proto == ProtocolType::TCP || proto == ProtocolType::HTTP || proto == ProtocolType::TLS
}

pub open spec fn is_udp_like(proto: ProtocolType) -> bool {
    proto == ProtocolType::UDP || proto == ProtocolType::DNS
}

/// The length of a generated packet: drawn from a range that depends on the
/// protocol and the pattern (fixed at 42 for ARP).
pub open spec fn length_ok(proto: ProtocolType, p: AttackPatternParams, len: u32) -> bool {
    if is_tcp_like(proto) {
        if p.http_method is Some {
            200 <= len < 800
        } else {
            40 <= len < 1500
        }
    } else if is_udp_like(proto) {
        if p.dns_domain is Some {
            60 <= len < 512
        } else {
            28 <= len < 1500
        }
    } else if proto == ProtocolType::ICMP {
        64 <= len < 1024
    } else if proto == ProtocolType::ARP {
        len == 42
    } else {
        64 <= len < 1500
    }
}

/// A random packet length for the protocol and pattern.
pub fn generate_packet_length(protocol: ProtocolType, params: &AttackPatternParams) -> (len: u32)
    ensures
        length_ok(protocol, *params, len),
{
    match protocol {
        ProtocolType::TCP | ProtocolType::HTTP | ProtocolType::TLS => {
            if params.http_method.is_some() {
                random_in(200, 800) as u32
            } else {
                random_in(40, 1500) as u32
            }
        },
        ProtocolType::UDP | ProtocolType::DNS => {
            if params.dns_domain.is_some() {
                random_in(60, 512) as u32
            } else {
                random_in(28, 1500) as u32
            }
        },
        ProtocolType::ICMP => random_in(64, 1024) as u32,
        ProtocolType::ARP => 42,
        _ => random_in(64, 1500) as u32,
    }
}

pub open spec fn host_port(ip: Seq<char>, port: u16) -> Seq<char> {
    ip + ":"@ + dec(port as int)
}

/// The one-line summary of a generated packet.
pub open spec fn summary_spec(
    proto: ProtocolType,
    src: Seq<char>,
    sport: u16,
    dst: Seq<char>,
    dport: u16,
    flags: Option<Seq<char>>,
    p: AttackPatternParams,
) -> Seq<char> {
    let name = proto.name_of();
    if is_tcp_like(proto) {
        let f = match flags {
            Some(x) => x,
            None => "SYN"@,
        };
        match p.http_method {
            Some(m) => name + " "@ + m@ + " "@ + host_port(src, sport) + " -> "@ + host_port(dst, dport) + " "@
                + (match p.http_path {
                Some(x) => x@,
                None => "/"@,
            }) + " "@ + f,
            None => name + " "@ + host_port(src, sport) + " -> "@ + host_port(dst, dport) + " "@ + f,
        }
    } else if is_udp_like(proto) {
        match p.dns_domain {
            Some(d) => "DNS Query "@ + host_port(src, sport) + " -> "@ + dst + ":53 "@ + d@ + " "@ + name,
            None => name + " "@ + host_port(src, sport) + " -> "@ + host_port(dst, dport),
        }
    } else if proto == ProtocolType::ICMP {
        "ICMP Echo Request "@ + src + " -> "@ + dst
    } else if proto == ProtocolType::ARP {
        "ARP Request who-has "@ + dst + " tell "@ + src
    } else {
        name + " "@ + host_port(src, sport) + " -> "@ + host_port(dst, dport)
    }
}

fn push_host_port(out: &mut String, ip: &str, port: u16)
    ensures
        final(out)@ == old(out)@ + host_port(ip@, port),
{
    out.append(ip);
    out.append(":");
    push_decimal(out, port as u64);
    proof {
        reveal_strlit(":");
        assert(final(out)@ =~= old(out)@ + host_port(ip@, port));
    }
}

/// The one-line summary of a generated packet.
pub fn generate_summary(
    protocol: ProtocolType,
    src_ip: &str,
    src_port: u16,
    dst_ip: &str,
    dst_port: u16,
    tcp_flags: Option<&str>,
    params: &AttackPatternParams,
) -> (s: String)
    ensures
        s@ == summary_spec(
            protocol,
            src_ip@,
            src_port,
            dst_ip@,
            dst_port,
            match tcp_flags {
                Some(x) => Some(x@),
                None => None,
            },
            *params,
        ),
{
    let name = protocol.as_str();
    let mut s = String::new();
    proof {
        reveal_strlit("");
    }
    match protocol {
        ProtocolType::TCP | ProtocolType::HTTP | ProtocolType::TLS => {
            let flags: &str = match tcp_flags {
                Some(x) => x,
                None => "SYN",
            };
            match &params.http_method {
                Some(method) => {
                    let path: &str = match &params.http_path {
                        Some(x) => x.as_str(),
                        None => "/",
                    };
                    s.append(name);
                    s.append(" ");
                    s.append(method.as_str());
                    s.append(" ");
                    push_host_port(&mut s, src_ip, src_port);
                    s.append(" -> ");
                    push_host_port(&mut s, dst_ip, dst_port);
                    s.append(" ");
                    s.append(path);
                    s.append(" ");
                    s.append(flags);
                },
                None => {
                    s.append(name);
                    s.append(" ");
                    push_host_port(&mut s, src_ip, src_port);
                    s.append(" -> ");
                    push_host_port(&mut s, dst_ip, dst_port);
                    s.append(" ");
                    s.append(flags);
                },
            }
        },
        ProtocolType::UDP | ProtocolType::DNS => {
            match &params.dns_domain {
                Some(domain) => {
                    s.append("DNS Query ");
                    push_host_port(&mut s, src_ip, src_port);
                    s.append(" -> ");
                    s.append(dst_ip);
                    s.append(":53 ");
                    s.append(domain.as_str());
                    s.append(" ");
                    s.append(name);
                },
                None => {
                    s.append(name);
                    s.append(" ");
                    push_host_port(&mut s, src_ip, src_port);
                    s.append(" -> ");
                    push_host_port(&mut s, dst_ip, dst_port);
                },
            }
        },
        ProtocolType::ICMP => {
            s.append("ICMP Echo Request ");
            s.append(src_ip);
            s.append(" -> ");
            s.append(dst_ip);
        },
        ProtocolType::ARP => {
            s.append("ARP Request who-has ");
            s.append(dst_ip);
            s.append(" tell ");
            s.append(src_ip);
        },
        _ => {
            s.append(name);
            s.append(" ");
            push_host_port(&mut s, src_ip, src_port);
            s.append(" -> ");
            push_host_port(&mut s, dst_ip, dst_port);
        },
    }
    assert(s@ =~= summary_spec(
        protocol,
        src_ip@,
        src_port,
        dst_ip@,
        dst_port,
        match tcp_flags {
            Some(x) => Some(x@),
            None => None,
        },
        *params,
    ));
    s
}

// ---------------------------------------------------------------------------
// Raw bytes

/// A 16-bit value as two bytes, most significant first.
pub open spec fn be2(v: int) -> Seq<u8> {
    seq![((v / 256) % 256) as u8, (v % 256) as u8]
}

/// The IP protocol number of a generated packet.
pub open spec fn proto_byte(proto: ProtocolType) -> u8 {
    if is_udp_like(proto) {
        17
    } else if proto == ProtocolType::ICMP {
        1
    } else {
        6
    }
}

/// The TCP flag bit named by an (upper-case) flag name; 0 for other names.
pub open spec fn flag_bit(f: Seq<char>) -> u8 {
    if f == "SYN"@ {
        0x02
    } else if f == "ACK"@ {
        0x10
    } else if f == "FIN"@ {
        0x01
    } else if f == "RST"@ {
        0x04
    } else if f == "PSH"@ {
        0x08
    } else if f == "URG"@ {
        0x20
    } else {
        0
    }
}

pub open spec fn flag_bits(fs: Seq<Seq<char>>) -> u8
    decreases fs.len(),
{
    if fs.len() == 0 {
        0
    } else {
        flag_bits(fs.drop_last()) | flag_bit(uppercase(fs.last()))
    }
}

/// The TCP flags byte: the pattern's flags, case aside, or SYN alone.
pub open spec fn flags_byte(p: AttackPatternParams) -> u8 {
    match p.tcp_flags {
        Some(f) => flag_bits(strings_view(f@)),
        None => 0x02,
    }
}

/// The UDP length field: the packet length less 34, modulo 2^16.
pub open spec fn udp_len_field(length: nat) -> int {
    if length >= 34 {
        (length - 34) % 65536
    } else {
        65502 + length as int
    }
}

/// The transport header of a generated packet; `n` supplies the random bytes.
pub open spec fn transport_bytes(
    proto: ProtocolType,
    sport: u16,
    dport: u16,
    length: nat,
    p: AttackPatternParams,
    n: Seq<u8>,
) -> Seq<u8> {
    if is_tcp_like(proto) {
        be2(sport as int) + be2(dport as int) + n.subrange(15, 23) + seq![0x50u8, flags_byte(p)] + n.subrange(
            23,
            25,
        ) + seq![0u8, 0u8, 0u8, 0u8]
    } else if is_udp_like(proto) {
        be2(sport as int) + be2(dport as int) + be2(udp_len_field(length)) + seq![0u8, 0u8] + if p.dns_domain is Some {
            n.subrange(15, 17) + seq![1u8, 0u8, 0u8, 1u8, 0u8, 0u8, 0u8, 0u8, 0u8, 0u8]
        } else {
            Seq::empty()
        }
    } else if proto == ProtocolType::ICMP {
        seq![8u8, 0u8, 0u8, 0u8] + n.subrange(15, 19)
    } else {
        Seq::empty()
    }
}

/// The Ethernet and IPv4 headers of a generated packet; `n` supplies the
/// random bytes (MAC addresses, IP id, TTL).
pub open spec fn link_ip_bytes(proto: ProtocolType, src: Seq<u8>, dst: Seq<u8>, length: nat, n: Seq<u8>) -> Seq<
    u8,
> {
    n.subrange(0, 12) + seq![0x08u8, 0x00u8, 0x45u8, 0x00u8] + be2((length % 65536) as int) + n.subrange(12, 14)
        + seq![0x40u8, 0x00u8, n[14], proto_byte(proto), 0u8, 0u8] + src + dst
}

pub open spec fn payload_bytes(p: AttackPatternParams) -> Seq<u8> {
    match p.payload_pattern {
        Some(x) => encode_utf8(x@),
        None => Seq::empty(),
    }
}

/// Ethernet, IPv4 and transport headers, then the pattern's payload.
pub open spec fn raw_body(
    proto: ProtocolType,
    src: Seq<u8>,
    sport: u16,
    dst: Seq<u8>,
    dport: u16,
    length: nat,
    p: AttackPatternParams,
    n: Seq<u8>,
) -> Seq<u8> {
    link_ip_bytes(proto, src, dst, length, n) + transport_bytes(proto, sport, dport, length, p, n) + payload_bytes(p)
}

/// The raw packet: the body cut to `length` bytes, or padded to it with the
/// random bytes from position 25 of `n` on.
pub open spec fn raw_packet_spec(
    proto: ProtocolType,
    src: Seq<u8>,
    sport: u16,
    dst: Seq<u8>,
    dport: u16,
    length: nat,
    p: AttackPatternParams,
    n: Seq<u8>,
) -> Seq<u8> {
    let b = raw_body(proto, src, sport, dst, dport, length, p, n);
    if b.len() >= length {
        b.take(length as int)
    } else {
        b + n.subrange(25, 25 + length - b.len())
    }
}

fn push_u16_be(data: &mut Vec<u8>, v: u16)
    ensures
        final(data)@ == old(data)@ + be2(v as int),
{
    data.push((v / 256) as u8);
    data.push((v % 256) as u8);
    assert(final(data)@ =~= old(data)@ + be2(v as int));
}

fn push_slice(data: &mut Vec<u8>, src: &[u8], a: usize, b: usize)
    requires
        a <= b <= src@.len(),
    ensures
        final(data)@ == old(data)@ + src@.subrange(a as int, b as int),
{
    let mut i = a;
    while i < b
        invariant
            a <= i <= b,
            b <= src@.len(),
            data@ == old(data)@ + src@.subrange(a as int, i as int),
        decreases b - i,
    {
        data.push(src[i]);
        i = i + 1;
        assert(data@ =~= old(data)@ + src@.subrange(a as int, i as int));
    }
}

fn push_bytes(data: &mut Vec<u8>, bytes: &[u8])
    ensures
        final(data)@ == old(data)@ + bytes@,
{
    push_slice(data, bytes, 0, bytes.len());
    assert(bytes@.subrange(0, bytes@.len() as int) =~= bytes@);
}

fn flag_bit_of(u: &str) -> (b: u8)
    ensures
        b == flag_bit(u@),
{
    if same_text(u, "SYN") {
        0x02
    } else if same_text(u, "ACK") {
        0x10
    } else if same_text(u, "FIN") {
        0x01
    } else if same_text(u, "RST") {
        0x04
    } else if same_text(u, "PSH") {
        0x08
    } else if same_text(u, "URG") {
        0x20
    } else {
        0
    }
}

fn flags_byte_of(p: &AttackPatternParams) -> (b: u8)
    ensures
        b == flags_byte(*p),
{
    match &p.tcp_flags {
        Some(list) => {
            let mut b: u8 = 0;
            let mut i: usize = 0;
            assert(strings_view(list@).take(0) =~= Seq::<Seq<char>>::empty());
            while i < list.len()
                invariant
                    i <= list@.len(),
                    b == flag_bits(strings_view(list@).take(i as int)),
                decreases list.len() - i,
            {
                let ghost t = strings_view(list@).take(i as int + 1);
                assert(t.drop_last() =~= strings_view(list@).take(i as int));
                assert(t.last() == list@[i as int]@);
                let u = to_uppercase(list[i].as_str());
                b = b | flag_bit_of(u.as_str());
                i = i + 1;
            }
            assert(strings_view(list@).take(i as int) =~= strings_view(list@));
            b
        },
        None => 0x02,
    }
}

fn push_link_ip(data: &mut Vec<u8>, protocol: ProtocolType, src: &[u8], dst: &[u8], length: usize, noise: &[u8])
    requires
        noise@.len() >= 25,
    ensures
        final(data)@ == old(data)@ + link_ip_bytes(protocol, src@, dst@, length as nat, noise@),
{
    push_slice(data, noise, 0, 12);
    data.push(0x08);
    data.push(0x00);
    data.push(0x45);
    data.push(0x00);
    push_u16_be(data, (length % 65536) as u16);
    push_slice(data, noise, 12, 14);
    data.push(0x40);
    data.push(0x00);
    data.push(noise[14]);
    let pb: u8 = match protocol {
        ProtocolType::UDP | ProtocolType::DNS => 0x11,
        ProtocolType::ICMP => 0x01,
        _ => 0x06,
    };
    data.push(pb);
    data.push(0);
    data.push(0);
    push_bytes(data, src);
    push_bytes(data, dst);
    assert(final(data)@ =~= old(data)@ + link_ip_bytes(protocol, src@, dst@, length as nat, noise@));
}

fn push_transport(
    data: &mut Vec<u8>,
    protocol: ProtocolType,
    src_port: u16,
    dst_port: u16,
    length: usize,
    params: &AttackPatternParams,
    noise: &[u8],
)
    requires
        noise@.len() >= 25,
    ensures
        final(data)@ == old(data)@ + transport_bytes(protocol, src_port, dst_port, length as nat, *params, noise@),
{
    match protocol {
        ProtocolType::TCP | ProtocolType::HTTP | ProtocolType::TLS => {
            push_u16_be(data, src_port);
            push_u16_be(data, dst_port);
            push_slice(data, noise, 15, 23);
            data.push(0x50);
            data.push(flags_byte_of(params));
            push_slice(data, noise, 23, 25);
            data.push(0);
            data.push(0);
            data.push(0);
            data.push(0);
        },
        ProtocolType::UDP | ProtocolType::DNS => {
            push_u16_be(data, src_port);
            push_u16_be(data, dst_port);
            let udp_len: u16 = if length >= 34 {
                ((length - 34) % 65536) as u16
            } else {
                (65502 + length) as u16
            };
            push_u16_be(data, udp_len);
            data.push(0);
            data.push(0);
            if params.dns_domain.is_some() {
                push_slice(data, noise, 15, 17);
                data.push(1);
                data.push(0);
                data.push(0);
                data.push(1);
                data.push(0);
                data.push(0);
                data.push(0);
                data.push(0);
                data.push(0);
                data.push(0);
            }
        },
        ProtocolType::ICMP => {
            data.push(8);
            data.push(0);
            data.push(0);
            data.push(0);
            push_slice(data, noise, 15, 19);
        },
        _ => {},
    }
    assert(final(data)@ =~= old(data)@ + transport_bytes(protocol, src_port, dst_port, length as nat, *params, noise@));
}

/// Cuts `data` to `length` bytes or pads it with the bytes of `noise` from
/// position 25 on.
fn fit_length(data: &mut Vec<u8>, length: usize, noise: &[u8])
    requires
        noise@.len() >= 25 + length,
    ensures
        final(data)@ == if old(data)@.len() >= length {
            old(data)@.take(length as int)
        } else {
            old(data)@ + noise@.subrange(25, 25 + length - old(data)@.len())
        },
{
    if data.len() < length {
        let ghost body = data@;
        let start = data.len();
        let mut k: usize = 25;
        assert(data@ =~= body + noise@.subrange(25, 25));
        while data.len() < length
            invariant
                start == body.len(),
                start < length,
                25 <= k,
                k - 25 == data@.len() - start,
                data@.len() <= length,
                noise@.len() >= 25 + length,
                data@ == body + noise@.subrange(25, k as int),
            decreases length - data@.len(),
        {
            data.push(noise[k]);
            k = k + 1;
            assert(data@ =~= body + noise@.subrange(25, k as int));
        }
    } else {
        data.truncate(length);
    }
}

/// The raw packet of a generated packet, the random bytes taken from `noise`.
pub fn assemble_raw_packet(
    protocol: ProtocolType,
    src_ip: &str,
    src_port: u16,
    dst_ip: &str,
    dst_port: u16,
    length: usize,
    params: &AttackPatternParams,
    noise: &[u8],
) -> (data: Vec<u8>)
    requires
        noise@.len() >= 25 + length,
    ensures
        data@ == raw_packet_spec(
            protocol,
            ip_bytes_spec(src_ip@),
            src_port,
            ip_bytes_spec(dst_ip@),
            dst_port,
            length as nat,
            *params,
            noise@,
        ),
{
    let src_b = ip_to_bytes(src_ip);
    let dst_b = ip_to_bytes(dst_ip);
    let mut data: Vec<u8> = Vec::new();
    push_link_ip(&mut data, protocol, src_b.as_slice(), dst_b.as_slice(), length, noise);
    push_transport(&mut data, protocol, src_port, dst_port, length, params, noise);
    match &params.payload_pattern {
        Some(payload) => push_bytes(&mut data, payload.as_str().as_bytes()),
        None => {},
    }
    assert(data@ =~= raw_body(
        protocol,
        ip_bytes_spec(src_ip@),
        src_port,
        ip_bytes_spec(dst_ip@),
        dst_port,
        length as nat,
        *params,
        noise@,
    ));
    fit_length(&mut data, length, noise);
    data
}

/// A raw packet for the generated packet, its random bytes freshly drawn.
pub fn generate_raw_packet(
    protocol: ProtocolType,
    src_ip: &str,
    src_port: u16,
    dst_ip: &str,
    dst_port: u16,
    length: usize,
    params: &AttackPatternParams,
) -> (data: Vec<u8>)
    requires
        length + 25 <= usize::MAX,
    ensures
        exists|n: Seq<u8>|
            n.len() >= 25 + length && data@ == #[trigger] raw_packet_spec(
                protocol,
                ip_bytes_spec(src_ip@),
                src_port,
                ip_bytes_spec(dst_ip@),
                dst_port,
                length as nat,
                *params,
                n,
            ),
{
    let mut noise: Vec<u8> = Vec::new();
    let total = 25 + length;
    while noise.len() < total
        invariant
            total == 25 + length,
            noise@.len() <= total,
        decreases total - noise@.len(),
    {
        noise.push(random_byte());
    }
    let data = assemble_raw_packet(protocol, src_ip, src_port, dst_ip, dst_port, length, params, noise.as_slice());
    data
}

// ---------------------------------------------------------------------------
// Packets

/// What holds of the `i`-th generated packet of a run, whatever the random
/// draws: its number, time stamp, addresses, ports, protocol, length, summary,
/// header fields and raw bytes.
pub open spec fn generated_ok(
    pat: AttackPattern,
    proto: ProtocolType,
    target: Seq<char>,
    base_src: Seq<char>,
    now_secs: u64,
    now_micros: u32,
    interval: u64,
    i: u32,
    m: PacketMetadata,
    raw: Seq<u8>,
) -> bool {
    let p = pat.params;
    &&& m.no == i + 1
    &&& m.timestamp_secs == ts_secs_spec(now_secs, i, interval)
    &&& m.timestamp_micros == ts_micros_spec(now_micros, i, interval)
    &&& (if p.random_source_ip {
        random_source_text(m.src_addr@)
    } else {
        m.src_addr@ == base_src
    })
    &&& m.dst_addr@ == target
    &&& m.protocol == proto
    &&& m.src_port matches Some(sp) && source_port_ok(p, sp)
    &&& m.dst_port matches Some(dp) && target_port_ok(pat, i, dp)
    &&& length_ok(proto, p, m.length)
    &&& opt_chars(m.tcp_flags) == flags_label(p, proto)
    &&& m.summary@ == summary_spec(proto, m.src_addr@, m.src_port->0, target, m.dst_port->0, flags_label(p, proto), p)
    &&& m.ttl matches Some(t) && 32 <= t < 128
    &&& (if proto == ProtocolType::TCP || proto == ProtocolType::HTTP {
        m.window_size matches Some(w) && 1024 <= w < 65535
    } else {
        m.window_size is None
    })
    &&& m.ip_id matches Some(x) && x < 65535
    &&& m.fragment_offset == Some(0u16)
    &&& exists|n: Seq<u8>|
        n.len() >= 25 + m.length && raw == #[trigger] raw_packet_spec(
            proto,
            ip_bytes_spec(m.src_addr@),
            m.src_port->0,
            ip_bytes_spec(target),
            m.dst_port->0,
            m.length as nat,
            p,
            n,
        )
}

/// The `i`-th packet of a run started at the given time.
fn generate_packet(
    pattern: &AttackPattern,
    protocol: ProtocolType,
    target_ip: &String,
    base_src: &String,
    now_secs: u64,
    now_micros: u32,
    interval: u64,
    i: u32,
) -> (r: (PacketMetadata, Vec<u8>))
    requires
        now_micros < 1_000_000,
        interval <= 1_000_000,
    ensures
        generated_ok(*pattern, protocol, target_ip@, base_src@, now_secs, now_micros, interval, i, r.0, r.1@),
{
    let params = &pattern.params;
    let (ts_secs, ts_micros) = packet_timestamp(now_secs, now_micros, i, interval);
    let src_ip = if params.random_source_ip {
        random_source_ip()
    } else {
        base_src.clone()
    };
    let src_port = pick_source_port(params);
    let dst_port = pick_target_port(pattern, i);
    let tcp_flags = tcp_flags_label(params, protocol);
    let length = generate_packet_length(protocol, params);
    let flags_ref: Option<&str> = match &tcp_flags {
        Some(f) => Some(f.as_str()),
        None => None,
    };
    let summary = generate_summary(protocol, src_ip.as_str(), src_port, target_ip.as_str(), dst_port, flags_ref, params);
    let ttl = random_in(32, 128) as u8;
    let window_size = if protocol == ProtocolType::TCP || protocol == ProtocolType::HTTP {
        Some(random_in(1024, 65535) as u16)
    } else {
        None
    };
    let ip_id = random_in(0, 65535) as u16;
    let ghost src_view = src_ip@;
    let raw = generate_raw_packet(
        protocol,
        src_ip.as_str(),
        src_port,
        target_ip.as_str(),
        dst_port,
        length as usize,
        params,
    );
    let meta = PacketMetadata {
        no: i as u64 + 1,
        timestamp_secs: ts_secs,
        timestamp_micros: ts_micros,
        src_addr: src_ip,
        src_port: Some(src_port),
        dst_addr: target_ip.clone(),
        dst_port: Some(dst_port),
        protocol,
        length,
        summary,
        ttl: Some(ttl),
        window_size,
        tcp_flags,
        ip_id: Some(ip_id),
        fragment_offset: Some(0),
    };
    let ghost m = meta;
    let ghost n = choose|n: Seq<u8>|
        n.len() >= 25 + (length as usize) && raw@ == #[trigger] raw_packet_spec(
            protocol,
            ip_bytes_spec(src_view),
            src_port,
            ip_bytes_spec(target_ip@),
            dst_port,
            (length as usize) as nat,
            *params,
            n,
        );
    assert(raw@ == raw_packet_spec(
            protocol,
            ip_bytes_spec(m.src_addr@),
            m.src_port->0,
            ip_bytes_spec(target_ip@),
            m.dst_port->0,
            m.length as nat,
            *params,
            n,
        ));
    assert(exists|n: Seq<u8>|
        n.len() >= 25 + m.length && raw@ == #[trigger] raw_packet_spec(
            protocol,
            ip_bytes_spec(m.src_addr@),
            m.src_port->0,
            ip_bytes_spec(target_ip@),
            m.dst_port->0,
            m.length as nat,
            *params,
            n,
        ));
    (meta, raw)
}

/// The address a run targets: the override, else the pattern's, else
/// 127.0.0.1.
pub open spec fn target_spec(over: Option<String>, p: AttackPatternParams) -> Seq<char> {
    match over {
        Some(t) => t@,
        None => match p.target_ip {
            Some(t) => t@,
            None => "127.0.0.1"@,
        },
    }
}

/// What holds of a whole run: one packet and one raw packet per requested
/// packet, each as `generated_ok` says, for the run's start time and (where
/// the source address is not drawn per packet) its one random source address.
pub open spec fn traffic_ok(
    pattern: AttackPattern,
    target: Seq<char>,
    t: GeneratedTraffic,
    now_secs: u64,
    now_micros: u32,
    base_src: Seq<char>,
) -> bool {
    let p = pattern.params;
    let proto = protocol_named(uppercase(p.protocol@));
    &&& now_micros < 1_000_000
    &&& (!p.random_source_ip ==> random_source_text(base_src))
    &&& t.packets@.len() == p.packet_count
    &&& t.raw_data@.len() == p.packet_count
    &&& forall|i: int|
        0 <= i < p.packet_count ==> generated_ok(
            pattern,
            proto,
            target,
            base_src,
            now_secs,
            now_micros,
            interval_spec(p.packets_per_second),
            i as u32,
            #[trigger] t.packets@[i],
            t.raw_data@[i]@,
        )
}

/// Generates the traffic of an attack pattern: `packet_count` packets spaced
/// by the pattern's rate from now on, with their raw bytes.
pub fn generate_traffic(pattern: &AttackPattern, target_ip_override: Option<String>) -> (t: GeneratedTraffic)
    ensures
        exists|now_secs: u64, now_micros: u32, base_src: Seq<char>|
            #[trigger] traffic_ok(
                *pattern,
                target_spec(target_ip_override, pattern.params),
                t,
                now_secs,
                now_micros,
                base_src,
            ),
{
    let params = &pattern.params;
    let ghost target_view = target_spec(target_ip_override, pattern.params);
    let target_ip: String = match target_ip_override {
        Some(t) => t,
        None => match &params.target_ip {
            Some(t) => t.clone(),
            None => String::from_str("127.0.0.1"),
        },
    };
    let base_src: String = if !params.random_source_ip {
        random_source_ip()
    } else {
        String::new()
    };
    let protocol = protocol_for(params.protocol.as_str());
    let now_secs = SlidingWindowCounter::current_timestamp_secs();
    let now_micros = current_subsec_nanos() / 1000;
    let interval = packet_interval_micros(params.packets_per_second);
    let mut packets: Vec<PacketMetadata> = Vec::new();
    let mut raw_data: Vec<Vec<u8>> = Vec::new();
    let mut i: u32 = 0;
    while i < params.packet_count
        invariant
            params == &pattern.params,
            i <= params.packet_count,
            packets@.len() == i,
            raw_data@.len() == i,
            now_micros < 1_000_000,
            interval == interval_spec(params.packets_per_second),
            protocol == protocol_named(uppercase(params.protocol@)),
            target_ip@ == target_view,
            forall|k: int|
                0 <= k < i ==> generated_ok(
                    *pattern,
                    protocol,
                    target_ip@,
                    base_src@,
                    now_secs,
                    now_micros,
                    interval,
                    k as u32,
                    #[trigger] packets@[k],
                    raw_data@[k]@,
                ),
        decreases params.packet_count - i,
    {
        let (meta, raw) = generate_packet(pattern, protocol, &target_ip, &base_src, now_secs, now_micros, interval, i);
        packets.push(meta);
        raw_data.push(raw);
        i = i + 1;
    }
    let t = GeneratedTraffic { packets, raw_data };
    assert(traffic_ok(*pattern, target_view, t, now_secs, now_micros, base_src@));
    t
}

} // verus!
