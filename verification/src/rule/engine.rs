//! Rule evaluation: the conditions of detection rules against packets.
use vstd::prelude::*;
use crate::models::{FieldEntry, PacketDetail, PacketMetadata, ProtocolType};
use crate::protocol::parser::{lossy, utf8_lossy};
use crate::rule::models::{
    Cond, ConditionNode, DetectionRule, EvalContext, FlagMatchMode, IpField, LengthOperator,
    PortField, RuleV, TcpFlag, conds_of, duplicate_rules, lemma_conds_of, rules_view, texts,
};
use crate::rule::rate_counter::{
    CounterView, RateCounterManager, counters_room, lemma_recorded_room, lemma_room_weaken,
    manager_view, rate_view, recorded_view,
};
use crate::text::{
    chars_of, has_suffix, lower_text, lowercase, same_text, to_lowercase, to_uppercase, trim_chars, trimmed,
    uppercase,
};

verus! {

// ---------------------------------------------------------------------------
// Addresses and patterns, as the outside crates read them

/// Whether `cidr::IpCidr` parses the text.
pub uninterp spec fn cidr_parses(s: Seq<char>) -> bool;

/// Whether the network that `cidr::IpCidr` parses from `cidr` contains the
/// address that `str::parse` reads from `addr` (false where the address does
/// not parse).
pub uninterp spec fn cidr_holds(cidr: Seq<char>, addr: Seq<char>) -> bool;

/// What `regex::Regex::new` gives for the pattern: `Ok` where it compiles,
/// else the text of its error.
pub uninterp spec fn regex_outcome(pattern: Seq<char>) -> Result<(), Seq<char>>;

/// Whether the compiled pattern finds a match in the text (`Regex::is_match`).
pub uninterp spec fn regex_finds(pattern: Seq<char>, text: Seq<char>) -> bool;

/// Calls `s.parse::<cidr::IpCidr>()` and tells whether it succeeded. The
/// contract names the outcome `cidr_parses`; the accepted syntax is not
/// restated.
#[verifier::external_body]
pub(crate) fn cidr_valid(s: &str) -> (b: bool)
    ensures
        b == cidr_parses(s@),
{
    s.parse::<cidr::IpCidr>().is_ok()
}

/// Parses `cidr` as `cidr::IpCidr` and `addr` as an IP address and calls
/// `IpCidr::contains`; false where either does not parse. The contract states
/// the failure of the network's parse and names the rest `cidr_holds`.
#[verifier::external_body]
pub(crate) fn address_in_cidr(cidr: &str, addr: &str) -> (b: bool)
    ensures
        b == (cidr_parses(cidr@) && cidr_holds(cidr@, addr@)),
{
    match cidr.parse::<cidr::IpCidr>() {
        Ok(c) => match addr.parse() {
            Ok(ip) => c.contains(&ip),
            Err(_) => false,
        },
        Err(_) => false,
    }
}

/// Calls `regex::Regex::new` on the pattern; the error becomes its text. The
/// contract names the outcome `regex_outcome`.
#[verifier::external_body]
pub(crate) fn regex_compile(pattern: &str) -> (r: Result<(), String>)
    ensures
        match r {
            Ok(_) => regex_outcome(pattern@) is Ok,
            Err(m) => regex_outcome(pattern@) == Err::<(), Seq<char>>(m@),
        },
{
    match regex::Regex::new(pattern) {
        Ok(_) => Ok(()),
        Err(e) => Err(e.to_string()),
    }
}

/// Calls `regex::Regex::new` on the pattern and `Regex::is_match` on the text;
/// false where the pattern does not compile. The match is named `regex_finds`.
#[verifier::external_body]
pub(crate) fn regex_is_match(pattern: &str, text: &str) -> (b: bool)
    ensures
        b == (regex_outcome(pattern@) is Ok && regex_finds(pattern@, text@)),
{
    match regex::Regex::new(pattern) {
        Ok(re) => re.is_match(text),
        Err(_) => false,
    }
}

// ---------------------------------------------------------------------------
// Single tests

pub open spec fn is_ascii_upper(c: char) -> bool {
    'A' <= c && c <= 'Z'
}

/// Two characters equal but for the case of ASCII letters.
pub open spec fn chars_ascii_ci(a: char, b: char) -> bool {
    ||| a == b
    ||| is_ascii_upper(a) && a as int + 32 == b as int
    ||| is_ascii_upper(b) && b as int + 32 == a as int
}

/// `str::eq_ignore_ascii_case`.
pub open spec fn ascii_ci_equal(a: Seq<char>, b: Seq<char>) -> bool {
    a.len() == b.len() && forall|i: int| 0 <= i < a.len() ==> #[trigger] chars_ascii_ci(a[i], b[i])
}

fn char_ascii_ci(a: char, b: char) -> (r: bool)
    ensures
        r == chars_ascii_ci(a, b),
{
    if a == b {
        return true;
    }
    let ua = 'A' <= a && a <= 'Z';
    let ub = 'A' <= b && b <= 'Z';
    let ai = a as u32;
    let bi = b as u32;
    (ua && ai + 32 == bi) || (ub && bi + 32 == ai)
}

/// Whether two strings are equal but for the case of ASCII letters.
pub fn eq_ignore_ascii_case(a: &str, b: &str) -> (r: bool)
    ensures
        r == ascii_ci_equal(a@, b@),
{
    let x = chars_of(a);
    let y = chars_of(b);
    if x.len() != y.len() {
        return false;
    }
    let mut i: usize = 0;
    while i < x.len()
        invariant
            x@ == a@,
            y@ == b@,
            x@.len() == y@.len(),
            i <= x@.len(),
            forall|k: int| 0 <= k < i ==> #[trigger] chars_ascii_ci(x@[k], y@[k]),
        decreases x.len() - i,
    {
        if !char_ascii_ci(x[i], y[i]) {
            return false;
        }
        i = i + 1;
    }
    true
}

/// Whether a packet's protocol is the one named (case aside): the transport
/// names take in the protocols carried over them.
pub open spec fn protocol_matches(p: ProtocolType, name: Seq<char>) -> bool {
    let l = lower_text(name);
    if l == "tcp"@ {
        p == ProtocolType::TCP || p == ProtocolType::HTTP || p == ProtocolType::TLS
    } else if l == "udp"@ {
        p == ProtocolType::UDP || p == ProtocolType::DNS
    } else if l == "http"@ {
        p == ProtocolType::HTTP
    } else if l == "dns"@ {
        p == ProtocolType::DNS
    } else if l == "tls"@ || l == "ssl"@ {
        p == ProtocolType::TLS
    } else if l == "icmp"@ {
        p == ProtocolType::ICMP
    } else if l == "arp"@ {
        p == ProtocolType::ARP
    } else if l == "ip"@ || l == "ipv4"@ {
        p == ProtocolType::IPv4
    } else if l == "ipv6"@ {
        p == ProtocolType::IPv6
    } else {
        ascii_ci_equal(p.name_of(), name)
    }
}

pub fn check_protocol_match(meta: &PacketMetadata, protocol: &str) -> (r: bool)
    ensures
        r == protocol_matches(meta.protocol, protocol@),
{
    let lower = to_lowercase(protocol);
    let l = lower.as_str();
    let p = meta.protocol;
    if same_text(l, "tcp") {
        p == ProtocolType::TCP || p == ProtocolType::HTTP || p == ProtocolType::TLS
    } else if same_text(l, "udp") {
        p == ProtocolType::UDP || p == ProtocolType::DNS
    } else if same_text(l, "http") {
        p == ProtocolType::HTTP
    } else if same_text(l, "dns") {
        p == ProtocolType::DNS
    } else if same_text(l, "tls") || same_text(l, "ssl") {
        p == ProtocolType::TLS
    } else if same_text(l, "icmp") {
        p == ProtocolType::ICMP
    } else if same_text(l, "arp") {
        p == ProtocolType::ARP
    } else if same_text(l, "ip") || same_text(l, "ipv4") {
        p == ProtocolType::IPv4
    } else if same_text(l, "ipv6") {
        p == ProtocolType::IPv6
    } else {
        eq_ignore_ascii_case(p.as_str(), protocol)
    }
}

pub open spec fn in_cidr(cidr: Seq<char>, addr: Seq<char>) -> bool {
    cidr_parses(cidr) && cidr_holds(cidr, addr)
}

/// Whether the chosen address (or either one) lies in the network.
pub open spec fn ip_matches(m: PacketMetadata, f: IpField, cidr: Seq<char>) -> bool {
    match f {
        IpField::Src => in_cidr(cidr, m.src_addr@),
        IpField::Dst => in_cidr(cidr, m.dst_addr@),
        IpField::Either => in_cidr(cidr, m.src_addr@) || in_cidr(cidr, m.dst_addr@),
    }
}

pub fn check_ip_match(meta: &PacketMetadata, field: &IpField, cidr_str: &str) -> (r: bool)
    ensures
        r == ip_matches(*meta, *field, cidr_str@),
{
    match field {
        IpField::Src => address_in_cidr(cidr_str, meta.src_addr.as_str()),
        IpField::Dst => address_in_cidr(cidr_str, meta.dst_addr.as_str()),
        IpField::Either => address_in_cidr(cidr_str, meta.src_addr.as_str()) || address_in_cidr(
            cidr_str,
            meta.dst_addr.as_str(),
        ),
    }
}

pub open spec fn port_in(port: Option<u16>, min: u16, max: u16) -> bool {
    match port {
        Some(p) => min <= p && p <= max,
        None => false,
    }
}

/// Whether the chosen port (or either one) is known and within `min..=max`.
pub open spec fn port_matches(m: PacketMetadata, f: PortField, min: u16, max: u16) -> bool {
    match f {
        PortField::Src => port_in(m.src_port, min, max),
        PortField::Dst => port_in(m.dst_port, min, max),
        PortField::Either => port_in(m.src_port, min, max) || port_in(m.dst_port, min, max),
    }
}

fn check_port(port: Option<u16>, min: u16, max: u16) -> (r: bool)
    ensures
        r == port_in(port, min, max),
{
    match port {
        Some(p) => p >= min && p <= max,
        None => false,
    }
}

pub fn check_port_range(meta: &PacketMetadata, field: &PortField, min: u16, max: u16) -> (r: bool)
    ensures
        r == port_matches(*meta, *field, min, max),
{
    match field {
        PortField::Src => check_port(meta.src_port, min, max),
        PortField::Dst => check_port(meta.dst_port, min, max),
        PortField::Either => check_port(meta.src_port, min, max) || check_port(meta.dst_port, min, max),
    }
}

pub open spec fn length_matches(length: u32, op: LengthOperator, value: u32) -> bool {
    match op {
        LengthOperator::GreaterThan => length > value,
        LengthOperator::LessThan => length < value,
        LengthOperator::Equal => length == value,
    }
}

pub fn check_packet_length(length: u32, operator: &LengthOperator, value: u32) -> (r: bool)
    ensures
        r == length_matches(length, *operator, value),
{
    match operator {
        LengthOperator::GreaterThan => length > value,
        LengthOperator::LessThan => length < value,
        LengthOperator::Equal => length == value,
    }
}

/// `str::split(", ")`: the pieces between occurrences of ", ".
pub open spec fn split_comma_space(s: Seq<char>) -> Seq<Seq<char>>
    decreases s.len(),
{
    if s.len() == 0 {
        seq![Seq::empty()]
    } else {
        let p = split_comma_space(s.drop_last());
        let l = p.last();
        if s.last() == ' ' && l.len() > 0 && l.last() == ',' {
            p.update(p.len() - 1, l.drop_last()).push(Seq::empty())
        } else {
            p.update(p.len() - 1, l.push(s.last()))
        }
    }
}

proof fn lemma_split_comma_space_nonempty(s: Seq<char>)
    ensures
        split_comma_space(s).len() >= 1,
    decreases s.len(),
{
    if s.len() > 0 {
        lemma_split_comma_space_nonempty(s.drop_last());
    }
}

pub open spec fn pieces(v: Seq<Vec<char>>) -> Seq<Seq<char>> {
    v.map_values(|w: Vec<char>| w@)
}

fn split_on_comma_space(s: &[char]) -> (r: Vec<Vec<char>>)
    ensures
        pieces(r@) == split_comma_space(s@),
{
    let mut done: Vec<Vec<char>> = Vec::new();
    let mut cur: Vec<char> = Vec::new();
    let mut i: usize = 0;
    assert(s@.take(0) =~= Seq::<char>::empty());
    assert(pieces(done@).push(cur@) =~= split_comma_space(s@.take(0)));
    while i < s.len()
        invariant
            i <= s@.len(),
            pieces(done@).push(cur@) == split_comma_space(s@.take(i as int)),
        decreases s.len() - i,
    {
        let ch = s[i];
        let ghost t = s@.take(i as int + 1);
        assert(t.drop_last() =~= s@.take(i as int));
        assert(t.last() == ch);
        proof {
            lemma_split_comma_space_nonempty(s@.take(i as int));
        }
        let ghost before = pieces(done@).push(cur@);
        assert(before.last() == cur@);
        if ch == ' ' && cur.len() > 0 && cur[cur.len() - 1] == ',' {
            let mut piece: Vec<char> = Vec::new();
            std::mem::swap(&mut piece, &mut cur);
            piece.pop();
            done.push(piece);
            assert(pieces(done@).push(cur@) =~= before.update(before.len() - 1, before.last().drop_last()).push(
                Seq::<char>::empty(),
            ));
        } else {
            cur.push(ch);
            assert(pieces(done@).push(cur@) =~= before.update(before.len() - 1, before.last().push(ch)));
        }
        i = i + 1;
    }
    assert(s@.take(s@.len() as int) =~= s@);
    done.push(cur);
    assert(pieces(done@) =~= split_comma_space(s@));
    done
}

/// The TCP flag an (upper-case) name stands for.
pub open spec fn flag_named(u: Seq<char>) -> Option<TcpFlag> {
    if u == "SYN"@ {
        Some(TcpFlag::SYN)
    } else if u == "ACK"@ {
        Some(TcpFlag::ACK)
    } else if u == "FIN"@ {
        Some(TcpFlag::FIN)
    } else if u == "RST"@ {
        Some(TcpFlag::RST)
    } else if u == "PSH"@ {
        Some(TcpFlag::PSH)
    } else if u == "URG"@ {
        Some(TcpFlag::URG)
    } else {
        None
    }
}

/// The flags named by the pieces, trimmed and case aside; other pieces are
/// skipped.
pub open spec fn parsed_flags(ps: Seq<Seq<char>>) -> Seq<TcpFlag>
    decreases ps.len(),
{
    if ps.len() == 0 {
        Seq::empty()
    } else {
        let r = parsed_flags(ps.drop_last());
        match flag_named(uppercase(trimmed(ps.last()))) {
            Some(f) => r.push(f),
            None => r,
        }
    }
}

/// The flags of a flags label such as "SYN, ACK".
pub open spec fn flags_in_text(s: Seq<char>) -> Seq<TcpFlag> {
    parsed_flags(split_comma_space(s))
}

fn flag_of_name(u: &str) -> (r: Option<TcpFlag>)
    ensures
        r == flag_named(u@),
{
    if same_text(u, "SYN") {
        Some(TcpFlag::SYN)
    } else if same_text(u, "ACK") {
        Some(TcpFlag::ACK)
    } else if same_text(u, "FIN") {
        Some(TcpFlag::FIN)
    } else if same_text(u, "RST") {
        Some(TcpFlag::RST)
    } else if same_text(u, "PSH") {
        Some(TcpFlag::PSH)
    } else if same_text(u, "URG") {
        Some(TcpFlag::URG)
    } else {
        None
    }
}

/// The flags named in a flags label, in order.
pub fn parse_tcp_flags_string(flags_str: &str) -> (flags: Vec<TcpFlag>)
    ensures
        flags@ == flags_in_text(flags_str@),
{
    let chars = chars_of(flags_str);
    let parts = split_on_comma_space(&chars);
    let mut flags: Vec<TcpFlag> = Vec::new();
    let mut i: usize = 0;
    while i < parts.len()
        invariant
            i <= parts@.len(),
            pieces(parts@) == split_comma_space(chars@),
            chars@ == flags_str@,
            flags@ == parsed_flags(pieces(parts@).take(i as int)),
        decreases parts.len() - i,
    {
        let ghost t = pieces(parts@).take(i as int + 1);
        assert(t.drop_last() =~= pieces(parts@).take(i as int));
        assert(t.last() == parts@[i as int]@);
        let trimmed_part = trim_chars(&parts[i]);
        let text = crate::text::string_of(&trimmed_part);
        let upper = to_uppercase(text.as_str());
        match flag_of_name(upper.as_str()) {
            Some(f) => flags.push(f),
            None => {},
        }
        i = i + 1;
    }
    assert(pieces(parts@).take(i as int) =~= pieces(parts@));
    flags
}

pub open spec fn is_tcp_family(p: ProtocolType) -> bool {
    p == ProtocolType::TCP || p == ProtocolType::HTTP || p == ProtocolType::TLS
}

/// Whether a TCP-family packet's labelled flags agree with the expected ones
/// in the given way (all present, any present, exactly these, none present).
pub open spec fn flags_match(m: PacketMetadata, expected: Seq<TcpFlag>, mode: FlagMatchMode) -> bool {
    is_tcp_family(m.protocol) && match m.tcp_flags {
        None => false,
        Some(t) => {
            let a = flags_in_text(t@);
            match mode {
                FlagMatchMode::All => forall|i: int| 0 <= i < expected.len() ==> a.contains(#[trigger] expected[i]),
                FlagMatchMode::Any => exists|i: int| 0 <= i < expected.len() && a.contains(#[trigger] expected[i]),
                FlagMatchMode::Exact => a.len() == expected.len() && forall|i: int|
                    0 <= i < expected.len() ==> a.contains(#[trigger] expected[i]),
                FlagMatchMode::NoneOf => forall|i: int|
                    0 <= i < expected.len() ==> !a.contains(#[trigger] expected[i]),
            }
        },
    }
}

fn has_flag(v: &Vec<TcpFlag>, f: TcpFlag) -> (r: bool)
    ensures
        r == v@.contains(f),
{
    let mut i: usize = 0;
    while i < v.len()
        invariant
            i <= v@.len(),
            forall|k: int| 0 <= k < i ==> v@[k] != f,
        decreases v.len() - i,
    {
        if v[i] == f {
            assert(v@[i as int] == f);
            return true;
        }
        i = i + 1;
    }
    false
}

pub fn check_tcp_flags(meta: &PacketMetadata, expected_flags: &[TcpFlag], mode: &FlagMatchMode) -> (r: bool)
    ensures
        r == flags_match(*meta, expected_flags@, *mode),
{
    if !(meta.protocol == ProtocolType::TCP || meta.protocol == ProtocolType::HTTP || meta.protocol
        == ProtocolType::TLS) {
        return false;
    }
    let actual = match &meta.tcp_flags {
        Some(s) => parse_tcp_flags_string(s.as_str()),
        None => {
            return false;
        },
    };
    let want_present = match mode {
        FlagMatchMode::NoneOf => false,
        _ => true,
    };
    let any_mode = match mode {
        FlagMatchMode::Any => true,
        _ => false,
    };
    if let FlagMatchMode::Exact = mode {
        if actual.len() != expected_flags.len() {
            return false;
        }
    }
    let mut i: usize = 0;
    while i < expected_flags.len()
        invariant
            i <= expected_flags@.len(),
            is_tcp_family(meta.protocol),
            meta.tcp_flags matches Some(t) && actual@ == flags_in_text(t@),
            any_mode == (*mode == FlagMatchMode::Any),
            want_present == (*mode != FlagMatchMode::NoneOf),
            *mode == FlagMatchMode::Exact ==> actual@.len() == expected_flags@.len(),
            any_mode ==> forall|k: int| 0 <= k < i ==> !actual@.contains(#[trigger] expected_flags@[k]),
            !any_mode ==> forall|k: int| 0 <= k < i ==> actual@.contains(#[trigger] expected_flags@[k]) == want_present,
        decreases expected_flags.len() - i,
    {
        let e = expected_flags[i];
        let present = has_flag(&actual, e);
        assert(e == expected_flags@[i as int]);
        if any_mode {
            if present {
                assert(actual@.contains(expected_flags@[i as int]));
                return true;
            }
        } else if present != want_present {
            assert(actual@.contains(expected_flags@[i as int]) != want_present);
            return false;
        }
        i = i + 1;
    }
    !any_mode
}

/// Whether the pattern compiles and finds a match in the payload read as
/// text (invalid UTF-8 replaced).
pub open spec fn payload_matches(raw: Seq<u8>, pattern: Seq<char>) -> bool {
    regex_outcome(pattern) is Ok && regex_finds(pattern, lossy(raw))
}

pub fn check_payload_keyword(raw_data: &[u8], pattern: &str) -> (r: bool)
    ensures
        r == payload_matches(raw_data@, pattern@),
{
    let text = utf8_lossy(raw_data);
    regex_is_match(pattern, text.as_str())
}

/// Whether a domain equals a listed one or lies under it, case aside.
pub open spec fn domain_listed(value: Seq<char>, bl: Seq<Seq<char>>) -> bool {
    exists|k: int|
        0 <= k < bl.len() && {
            let d = lowercase(value);
            let b = lowercase(#[trigger] bl[k]);
            d == b || has_suffix(d, "."@ + b)
        }
}

pub open spec fn field_listed(f: FieldEntry, bl: Seq<Seq<char>>) -> bool {
    (f.name@ == "Domain"@ || f.name@ == "Query Name"@) && domain_listed(f.value@, bl)
}

/// Whether a DNS layer of the decoded packet names a listed domain.
pub open spec fn dns_listed(detail: Option<PacketDetail>, bl: Seq<Seq<char>>) -> bool {
    match detail {
        None => false,
        Some(d) => detail_lists(d, bl),
    }
}

/// Whether a DNS layer of the detail has a domain field naming a listed domain.
pub open spec fn detail_lists(d: PacketDetail, bl: Seq<Seq<char>>) -> bool {
    exists|i: int, j: int|
        0 <= i < d.layers@.len() && d.layers@[i].protocol@ == "DNS"@ && 0 <= j < d.layers@[i].fields@.len()
            && #[trigger] field_listed(d.layers@[i].fields@[j], bl)
}

fn ends_with_dot(d: &str, b: &str) -> (r: bool)
    ensures
        r == has_suffix(d@, "."@ + b@),
{
    let mut s = String::from_str(".");
    s.append(b);
    proof {
        reveal_strlit(".");
    }
    let x = chars_of(d);
    let y = chars_of(s.as_str());
    if y.len() > x.len() {
        return false;
    }
    let off = x.len() - y.len();
    let r = crate::text::matches_at(&x, &y, off);
    proof {
        assert(x@.subrange(off as int, x@.len() as int) =~= x@.subrange(off as int, off + y@.len()));
    }
    r
}

fn domain_in_list(value: &str, blacklist: &[String]) -> (r: bool)
    ensures
        r == domain_listed(value@, texts(blacklist@)),
{
    let domain = to_lowercase(value);
    let mut k: usize = 0;
    while k < blacklist.len()
        invariant
            k <= blacklist@.len(),
            domain@ == lowercase(value@),
            forall|m: int|
                0 <= m < k ==> !({
                    let b = lowercase(#[trigger] texts(blacklist@)[m]);
                    domain@ == b || has_suffix(domain@, "."@ + b)
                }),
        decreases blacklist.len() - k,
    {
        let bl = to_lowercase(blacklist[k].as_str());
        assert(texts(blacklist@)[k as int] == blacklist@[k as int]@);
        if same_text(domain.as_str(), bl.as_str()) || ends_with_dot(domain.as_str(), bl.as_str()) {
            return true;
        }
        k = k + 1;
    }
    false
}

pub open spec fn opt_detail(o: Option<&PacketDetail>) -> Option<PacketDetail> {
    match o {
        Some(d) => Some(*d),
        None => None,
    }
}

pub fn check_dns_blacklist(parsed_layers: Option<&PacketDetail>, blacklist: &[String]) -> (r: bool)
    ensures
        r == dns_listed(opt_detail(parsed_layers), texts(blacklist@)),
{
    let detail = match parsed_layers {
        Some(d) => d,
        None => {
            return false;
        },
    };
    let ghost bl = texts(blacklist@);
    let mut i: usize = 0;
    while i < detail.layers.len()
        invariant
            i <= detail.layers@.len(),
            opt_detail(parsed_layers) == Some(*detail),
            bl == texts(blacklist@),
            forall|a: int, b: int|
                0 <= a < i && detail.layers@[a].protocol@ == "DNS"@ && 0 <= b < detail.layers@[a].fields@.len()
                    ==> !#[trigger] field_listed(detail.layers@[a].fields@[b], bl),
        decreases detail.layers.len() - i,
    {
        let layer = &detail.layers[i];
        if same_text(layer.protocol.as_str(), "DNS") {
            let mut j: usize = 0;
            while j < layer.fields.len()
                invariant
                    j <= layer.fields@.len(),
                    i < detail.layers@.len(),
                    opt_detail(parsed_layers) == Some(*detail),
                    *layer == detail.layers@[i as int],
                    layer.protocol@ == "DNS"@,
                    bl == texts(blacklist@),
                    forall|a: int, b: int|
                        0 <= a < i && detail.layers@[a].protocol@ == "DNS"@ && 0 <= b < detail.layers@[a].fields@.len()
                            ==> !#[trigger] field_listed(detail.layers@[a].fields@[b], bl),
                    forall|b: int| 0 <= b < j ==> !#[trigger] field_listed(layer.fields@[b], bl),
                decreases layer.fields.len() - j,
            {
                let field = &layer.fields[j];
                if same_text(field.name.as_str(), "Domain") || same_text(field.name.as_str(), "Query Name") {
                    if domain_in_list(field.value.as_str(), blacklist) {
                        assert(field_listed(detail.layers@[i as int].fields@[j as int], bl));
                        assert(detail.layers@[i as int].protocol@ == "DNS"@);
                        assert(j < detail.layers@[i as int].fields@.len());
                        let ghost d = *detail;
                        let ghost ii = i as int;
                        let ghost jj = j as int;
                        assert(0 <= ii < d.layers@.len() && d.layers@[ii].protocol@ == "DNS"@ && 0 <= jj
                            < d.layers@[ii].fields@.len() && field_listed(d.layers@[ii].fields@[jj], bl));
                        assert(detail_lists(d, bl));
                        return true;
                    }
                }
                j = j + 1;
            }
        }
        i = i + 1;
    }
    false
}

// ---------------------------------------------------------------------------
// Conditions

/// The rate counters by key (window length, per address).
pub type RateV = Seq<((u32, bool), CounterView)>;

/// The value of a condition for a packet, and the rate counters after it:
/// `And` and `Or` stop at the first child that decides them, and a rate limit
/// counts the packet before it checks the window.
pub open spec fn eval_cond(c: Cond, m: PacketMetadata, raw: Seq<u8>, d: Option<PacketDetail>, v: RateV) -> (
    bool,
    RateV,
)
    decreases c,
{
    match c {
        Cond::And(cs) => eval_all(cs, m, raw, d, v),
        Cond::Or(cs) => eval_any(cs, m, raw, d, v),
        Cond::Not(b) => {
            let r = eval_cond(*b, m, raw, d, v);
            (!r.0, r.1)
        },
        Cond::ProtocolMatch(p) => (protocol_matches(m.protocol, p), v),
        Cond::IpMatch(f, cidr) => (ip_matches(m, f, cidr), v),
        Cond::PortRange(f, lo, hi) => (port_matches(m, f, lo, hi), v),
        Cond::PacketLength(op, value) => (length_matches(m.length, op, value), v),
        Cond::TcpFlags(fs, mode) => (flags_match(m, fs, mode), v),
        Cond::PayloadKeyword(p) => (payload_matches(raw, p), v),
        Cond::RateLimit(w, thr, per_src) => {
            let ip = if per_src {
                m.src_addr@
            } else {
                m.dst_addr@
            };
            rate_view(
                recorded_view(v, m.src_addr@, m.dst_addr@, m.timestamp_secs),
                w,
                thr,
                per_src,
                ip,
                m.timestamp_secs,
            )
        },
        Cond::DnsBlacklist(bl) => (dns_listed(d, bl), v),
    }
}

pub open spec fn eval_all(cs: Seq<Cond>, m: PacketMetadata, raw: Seq<u8>, d: Option<PacketDetail>, v: RateV) -> (
    bool,
    RateV,
)
    decreases cs,
{
    if cs.len() == 0 {
        (true, v)
    } else {
        let r = eval_cond(cs[0], m, raw, d, v);
        if !r.0 {
            (false, r.1)
        } else {
            eval_all(cs.subrange(1, cs.len() as int), m, raw, d, r.1)
        }
    }
}

pub open spec fn eval_any(cs: Seq<Cond>, m: PacketMetadata, raw: Seq<u8>, d: Option<PacketDetail>, v: RateV) -> (
    bool,
    RateV,
)
    decreases cs,
{
    if cs.len() == 0 {
        (false, v)
    } else {
        let r = eval_cond(cs[0], m, raw, d, v);
        if r.0 {
            (true, r.1)
        } else {
            eval_any(cs.subrange(1, cs.len() as int), m, raw, d, r.1)
        }
    }
}

/// The number of rate limits in a condition.
pub open spec fn rate_limits(c: Cond) -> nat
    decreases c,
{
    match c {
        Cond::And(cs) => rate_limits_all(cs),
        Cond::Or(cs) => rate_limits_all(cs),
        Cond::Not(b) => rate_limits(*b),
        Cond::RateLimit(_, _, _) => 1,
        _ => 0,
    }
}

pub open spec fn rate_limits_all(cs: Seq<Cond>) -> nat
    decreases cs,
{
    if cs.len() == 0 {
        0
    } else {
        rate_limits(cs[0]) + rate_limits_all(cs.subrange(1, cs.len() as int))
    }
}

pub open spec fn ctx_detail(ctx: EvalContext) -> Option<PacketDetail> {
    opt_detail(ctx.parsed_layers)
}

proof fn lemma_subrange_step(cs: Seq<Cond>, i: int)
    requires
        0 <= i < cs.len(),
    ensures
        cs.subrange(i, cs.len() as int)[0] == cs[i],
        cs.subrange(i, cs.len() as int).subrange(1, cs.len() - i) =~= cs.subrange(i + 1, cs.len() as int),
{
}

/// After an evaluation that counted `k` packets, every room of at least `k`
/// before it is `k` smaller after it.
pub open spec fn room_used(
    before: Seq<((u32, bool), crate::rule::rate_counter::SlidingWindowCounter)>,
    after: Seq<((u32, bool), crate::rule::rate_counter::SlidingWindowCounter)>,
    k: int,
) -> bool {
    forall|n: int| k <= n <= u32::MAX && #[trigger] counters_room(before, n) ==> counters_room(after, n - k)
}

fn eval_children(
    children: &Vec<ConditionNode>,
    is_and: bool,
    ctx: &EvalContext,
    rate_counters: &mut RateCounterManager,
) -> (r: bool)
    requires
        old(rate_counters).wf(),
        2 * rate_limits_all(conds_of(children@)) <= u32::MAX,
        counters_room(old(rate_counters).counters@, 2 * rate_limits_all(conds_of(children@)) as int),
    ensures
        final(rate_counters).wf(),
        (r, manager_view(final(rate_counters).counters@)) == if is_and {
            eval_all(conds_of(children@), *ctx.packet_meta, ctx.raw_data@, ctx_detail(*ctx), manager_view(old(rate_counters).counters@))
        } else {
            eval_any(conds_of(children@), *ctx.packet_meta, ctx.raw_data@, ctx_detail(*ctx), manager_view(old(rate_counters).counters@))
        },
        room_used(old(rate_counters).counters@, final(rate_counters).counters@, 2 * rate_limits_all(conds_of(children@)) as int),
    decreases children, 0nat,
{
    let ghost cs = conds_of(children@);
    let ghost total: int = (2 * rate_limits_all(cs)) as int;
    let ghost m = *ctx.packet_meta;
    let ghost raw = ctx.raw_data@;
    let ghost d = ctx_detail(*ctx);
    let ghost want = if is_and {
        eval_all(cs, m, raw, d, manager_view(rate_counters.counters@))
    } else {
        eval_any(cs, m, raw, d, manager_view(rate_counters.counters@))
    };
    proof {
        lemma_conds_of(children@);
        assert(cs.subrange(0, cs.len() as int) =~= cs);
    }
    let mut i: usize = 0;
    let ghost mut used: int = 0;
    while i < children.len()
        invariant
            i <= children@.len(),
            cs == conds_of(children@),
            cs.len() == children@.len(),
            forall|k: int| 0 <= k < cs.len() ==> #[trigger] cs[k] == children@[k]@,
            m == *ctx.packet_meta,
            raw == ctx.raw_data@,
            d == ctx_detail(*ctx),
            total == 2 * rate_limits_all(cs),
            total <= u32::MAX,
            rate_counters.wf(),
            0 <= used,
            used + 2 * rate_limits_all(cs.subrange(i as int, cs.len() as int)) == total,
            counters_room(old(rate_counters).counters@, total),
            room_used(old(rate_counters).counters@, rate_counters.counters@, used),
            want == if is_and {
                eval_all(cs, m, raw, d, manager_view(old(rate_counters).counters@))
            } else {
                eval_any(cs, m, raw, d, manager_view(old(rate_counters).counters@))
            },
            want == if is_and {
                eval_all(cs.subrange(i as int, cs.len() as int), m, raw, d, manager_view(rate_counters.counters@))
            } else {
                eval_any(cs.subrange(i as int, cs.len() as int), m, raw, d, manager_view(rate_counters.counters@))
            },
        decreases children.len() - i,
    {
        proof {
            vstd::std_specs::vec::axiom_vec_index_decreases(*children, i as int);
            lemma_subrange_step(cs, i as int);
        }
        let ghost rest = cs.subrange(i as int, cs.len() as int);
        let ghost vb = manager_view(rate_counters.counters@);
        let ghost cb = rate_counters.counters@;
        let ghost k: int = (2 * rate_limits(rest[0])) as int;
        assert(rest[0] == children@[i as int]@);
        assert(counters_room(cb, total - used));
        proof {
            assert(rate_limits_all(rest) == rate_limits(rest[0]) + rate_limits_all(rest.subrange(1, rest.len() as int)));
            lemma_room_weaken(cb, total - used, k);
        }
        let b = eval_node(&children[i], ctx, rate_counters);
        proof {
            assert forall|n: int| used + k <= n <= u32::MAX && #[trigger] counters_room(old(rate_counters).counters@, n)
                implies counters_room(rate_counters.counters@, n - (used + k)) by {
                assert(counters_room(cb, n - used));
            }
            used = used + k;
            if (is_and && !b) || (!is_and && b) {
                assert(eval_cond(rest[0], m, raw, d, vb) == (b, manager_view(rate_counters.counters@)));
                assert forall|n: int| total <= n <= u32::MAX && #[trigger] counters_room(old(rate_counters).counters@, n)
                    implies counters_room(rate_counters.counters@, n - total) by {
                    lemma_room_weaken(rate_counters.counters@, n - used, n - total);
                }
            }
        }
        if is_and && !b {
            return false;
        }
        if !is_and && b {
            return true;
        }
        i = i + 1;
    }
    proof {
        assert(cs.subrange(i as int, cs.len() as int) =~= Seq::<Cond>::empty());
    }
    is_and
}

fn eval_node(condition: &ConditionNode, ctx: &EvalContext, rate_counters: &mut RateCounterManager) -> (r: bool)
    requires
        old(rate_counters).wf(),
        2 * rate_limits(condition@) <= u32::MAX,
        counters_room(old(rate_counters).counters@, 2 * rate_limits(condition@) as int),
    ensures
        final(rate_counters).wf(),
        (r, manager_view(final(rate_counters).counters@)) == eval_cond(
            condition@,
            *ctx.packet_meta,
            ctx.raw_data@,
            ctx_detail(*ctx),
            manager_view(old(rate_counters).counters@),
        ),
        room_used(old(rate_counters).counters@, final(rate_counters).counters@, 2 * rate_limits(condition@) as int),
    decreases condition, 1nat,
{
    let meta = ctx.packet_meta;
    match condition {
        ConditionNode::And { children } => eval_children(children, true, ctx, rate_counters),
        ConditionNode::Or { children } => eval_children(children, false, ctx, rate_counters),
        ConditionNode::Not { child } => !eval_node(child, ctx, rate_counters),
        ConditionNode::ProtocolMatch { protocol } => check_protocol_match(meta, protocol.as_str()),
        ConditionNode::IpMatch { field, cidr } => check_ip_match(meta, field, cidr.as_str()),
        ConditionNode::PortRange { field, min, max } => check_port_range(meta, field, *min, *max),
        ConditionNode::PacketLength { operator, value } => check_packet_length(meta.length, operator, *value),
        ConditionNode::TcpFlags { flags, mode } => check_tcp_flags(meta, flags.as_slice(), mode),
        ConditionNode::PayloadKeyword { pattern } => check_payload_keyword(ctx.raw_data, pattern.as_str()),
        ConditionNode::RateLimit { window_secs, threshold, src_ip } => check_rate_limit(
            meta,
            *window_secs,
            *threshold,
            *src_ip,
            rate_counters,
        ),
        ConditionNode::DnsBlacklist { domains } => check_dns_blacklist(ctx.parsed_layers, domains.as_slice()),
    }
}

/// Counts the packet in every rate counter, then checks the window of the
/// source (or destination) address, or the overall window.
pub fn check_rate_limit(
    meta: &PacketMetadata,
    window_secs: u32,
    threshold: u32,
    src_ip: bool,
    rate_counters: &mut RateCounterManager,
) -> (r: bool)
    requires
        old(rate_counters).wf(),
        counters_room(old(rate_counters).counters@, 2),
    ensures
        final(rate_counters).wf(),
        (r, manager_view(final(rate_counters).counters@)) == rate_view(
            recorded_view(
                manager_view(old(rate_counters).counters@),
                meta.src_addr@,
                meta.dst_addr@,
                meta.timestamp_secs,
            ),
            window_secs,
            threshold,
            src_ip,
            if src_ip {
                meta.src_addr@
            } else {
                meta.dst_addr@
            },
            meta.timestamp_secs,
        ),
        room_used(old(rate_counters).counters@, final(rate_counters).counters@, 2),
{
    let ip: &str = if src_ip {
        meta.src_addr.as_str()
    } else {
        meta.dst_addr.as_str()
    };
    let ts = meta.timestamp_secs;
    let ghost before = rate_counters.counters@;
    rate_counters.record_packet(meta.src_addr.as_str(), meta.dst_addr.as_str(), ts);
    let ghost mid = rate_counters.counters@;
    let r = rate_counters.check_rate(window_secs, threshold, src_ip, ip, ts);
    proof {
        assert forall|n: int| 2 <= n <= u32::MAX && #[trigger] counters_room(before, n) implies counters_room(
            rate_counters.counters@,
            n - 2,
        ) by {
            lemma_recorded_room(before, mid, meta.src_addr@, meta.dst_addr@, ts, n);
            assert(counters_room(mid, n - 2));
        }
    }
    r
}

/// Whether the condition holds for the packet; rate limits count the packet
/// in `rate_counters`.
pub fn evaluate_condition(condition: &ConditionNode, ctx: &EvalContext, rate_counters: &mut RateCounterManager) -> (r: bool)
    requires
        old(rate_counters).wf(),
        2 * rate_limits(condition@) <= u32::MAX,
        counters_room(old(rate_counters).counters@, 2 * rate_limits(condition@) as int),
    ensures
        final(rate_counters).wf(),
        (r, manager_view(final(rate_counters).counters@)) == eval_cond(
            condition@,
            *ctx.packet_meta,
            ctx.raw_data@,
            ctx_detail(*ctx),
            manager_view(old(rate_counters).counters@),
        ),
        room_used(old(rate_counters).counters@, final(rate_counters).counters@, 2 * rate_limits(condition@) as int),
{
    eval_node(condition, ctx, rate_counters)
}

// ---------------------------------------------------------------------------
// The engine

/// The rules of one priority rank, in their order.
pub open spec fn with_rank(v: Seq<RuleV>, k: u8) -> Seq<RuleV>
    decreases v.len(),
{
    if v.len() == 0 {
        Seq::empty()
    } else {
        let r = with_rank(v.drop_last(), k);
        if v.last().priority.rank() == k {
            r.push(v.last())
        } else {
            r
        }
    }
}

/// The rules sorted by priority (high, medium, low), keeping the order of
/// rules of the same priority.
pub open spec fn by_priority(v: Seq<RuleV>) -> Seq<RuleV> {
    with_rank(v, 0) + with_rank(v, 1) + with_rank(v, 2)
}

/// Sorts rules by priority, stably.
pub fn sort_by_priority(rules: Vec<DetectionRule>) -> (r: Vec<DetectionRule>)
    ensures
        rules_view(r@) == by_priority(rules_view(rules@)),
{
    let ghost orig = rules_view(rules@);
    let mut rest = rules;
    let mut high: Vec<DetectionRule> = Vec::new();
    let mut medium: Vec<DetectionRule> = Vec::new();
    let mut low: Vec<DetectionRule> = Vec::new();
    let n = rest.len();
    let mut i: usize = 0;
    assert(orig.take(0) =~= Seq::<RuleV>::empty());
    assert(rules_view(rest@) =~= orig.skip(0));
    while i < n
        invariant
            n == orig.len(),
            i <= n,
            rules_view(rest@) == orig.skip(i as int),
            rest@.len() == n - i,
            rules_view(high@) == with_rank(orig.take(i as int), 0),
            rules_view(medium@) == with_rank(orig.take(i as int), 1),
            rules_view(low@) == with_rank(orig.take(i as int), 2),
        decreases n - i,
    {
        let ghost before = rest@;
        assert(rules_view(before)[0] == orig.skip(i as int)[0]);
        assert(rules_view(before)[0] == before[0]@);
        let rule = rest.remove(0);
        assert(rest@ =~= before.subrange(1, before.len() as int));
        assert(rules_view(rest@) =~= orig.skip(i as int + 1)) by {
            assert forall|j: int| 0 <= j < rest@.len() implies #[trigger] rules_view(rest@)[j] == orig.skip(i as int + 1)[j] by {
                assert(rest@[j] == before[j + 1]);
                assert(rules_view(before)[j + 1] == orig.skip(i as int)[j + 1]);
            }
        }
        let ghost t = orig.take(i as int + 1);
        assert(t.drop_last() =~= orig.take(i as int));
        assert(t.last() == rule@);
        let ghost hb = high@;
        let ghost mb = medium@;
        let ghost lb = low@;
        match rule.priority {
            crate::rule::models::Priority::High => high.push(rule),
            crate::rule::models::Priority::Medium => medium.push(rule),
            crate::rule::models::Priority::Low => low.push(rule),
        }
        assert(rules_view(high@) =~= with_rank(t, 0)) by {
            assert(rules_view(hb.push(rule)) =~= rules_view(hb).push(rule@));
        }
        assert(rules_view(medium@) =~= with_rank(t, 1)) by {
            assert(rules_view(mb.push(rule)) =~= rules_view(mb).push(rule@));
        }
        assert(rules_view(low@) =~= with_rank(t, 2)) by {
            assert(rules_view(lb.push(rule)) =~= rules_view(lb).push(rule@));
        }
        i = i + 1;
    }
    assert(orig.take(n as int) =~= orig);
    let ghost hv = rules_view(high@);
    let ghost mv = rules_view(medium@);
    high.append(&mut medium);
    assert(rules_view(high@) =~= hv + mv);
    high.append(&mut low);
    assert(rules_view(high@) =~= by_priority(orig));
    high
}

/// Rate limits of the enabled rules, all counted.
pub open spec fn enabled_rate_limits(rs: Seq<RuleV>) -> nat
    decreases rs.len(),
{
    if rs.len() == 0 {
        0
    } else {
        enabled_rate_limits(rs.drop_last()) + if rs.last().enabled {
            rate_limits(rs.last().condition)
        } else {
            0
        }
    }
}

/// The enabled rules whose conditions hold for the packet, in order, and the
/// rate counters after evaluating them in turn.
pub open spec fn matched_rules(rs: Seq<RuleV>, m: PacketMetadata, raw: Seq<u8>, d: Option<PacketDetail>, v: RateV) -> (
    Seq<RuleV>,
    RateV,
)
    decreases rs.len(),
{
    if rs.len() == 0 {
        (Seq::empty(), v)
    } else {
        let before = matched_rules(rs.drop_last(), m, raw, d, v);
        let r = rs.last();
        if !r.enabled {
            before
        } else {
            let e = eval_cond(r.condition, m, raw, d, before.1);
            (
                if e.0 {
                    before.0.push(r)
                } else {
                    before.0
                },
                e.1,
            )
        }
    }
}


/// A count, or one past `u32::MAX` for any count beyond it.
pub open spec fn capped(n: nat) -> int {
    if n <= u32::MAX {
        n as int
    } else {
        u32::MAX + 1
    }
}

proof fn lemma_capped_sum(a: nat, b: nat)
    ensures
        capped(a + b) == if capped(a) + capped(b) <= u32::MAX {
            capped(a) + capped(b)
        } else {
            u32::MAX + 1
        },
{
}

/// The number of rate limits in a condition, capped.
fn count_rate_limits(node: &ConditionNode) -> (n: u64)
    ensures
        n == capped(rate_limits(node@)),
    decreases node,
{
    match node {
        ConditionNode::And { children } => {
            proof {
                lemma_conds_of(children@);
                assert(conds_of(children@).subrange(0, children@.len() as int) =~= conds_of(children@));
            }
            count_rate_limits_in(children, 0)
        },
        ConditionNode::Or { children } => {
            proof {
                lemma_conds_of(children@);
                assert(conds_of(children@).subrange(0, children@.len() as int) =~= conds_of(children@));
            }
            count_rate_limits_in(children, 0)
        },
        ConditionNode::Not { child } => count_rate_limits(child),
        ConditionNode::RateLimit { .. } => 1,
        _ => 0,
    }
}

fn count_rate_limits_in(children: &Vec<ConditionNode>, i: usize) -> (n: u64)
    requires
        i <= children@.len(),
    ensures
        n == capped(rate_limits_all(conds_of(children@).subrange(i as int, children@.len() as int))),
    decreases children, children@.len() - i,
{
    proof {
        lemma_conds_of(children@);
    }
    let ghost sub = conds_of(children@).subrange(i as int, children@.len() as int);
    if i == children.len() {
        assert(sub.len() == 0);
        return 0;
    }
    proof {
        vstd::std_specs::vec::axiom_vec_index_decreases(*children, i as int);
        assert(sub[0] == children@[i as int]@);
        assert(sub.subrange(1, sub.len() as int) =~= conds_of(children@).subrange(i + 1, children@.len() as int));
        lemma_capped_sum(rate_limits(sub[0]), rate_limits_all(sub.subrange(1, sub.len() as int)));
    }
    let a = count_rate_limits(&children[i]);
    let b = count_rate_limits_in(children, i + 1);
    if a + b <= u32::MAX as u64 {
        a + b
    } else {
        u32::MAX as u64 + 1
    }
}

/// Evaluates detection rules against packets, in priority order, keeping the
/// rate counters of their rate limits.
pub struct RuleEngine {
    rules: Vec<DetectionRule>,
    rate_counters: RateCounterManager,
}

impl RuleEngine {
    /// The rules, in evaluation order.
    pub closed spec fn rules_v(&self) -> Seq<RuleV> {
        rules_view(self.rules@)
    }

    /// The rate counters.
    pub closed spec fn counters_v(&self) -> RateV {
        manager_view(self.rate_counters.counters@)
    }

    pub closed spec fn wf(&self) -> bool {
        self.rate_counters.wf()
    }

    /// Every rate counter can take `n` more counts.
    pub closed spec fn has_room(&self, n: int) -> bool {
        counters_room(self.rate_counters.counters@, n)
    }

    pub fn new() -> (e: Self)
        ensures
            e.wf(),
            e.rules_v().len() == 0,
            e.counters_v().len() == 0,
            forall|n: int| #[trigger] e.has_room(n),
    {
        let e = RuleEngine { rules: Vec::new(), rate_counters: RateCounterManager::new() };
        assert(rules_view(e.rules@) =~= Seq::<RuleV>::empty());
        e
    }

    /// The number of rate limits of the enabled rules, capped: how many
    /// counts one packet can add to each rate counter, halved.
    pub fn rate_limit_budget(&self) -> (n: u64)
        ensures
            n == capped(enabled_rate_limits(self.rules_v())),
    {
        let ghost rv = self.rules_v();
        let mut n: u64 = 0;
        let mut i: usize = 0;
        assert(rv.take(0) =~= Seq::<RuleV>::empty());
        while i < self.rules.len()
            invariant
                i <= self.rules@.len(),
                rv == self.rules_v(),
                rv.len() == self.rules@.len(),
                n == capped(enabled_rate_limits(rv.take(i as int))),
            decreases self.rules.len() - i,
        {
            assert(rv.take(i + 1).drop_last() =~= rv.take(i as int));
            assert(rv.take(i + 1).last() == rv[i as int]);
            assert(rv[i as int] == self.rules@[i as int]@);
            proof {
                lemma_capped_sum(
                    enabled_rate_limits(rv.take(i as int)),
                    if rv[i as int].enabled { rate_limits(rv[i as int].condition) } else { 0 },
                );
            }
            if self.rules[i].enabled {
                let c = count_rate_limits(&self.rules[i].condition);
                n = if n + c <= u32::MAX as u64 {
                    n + c
                } else {
                    u32::MAX as u64 + 1
                };
            }
            i = i + 1;
        }
        assert(rv.take(i as int) =~= rv);
        n
    }

    /// The number of rules.
    pub fn rule_count(&self) -> (n: usize)
        ensures
            n == self.rules_v().len(),
    {
        self.rules.len()
    }

    /// Whether every rate counter can take `n` more counts.
    pub fn counters_have_room(&self, n: u32) -> (b: bool)
        ensures
            b == self.has_room(n as int),
    {
        self.rate_counters.has_room(n)
    }

    /// Whether one packet can be evaluated: twice the rate limits of the
    /// enabled rules fits a count, and every rate counter has room for it.
    pub fn can_evaluate(&self) -> (b: bool)
        ensures
            b == (2 * enabled_rate_limits(self.rules_v()) <= u32::MAX && self.has_room(
                2 * enabled_rate_limits(self.rules_v()) as int,
            )),
    {
        let n = self.rate_limit_budget();
        if n > (u32::MAX / 2) as u64 {
            return false;
        }
        self.counters_have_room((2 * n) as u32)
    }

    /// Replaces the rules, sorted by priority.
    pub fn set_rules(&mut self, rules: Vec<DetectionRule>)
        requires
            old(self).wf(),
        ensures
            final(self).wf(),
            final(self).rules_v() == by_priority(rules_view(rules@)),
            final(self).counters_v() == old(self).counters_v(),
            forall|n: int| #[trigger] final(self).has_room(n) == old(self).has_room(n),
    {
        self.rules = sort_by_priority(rules);
    }

    /// Adds a rule and sorts the rules by priority again.
    pub fn add_rule(&mut self, rule: DetectionRule)
        requires
            old(self).wf(),
        ensures
            final(self).wf(),
            final(self).rules_v() == by_priority(old(self).rules_v().push(rule@)),
            final(self).counters_v() == old(self).counters_v(),
            forall|n: int| #[trigger] final(self).has_room(n) == old(self).has_room(n),
    {
        let mut rules: Vec<DetectionRule> = Vec::new();
        std::mem::swap(&mut rules, &mut self.rules);
        let ghost before = rules@;
        rules.push(rule);
        assert(rules_view(rules@) =~= rules_view(before).push(rule@));
        self.rules = sort_by_priority(rules);
    }

    /// The enabled rules whose conditions hold for the packet, in order.
    pub fn evaluate_packet(
        &mut self,
        meta: &PacketMetadata,
        raw_data: &[u8],
        parsed_layers: Option<&PacketDetail>,
    ) -> (matched: Vec<DetectionRule>)
        requires
            old(self).wf(),
            2 * enabled_rate_limits(old(self).rules_v()) <= u32::MAX,
            old(self).has_room(2 * enabled_rate_limits(old(self).rules_v()) as int),
        ensures
            final(self).wf(),
            final(self).rules_v() == old(self).rules_v(),
            (rules_view(matched@), final(self).counters_v()) == matched_rules(
                old(self).rules_v(),
                *meta,
                raw_data@,
                opt_detail(parsed_layers),
                old(self).counters_v(),
            ),
            forall|n: int|
                2 * enabled_rate_limits(old(self).rules_v()) <= n <= u32::MAX && #[trigger] old(self).has_room(n)
                    ==> final(self).has_room(n - 2 * enabled_rate_limits(old(self).rules_v())),
    {
        let ghost rs = rules_view(self.rules@);
        let ghost need: int = (2 * enabled_rate_limits(rs)) as int;
        let ghost v0 = manager_view(self.rate_counters.counters@);
        let ctx = EvalContext { packet_meta: meta, raw_data, parsed_layers };
        let mut matched: Vec<DetectionRule> = Vec::new();
        let mut i: usize = 0;
        assert(rs.take(0) =~= Seq::<RuleV>::empty());
        assert(rs.skip(0) =~= rs);
        assert(rules_view(matched@) =~= Seq::<RuleV>::empty());
        let ghost mut used: int = 0;
        while i < self.rules.len()
            invariant
                i <= self.rules@.len(),
                rs == rules_view(self.rules@),
                rs.len() == self.rules@.len(),
                need == 2 * enabled_rate_limits(rs),
                need <= u32::MAX,
                ctx.packet_meta == meta,
                ctx.raw_data == raw_data,
                ctx.parsed_layers == parsed_layers,
                self.rate_counters.wf(),
                0 <= used,
                used + 2 * enabled_rate_limits(rs.skip(i as int)) == need,
                counters_room(old(self).rate_counters.counters@, need),
                room_used(old(self).rate_counters.counters@, self.rate_counters.counters@, used),
                v0 == manager_view(old(self).rate_counters.counters@),
                (rules_view(matched@), manager_view(self.rate_counters.counters@)) == matched_rules(
                    rs.take(i as int),
                    *meta,
                    raw_data@,
                    opt_detail(parsed_layers),
                    v0,
                ),
            decreases self.rules.len() - i,
        {
            proof {
                lemma_enabled_split(rs, i as int);
            }
            let ghost t = rs.take(i as int + 1);
            assert(t.drop_last() =~= rs.take(i as int));
            assert(t.last() == self.rules@[i as int]@);
            if self.rules[i].enabled {
                let ghost k: int = (2 * rate_limits(self.rules@[i as int].condition@)) as int;
                let ghost cb = self.rate_counters.counters@;
                assert(counters_room(cb, need - used));
                proof {
                    lemma_room_weaken(cb, need - used, k);
                }
                let ok = eval_node(&self.rules[i].condition, &ctx, &mut self.rate_counters);
                if ok {
                    let ghost mb = matched@;
                    matched.push(self.rules[i].duplicate());
                    assert(rules_view(matched@) =~= rules_view(mb).push(t.last()));
                }
                proof {
                    assert forall|n: int| used + k <= n <= u32::MAX && #[trigger] counters_room(
                        old(self).rate_counters.counters@,
                        n,
                    ) implies counters_room(self.rate_counters.counters@, n - (used + k)) by {
                        assert(counters_room(cb, n - used));
                    }
                    used = used + k;
                }
            }
            i = i + 1;
        }
        assert(rs.take(i as int) =~= rs);
        matched
    }

    /// Room for `n` more counts leaves room for fewer.
    pub proof fn lemma_has_room_weaken(&self, n: int, k: int)
        requires
            self.has_room(n),
            0 <= k <= n,
            n <= u32::MAX,
        ensures
            self.has_room(k),
    {
        lemma_room_weaken(self.rate_counters.counters@, n, k);
    }

    /// Forgets all rate counts.
    pub fn clear_rate_counters(&mut self)
        requires
            old(self).wf(),
        ensures
            final(self).wf(),
            final(self).rules_v() == old(self).rules_v(),
            final(self).counters_v().len() == 0,
            forall|n: int| #[trigger] final(self).has_room(n),
    {
        self.rate_counters = RateCounterManager::new();
    }
}

proof fn lemma_enabled_split(rs: Seq<RuleV>, i: int)
    requires
        0 <= i < rs.len(),
    ensures
        enabled_rate_limits(rs.take(i + 1)) == enabled_rate_limits(rs.take(i)) + if rs[i].enabled {
            rate_limits(rs[i].condition)
        } else {
            0
        },
        enabled_rate_limits(rs.skip(i)) == enabled_rate_limits(rs.skip(i + 1)) + if rs[i].enabled {
            rate_limits(rs[i].condition)
        } else {
            0
        },
{
    assert(rs.take(i + 1).drop_last() =~= rs.take(i));
    lemma_enabled_front(rs.skip(i));
    assert(rs.skip(i).drop_first() =~= rs.skip(i + 1));
}

proof fn lemma_enabled_front(rs: Seq<RuleV>)
    requires
        rs.len() > 0,
    ensures
        enabled_rate_limits(rs) == enabled_rate_limits(rs.drop_first()) + if rs[0].enabled {
            rate_limits(rs[0].condition)
        } else {
            0
        },
    decreases rs.len(),
{
    if rs.len() > 1 {
        lemma_enabled_front(rs.drop_last());
        assert(rs.drop_last().drop_first() =~= rs.drop_first().drop_last());
    } else {
        assert(rs.drop_first() =~= Seq::<RuleV>::empty());
        assert(rs.drop_last() =~= Seq::<RuleV>::empty());
    }
}

impl Default for RuleEngine {
    fn default() -> (e: Self)
        ensures
            e.wf(),
            e.rules_v().len() == 0,
            e.counters_v().len() == 0,
    {
        RuleEngine::new()
    }
}

// ---------------------------------------------------------------------------
// Pattern checks

/// The first payload pattern of the condition (depth first, children in
/// order) that does not compile.
pub open spec fn first_bad_pattern(c: Cond) -> Option<Seq<char>>
    decreases c,
{
    match c {
        Cond::And(cs) => first_bad_in(cs),
        Cond::Or(cs) => first_bad_in(cs),
        Cond::Not(b) => first_bad_pattern(*b),
        Cond::PayloadKeyword(p) => if regex_outcome(p) is Ok {
            None
        } else {
            Some(p)
        },
        _ => None,
    }
}

pub open spec fn first_bad_in(cs: Seq<Cond>) -> Option<Seq<char>>
    decreases cs,
{
    if cs.len() == 0 {
        None
    } else {
        match first_bad_pattern(cs[0]) {
            Some(p) => Some(p),
            None => first_bad_in(cs.subrange(1, cs.len() as int)),
        }
    }
}

/// The error of an invalid pattern.
pub open spec fn regex_error(p: Seq<char>) -> Seq<char> {
    "正则表达式无效: "@ + match regex_outcome(p) {
        Err(m) => m,
        Ok(_) => Seq::empty(),
    }
}

fn compile_pattern(pattern: &str) -> (r: Result<(), String>)
    ensures
        match r {
            Ok(_) => regex_outcome(pattern@) is Ok,
            Err(m) => regex_outcome(pattern@) is Err && m@ == regex_error(pattern@),
        },
{
    match regex_compile(pattern) {
        Ok(()) => Ok(()),
        Err(e) => {
            let mut m = String::from_str("正则表达式无效: ");
            m.append(e.as_str());
            Err(m)
        },
    }
}

/// Checks that every payload pattern of the condition compiles; the error of
/// the first one that does not.
pub fn compile_regex_in_node(node: &ConditionNode) -> (r: Result<(), String>)
    ensures
        match r {
            Ok(_) => first_bad_pattern(node@) is None,
            Err(m) => first_bad_pattern(node@) matches Some(p) && m@ == regex_error(p),
        },
    decreases node,
{
    match node {
        ConditionNode::And { children } => {
            proof {
                lemma_conds_of(children@);
                assert(conds_of(children@).subrange(0, children@.len() as int) =~= conds_of(children@));
            }
            compile_regex_in_children(children, 0)
        },
        ConditionNode::Or { children } => {
            proof {
                lemma_conds_of(children@);
                assert(conds_of(children@).subrange(0, children@.len() as int) =~= conds_of(children@));
            }
            compile_regex_in_children(children, 0)
        },
        ConditionNode::Not { child } => compile_regex_in_node(child),
        ConditionNode::PayloadKeyword { pattern } => compile_pattern(pattern.as_str()),
        _ => Ok(()),
    }
}

fn compile_regex_in_children(children: &Vec<ConditionNode>, i: usize) -> (r: Result<(), String>)
    requires
        i <= children@.len(),
    ensures
        match r {
            Ok(_) => first_bad_in(conds_of(children@).subrange(i as int, children@.len() as int)) is None,
            Err(m) => first_bad_in(conds_of(children@).subrange(i as int, children@.len() as int)) matches Some(p)
                && m@ == regex_error(p),
        },
    decreases children, children@.len() - i,
{
    proof {
        lemma_conds_of(children@);
    }
    let ghost sub = conds_of(children@).subrange(i as int, children@.len() as int);
    if i == children.len() {
        assert(sub.len() == 0);
        return Ok(());
    }
    proof {
        vstd::std_specs::vec::axiom_vec_index_decreases(*children, i as int);
        assert(sub[0] == children@[i as int]@);
        assert(sub.subrange(1, sub.len() as int) =~= conds_of(children@).subrange(i + 1, children@.len() as int));
    }
    match compile_regex_in_node(&children[i]) {
        Ok(()) => compile_regex_in_children(children, i + 1),
        Err(e) => Err(e),
    }
}

/// Checks that every payload pattern of the rule's condition compiles.
pub fn compile_regex_in_rule(rule: &DetectionRule) -> (r: Result<(), String>)
    ensures
        match r {
            Ok(_) => first_bad_pattern(rule.condition@) is None,
            Err(m) => first_bad_pattern(rule.condition@) matches Some(p) && m@ == regex_error(p),
        },
{
    compile_regex_in_node(&rule.condition)
}

/// Whether the pattern compiles: `Ok(true)`, or the error.
pub fn validate_rule_regex(pattern: &str) -> (r: Result<bool, String>)
    ensures
        match r {
            Ok(b) => b && regex_outcome(pattern@) is Ok,
            Err(m) => regex_outcome(pattern@) is Err && m@ == regex_error(pattern@),
        },
{
    match compile_pattern(pattern) {
        Ok(()) => Ok(true),
        Err(m) => Err(m),
    }
}

// ---------------------------------------------------------------------------
// Laws of port conditions

/// A port-range condition on either port holds exactly when the same range
/// holds on the source port or on the destination port; it does not change
/// when source and destination are exchanged; and a source-port condition
/// on a packet is the destination-port condition on its reply. So a packet
/// whose destination port (or source port) lies in the range matches the
/// condition on either port.
pub proof fn lemma_port_condition_sides(m: PacketMetadata, lo: u16, hi: u16, raw: Seq<u8>, d: Option<PacketDetail>, v: RateV)
    ensures
        eval_cond(Cond::PortRange(PortField::Either, lo, hi), m, raw, d, v).0 == (eval_cond(
            Cond::PortRange(PortField::Src, lo, hi),
            m,
            raw,
            d,
            v,
        ).0 || eval_cond(Cond::PortRange(PortField::Dst, lo, hi), m, raw, d, v).0),
        eval_cond(Cond::PortRange(PortField::Either, lo, hi), m, raw, d, v).0 == eval_cond(
            Cond::PortRange(PortField::Either, lo, hi),
            crate::models::reply_of(m),
            raw,
            d,
            v,
        ).0,
        eval_cond(Cond::PortRange(PortField::Src, lo, hi), m, raw, d, v).0 == eval_cond(
            Cond::PortRange(PortField::Dst, lo, hi),
            crate::models::reply_of(m),
            raw,
            d,
            v,
        ).0,
        m.dst_port is Some && lo <= m.dst_port->0 <= hi ==> eval_cond(
            Cond::PortRange(PortField::Either, lo, hi),
            m,
            raw,
            d,
            v,
        ).0 && eval_cond(Cond::PortRange(PortField::Dst, lo, hi), m, raw, d, v).0,
        m.src_port is Some && lo <= m.src_port->0 <= hi ==> eval_cond(
            Cond::PortRange(PortField::Either, lo, hi),
            m,
            raw,
            d,
            v,
        ).0 && eval_cond(Cond::PortRange(PortField::Src, lo, hi), m, raw, d, v).0,
        m.src_port is None && m.dst_port is None ==> !eval_cond(
            Cond::PortRange(PortField::Either, lo, hi),
            m,
            raw,
            d,
            v,
        ).0,
        (m.dst_port is Some && (m.dst_port->0 < lo || hi < m.dst_port->0)) && (m.src_port is Some && (
        m.src_port->0 < lo || hi < m.src_port->0)) ==> !eval_cond(
            Cond::PortRange(PortField::Either, lo, hi),
            m,
            raw,
            d,
            v,
        ).0,
{
}

/// An address condition on either address holds exactly when it holds on
/// the source or on the destination address; it does not change when source
/// and destination are exchanged, and a source condition on a packet is the
/// destination condition on its reply.
pub proof fn lemma_address_condition_sides(m: PacketMetadata, cidr: Seq<char>, raw: Seq<u8>, d: Option<PacketDetail>, v: RateV)
    ensures
        eval_cond(Cond::IpMatch(IpField::Either, cidr), m, raw, d, v).0 == (eval_cond(
            Cond::IpMatch(IpField::Src, cidr),
            m,
            raw,
            d,
            v,
        ).0 || eval_cond(Cond::IpMatch(IpField::Dst, cidr), m, raw, d, v).0),
        eval_cond(Cond::IpMatch(IpField::Either, cidr), m, raw, d, v).0 == eval_cond(
            Cond::IpMatch(IpField::Either, cidr),
            crate::models::reply_of(m),
            raw,
            d,
            v,
        ).0,
        eval_cond(Cond::IpMatch(IpField::Src, cidr), m, raw, d, v).0 == eval_cond(
            Cond::IpMatch(IpField::Dst, cidr),
            crate::models::reply_of(m),
            raw,
            d,
            v,
        ).0,
{
}

/// Of the three length tests against one value, exactly one holds of any
/// packet: longer, shorter or equal; and a longer-than test with a smaller
/// value holds whenever one with a larger value does.
pub proof fn lemma_length_trichotomy(m: PacketMetadata, value: u32, w: u32, raw: Seq<u8>, d: Option<PacketDetail>, v: RateV)
    ensures
        ({
            let gt = eval_cond(Cond::PacketLength(LengthOperator::GreaterThan, value), m, raw, d, v).0;
            let lt = eval_cond(Cond::PacketLength(LengthOperator::LessThan, value), m, raw, d, v).0;
            let eq = eval_cond(Cond::PacketLength(LengthOperator::Equal, value), m, raw, d, v).0;
            &&& gt || lt || eq
            &&& !(gt && lt) && !(gt && eq) && !(lt && eq)
            &&& eq == (m.length == value)
            &&& gt == (m.length > value)
        }),
        w <= value && eval_cond(Cond::PacketLength(LengthOperator::GreaterThan, value), m, raw, d, v).0
            ==> eval_cond(Cond::PacketLength(LengthOperator::GreaterThan, w), m, raw, d, v).0,
        value <= w && eval_cond(Cond::PacketLength(LengthOperator::LessThan, value), m, raw, d, v).0
            ==> eval_cond(Cond::PacketLength(LengthOperator::LessThan, w), m, raw, d, v).0,
{
}

/// Flag tests on one TCP packet: `NoneOf` is the negation of `Any`; an
/// exact test implies an `All` test; an `All` test implies an `Any` test
/// once some flag is asked for; with no flags asked for, `All` holds of a
/// TCP packet that reports flags. A packet that is not TCP, HTTP or TLS, or
/// reports no flags, passes no flag test.
pub proof fn lemma_flag_modes(m: PacketMetadata, fs: Seq<TcpFlag>)
    ensures
        is_tcp_family(m.protocol) && m.tcp_flags is Some ==> flags_match(m, fs, FlagMatchMode::NoneOf)
            == !flags_match(m, fs, FlagMatchMode::Any),
        flags_match(m, fs, FlagMatchMode::Exact) ==> flags_match(m, fs, FlagMatchMode::All),
        fs.len() > 0 && flags_match(m, fs, FlagMatchMode::All) ==> flags_match(m, fs, FlagMatchMode::Any),
        is_tcp_family(m.protocol) && m.tcp_flags is Some ==> flags_match(m, Seq::empty(), FlagMatchMode::All),
        !is_tcp_family(m.protocol) || m.tcp_flags is None ==> !flags_match(m, fs, FlagMatchMode::All)
            && !flags_match(m, fs, FlagMatchMode::Any) && !flags_match(m, fs, FlagMatchMode::NoneOf)
            && !flags_match(m, fs, FlagMatchMode::Exact),
{
    if fs.len() > 0 && flags_match(m, fs, FlagMatchMode::All) {
        let a = flags_in_text(m.tcp_flags->0@);
        assert(a.contains(fs[0]));
    }
}

/// Protocol conditions: a name is read case aside (on ASCII names); `dns`
/// packets pass `udp`, `http` and `tls` packets pass `tcp`; each
/// application name selects just its protocol.
pub proof fn lemma_protocol_names(p: ProtocolType)
    ensures
        protocol_matches(p, "TCP"@) == protocol_matches(p, "tcp"@),
        protocol_matches(p, "Udp"@) == protocol_matches(p, "udp"@),
        protocol_matches(p, "DNS"@) == protocol_matches(p, "dns"@),
        protocol_matches(p, "dns"@) ==> protocol_matches(p, "udp"@),
        protocol_matches(p, "http"@) ==> protocol_matches(p, "tcp"@),
        protocol_matches(p, "tls"@) ==> protocol_matches(p, "tcp"@),
        protocol_matches(p, "dns"@) == (p == ProtocolType::DNS),
        protocol_matches(p, "http"@) == (p == ProtocolType::HTTP),
        protocol_matches(p, "udp"@) == (p == ProtocolType::UDP || p == ProtocolType::DNS),
        protocol_matches(p, "tcp"@) == (p == ProtocolType::TCP || p == ProtocolType::HTTP || p
            == ProtocolType::TLS),
{
    reveal_strlit("TCP");
    reveal_strlit("tcp");
    reveal_strlit("Udp");
    reveal_strlit("udp");
    reveal_strlit("DNS");
    reveal_strlit("dns");
    reveal_strlit("http");
    reveal_strlit("tls");
    assert(crate::text::ascii_lowered("TCP"@) =~= "tcp"@);
    assert(crate::text::ascii_lowered("tcp"@) =~= "tcp"@);
    assert(crate::text::ascii_lowered("Udp"@) =~= "udp"@);
    assert(crate::text::ascii_lowered("udp"@) =~= "udp"@);
    assert(crate::text::ascii_lowered("DNS"@) =~= "dns"@);
    assert(crate::text::ascii_lowered("dns"@) =~= "dns"@);
    assert(crate::text::ascii_lowered("http"@) =~= "http"@);
    assert(crate::text::ascii_lowered("tls"@) =~= "tls"@);
    assert(crate::text::all_ascii("TCP"@));
    assert(crate::text::all_ascii("tcp"@));
    assert(crate::text::all_ascii("Udp"@));
    assert(crate::text::all_ascii("udp"@));
    assert(crate::text::all_ascii("DNS"@));
    assert(crate::text::all_ascii("dns"@));
    assert(crate::text::all_ascii("http"@));
    assert(crate::text::all_ascii("tls"@));
    assert("dns"@[0] != "tcp"@[0]);
    assert("dns"@[0] != "udp"@[0]);
    assert("dns"@ != "tcp"@);
    assert("dns"@ != "udp"@);
    assert("http"@ != "tcp"@);
    assert("http"@ != "udp"@);
    assert("tls"@[1] != "tcp"@[1]);
    assert("tls"@[0] != "udp"@[0]);
    assert("tls"@[0] != "dns"@[0]);
    assert("udp"@[0] != "tcp"@[0]);
    assert("tls"@ != "tcp"@);
    assert("tls"@ != "udp"@);
    assert("tls"@ != "http"@);
    assert("tls"@ != "dns"@);
    assert("udp"@ != "tcp"@);
}

} // verus!
