//! Summaries and layer-by-layer details of captured packets.
use vstd::prelude::*;
use crate::models::{
    flags_text, FieldEntry, PacketDetail, PacketMetadata, ProtocolLayer, ProtocolType, RawPacket,
    TcpFlags,
};
use crate::protocol::frame::{
    frame_spec, slice_frame, EthInfo, EthView, Frame, FrameView, IpInfo, IpView, TcpInfo,
    TransportInfo, VlanInfo,
};
use crate::text::{dec_digits, has_prefix, hex_padded, push_decimal, push_hex_padded};

verus! {

// ---------------------------------------------------------------------------
// Bytes as text

/// `String::from_utf8_lossy` of the bytes: the UTF-8 text, invalid sequences
/// replaced by U+FFFD.
pub uninterp spec fn lossy(d: Seq<u8>) -> Seq<char>;

pub open spec fn ascii_bytes(d: Seq<u8>) -> bool {
    forall|i: int| 0 <= i < d.len() ==> (#[trigger] d[i]) < 128
}

/// Calls `String::from_utf8_lossy`. Its result is named; for ASCII bytes it
/// is those bytes as characters.
#[verifier::external_body]
pub(crate) fn utf8_lossy(d: &[u8]) -> (s: String)
    ensures
        s@ == lossy(d@),
        ascii_bytes(d@) ==> s@.len() == d@.len() && forall|i: int| 0 <= i < d@.len() ==> #[trigger] s@[i] == d@[i] as char,
{
    String::from_utf8_lossy(d).into_owned()
}

/// The lines of a text as `str::lines` gives them: split at `\n`, a `\r`
/// right before a `\n` dropped, no line after a final newline.
pub open spec fn std_lines(s: Seq<char>) -> Seq<Seq<char>>
    decreases s.len(),
{
    if s.len() == 0 {
        Seq::empty()
    } else {
        let k = crate::tls::decryptor::line_len(s);
        proof {
            crate::tls::decryptor::lemma_line_len(s);
        }
        if k < s.len() {
            let l = s.take(k as int);
            let l2 = if l.len() > 0 && l.last() == '\r' {
                l.drop_last()
            } else {
                l
            };
            seq![l2] + std_lines(s.skip(k as int + 1))
        } else {
            seq![s]
        }
    }
}

/// Position of the first `c` in `s`, if any.
pub open spec fn find_char(s: Seq<char>, c: char) -> Option<int>
    decreases s.len(),
{
    if s.len() == 0 {
        None
    } else if s[0] == c {
        Some(0)
    } else {
        match find_char(s.drop_first(), c) {
            Some(i) => Some(i + 1),
            None => None,
        }
    }
}

/// `str::splitn(3, ' ')`: up to three pieces, the last one holding the rest.
pub open spec fn splitn3(s: Seq<char>) -> Seq<Seq<char>> {
    match find_char(s, ' ') {
        None => seq![s],
        Some(i) => {
            let rest = s.skip(i + 1);
            match find_char(rest, ' ') {
                None => seq![s.take(i), rest],
                Some(j) => seq![s.take(i), rest.take(j), rest.skip(j + 1)],
            }
        },
    }
}

pub open spec fn dec(n: int) -> Seq<char> {
    dec_digits(n as nat)
}

/// The dotted-decimal text of an IPv4 address.
pub open spec fn ipv4_text(a: u32) -> Seq<char> {
    dec(a as int / 16777216) + "."@ + dec((a as int / 65536) % 256) + "."@ + dec((a as int / 256) % 256)
        + "."@ + dec(a as int % 256)
}

pub open spec fn char_views(v: Seq<Vec<char>>) -> Seq<Seq<char>> {
    v.map_values(|w: Vec<char>| w@)
}

proof fn lemma_find_char_at(s: Seq<char>, c: char, k: int)
    requires
        0 <= k <= s.len(),
        forall|m: int| 0 <= m < k ==> #[trigger] s[m] != c,
    ensures
        k < s.len() && s[k] == c ==> find_char(s, c) == Some(k),
        k == s.len() ==> find_char(s, c) is None,
    decreases k,
{
    if k > 0 {
        let d = s.drop_first();
        assert forall|m: int| 0 <= m < k - 1 implies #[trigger] d[m] != c by {
            assert(d[m] == s[m + 1]);
        }
        if k < s.len() {
            assert(d[k - 1] == s[k]);
        }
        lemma_find_char_at(d, c, k - 1);
    }
}

/// Position of the first `c` in `s`, if any.
fn find_in(s: &[char], c: char) -> (r: Option<usize>)
    ensures
        match r {
            Some(i) => i < s.len() && s@[i as int] == c && find_char(s@, c) == Some(i as int),
            None => find_char(s@, c) is None,
        },
{
    let mut i: usize = 0;
    while i < s.len()
        invariant
            i <= s@.len(),
            forall|m: int| 0 <= m < i ==> #[trigger] s@[m] != c,
        decreases s.len() - i,
    {
        if s[i] == c {
            proof {
                lemma_find_char_at(s@, c, i as int);
            }
            return Some(i);
        }
        i = i + 1;
    }
    proof {
        lemma_find_char_at(s@, c, i as int);
    }
    None
}

/// `str::splitn(3, ' ')`.
fn split3(s: &[char]) -> (r: Vec<Vec<char>>)
    ensures
        char_views(r@) == splitn3(s@),
{
    let mut out: Vec<Vec<char>> = Vec::new();
    match find_in(s, ' ') {
        None => {
            out.push(crate::text::copy_range(s, 0, s.len()));
            assert(s@.subrange(0, s@.len() as int) =~= s@);
        },
        Some(i) => {
            let rest = crate::text::copy_range(s, i + 1, s.len());
            assert(rest@ =~= s@.skip(i + 1));
            out.push(crate::text::copy_range(s, 0, i));
            assert(s@.subrange(0, i as int) =~= s@.take(i as int));
            match find_in(&rest, ' ') {
                None => {
                    out.push(rest);
                },
                Some(j) => {
                    let a = crate::text::copy_range(&rest, 0, j);
                    let b = crate::text::copy_range(&rest, j + 1, rest.len());
                    assert(a@ =~= rest@.take(j as int));
                    assert(b@ =~= rest@.skip(j + 1));
                    out.push(a);
                    out.push(b);
                },
            }
        },
    }
    assert(char_views(out@) =~= splitn3(s@));
    out
}

proof fn lemma_line_len_exact(s: Seq<char>, k: nat)
    requires
        k <= s.len(),
        forall|m: int| 0 <= m < k ==> #[trigger] s[m] != '\n',
        k == s.len() || s[k as int] == '\n',
    ensures
        crate::tls::decryptor::line_len(s) == k,
    decreases k,
{
    if k > 0 {
        let d = s.drop_first();
        assert forall|m: int| 0 <= m < k - 1 implies #[trigger] d[m] != '\n' by {
            assert(d[m] == s[m + 1]);
        }
        if k < s.len() {
            assert(d[k - 1] == s[k as int]);
        }
        lemma_line_len_exact(d, (k - 1) as nat);
    }
}

/// The lines of a text (`str::lines`).
fn lines_of(s: &[char]) -> (r: Vec<Vec<char>>)
    ensures
        char_views(r@) == std_lines(s@),
{
    let mut out: Vec<Vec<char>> = Vec::new();
    let n = s.len();
    let mut i: usize = 0;
    assert(s@.skip(0) =~= s@);
    while i < n
        invariant
            n == s@.len(),
            i <= n,
            std_lines(s@) == char_views(out@) + std_lines(s@.skip(i as int)),
        decreases n - i,
    {
        let ghost t = s@.skip(i as int);
        let mut j: usize = i;
        while j < n && s[j] != '\n'
            invariant
                i <= j <= n,
                n == s@.len(),
                forall|m: int| i <= m < j ==> #[trigger] s@[m] != '\n',
            decreases n - j,
        {
            j = j + 1;
        }
        proof {
            assert forall|m: int| 0 <= m < j - i implies #[trigger] t[m] != '\n' by {
                assert(t[m] == s@[i + m]);
            }
            if j < n {
                assert(t[j - i] == s@[j as int]);
            }
            lemma_line_len_exact(t, (j - i) as nat);
        }
        let ghost before = char_views(out@);
        if j < n {
            let end = if j > i && s[j - 1] == '\r' {
                j - 1
            } else {
                j
            };
            let line = crate::text::copy_range(s, i, end);
            proof {
                let l = t.take((j - i) as int);
                assert(l =~= s@.subrange(i as int, j as int));
                if j > i && s@[j - 1] == '\r' {
                    assert(l.last() == s@[j - 1]);
                    assert(l.drop_last() =~= line@);
                } else {
                    assert(l =~= line@);
                }
                assert(t.skip((j - i) as int + 1) =~= s@.skip(j + 1));
            }
            out.push(line);
            proof {
                assert(char_views(out@) =~= before.push(line@));
                assert(before + (seq![line@] + std_lines(s@.skip(j + 1))) =~= before.push(line@) + std_lines(s@.skip(j + 1)));
            }
            i = j + 1;
        } else {
            let line = crate::text::copy_range(s, i, n);
            proof {
                assert(line@ =~= t);
                assert(s@.skip(n as int) =~= Seq::<char>::empty());
            }
            out.push(line);
            proof {
                assert(char_views(out@) =~= before.push(line@));
                assert(before + seq![line@] =~= before.push(line@) + std_lines(s@.skip(n as int)));
            }
            i = n;
        }
    }
    assert(s@.skip(i as int) =~= Seq::<char>::empty());
    assert(char_views(out@) + std_lines(Seq::<char>::empty()) =~= char_views(out@));
    out
}

fn push_chars(out: &mut String, v: &[char])
    ensures
        final(out)@ == old(out)@ + v@,
{
    let mut i: usize = 0;
    while i < v.len()
        invariant
            i <= v@.len(),
            out@ == old(out)@ + v@.take(i as int),
        decreases v.len() - i,
    {
        crate::text::push_char(out, v[i]);
        assert(old(out)@ + v@.take(i + 1) =~= (old(out)@ + v@.take(i as int)).push(v@[i as int]));
        i = i + 1;
    }
    assert(v@.take(i as int) =~= v@);
}

/// Appends the dotted-decimal text of an IPv4 address.
fn push_ipv4(out: &mut String, a: u32)
    ensures
        final(out)@ == old(out)@ + ipv4_text(a),
{
    push_decimal(out, (a / 16777216) as u64);
    out.append(".");
    push_decimal(out, ((a / 65536) % 256) as u64);
    out.append(".");
    push_decimal(out, ((a / 256) % 256) as u64);
    out.append(".");
    push_decimal(out, (a % 256) as u64);
    assert(out@ =~= old(out)@ + ipv4_text(a));
}

/// Lower-case hexadecimal bytes joined by `:`.
pub open spec fn mac_text(m: Seq<u8>) -> Seq<char> {
    crate::text::join(m.map_values(|b: u8| hex_padded(b as nat, 2)), ":"@)
}

/// The text of a MAC address: its bytes in two-digit hexadecimal, joined by `:`.
pub fn format_mac(mac: &[u8]) -> (s: String)
    ensures
        s@ == mac_text(mac@),
{
    let mut out = String::new();
    let ghost mut parts: Seq<Seq<char>> = Seq::empty();
    let mut i: usize = 0;
    assert(out@ =~= crate::text::join(parts, ":"@));
    while i < mac.len()
        invariant
            i <= mac@.len(),
            parts == mac@.take(i as int).map_values(|b: u8| hex_padded(b as nat, 2)),
            out@ == crate::text::join(parts, ":"@),
        decreases mac.len() - i,
    {
        let mut piece = String::new();
        push_hex_padded(&mut piece, mac[i] as u64, 2);
        assert(piece@ =~= hex_padded(mac@[i as int] as nat, 2));
        crate::text::push_joined(&mut out, Ghost(parts), i == 0, ":", piece.as_str());
        proof {
            parts = parts.push(piece@);
            assert(parts =~= mac@.take(i + 1).map_values(|b: u8| hex_padded(b as nat, 2)));
        }
        i = i + 1;
    }
    assert(mac@.take(i as int) =~= mac@);
    out
}

// ---------------------------------------------------------------------------
// Recognising the application protocol

pub open spec fn starts3(d: Seq<u8>, a: u8, b: u8, c: u8) -> bool {
    d.len() >= 3 && d[0] == a && d[1] == b && d[2] == c
}

/// The first three bytes are those of an HTTP method: `GET`, `POS`, `PUT`,
/// `DEL`, `HEA`, `PAT`, `OPT`, `CON` or `TRA`.
pub open spec fn http_method_start(d: Seq<u8>) -> bool {
    starts3(d, 71, 69, 84) || starts3(d, 80, 79, 83) || starts3(d, 80, 85, 84) || starts3(d, 68, 69, 76)
        || starts3(d, 72, 69, 65) || starts3(d, 80, 65, 84) || starts3(d, 79, 80, 84) || starts3(
        d,
        67,
        79,
        78,
    ) || starts3(d, 84, 82, 65)
}

/// The bytes begin with `HTTP/`.
pub open spec fn http_response_start(d: Seq<u8>) -> bool {
    d.len() >= 5 && d[0] == 72 && d[1] == 84 && d[2] == 84 && d[3] == 80 && d[4] == 47
}

/// A TLS record content type: change cipher spec, alert, handshake or data.
pub open spec fn tls_record_byte(b: u8) -> bool {
    b == 0x16 || b == 0x15 || b == 0x14 || b == 0x17
}

/// The application protocol of a payload, from its first bytes and the
/// transport that carries it.
pub open spec fn detect_spec(d: Seq<u8>, t: Option<TransportInfo>) -> ProtocolType {
    if d.len() == 0 {
        ProtocolType::Unknown
    } else {
        match t {
            Some(TransportInfo::Tcp(h)) => if http_method_start(d) || http_response_start(d) {
                ProtocolType::HTTP
            } else if tls_record_byte(d[0]) && (h.destination_port == 443 || h.source_port == 443
                || h.destination_port == 8443 || h.source_port == 8443) {
                ProtocolType::TLS
            } else if d.len() >= 6 && d[0] == 0x16 && (d[5] == 0x01 || d[5] == 0x02 || d[5] == 0x0b
                || d[5] == 0x0c) {
                ProtocolType::TLS
            } else {
                ProtocolType::Unknown
            },
            Some(TransportInfo::Udp(h)) => if h.destination_port == 53 || h.source_port == 53 {
                ProtocolType::DNS
            } else {
                ProtocolType::Unknown
            },
            _ => ProtocolType::Unknown,
        }
    }
}

fn prefix3(d: &[u8], a: u8, b: u8, c: u8) -> (r: bool)
    ensures
        r == starts3(d@, a, b, c),
{
    d.len() >= 3 && d[0] == a && d[1] == b && d[2] == c
}

/// The application protocol of a payload carried by a frame's transport.
pub fn detect_application_protocol(data: &[u8], frame: &Frame) -> (p: ProtocolType)
    ensures
        p == detect_spec(data@, frame.transport),
{
    if data.len() == 0 {
        return ProtocolType::Unknown;
    }
    match frame.transport {
        Some(TransportInfo::Tcp(tcp)) => {
            if prefix3(data, 71, 69, 84) || prefix3(data, 80, 79, 83) || prefix3(data, 80, 85, 84)
                || prefix3(data, 68, 69, 76) || prefix3(data, 72, 69, 65) || prefix3(data, 80, 65, 84)
                || prefix3(data, 79, 80, 84) || prefix3(data, 67, 79, 78) || prefix3(data, 84, 82, 65) {
                return ProtocolType::HTTP;
            }
            if data.len() >= 5 && data[0] == 72 && data[1] == 84 && data[2] == 84 && data[3] == 80
                && data[4] == 47 {
                return ProtocolType::HTTP;
            }
            if data[0] == 0x16 || data[0] == 0x15 || data[0] == 0x14 || data[0] == 0x17 {
                if tcp.destination_port == 443 || tcp.source_port == 443 || tcp.destination_port == 8443
                    || tcp.source_port == 8443 {
                    return ProtocolType::TLS;
                }
            }
            if data.len() >= 6 && data[0] == 0x16 {
                if data[5] == 0x01 || data[5] == 0x02 || data[5] == 0x0b || data[5] == 0x0c {
                    return ProtocolType::TLS;
                }
            }
            ProtocolType::Unknown
        },
        Some(TransportInfo::Udp(udp)) => {
            if udp.destination_port == 53 || udp.source_port == 53 {
                return ProtocolType::DNS;
            }
            ProtocolType::Unknown
        },
        _ => ProtocolType::Unknown,
    }
}

// ---------------------------------------------------------------------------
// One-line summaries

/// The summary of an HTTP payload: `HTTP <code> <text>` for a response,
/// `<method> <url>` for a request, else its first line; none for an empty text.
pub open spec fn http_summary(d: Seq<u8>) -> Option<Seq<char>> {
    let lines = std_lines(lossy(d));
    if lines.len() == 0 {
        None
    } else {
        let first = lines[0];
        let parts = splitn3(first);
        if has_prefix(first, "HTTP/"@) {
            if parts.len() >= 2 {
                Some(
                    "HTTP "@ + parts[1] + " "@ + if parts.len() >= 3 {
                        parts[2]
                    } else {
                        ""@
                    },
                )
            } else {
                Some(first)
            }
        } else if parts.len() >= 2 {
            Some(parts[0] + " "@ + parts[1])
        } else {
            Some(first)
        }
    }
}

pub fn parse_http_summary(data: &[u8]) -> (r: Option<String>)
    ensures
        match r {
            Some(s) => http_summary(data@) == Some(s@),
            None => http_summary(data@) is None,
        },
{
    let text = utf8_lossy(data);
    let chars = crate::text::chars_of(text.as_str());
    let lines = lines_of(&chars);
    if lines.len() == 0 {
        return None;
    }
    let first = &lines[0];
    assert(char_views(lines@)[0] == first@);
    let parts = split3(first);
    proof {
        assert(char_views(parts@).len() == parts@.len());
        if parts@.len() >= 1 {
            assert(char_views(parts@)[0] == parts@[0]@);
        }
        if parts@.len() >= 2 {
            assert(char_views(parts@)[1] == parts@[1]@);
        }
        if parts@.len() >= 3 {
            assert(char_views(parts@)[2] == parts@[2]@);
        }
    }
    let prefix: Vec<char> = crate::text::chars_of("HTTP/");
    let mut out = String::new();
    if crate::text::starts_with(first, &prefix) {
        if parts.len() >= 2 {
            out.append("HTTP ");
            push_chars(&mut out, &parts[1]);
            out.append(" ");
            if parts.len() >= 3 {
                push_chars(&mut out, &parts[2]);
            }
            proof {
                reveal_strlit("");
            }
            assert(out@ =~= "HTTP "@ + parts@[1]@ + " "@ + if parts@.len() >= 3 {
                parts@[2]@
            } else {
                ""@
            });
            return Some(out);
        }
    } else {
        if parts.len() >= 2 {
            push_chars(&mut out, &parts[0]);
            out.append(" ");
            push_chars(&mut out, &parts[1]);
            assert(out@ =~= parts@[0]@ + " "@ + parts@[1]@);
            return Some(out);
        }
    }
    let mut line = String::new();
    push_chars(&mut line, first);
    assert(line@ =~= first@);
    Some(line)
}

pub open spec fn record_type_name(b: u8) -> Seq<char> {
    if b == 0x14 {
        "ChangeCipherSpec"@
    } else if b == 0x15 {
        "Alert"@
    } else if b == 0x16 {
        "Handshake"@
    } else if b == 0x17 {
        "Application Data"@
    } else {
        "Unknown"@
    }
}

fn record_type_str(b: u8) -> (s: &'static str)
    ensures
        s@ == record_type_name(b),
{
    if b == 0x14 {
        "ChangeCipherSpec"
    } else if b == 0x15 {
        "Alert"
    } else if b == 0x16 {
        "Handshake"
    } else if b == 0x17 {
        "Application Data"
    } else {
        "Unknown"
    }
}

pub open spec fn tls_version_name(v: int) -> Seq<char> {
    if v == 0x0301 {
        "TLS 1.0"@
    } else if v == 0x0302 {
        "TLS 1.1"@
    } else if v == 0x0303 {
        "TLS 1.2"@
    } else if v == 0x0304 {
        "TLS 1.3"@
    } else {
        "Unknown"@
    }
}

fn tls_version_str(v: u16) -> (s: &'static str)
    ensures
        s@ == tls_version_name(v as int),
{
    if v == 0x0301 {
        "TLS 1.0"
    } else if v == 0x0302 {
        "TLS 1.1"
    } else if v == 0x0303 {
        "TLS 1.2"
    } else if v == 0x0304 {
        "TLS 1.3"
    } else {
        "Unknown"
    }
}

pub open spec fn handshake_name(b: u8) -> Seq<char> {
    if b == 0x01 {
        "ClientHello"@
    } else if b == 0x02 {
        "ServerHello"@
    } else if b == 0x0b {
        "Certificate"@
    } else if b == 0x0c {
        "ServerKeyExchange"@
    } else if b == 0x0e {
        "ServerHelloDone"@
    } else if b == 0x10 {
        "ClientKeyExchange"@
    } else if b == 0x14 {
        "Finished"@
    } else {
        "Unknown"@
    }
}

fn handshake_str(b: u8) -> (s: &'static str)
    ensures
        s@ == handshake_name(b),
{
    if b == 0x01 {
        "ClientHello"
    } else if b == 0x02 {
        "ServerHello"
    } else if b == 0x0b {
        "Certificate"
    } else if b == 0x0c {
        "ServerKeyExchange"
    } else if b == 0x0e {
        "ServerHelloDone"
    } else if b == 0x10 {
        "ClientKeyExchange"
    } else if b == 0x14 {
        "Finished"
    } else {
        "Unknown"
    }
}

pub open spec fn be16(hi: u8, lo: u8) -> int {
    hi as int * 256 + lo as int
}

fn read_be16(d: &[u8], at: usize) -> (v: u16)
    requires
        at + 2 <= d.len(),
    ensures
        v == be16(d@[at as int], d@[at + 1]),
{
    let hi = d[at] as u16;
    let lo = d[at + 1] as u16;
    hi * 256 + lo
}

/// The summary of a TLS record: version, record type, handshake type for a
/// handshake, and the record length; none for a short payload or another
/// content type.
pub open spec fn tls_summary(d: Seq<u8>) -> Option<Seq<char>> {
    if d.len() < 6 || !tls_record_byte(d[0]) {
        None
    } else {
        let version = tls_version_name(be16(d[1], d[2]));
        let rt = record_type_name(d[0]);
        let len = be16(d[3], d[4]);
        if d[0] == 0x16 {
            Some("TLS "@ + version + " "@ + rt + " "@ + handshake_name(d[5]) + " len="@ + dec(len))
        } else {
            Some("TLS "@ + version + " "@ + rt + " len="@ + dec(len))
        }
    }
}

pub fn parse_tls_summary(data: &[u8]) -> (r: Option<String>)
    ensures
        match r {
            Some(s) => tls_summary(data@) == Some(s@),
            None => tls_summary(data@) is None,
        },
{
    if data.len() < 6 {
        return None;
    }
    if data[0] != 0x16 && data[0] != 0x15 && data[0] != 0x14 && data[0] != 0x17 {
        return None;
    }
    let record_type = record_type_str(data[0]);
    let version = tls_version_str(read_be16(data, 1));
    let length = read_be16(data, 3);
    let mut out = String::new();
    out.append("TLS ");
    out.append(version);
    out.append(" ");
    out.append(record_type);
    if data[0] == 0x16 {
        out.append(" ");
        out.append(handshake_str(data[5]));
    }
    out.append(" len=");
    push_decimal(&mut out, length as u64);
    assert(tls_summary(data@) == Some(out@));
    Some(out)
}

pub open spec fn cipher_suite_name(s: u16) -> Seq<char> {
    if s == 0x0005 {
        "TLS_RSA_WITH_RC4_128_SHA"@
    } else if s == 0x002F {
        "TLS_RSA_WITH_AES_128_CBC_SHA"@
    } else if s == 0x0035 {
        "TLS_RSA_WITH_AES_256_CBC_SHA"@
    } else if s == 0x009C {
        "TLS_RSA_WITH_AES_128_GCM_SHA256"@
    } else if s == 0x009D {
        "TLS_RSA_WITH_AES_256_GCM_SHA384"@
    } else if s == 0xC02B {
        "TLS_ECDHE_ECDSA_WITH_AES_128_GCM_SHA256"@
    } else if s == 0xC02C {
        "TLS_ECDHE_ECDSA_WITH_AES_256_GCM_SHA384"@
    } else if s == 0xC02F {
        "TLS_ECDHE_RSA_WITH_AES_128_GCM_SHA256"@
    } else if s == 0xC030 {
        "TLS_ECDHE_RSA_WITH_AES_256_GCM_SHA384"@
    } else if s == 0xCCA8 {
        "TLS_ECDHE_RSA_WITH_CHACHA20_POLY1305_SHA256"@
    } else if s == 0xCCA9 {
        "TLS_ECDHE_ECDSA_WITH_CHACHA20_POLY1305_SHA256"@
    } else if s == 0x1301 {
        "TLS_AES_128_GCM_SHA256"@
    } else if s == 0x1302 {
        "TLS_AES_256_GCM_SHA384"@
    } else if s == 0x1303 {
        "TLS_CHACHA20_POLY1305_SHA256"@
    } else {
        "0x"@ + hex_padded(s as nat, 4)
    }
}

/// The IANA name of a cipher suite, or its number in hexadecimal.
pub fn format_cipher_suite(suite: u16) -> (r: String)
    ensures
        r@ == cipher_suite_name(suite),
{
    let name = if suite == 0x0005 {
        "TLS_RSA_WITH_RC4_128_SHA"
    } else if suite == 0x002F {
        "TLS_RSA_WITH_AES_128_CBC_SHA"
    } else if suite == 0x0035 {
        "TLS_RSA_WITH_AES_256_CBC_SHA"
    } else if suite == 0x009C {
        "TLS_RSA_WITH_AES_128_GCM_SHA256"
    } else if suite == 0x009D {
        "TLS_RSA_WITH_AES_256_GCM_SHA384"
    } else if suite == 0xC02B {
        "TLS_ECDHE_ECDSA_WITH_AES_128_GCM_SHA256"
    } else if suite == 0xC02C {
        "TLS_ECDHE_ECDSA_WITH_AES_256_GCM_SHA384"
    } else if suite == 0xC02F {
        "TLS_ECDHE_RSA_WITH_AES_128_GCM_SHA256"
    } else if suite == 0xC030 {
        "TLS_ECDHE_RSA_WITH_AES_256_GCM_SHA384"
    } else if suite == 0xCCA8 {
        "TLS_ECDHE_RSA_WITH_CHACHA20_POLY1305_SHA256"
    } else if suite == 0xCCA9 {
        "TLS_ECDHE_ECDSA_WITH_CHACHA20_POLY1305_SHA256"
    } else if suite == 0x1301 {
        "TLS_AES_128_GCM_SHA256"
    } else if suite == 0x1302 {
        "TLS_AES_256_GCM_SHA384"
    } else if suite == 0x1303 {
        "TLS_CHACHA20_POLY1305_SHA256"
    } else {
        let mut out = String::from_str("0x");
        push_hex_padded(&mut out, suite as u64, 4);
        return out;
    };
    String::from_str(name)
}

// ---------------------------------------------------------------------------
// DNS names

/// Whether the name walk from `pos` ends within `fuel` steps: it stops at a
/// zero length, at the end of the data, or at a label or pointer cut short,
/// and follows compression pointers.
pub open spec fn dns_steps(d: Seq<u8>, pos: int, fuel: nat) -> bool
    decreases fuel,
{
    if fuel == 0 {
        false
    } else if pos < 0 || pos >= d.len() {
        true
    } else {
        let len = d[pos] as int;
        if len == 0 {
            true
        } else if len >= 192 {
            if pos + 1 >= d.len() {
                true
            } else {
                dns_steps(d, (len - 192) * 256 + d[pos + 1] as int, (fuel - 1) as nat)
            }
        } else if pos + len + 1 > d.len() {
            true
        } else {
            dns_steps(d, pos + len + 1, (fuel - 1) as nat)
        }
    }
}

/// The name walk from `offset` ends (compression pointers do not loop).
pub open spec fn dns_name_ends(d: Seq<u8>, offset: int) -> bool {
    exists|f: nat| dns_steps(d, offset, f)
}

/// The name read from `pos` on, appended to `name` with dots between labels.
pub open spec fn dns_walk(d: Seq<u8>, pos: int, name: Seq<char>, fuel: nat) -> Seq<char>
    decreases fuel,
{
    if fuel == 0 || pos < 0 || pos >= d.len() {
        name
    } else {
        let len = d[pos] as int;
        if len == 0 {
            name
        } else if len >= 192 {
            if pos + 1 >= d.len() {
                name
            } else {
                dns_walk(d, (len - 192) * 256 + d[pos + 1] as int, name, (fuel - 1) as nat)
            }
        } else if pos + len + 1 > d.len() {
            name
        } else {
            let joined = if name.len() > 0 {
                name + "."@
            } else {
                name
            };
            dns_walk(d, pos + len + 1, joined + lossy(d.subrange(pos + 1, pos + 1 + len)), (fuel - 1) as nat)
        }
    }
}

/// The name at `offset`, read with enough steps.
pub open spec fn dns_name(d: Seq<u8>, offset: int) -> Seq<char> {
    dns_walk(d, offset, Seq::empty(), choose|f: nat| dns_steps(d, offset, f))
}

/// Reads the (possibly compressed) domain name at `offset`: labels joined by
/// dots. A walk through pointers that loop never ends, so such data is
/// excluded by the precondition.
pub fn parse_dns_name(data: &[u8], offset: usize) -> (r: Option<String>)
    requires
        dns_name_ends(data@, offset as int),
    ensures
        r matches Some(s) && s@ == dns_name(data@, offset as int),
{
    let ghost fuel0: nat = choose|f: nat| dns_steps(data@, offset as int, f);
    let ghost mut fuel: nat = fuel0;
    let mut pos = offset;
    let mut name = String::new();
    loop
        invariant
            dns_steps(data@, pos as int, fuel),
            dns_walk(data@, offset as int, Seq::empty(), fuel0) == dns_walk(data@, pos as int, name@, fuel),
        ensures
            dns_walk(data@, offset as int, Seq::empty(), fuel0) == name@,
        decreases fuel,
    {
        if pos >= data.len() {
            break;
        }
        let len = data[pos] as usize;
        if len == 0 {
            break;
        }
        if len >= 192 {
            if pos + 1 >= data.len() {
                break;
            }
            pos = (len - 192) * 256 + (data[pos + 1] as usize);
            proof {
                fuel = (fuel - 1) as nat;
            }
            continue;
        }
        if len + 1 > data.len() - pos {
            break;
        }
        if name.as_str().unicode_len() > 0 {
            name.append(".");
        }
        let label = utf8_lossy(crate::text::slice_bytes(data, pos + 1, pos + 1 + len).as_slice());
        name.append(label.as_str());
        pos = pos + len + 1;
        proof {
            fuel = (fuel - 1) as nat;
        }
    }
    Some(name)
}

/// The summary of a DNS message: its first question's name and the number of
/// questions for a query, or of answers for a response; none for fewer than
/// twelve bytes.
pub open spec fn dns_summary(d: Seq<u8>) -> Option<Seq<char>> {
    if d.len() < 12 {
        None
    } else {
        let domain = dns_name(d, 12);
        if d[2] < 128 {
            Some("Query: "@ + domain + " ("@ + dec(be16(d[4], d[5])) + " questions)"@)
        } else {
            Some("Response: "@ + domain + " ("@ + dec(be16(d[6], d[7])) + " answers)"@)
        }
    }
}

pub fn parse_dns_summary(data: &[u8]) -> (r: Option<String>)
    requires
        data@.len() >= 12 ==> dns_name_ends(data@, 12),
    ensures
        match r {
            Some(s) => dns_summary(data@) == Some(s@),
            None => dns_summary(data@) is None,
        },
{
    if data.len() < 12 {
        return None;
    }
    let flags = read_be16(data, 2);
    let hi = data[2];
    let lo = data[3];
    let qr = (flags >> 15u16) & 1;
    assert(qr == 0 <==> hi < 128) by (bit_vector)
        requires
            flags == (hi as u16) * 256 + (lo as u16),
            qr == (flags >> 15u16) & 1,
    ;
    let qdcount = read_be16(data, 4);
    let ancount = read_be16(data, 6);
    let domain = match parse_dns_name(data, 12) {
        Some(d) => d,
        None => String::new(),
    };
    let mut out = String::new();
    if qr == 0 {
        out.append("Query: ");
        out.append(domain.as_str());
        out.append(" (");
        push_decimal(&mut out, qdcount as u64);
        out.append(" questions)");
    } else {
        out.append("Response: ");
        out.append(domain.as_str());
        out.append(" (");
        push_decimal(&mut out, ancount as u64);
        out.append(" answers)");
    }
    assert(dns_summary(data@) == Some(out@));
    Some(out)
}

// ---------------------------------------------------------------------------
// What a packet summary is made of

/// The fields of a packet summary.
#[derive(Debug)]
pub struct PacketInfo {
    pub src_addr: String,
    pub src_port: Option<u16>,
    pub dst_addr: String,
    pub dst_port: Option<u16>,
    pub protocol: ProtocolType,
    pub summary: String,
    pub ttl: Option<u8>,
    pub window_size: Option<u16>,
    pub tcp_flags: Option<String>,
    pub ip_id: Option<u16>,
    pub fragment_offset: Option<u16>,
}

pub struct InfoView {
    pub src_addr: Seq<char>,
    pub src_port: Option<u16>,
    pub dst_addr: Seq<char>,
    pub dst_port: Option<u16>,
    pub protocol: ProtocolType,
    pub summary: Seq<char>,
    pub ttl: Option<u8>,
    pub window_size: Option<u16>,
    pub tcp_flags: Option<Seq<char>>,
    pub ip_id: Option<u16>,
    pub fragment_offset: Option<u16>,
}

pub open spec fn opt_chars(o: Option<String>) -> Option<Seq<char>> {
    match o {
        Some(s) => Some(s@),
        None => None,
    }
}

impl View for PacketInfo {
    type V = InfoView;

    open spec fn view(&self) -> InfoView {
        InfoView {
            src_addr: self.src_addr@,
            src_port: self.src_port,
            dst_addr: self.dst_addr@,
            dst_port: self.dst_port,
            protocol: self.protocol,
            summary: self.summary@,
            ttl: self.ttl,
            window_size: self.window_size,
            tcp_flags: opt_chars(self.tcp_flags),
            ip_id: self.ip_id,
            fragment_offset: self.fragment_offset,
        }
    }
}

pub open spec fn info_start() -> InfoView {
    InfoView {
        src_addr: Seq::empty(),
        src_port: None,
        dst_addr: Seq::empty(),
        dst_port: None,
        protocol: ProtocolType::Unknown,
        summary: Seq::empty(),
        ttl: None,
        window_size: None,
        tcp_flags: None,
        ip_id: None,
        fragment_offset: None,
    }
}

/// The Ethernet header gives the MAC addresses and the EtherType.
pub open spec fn info_link(i: InfoView, l: Option<EthView>) -> InfoView {
    match l {
        Some(e) => InfoView {
            src_addr: mac_text(e.source),
            dst_addr: mac_text(e.destination),
            protocol: ProtocolType::Ethernet,
            summary: "EtherType: 0x"@ + hex_padded(e.ether_type as nat, 4),
            ..i
        },
        None => i,
    }
}

/// The protocol an IP protocol number names: 6 TCP, 17 UDP, 1 ICMP; others
/// leave it as it was.
pub open spec fn by_ip_number(p: ProtocolType, n: u8) -> ProtocolType {
    if n == 6 {
        ProtocolType::TCP
    } else if n == 17 {
        ProtocolType::UDP
    } else if n == 1 {
        ProtocolType::ICMP
    } else {
        p
    }
}

/// The IP header gives the addresses, the TTL or hop limit, and for IPv4 the
/// identification and fragment offset.
pub open spec fn info_ip(i: InfoView, ip: Option<IpView>) -> InfoView {
    match ip {
        Some(IpView::V4(h)) => InfoView {
            src_addr: ipv4_text(h.source),
            dst_addr: ipv4_text(h.destination),
            ttl: Some(h.ttl),
            ip_id: Some(h.identification),
            fragment_offset: Some(h.fragments_offset),
            summary: "TTL="@ + dec(h.ttl as int) + " ID=0x"@ + hex_padded(h.identification as nat, 4)
                + " Flags="@ + (if h.dont_fragment {
                "DF "@
            } else {
                ""@
            }) + (if h.more_fragments {
                "MF"@
            } else {
                ""@
            }) + " Offset="@ + dec(h.fragments_offset as int),
            protocol: by_ip_number(i.protocol, h.protocol),
            ..i
        },
        Some(IpView::V6(h)) => InfoView {
            src_addr: h.source,
            dst_addr: h.destination,
            ttl: Some(h.hop_limit),
            protocol: by_ip_number(ProtocolType::IPv6, h.next_header),
            summary: "HopLimit="@ + dec(h.hop_limit as int) + (if h.fragmenting {
                " Fragmented"@
            } else {
                ""@
            }),
            ..i
        },
        None => i,
    }
}

/// The TCP flags of a header.
pub open spec fn tcp_flag_set(t: TcpInfo) -> TcpFlags {
    TcpFlags { fin: t.fin, syn: t.syn, rst: t.rst, psh: t.psh, ack: t.ack, urg: t.urg }
}

/// The transport header gives the ports, and for TCP the window and flags.
pub open spec fn info_transport(i: InfoView, t: Option<TransportInfo>) -> InfoView {
    match t {
        Some(TransportInfo::Tcp(h)) => InfoView {
            src_port: Some(h.source_port),
            dst_port: Some(h.destination_port),
            window_size: Some(h.window_size),
            tcp_flags: Some(flags_text(tcp_flag_set(h))),
            summary: dec(h.source_port as int) + " -> "@ + dec(h.destination_port as int) + " Seq="@
                + dec(h.sequence_number as int) + " Ack="@ + dec(h.acknowledgment_number as int)
                + " Win="@ + dec(h.window_size as int) + " ["@ + flags_text(tcp_flag_set(h)) + "]"@,
            ..i
        },
        Some(TransportInfo::Udp(h)) => InfoView {
            src_port: Some(h.source_port),
            dst_port: Some(h.destination_port),
            summary: dec(h.source_port as int) + " -> "@ + dec(h.destination_port as int) + " Len="@
                + dec(h.length as int),
            ..i
        },
        Some(TransportInfo::ControlV4(h)) => InfoView {
            summary: "Type="@ + dec(h.type_u8 as int) + " Code="@ + dec(h.code_u8 as int)
                + " Checksum="@ + dec(h.checksum as int),
            ..i
        },
        Some(TransportInfo::ControlV6(h)) => InfoView {
            summary: "Type="@ + dec(h.type_u8 as int) + " Code="@ + dec(h.code_u8 as int)
                + " Checksum="@ + dec(h.checksum as int),
            ..i
        },
        _ => i,
    }
}

/// A recognised application protocol replaces the protocol, and its summary,
/// where there is one, replaces the summary.
pub open spec fn info_app(i: InfoView, payload: Seq<u8>, t: Option<TransportInfo>) -> InfoView {
    if payload.len() == 0 {
        i
    } else {
        let detected = detect_spec(payload, t);
        let protocol = if detected != ProtocolType::Unknown {
            detected
        } else {
            i.protocol
        };
        let app = if detected == ProtocolType::HTTP {
            http_summary(payload)
        } else if detected == ProtocolType::DNS {
            dns_summary(payload)
        } else if detected == ProtocolType::TLS {
            tls_summary(payload)
        } else {
            None
        };
        InfoView {
            protocol,
            summary: match app {
                Some(s) => s,
                None => i.summary,
            },
            ..i
        }
    }
}

/// The summary of a frame, its headers read in order.
pub open spec fn packet_info(f: FrameView) -> InfoView {
    info_app(info_transport(info_ip(info_link(info_start(), f.link), f.ip), f.transport), f.payload, f.transport)
}

/// A DNS payload's name walk ends (so that reading it returns).
pub open spec fn dns_payload_ends(payload: Seq<u8>, t: Option<TransportInfo>) -> bool {
    payload.len() > 0 && detect_spec(payload, t) == ProtocolType::DNS && payload.len() >= 12 ==> dns_name_ends(payload, 12)
}

proof fn lemma_flag_bits(x: u8, b0: u8, c1: u8, c2: u8, c3: u8, c4: u8, c5: u8)
    requires
        b0 == 0 || b0 == 1,
        c1 == 0 || c1 == 2,
        c2 == 0 || c2 == 4,
        c3 == 0 || c3 == 8,
        c4 == 0 || c4 == 16,
        c5 == 0 || c5 == 32,
        x == b0 | c1 | c2 | c3 | c4 | c5,
    ensures
        (x & 0x01 != 0) == (b0 == 1),
        (x & 0x02 != 0) == (c1 == 2),
        (x & 0x04 != 0) == (c2 == 4),
        (x & 0x08 != 0) == (c3 == 8),
        (x & 0x10 != 0) == (c4 == 16),
        (x & 0x20 != 0) == (c5 == 32),
{
    assert((x & 0x01 != 0) == (b0 == 1) && (x & 0x02 != 0) == (c1 == 2) && (x & 0x04 != 0) == (c2
        == 4) && (x & 0x08 != 0) == (c3 == 8) && (x & 0x10 != 0) == (c4 == 16) && (x & 0x20 != 0) == (
    c5 == 32)) by (bit_vector)
        requires
            b0 == 0 || b0 == 1,
            c1 == 0 || c1 == 2,
            c2 == 0 || c2 == 4,
            c3 == 0 || c3 == 8,
            c4 == 0 || c4 == 16,
            c5 == 0 || c5 == 32,
            x == b0 | c1 | c2 | c3 | c4 | c5,
    ;
}

fn bit(b: bool) -> (r: u8)
    ensures
        r <= 1,
        (r == 1) == b,
{
    if b {
        1
    } else {
        0
    }
}

/// The flags of a TCP header, packed into bits and read back.
fn tcp_flags_of(t: &TcpInfo) -> (f: TcpFlags)
    ensures
        f == tcp_flag_set(*t),
{
    let b0 = bit(t.fin);
    let c1 = bit(t.syn) * 2;
    let c2 = bit(t.rst) * 4;
    let c3 = bit(t.psh) * 8;
    let c4 = bit(t.ack) * 16;
    let c5 = bit(t.urg) * 32;
    let x = b0 | c1 | c2 | c3 | c4 | c5;
    proof {
        lemma_flag_bits(x, b0, c1, c2, c3, c4, c5);
    }
    TcpFlags::from_bits(x)
}

fn push_dec(out: &mut String, n: u64)
    ensures
        final(out)@ == old(out)@ + dec(n as int),
{
    push_decimal(out, n);
}

/// The summary fields of a frame.
pub fn extract_packet_info(frame: &Frame) -> (r: PacketInfo)
    requires
        dns_payload_ends(frame.payload@, frame.transport),
    ensures
        r@ == packet_info(frame@),
{
    let mut info = PacketInfo {
        src_addr: String::new(),
        src_port: None,
        dst_addr: String::new(),
        dst_port: None,
        protocol: ProtocolType::Unknown,
        summary: String::new(),
        ttl: None,
        window_size: None,
        tcp_flags: None,
        ip_id: None,
        fragment_offset: None,
    };
    proof {
        reveal_strlit("");
    }
    assert(info@ == info_start());
    match &frame.link {
        Some(eth) => {
            info.src_addr = format_mac(eth.source.as_slice());
            info.dst_addr = format_mac(eth.destination.as_slice());
            info.protocol = ProtocolType::Ethernet;
            let mut summary = String::from_str("EtherType: 0x");
            push_hex_padded(&mut summary, eth.ether_type as u64, 4);
            info.summary = summary;
        },
        None => {},
    }
    assert(info@ == info_link(info_start(), frame@.link));
    let ghost after_link = info@;
    match &frame.ip {
        Some(IpInfo::V4(h)) => {
            let mut src = String::new();
            push_ipv4(&mut src, h.source);
            let mut dst = String::new();
            push_ipv4(&mut dst, h.destination);
            info.src_addr = src;
            info.dst_addr = dst;
            info.ttl = Some(h.ttl);
            info.ip_id = Some(h.identification);
            info.fragment_offset = Some(h.fragments_offset);
            let mut summary = String::from_str("TTL=");
            push_dec(&mut summary, h.ttl as u64);
            summary.append(" ID=0x");
            push_hex_padded(&mut summary, h.identification as u64, 4);
            summary.append(" Flags=");
            summary.append(if h.dont_fragment { "DF " } else { "" });
            summary.append(if h.more_fragments { "MF" } else { "" });
            summary.append(" Offset=");
            push_dec(&mut summary, h.fragments_offset as u64);
            info.summary = summary;
            if h.protocol == 6 {
                info.protocol = ProtocolType::TCP;
            } else if h.protocol == 17 {
                info.protocol = ProtocolType::UDP;
            } else if h.protocol == 1 {
                info.protocol = ProtocolType::ICMP;
            }
        },
        Some(IpInfo::V6(h)) => {
            info.src_addr = h.source.clone();
            info.dst_addr = h.destination.clone();
            info.ttl = Some(h.hop_limit);
            info.protocol = ProtocolType::IPv6;
            let mut summary = String::from_str("HopLimit=");
            push_dec(&mut summary, h.hop_limit as u64);
            if h.fragmenting {
                summary.append(" Fragmented");
            }
            info.summary = summary;
            if h.next_header == 6 {
                info.protocol = ProtocolType::TCP;
            } else if h.next_header == 17 {
                info.protocol = ProtocolType::UDP;
            } else if h.next_header == 1 {
                info.protocol = ProtocolType::ICMP;
            }
        },
        None => {},
    }
    assert(info@ == info_ip(after_link, frame@.ip));
    let ghost after_ip = info@;
    match &frame.transport {
        Some(TransportInfo::Tcp(t)) => {
            info.src_port = Some(t.source_port);
            info.dst_port = Some(t.destination_port);
            info.window_size = Some(t.window_size);
            let flags = tcp_flags_of(t);
            info.tcp_flags = Some(flags.to_string_flags());
            let mut summary = String::new();
            push_dec(&mut summary, t.source_port as u64);
            summary.append(" -> ");
            push_dec(&mut summary, t.destination_port as u64);
            summary.append(" Seq=");
            push_dec(&mut summary, t.sequence_number as u64);
            summary.append(" Ack=");
            push_dec(&mut summary, t.acknowledgment_number as u64);
            summary.append(" Win=");
            push_dec(&mut summary, t.window_size as u64);
            summary.append(" [");
            let text = flags.to_string_flags();
            summary.append(text.as_str());
            summary.append("]");
            info.summary = summary;
        },
        Some(TransportInfo::Udp(u)) => {
            info.src_port = Some(u.source_port);
            info.dst_port = Some(u.destination_port);
            let mut summary = String::new();
            push_dec(&mut summary, u.source_port as u64);
            summary.append(" -> ");
            push_dec(&mut summary, u.destination_port as u64);
            summary.append(" Len=");
            push_dec(&mut summary, u.length as u64);
            info.summary = summary;
        },
        Some(TransportInfo::ControlV4(c)) | Some(TransportInfo::ControlV6(c)) => {
            let mut summary = String::from_str("Type=");
            push_dec(&mut summary, c.type_u8 as u64);
            summary.append(" Code=");
            push_dec(&mut summary, c.code_u8 as u64);
            summary.append(" Checksum=");
            push_dec(&mut summary, c.checksum as u64);
            info.summary = summary;
        },
        _ => {},
    }
    assert(info@ == info_transport(after_ip, frame@.transport));
    let ghost after_transport = info@;
    let app_data = frame.payload.as_slice();
    if app_data.len() > 0 {
        let detected = detect_application_protocol(app_data, frame);
        if detected != ProtocolType::Unknown {
            info.protocol = detected;
        }
        match detected {
            ProtocolType::HTTP => {
                match parse_http_summary(app_data) {
                    Some(s) => {
                        info.summary = s;
                    },
                    None => {},
                }
            },
            ProtocolType::DNS => {
                match parse_dns_summary(app_data) {
                    Some(s) => {
                        info.summary = s;
                    },
                    None => {},
                }
            },
            ProtocolType::TLS => {
                match parse_tls_summary(app_data) {
                    Some(s) => {
                        info.summary = s;
                    },
                    None => {},
                }
            },
            _ => {},
        }
    }
    assert(info@ == info_app(after_transport, frame@.payload, frame@.transport));
    info
}

// ---------------------------------------------------------------------------
// Packet metadata

/// The metadata of a packet: the frame's summary fields, or a parse-error
/// record where the frame cannot be parted.
pub open spec fn metadata_ok(m: PacketMetadata, no: u64, raw: RawPacket, f: Option<FrameView>) -> bool {
    &&& m.no == no
    &&& m.timestamp_secs == raw.timestamp_secs
    &&& m.timestamp_micros == raw.timestamp_micros
    &&& m.length == raw.data@.len() as u32
    &&& match f {
        Some(fv) => {
            let i = packet_info(fv);
            &&& m.src_addr@ == i.src_addr
            &&& m.src_port == i.src_port
            &&& m.dst_addr@ == i.dst_addr
            &&& m.dst_port == i.dst_port
            &&& m.protocol == i.protocol
            &&& m.summary@ == i.summary
            &&& m.ttl == i.ttl
            &&& m.window_size == i.window_size
            &&& opt_chars(m.tcp_flags) == i.tcp_flags
            &&& m.ip_id == i.ip_id
            &&& m.fragment_offset == i.fragment_offset
        },
        None => {
            &&& m.src_addr@ == Seq::<char>::empty()
            &&& m.src_port is None
            &&& m.dst_addr@ == Seq::<char>::empty()
            &&& m.dst_port is None
            &&& m.protocol == ProtocolType::Unknown
            &&& m.summary@ == "Parse error"@
            &&& m.ttl is None
            &&& m.window_size is None
            &&& m.tcp_flags is None
            &&& m.ip_id is None
            &&& m.fragment_offset is None
        },
    }
}

pub open spec fn frame_view_opt(f: Option<Frame>) -> Option<FrameView> {
    match f {
        Some(x) => Some(x@),
        None => None,
    }
}

/// The metadata of a packet from its parted frame (none where parting failed).
pub fn metadata_from_frame(no: u64, raw: &RawPacket, frame: Option<Frame>) -> (m: PacketMetadata)
    requires
        frame matches Some(f) ==> dns_payload_ends(f.payload@, f.transport),
    ensures
        metadata_ok(m, no, *raw, frame_view_opt(frame)),
{
    match frame {
        Some(f) => {
            let info = extract_packet_info(&f);
            PacketMetadata {
                no,
                timestamp_secs: raw.timestamp_secs,
                timestamp_micros: raw.timestamp_micros,
                src_addr: info.src_addr,
                src_port: info.src_port,
                dst_addr: info.dst_addr,
                dst_port: info.dst_port,
                protocol: info.protocol,
                length: raw.data.len() as u32,
                summary: info.summary,
                ttl: info.ttl,
                window_size: info.window_size,
                tcp_flags: info.tcp_flags,
                ip_id: info.ip_id,
                fragment_offset: info.fragment_offset,
            }
        },
        None => {
            proof {
                reveal_strlit("");
            }
            PacketMetadata {
                no,
                timestamp_secs: raw.timestamp_secs,
                timestamp_micros: raw.timestamp_micros,
                src_addr: String::new(),
                src_port: None,
                dst_addr: String::new(),
                dst_port: None,
                protocol: ProtocolType::Unknown,
                length: raw.data.len() as u32,
                summary: String::from_str("Parse error"),
                ttl: None,
                window_size: None,
                tcp_flags: None,
                ip_id: None,
                fragment_offset: None,
            }
        },
    }
}

/// Whether the payload's DNS name, if it is read at all, can be read.
pub open spec fn frame_reads_end(f: Option<FrameView>) -> bool {
    f matches Some(fv) ==> dns_payload_ends(fv.payload, fv.transport)
}

/// The metadata of a captured packet.
pub fn parse_packet_metadata(no: u64, raw: &RawPacket) -> (m: PacketMetadata)
    requires
        frame_reads_end(frame_spec(raw.data@)),
    ensures
        metadata_ok(m, no, *raw, frame_spec(raw.data@)),
{
    let frame = slice_frame(raw.data.as_slice());
    metadata_from_frame(no, raw, frame)
}

proof fn lemma_dns_steps_monotone(d: Seq<u8>, pos: int, f: nat, g: nat)
    requires
        f <= g,
        dns_steps(d, pos, f),
    ensures
        dns_steps(d, pos, g),
    decreases f,
{
    if f > 0 {
        let len = d[pos] as int;
        if 0 <= pos < d.len() && len != 0 {
            if len >= 192 {
                if pos + 1 < d.len() {
                    lemma_dns_steps_monotone(d, (len - 192) * 256 + d[pos + 1] as int, (f - 1) as nat, (g - 1) as nat);
                }
            } else if pos + len + 1 <= d.len() {
                lemma_dns_steps_monotone(d, pos + len + 1, (f - 1) as nat, (g - 1) as nat);
            }
        }
    }
}

/// Follows the name walk at `offset` for at most `bound` steps; true where it
/// ends within them.
pub fn dns_walk_ends_within(data: &[u8], offset: usize, bound: u64) -> (b: bool)
    ensures
        b == dns_steps(data@, offset as int, bound as nat),
{
    let mut pos = offset;
    let mut steps: u64 = 0;
    while steps < bound
        invariant
            steps <= bound,
            forall|f: nat| #[trigger] dns_steps(data@, pos as int, f) == dns_steps(data@, offset as int, (f + steps) as nat),
        decreases bound - steps,
    {
        proof {
            assert(dns_steps(data@, pos as int, 1) == dns_steps(data@, offset as int, (1 + steps) as nat));
        }
        if pos >= data.len() {
            assert(dns_steps(data@, pos as int, 1));
            proof {
                lemma_dns_steps_monotone(data@, offset as int, (1 + steps) as nat, bound as nat);
            }
            return true;
        }
        let len = data[pos] as usize;
        if len == 0 {
            assert(dns_steps(data@, pos as int, 1));
            proof {
                lemma_dns_steps_monotone(data@, offset as int, (1 + steps) as nat, bound as nat);
            }
            return true;
        }
        if len >= 192 {
            if pos + 1 >= data.len() {
                assert(dns_steps(data@, pos as int, 1));
                proof {
                    lemma_dns_steps_monotone(data@, offset as int, (1 + steps) as nat, bound as nat);
                }
                return true;
            }
            let next = (len - 192) * 256 + (data[pos + 1] as usize);
            proof {
                assert forall|f: nat| #[trigger] dns_steps(data@, next as int, f) == dns_steps(data@, offset as int, (f + steps + 1) as nat) by {
                    assert(dns_steps(data@, pos as int, (f + 1) as nat) == dns_steps(data@, next as int, f));
                    assert(dns_steps(data@, pos as int, (f + 1) as nat) == dns_steps(data@, offset as int, (f + 1 + steps) as nat));
                }
            }
            pos = next;
        } else {
            if len + 1 > data.len() - pos {
                assert(dns_steps(data@, pos as int, 1));
                proof {
                    lemma_dns_steps_monotone(data@, offset as int, (1 + steps) as nat, bound as nat);
                }
                return true;
            }
            let next = pos + len + 1;
            proof {
                assert forall|f: nat| #[trigger] dns_steps(data@, next as int, f) == dns_steps(data@, offset as int, (f + steps + 1) as nat) by {
                    assert(dns_steps(data@, pos as int, (f + 1) as nat) == dns_steps(data@, next as int, f));
                    assert(dns_steps(data@, pos as int, (f + 1) as nat) == dns_steps(data@, offset as int, (f + 1 + steps) as nat));
                }
            }
            pos = next;
        }
        steps = steps + 1;
    }
    assert(dns_steps(data@, pos as int, 0) == dns_steps(data@, offset as int, (0 + steps) as nat));
    false
}

/// The step bound of the checked readers: half the payload plus the
/// pointer space.
pub open spec fn dns_bound(payload: Seq<u8>) -> nat {
    (payload.len() / 2 + 0x10000) as nat
}

/// A payload that the unchecked reader is not given: a DNS message of 12
/// bytes or more whose name walk does not end within the bound.
pub open spec fn metadata_refused(f: Option<FrameView>) -> bool {
    f matches Some(fv) && fv.payload.len() >= 12 && detect_spec(fv.payload, fv.transport) == ProtocolType::DNS
        && !dns_steps(fv.payload, 12, dns_bound(fv.payload))
}

/// The metadata of a captured packet, or none where the packet is a DNS
/// message whose name does not end within a walk of the whole packet plus the
/// pointer space (a walk the unchecked reader would never finish).
pub fn parse_packet_metadata_checked(no: u64, raw: &RawPacket) -> (r: Option<PacketMetadata>)
    ensures
        match r {
            Some(m) => metadata_ok(m, no, *raw, frame_spec(raw.data@)),
            None => metadata_refused(frame_spec(raw.data@)),
        },
{
    let frame = slice_frame(raw.data.as_slice());
    match &frame {
        Some(f) => {
            let payload = f.payload.as_slice();
            if payload.len() >= 12 {
                if detect_application_protocol(payload, f) == ProtocolType::DNS {
                    let bound = (payload.len() as u64) / 2 + 0x10000;
                    if !dns_walk_ends_within(payload, 12, bound) {
                        return None;
                    }
                }
            }
        },
        None => {},
    }
    Some(metadata_from_frame(no, raw, frame))
}

// ---------------------------------------------------------------------------
// Layer details

/// A field as (name, value, byte range).
pub open spec fn field_view(f: FieldEntry) -> (Seq<char>, Seq<char>, (usize, usize)) {
    (f.name@, f.value@, f.byte_range)
}

pub open spec fn fields_view(v: Seq<FieldEntry>) -> Seq<(Seq<char>, Seq<char>, (usize, usize))> {
    v.map_values(|f: FieldEntry| field_view(f))
}

/// A layer as (protocol, fields, byte range).
pub open spec fn layer_view(l: ProtocolLayer) -> (Seq<char>, Seq<(Seq<char>, Seq<char>, (usize, usize))>, (usize, usize)) {
    (l.protocol@, fields_view(l.fields@), l.byte_range)
}

fn field(name: &str, value: String, a: usize, b: usize) -> (f: FieldEntry)
    ensures
        field_view(f) == (name@, value@, (a, b)),
{
    FieldEntry { name: String::from_str(name), value, byte_range: (a, b) }
}

fn push_field(fields: &mut Vec<FieldEntry>, f: FieldEntry)
    ensures
        fields_view(final(fields)@) == fields_view(old(fields)@).push(field_view(f)),
{
    fields.push(f);
    assert(fields_view(fields@) =~= fields_view(old(fields)@).push(field_view(f)));
}

fn dec_text(n: u64) -> (s: String)
    ensures
        s@ == dec(n as int),
{
    let mut s = String::new();
    push_decimal(&mut s, n);
    s
}

fn hex_text(n: u64, width: usize) -> (s: String)
    ensures
        s@ == "0x"@ + hex_padded(n as nat, width as nat),
{
    let mut s = String::from_str("0x");
    push_hex_padded(&mut s, n, width);
    s
}

pub open spec fn hex0x(n: int, width: nat) -> Seq<char> {
    "0x"@ + hex_padded(n as nat, width)
}

/// The Ethernet II layer: source and destination MAC and EtherType.
pub open spec fn ethernet_fields(e: EthView) -> Seq<(Seq<char>, Seq<char>, (usize, usize))> {
    seq![
        ("Source MAC"@, mac_text(e.source), (0usize, 6usize)),
        ("Destination MAC"@, mac_text(e.destination), (6usize, 12usize)),
        ("EtherType"@, hex0x(e.ether_type as int, 4), (12usize, 14usize)),
    ]
}

pub fn parse_ethernet_layer(link: &EthInfo) -> (l: ProtocolLayer)
    ensures
        layer_view(l) == ("Ethernet II"@, ethernet_fields(link@), (0usize, 14usize)),
{
    let mut fields: Vec<FieldEntry> = Vec::new();
    push_field(&mut fields, field("Source MAC", format_mac(link.source.as_slice()), 0, 6));
    push_field(&mut fields, field("Destination MAC", format_mac(link.destination.as_slice()), 6, 12));
    push_field(&mut fields, field("EtherType", hex_text(link.ether_type as u64, 4), 12, 14));
    assert(fields_view(fields@) =~= ethernet_fields(link@));
    ProtocolLayer { protocol: String::from_str("Ethernet II"), fields, byte_range: (0, 14) }
}

/// The VLAN layer: the one tag's id and EtherType, or the outer and inner ids.
pub open spec fn vlan_fields(v: VlanInfo) -> Seq<(Seq<char>, Seq<char>, (usize, usize))> {
    match v {
        VlanInfo::Single { vlan_identifier, ether_type } => seq![
            ("VLAN ID"@, dec(vlan_identifier as int), (0usize, 0usize)),
            ("EtherType"@, hex0x(ether_type as int, 4), (0usize, 0usize)),
        ],
        VlanInfo::Double { outer_identifier, inner_identifier } => seq![
            ("Outer VLAN ID"@, dec(outer_identifier as int), (0usize, 0usize)),
            ("Inner VLAN ID"@, dec(inner_identifier as int), (0usize, 0usize)),
        ],
    }
}

pub fn parse_vlan_layer(vlan: &VlanInfo) -> (l: ProtocolLayer)
    ensures
        layer_view(l) == ("VLAN"@, vlan_fields(*vlan), (0usize, 0usize)),
{
    let mut fields: Vec<FieldEntry> = Vec::new();
    match vlan {
        VlanInfo::Single { vlan_identifier, ether_type } => {
            push_field(&mut fields, field("VLAN ID", dec_text(*vlan_identifier as u64), 0, 0));
            push_field(&mut fields, field("EtherType", hex_text(*ether_type as u64, 4), 0, 0));
        },
        VlanInfo::Double { outer_identifier, inner_identifier } => {
            push_field(&mut fields, field("Outer VLAN ID", dec_text(*outer_identifier as u64), 0, 0));
            push_field(&mut fields, field("Inner VLAN ID", dec_text(*inner_identifier as u64), 0, 0));
        },
    }
    assert(fields_view(fields@) =~= vlan_fields(*vlan));
    ProtocolLayer { protocol: String::from_str("VLAN"), fields, byte_range: (0, 0) }
}

pub open spec fn flag_words(df: bool, mf: bool) -> Seq<char> {
    (if df {
        "DF "@
    } else {
        ""@
    }) + (if mf {
        "MF"@
    } else {
        ""@
    })
}

/// The IP layer: every header field, with its byte range in the header.
pub open spec fn ip_layer(ip: IpView) -> (Seq<char>, Seq<(Seq<char>, Seq<char>, (usize, usize))>, (usize, usize)) {
    match ip {
        IpView::V4(h) => (
            "Internet Protocol Version 4"@,
            seq![
                ("Version"@, "4"@, (0usize, 1usize)),
                ("Header Length"@, dec(h.ihl as int * 4) + " bytes"@, (0usize, 1usize)),
                ("Total Length"@, dec(h.total_len as int), (2usize, 4usize)),
                ("Identification"@, hex0x(h.identification as int, 4), (4usize, 6usize)),
                ("Flags"@, flag_words(h.dont_fragment, h.more_fragments), (6usize, 8usize)),
                ("Fragment Offset"@, dec(h.fragments_offset as int), (6usize, 8usize)),
                ("TTL"@, dec(h.ttl as int), (8usize, 9usize)),
                ("Protocol"@, dec(h.protocol as int), (9usize, 10usize)),
                ("Header Checksum"@, hex0x(h.header_checksum as int, 4), (10usize, 12usize)),
                ("Source IP"@, ipv4_text(h.source), (12usize, 16usize)),
                ("Destination IP"@, ipv4_text(h.destination), (16usize, 20usize)),
            ],
            (14usize, 34usize),
        ),
        IpView::V6(h) => (
            "Internet Protocol Version 6"@,
            seq![
                ("Version"@, "6"@, (0usize, 1usize)),
                ("Traffic Class"@, hex0x(h.traffic_class as int, 2), (0usize, 2usize)),
                ("Flow Label"@, hex0x(h.flow_label as int, 5), (0usize, 4usize)),
                ("Payload Length"@, dec(h.payload_length as int), (4usize, 6usize)),
                ("Next Header"@, dec(h.next_header as int), (6usize, 7usize)),
                ("Hop Limit"@, dec(h.hop_limit as int), (7usize, 8usize)),
                ("Source IP"@, h.source, (8usize, 24usize)),
                ("Destination IP"@, h.destination, (24usize, 40usize)),
            ],
            (14usize, 54usize),
        ),
    }
}

fn ipv4_text_of(a: u32) -> (s: String)
    ensures
        s@ == ipv4_text(a),
{
    let mut s = String::new();
    push_ipv4(&mut s, a);
    s
}

pub fn parse_ip_layer(ip: &IpInfo) -> (l: ProtocolLayer)
    ensures
        layer_view(l) == ip_layer(ip@),
{
    let mut fields: Vec<FieldEntry> = Vec::new();
    match ip {
        IpInfo::V4(h) => {
            push_field(&mut fields, field("Version", String::from_str("4"), 0, 1));
            let mut hl = dec_text(h.ihl as u64 * 4);
            hl.append(" bytes");
            push_field(&mut fields, field("Header Length", hl, 0, 1));
            push_field(&mut fields, field("Total Length", dec_text(h.total_len as u64), 2, 4));
            push_field(&mut fields, field("Identification", hex_text(h.identification as u64, 4), 4, 6));
            let mut flags = String::from_str(if h.dont_fragment { "DF " } else { "" });
            flags.append(if h.more_fragments { "MF" } else { "" });
            push_field(&mut fields, field("Flags", flags, 6, 8));
            push_field(&mut fields, field("Fragment Offset", dec_text(h.fragments_offset as u64), 6, 8));
            push_field(&mut fields, field("TTL", dec_text(h.ttl as u64), 8, 9));
            push_field(&mut fields, field("Protocol", dec_text(h.protocol as u64), 9, 10));
            push_field(&mut fields, field("Header Checksum", hex_text(h.header_checksum as u64, 4), 10, 12));
            push_field(&mut fields, field("Source IP", ipv4_text_of(h.source), 12, 16));
            push_field(&mut fields, field("Destination IP", ipv4_text_of(h.destination), 16, 20));
            proof {
                reveal_strlit("");
            }
            assert(fields_view(fields@) =~= ip_layer(ip@).1);
            ProtocolLayer {
                protocol: String::from_str("Internet Protocol Version 4"),
                fields,
                byte_range: (14, 34),
            }
        },
        IpInfo::V6(h) => {
            push_field(&mut fields, field("Version", String::from_str("6"), 0, 1));
            push_field(&mut fields, field("Traffic Class", hex_text(h.traffic_class as u64, 2), 0, 2));
            push_field(&mut fields, field("Flow Label", hex_text(h.flow_label as u64, 5), 0, 4));
            push_field(&mut fields, field("Payload Length", dec_text(h.payload_length as u64), 4, 6));
            push_field(&mut fields, field("Next Header", dec_text(h.next_header as u64), 6, 7));
            push_field(&mut fields, field("Hop Limit", dec_text(h.hop_limit as u64), 7, 8));
            push_field(&mut fields, field("Source IP", h.source.clone(), 8, 24));
            push_field(&mut fields, field("Destination IP", h.destination.clone(), 24, 40));
            assert(fields_view(fields@) =~= ip_layer(ip@).1);
            ProtocolLayer {
                protocol: String::from_str("Internet Protocol Version 6"),
                fields,
                byte_range: (14, 54),
            }
        },
    }
}

pub open spec fn control_type_name(t: u8) -> Seq<char> {
    if t == 0 {
        "Echo Reply"@
    } else if t == 3 {
        "Destination Unreachable"@
    } else if t == 5 {
        "Redirect"@
    } else if t == 8 {
        "Echo Request"@
    } else if t == 11 {
        "Time Exceeded"@
    } else {
        "Unknown"@
    }
}

fn control_type_str(t: u8) -> (s: &'static str)
    ensures
        s@ == control_type_name(t),
{
    if t == 0 {
        "Echo Reply"
    } else if t == 3 {
        "Destination Unreachable"
    } else if t == 5 {
        "Redirect"
    } else if t == 8 {
        "Echo Request"
    } else if t == 11 {
        "Time Exceeded"
    } else {
        "Unknown"
    }
}

/// The transport layer: every header field, with its byte range in the header.
pub open spec fn transport_layer(t: TransportInfo) -> (Seq<char>, Seq<(Seq<char>, Seq<char>, (usize, usize))>, (usize, usize)) {
    match t {
        TransportInfo::Tcp(h) => (
            "Transmission Control Protocol"@,
            seq![
                ("Source Port"@, dec(h.source_port as int), (0usize, 2usize)),
                ("Destination Port"@, dec(h.destination_port as int), (2usize, 4usize)),
                ("Sequence Number"@, dec(h.sequence_number as int), (4usize, 8usize)),
                ("Acknowledgment Number"@, dec(h.acknowledgment_number as int), (8usize, 12usize)),
                ("Data Offset"@, dec(h.data_offset as int * 4) + " bytes"@, (12usize, 13usize)),
                ("Flags"@, flags_text(tcp_flag_set(h)), (13usize, 14usize)),
                ("Window Size"@, dec(h.window_size as int), (14usize, 16usize)),
                ("Checksum"@, hex0x(h.checksum as int, 4), (16usize, 18usize)),
                ("Urgent Pointer"@, dec(h.urgent_pointer as int), (18usize, 20usize)),
            ],
            (34usize, 54usize),
        ),
        TransportInfo::Udp(h) => (
            "User Datagram Protocol"@,
            seq![
                ("Source Port"@, dec(h.source_port as int), (0usize, 2usize)),
                ("Destination Port"@, dec(h.destination_port as int), (2usize, 4usize)),
                ("Length"@, dec(h.length as int), (4usize, 6usize)),
                ("Checksum"@, hex0x(h.checksum as int, 4), (6usize, 8usize)),
            ],
            (34usize, 42usize),
        ),
        TransportInfo::ControlV4(h) => (
            "Internet Control Message Protocol"@,
            seq![
                ("Type"@, dec(h.type_u8 as int) + " ("@ + control_type_name(h.type_u8) + ")"@, (0usize, 1usize)),
                ("Code"@, dec(h.code_u8 as int), (1usize, 2usize)),
                ("Checksum"@, hex0x(h.checksum as int, 4), (2usize, 4usize)),
            ],
            (34usize, 38usize),
        ),
        TransportInfo::ControlV6(h) => (
            "ICMPv6"@,
            seq![
                ("Type"@, dec(h.type_u8 as int), (0usize, 1usize)),
                ("Code"@, dec(h.code_u8 as int), (1usize, 2usize)),
                ("Checksum"@, hex0x(h.checksum as int, 4), (2usize, 4usize)),
            ],
            (54usize, 58usize),
        ),
        TransportInfo::Unknown(p) => (
            "Unknown Transport ("@ + dec(p as int) + ")"@,
            Seq::empty(),
            (0usize, 0usize),
        ),
    }
}

pub fn parse_transport_layer(transport: &TransportInfo) -> (l: ProtocolLayer)
    ensures
        layer_view(l) == transport_layer(*transport),
{
    let mut fields: Vec<FieldEntry> = Vec::new();
    match transport {
        TransportInfo::Tcp(tcp) => {
            let flags = tcp_flags_of(tcp);
            push_field(&mut fields, field("Source Port", dec_text(tcp.source_port as u64), 0, 2));
            push_field(&mut fields, field("Destination Port", dec_text(tcp.destination_port as u64), 2, 4));
            push_field(&mut fields, field("Sequence Number", dec_text(tcp.sequence_number as u64), 4, 8));
            push_field(&mut fields, field("Acknowledgment Number", dec_text(tcp.acknowledgment_number as u64), 8, 12));
            let mut off = dec_text(tcp.data_offset as u64 * 4);
            off.append(" bytes");
            push_field(&mut fields, field("Data Offset", off, 12, 13));
            push_field(&mut fields, field("Flags", flags.to_string_flags(), 13, 14));
            push_field(&mut fields, field("Window Size", dec_text(tcp.window_size as u64), 14, 16));
            push_field(&mut fields, field("Checksum", hex_text(tcp.checksum as u64, 4), 16, 18));
            push_field(&mut fields, field("Urgent Pointer", dec_text(tcp.urgent_pointer as u64), 18, 20));
            assert(fields_view(fields@) =~= transport_layer(*transport).1);
            ProtocolLayer {
                protocol: String::from_str("Transmission Control Protocol"),
                fields,
                byte_range: (34, 54),
            }
        },
        TransportInfo::Udp(udp) => {
            push_field(&mut fields, field("Source Port", dec_text(udp.source_port as u64), 0, 2));
            push_field(&mut fields, field("Destination Port", dec_text(udp.destination_port as u64), 2, 4));
            push_field(&mut fields, field("Length", dec_text(udp.length as u64), 4, 6));
            push_field(&mut fields, field("Checksum", hex_text(udp.checksum as u64, 4), 6, 8));
            assert(fields_view(fields@) =~= transport_layer(*transport).1);
            ProtocolLayer {
                protocol: String::from_str("User Datagram Protocol"),
                fields,
                byte_range: (34, 42),
            }
        },
        TransportInfo::ControlV4(c) => {
            let mut ty = dec_text(c.type_u8 as u64);
            ty.append(" (");
            ty.append(control_type_str(c.type_u8));
            ty.append(")");
            push_field(&mut fields, field("Type", ty, 0, 1));
            push_field(&mut fields, field("Code", dec_text(c.code_u8 as u64), 1, 2));
            push_field(&mut fields, field("Checksum", hex_text(c.checksum as u64, 4), 2, 4));
            assert(fields_view(fields@) =~= transport_layer(*transport).1);
            ProtocolLayer {
                protocol: String::from_str("Internet Control Message Protocol"),
                fields,
                byte_range: (34, 38),
            }
        },
        TransportInfo::ControlV6(c) => {
            push_field(&mut fields, field("Type", dec_text(c.type_u8 as u64), 0, 1));
            push_field(&mut fields, field("Code", dec_text(c.code_u8 as u64), 1, 2));
            push_field(&mut fields, field("Checksum", hex_text(c.checksum as u64, 4), 2, 4));
            assert(fields_view(fields@) =~= transport_layer(*transport).1);
            ProtocolLayer { protocol: String::from_str("ICMPv6"), fields, byte_range: (54, 58) }
        },
        TransportInfo::Unknown(p) => {
            let mut name = String::from_str("Unknown Transport (");
            push_decimal(&mut name, *p as u64);
            name.append(")");
            assert(fields_view(fields@) =~= Seq::<(Seq<char>, Seq<char>, (usize, usize))>::empty());
            ProtocolLayer { protocol: name, fields, byte_range: (0, 0) }
        },
    }
}

// ---------------------------------------------------------------------------
// The application layer

pub type FieldV = (Seq<char>, Seq<char>, (usize, usize));

/// Bytes taken by a character in UTF-8.
pub open spec fn char_width(c: char) -> nat {
    if c <= '\u{7f}' {
        1
    } else if c <= '\u{7ff}' {
        2
    } else if c <= '\u{ffff}' {
        3
    } else {
        4
    }
}

/// Length of a text in UTF-8 bytes.
pub open spec fn utf8_len(s: Seq<char>) -> nat
    decreases s.len(),
{
    if s.len() == 0 {
        0
    } else {
        utf8_len(s.drop_last()) + char_width(s.last())
    }
}

/// Calls `str::len`, the length in UTF-8 bytes.
#[verifier::external_body]
fn str_byte_len(s: &str) -> (n: usize)
    ensures
        n == utf8_len(s@),
{
    s.len()
}

/// The header lines of an HTTP message, up to the first empty line: each
/// line with a colon gives its name and trimmed value.
pub open spec fn header_fields(ls: Seq<Seq<char>>) -> Seq<FieldV>
    decreases ls.len(),
{
    if ls.len() == 0 || ls[0].len() == 0 {
        Seq::empty()
    } else {
        (match find_char(ls[0], ':') {
            Some(k) => seq![(ls[0].take(k), crate::text::trimmed(ls[0].skip(k + 1)), (0usize, 0usize))],
            None => Seq::empty(),
        }) + header_fields(ls.drop_first())
    }
}

/// The fields of an HTTP message: status code and text of a response, or
/// method and URL of a request, then the headers.
pub open spec fn http_fields(d: Seq<u8>) -> Seq<FieldV> {
    let lines = std_lines(lossy(d));
    let first = if lines.len() > 0 {
        lines[0]
    } else {
        Seq::empty()
    };
    let n = utf8_len(first) as usize;
    let parts = splitn3(first);
    let head = if has_prefix(first, "HTTP/"@) {
        if parts.len() >= 2 {
            seq![("Status Code"@, parts[1], (0usize, n))] + if parts.len() >= 3 {
                seq![("Status Text"@, parts[2], (0usize, n))]
            } else {
                Seq::empty()
            }
        } else {
            Seq::empty()
        }
    } else if parts.len() >= 2 {
        seq![("Method"@, parts[0], (0usize, n)), ("URL"@, parts[1], (0usize, n))]
    } else {
        Seq::empty()
    };
    head + header_fields(
        if lines.len() > 0 {
            lines.drop_first()
        } else {
            Seq::empty()
        },
    )
}

/// The position after the labels of a question name, not following pointers.
pub open spec fn skip_labels(d: Seq<u8>, pos: int) -> int
    decreases d.len() - pos,
{
    if 0 <= pos < d.len() && d[pos] != 0 {
        let next = pos + d[pos] + 1;
        if next >= d.len() {
            next
        } else {
            skip_labels(d, next)
        }
    } else {
        pos
    }
}

pub open spec fn query_type_name(q: int) -> Seq<char> {
    if q == 1 {
        "A"@
    } else if q == 2 {
        "NS"@
    } else if q == 5 {
        "CNAME"@
    } else if q == 6 {
        "SOA"@
    } else if q == 12 {
        "PTR"@
    } else if q == 15 {
        "MX"@
    } else if q == 16 {
        "TXT"@
    } else if q == 28 {
        "AAAA"@
    } else if q == 33 {
        "SRV"@
    } else if q == 255 {
        "ANY"@
    } else {
        "Unknown"@
    }
}

fn query_type_str(q: u16) -> (s: &'static str)
    ensures
        s@ == query_type_name(q as int),
{
    if q == 1 {
        "A"
    } else if q == 2 {
        "NS"
    } else if q == 5 {
        "CNAME"
    } else if q == 6 {
        "SOA"
    } else if q == 12 {
        "PTR"
    } else if q == 15 {
        "MX"
    } else if q == 16 {
        "TXT"
    } else if q == 28 {
        "AAAA"
    } else if q == 33 {
        "SRV"
    } else if q == 255 {
        "ANY"
    } else {
        "Unknown"
    }
}

/// The fields of a DNS message: id, flags, counts, the first question's name
/// and, where its end can be found, its type.
pub open spec fn dns_fields(d: Seq<u8>) -> Seq<FieldV> {
    if d.len() < 12 {
        Seq::empty()
    } else {
        let flags = be16(d[2], d[3]);
        seq![
            ("Transaction ID"@, hex0x(be16(d[0], d[1]), 4), (0usize, 2usize)),
            ("Flags"@, "QR="@ + dec(flags / 32768) + " Opcode="@ + dec((flags / 2048) % 16) + " RCODE="@
                + dec(flags % 16), (2usize, 4usize)),
            ("Questions"@, dec(be16(d[4], d[5])), (4usize, 6usize)),
            ("Answers"@, dec(be16(d[6], d[7])), (6usize, 8usize)),
            ("Query Name"@, dns_name(d, 12), (12usize, d.len() as usize)),
        ] + if d.len() > 14 {
            let p = skip_labels(d, 12) + 1;
            if p + 4 <= d.len() {
                seq![("Query Type"@, query_type_name(be16(d[p], d[p + 1])), (0usize, 0usize))]
            } else {
                Seq::empty()
            }
        } else {
            Seq::empty()
        }
    }
}

pub open spec fn server_version_name(v: int) -> Seq<char> {
    if v == 0x0303 {
        "TLS 1.2"@
    } else if v == 0x0304 {
        "TLS 1.3"@
    } else {
        "Unknown"@
    }
}

/// The names of the cipher suites listed from `i` up to `end`, two bytes each.
pub open spec fn suite_names(d: Seq<u8>, i: int, end: int) -> Seq<Seq<char>>
    decreases end - i,
{
    if i >= end {
        Seq::empty()
    } else {
        (if 0 <= i && i + 1 < d.len() {
            seq![cipher_suite_name(be16(d[i], d[i + 1]) as u16)]
        } else {
            Seq::empty()
        }) + if i + 2 < end {
            suite_names(d, i + 2, end)
        } else {
            Seq::empty()
        }
    }
}

pub open spec fn server_hello_fields(d: Seq<u8>) -> Seq<FieldV> {
    let cs = 45 + d[44] as int;
    seq![("Server Version"@, server_version_name(be16(d[10], d[11])), (10usize, 12usize))] + if cs + 2 <= d.len() {
        seq![("Cipher Suite Count"@, dec(be16(d[cs], d[cs + 1]) / 2), (cs as usize, (cs + 2) as usize))]
    } else {
        Seq::empty()
    }
}

pub open spec fn client_hello_fields(d: Seq<u8>) -> Seq<FieldV> {
    let cl = be16(d[43], d[44]);
    let end = 45 + cl;
    seq![("Cipher Suite Count"@, dec(cl / 2), (43usize, 45usize))] + if end <= d.len() {
        let suites = suite_names(d, 45, end);
        if suites.len() > 0 {
            seq![("Cipher Suites"@, crate::text::join(suites, ", "@), (45usize, end as usize))]
        } else {
            Seq::empty()
        }
    } else {
        Seq::empty()
    }
}

/// The fields of a TLS record: content type, version, length, and for a
/// handshake its type, with the server version and suite count of a server
/// hello and the suites of a client hello.
pub open spec fn tls_fields(d: Seq<u8>) -> Seq<FieldV> {
    if d.len() < 5 {
        Seq::empty()
    } else {
        let base = seq![
            ("Content Type"@, record_type_name(d[0]), (0usize, 1usize)),
            ("Version"@, tls_version_name(be16(d[1], d[2])), (1usize, 3usize)),
            ("Length"@, dec(be16(d[3], d[4])), (3usize, 5usize)),
        ];
        if d[0] == 0x16 && d.len() > 5 {
            base + seq![("Handshake Type"@, handshake_name(d[5]), (5usize, 6usize))] + (if d[5] == 0x02
                && d.len() > 46 {
                server_hello_fields(d)
            } else {
                Seq::empty()
            }) + (if d[5] == 0x01 && d.len() > 42 {
                client_hello_fields(d)
            } else {
                Seq::empty()
            })
        } else {
            base
        }
    }
}

/// The application layer of a payload, where its protocol is recognised.
pub open spec fn app_layer(d: Seq<u8>, t: Option<TransportInfo>) -> Option<(Seq<char>, Seq<FieldV>, (usize, usize))> {
    let p = detect_spec(d, t);
    if p == ProtocolType::HTTP {
        Some(("Hypertext Transfer Protocol"@, http_fields(d), (0usize, d.len() as usize)))
    } else if p == ProtocolType::DNS {
        Some(("Domain Name System"@, dns_fields(d), (0usize, d.len() as usize)))
    } else if p == ProtocolType::TLS {
        Some(("Transport Layer Security"@, tls_fields(d), (0usize, d.len() as usize)))
    } else {
        None
    }
}

/// The payload can be read without a name walk that never ends or a client
/// hello cut short inside its suite length (43 or 44 bytes).
pub open spec fn app_layer_readable(d: Seq<u8>, t: Option<TransportInfo>) -> bool {
    let p = detect_spec(d, t);
    &&& (p == ProtocolType::DNS && d.len() >= 12 ==> dns_name_ends(d, 12))
    &&& (p == ProtocolType::TLS && d.len() > 5 && d[0] == 0x16 && d[5] == 0x01 ==> !(d.len() == 43
        || d.len() == 44))
}

fn text_of(v: &[char]) -> (s: String)
    ensures
        s@ == v@,
{
    crate::text::string_of(v)
}

fn http_layer_fields(data: &[u8]) -> (fields: Vec<FieldEntry>)
    ensures
        fields_view(fields@) == http_fields(data@),
{
    let text = utf8_lossy(data);
    let chars = crate::text::chars_of(text.as_str());
    let lines = lines_of(&chars);
    let mut fields: Vec<FieldEntry> = Vec::new();
    let first: Vec<char> = if lines.len() > 0 {
        crate::text::copy_range(&lines[0], 0, lines[0].len())
    } else {
        Vec::new()
    };
    proof {
        if lines@.len() > 0 {
            assert(char_views(lines@)[0] == lines@[0]@);
            assert(first@ =~= lines@[0]@);
        } else {
            assert(first@ =~= Seq::<char>::empty());
        }
    }
    let first_text = text_of(&first);
    let n = str_byte_len(first_text.as_str());
    let parts = split3(&first);
    proof {
        assert(char_views(parts@).len() == parts@.len());
        if parts@.len() >= 1 {
            assert(char_views(parts@)[0] == parts@[0]@);
        }
        if parts@.len() >= 2 {
            assert(char_views(parts@)[1] == parts@[1]@);
        }
        if parts@.len() >= 3 {
            assert(char_views(parts@)[2] == parts@[2]@);
        }
    }
    let prefix: Vec<char> = crate::text::chars_of("HTTP/");
    if crate::text::starts_with(&first, &prefix) {
        if parts.len() >= 2 {
            push_field(&mut fields, field("Status Code", text_of(&parts[1]), 0, n));
            if parts.len() >= 3 {
                push_field(&mut fields, field("Status Text", text_of(&parts[2]), 0, n));
            }
        }
    } else {
        if parts.len() >= 2 {
            push_field(&mut fields, field("Method", text_of(&parts[0]), 0, n));
            push_field(&mut fields, field("URL", text_of(&parts[1]), 0, n));
        }
    }
    let ghost head = fields_view(fields@);
    let ghost rest_lines = if char_views(lines@).len() > 0 {
        char_views(lines@).drop_first()
    } else {
        Seq::<Seq<char>>::empty()
    };
    let mut i: usize = 1;
    assert(rest_lines.skip(0) =~= rest_lines);
    assert(head + header_fields(rest_lines) =~= fields_view(fields@) + header_fields(rest_lines.skip(0)));
    proof {
        if lines@.len() <= 1 {
            assert(rest_lines.skip(0) =~= Seq::<Seq<char>>::empty());
            assert(header_fields(rest_lines.skip(0)) =~= Seq::<FieldV>::empty());
        }
    }
    while i < lines.len()
        invariant
            1 <= i,
            i <= lines@.len() || lines@.len() == 0,
            lines@.len() > 0 ==> rest_lines == char_views(lines@).drop_first(),
            lines@.len() == 0 ==> rest_lines.len() == 0,
            head + header_fields(rest_lines) == fields_view(fields@) + header_fields(rest_lines.skip(i - 1)),
            i >= lines@.len() ==> header_fields(rest_lines.skip(i - 1)) =~= Seq::<FieldV>::empty(),
        ensures
            head + header_fields(rest_lines) == fields_view(fields@) + header_fields(rest_lines.skip(i - 1)),
            header_fields(rest_lines.skip(i - 1)) =~= Seq::<FieldV>::empty(),
        decreases lines.len() - i,
    {
        let line = &lines[i];
        let ghost ls = rest_lines.skip(i - 1);
        proof {
            assert(ls[0] == char_views(lines@)[i as int]);
            assert(char_views(lines@)[i as int] == line@);
            assert(ls.drop_first() =~= rest_lines.skip(i as int));
        }
        if line.len() == 0 {
            assert(header_fields(ls) =~= Seq::<FieldV>::empty());
            break;
        }
        match find_in(line, ':') {
            Some(k) => {
                let key = crate::text::copy_range(line, 0, k);
                let after = crate::text::copy_range(line, k + 1, line.len());
                let val = crate::text::trim_chars(&after);
                proof {
                    assert(key@ =~= line@.take(k as int));
                    assert(after@ =~= line@.skip(k + 1));
                }
                let ghost before = fields_view(fields@);
                push_field(&mut fields, FieldEntry { name: text_of(&key), value: text_of(&val), byte_range: (0, 0) });
                proof {
                    assert(before + header_fields(ls) =~= fields_view(fields@) + header_fields(ls.drop_first()));
                }
            },
            None => {
                assert(fields_view(fields@) + header_fields(ls) =~= fields_view(fields@) + header_fields(ls.drop_first()));
            },
        }
        i = i + 1;
        proof {
            if i >= lines@.len() {
                assert(rest_lines.skip(i - 1) =~= Seq::<Seq<char>>::empty());
                assert(header_fields(rest_lines.skip(i - 1)) =~= Seq::<FieldV>::empty());
            }
        }
    }
    proof {
        assert(fields_view(fields@) + Seq::<FieldV>::empty() =~= fields_view(fields@));
    }
    fields
}

fn dns_layer_fields(data: &[u8]) -> (fields: Vec<FieldEntry>)
    requires
        data@.len() >= 12 ==> dns_name_ends(data@, 12),
    ensures
        fields_view(fields@) == dns_fields(data@),
{
    let mut fields: Vec<FieldEntry> = Vec::new();
    if data.len() < 12 {
        assert(fields_view(fields@) =~= dns_fields(data@));
        return fields;
    }
    let flags = read_be16(data, 2);
    push_field(&mut fields, field("Transaction ID", hex_text(read_be16(data, 0) as u64, 4), 0, 2));
    let mut ft = String::from_str("QR=");
    push_decimal(&mut ft, (flags / 32768) as u64);
    ft.append(" Opcode=");
    push_decimal(&mut ft, ((flags / 2048) % 16) as u64);
    ft.append(" RCODE=");
    push_decimal(&mut ft, (flags % 16) as u64);
    push_field(&mut fields, field("Flags", ft, 2, 4));
    push_field(&mut fields, field("Questions", dec_text(read_be16(data, 4) as u64), 4, 6));
    push_field(&mut fields, field("Answers", dec_text(read_be16(data, 6) as u64), 6, 8));
    match parse_dns_name(data, 12) {
        Some(domain) => {
            push_field(&mut fields, field("Query Name", domain, 12, data.len()));
        },
        None => {},
    }
    let ghost base = fields_view(fields@);
    if data.len() > 14 {
        let n = data.len();
        let mut pos: usize = 12;
        let mut past_end = false;
        while pos < n && data[pos] != 0
            invariant_except_break
                !past_end,
                skip_labels(data@, 12) == skip_labels(data@, pos as int),
            invariant
                12 <= pos <= n,
                n == data@.len(),
            ensures
                past_end ==> skip_labels(data@, 12) >= n,
                !past_end ==> skip_labels(data@, 12) == pos && pos <= n,
            decreases n - pos,
        {
            let l = data[pos] as usize;
            if l + 1 >= n - pos {
                past_end = true;
                break;
            }
            pos = pos + l + 1;
        }
        if !past_end && n - pos >= 5 {
            let at = pos + 1;
            let qt = read_be16(data, at);
            push_field(&mut fields, field("Query Type", String::from_str(query_type_str(qt)), 0, 0));
        }
    }
    assert(fields_view(fields@) =~= dns_fields(data@));
    fields
}

fn server_version_str(v: u16) -> (s: &'static str)
    ensures
        s@ == server_version_name(v as int),
{
    if v == 0x0303 {
        "TLS 1.2"
    } else if v == 0x0304 {
        "TLS 1.3"
    } else {
        "Unknown"
    }
}

fn tls_layer_fields(data: &[u8]) -> (fields: Vec<FieldEntry>)
    requires
        data@.len() > 5 && data@[0] == 0x16 && data@[5] == 0x01 ==> !(data@.len() == 43 || data@.len() == 44),
    ensures
        fields_view(fields@) == tls_fields(data@),
{
    let mut fields: Vec<FieldEntry> = Vec::new();
    if data.len() < 5 {
        assert(fields_view(fields@) =~= tls_fields(data@));
        return fields;
    }
    push_field(&mut fields, field("Content Type", String::from_str(record_type_str(data[0])), 0, 1));
    push_field(&mut fields, field("Version", String::from_str(tls_version_str(read_be16(data, 1))), 1, 3));
    push_field(&mut fields, field("Length", dec_text(read_be16(data, 3) as u64), 3, 5));
    let ghost base = fields_view(fields@);
    if data[0] == 0x16 && data.len() > 5 {
        push_field(&mut fields, field("Handshake Type", String::from_str(handshake_str(data[5])), 5, 6));
        let ghost with_hs = fields_view(fields@);
        if data[5] == 0x02 && data.len() > 46 {
            let sv = server_version_str(read_be16(data, 10));
            push_field(&mut fields, field("Server Version", String::from_str(sv), 10, 12));
            let session_id_len = data[44] as usize;
            let cipher_start = 45 + session_id_len;
            if cipher_start + 2 <= data.len() {
                let cipher_len = read_be16(data, cipher_start);
                push_field(&mut fields, field("Cipher Suite Count", dec_text((cipher_len / 2) as u64), cipher_start, cipher_start + 2));
            }
            assert(fields_view(fields@) =~= with_hs + server_hello_fields(data@));
        }
        let ghost after_server = fields_view(fields@);
        if data[5] == 0x01 && data.len() > 42 {
            let cipher_len = read_be16(data, 43) as usize;
            push_field(&mut fields, field("Cipher Suite Count", dec_text((cipher_len / 2) as u64), 43, 45));
            let cipher_end = 45 + cipher_len;
            if cipher_end <= data.len() {
                let mut out = String::new();
                let ghost mut names: Seq<Seq<char>> = Seq::empty();
                let mut i: usize = 45;
                let mut first = true;
                assert(out@ =~= crate::text::join(names, ", "@));
                while i < cipher_end
                    invariant
                        45 <= i <= cipher_end + 1,
                        cipher_end == 45 + cipher_len,
                        cipher_len <= 65535,
                        first == (names.len() == 0),
                        cipher_end <= data@.len(),
                        out@ == crate::text::join(names, ", "@),
                        i < cipher_end ==> suite_names(data@, 45, cipher_end as int) == names + suite_names(data@, i as int, cipher_end as int),
                        i >= cipher_end ==> suite_names(data@, 45, cipher_end as int) == names,
                    decreases cipher_end + 2 - i,
                {
                    let ghost rest = suite_names(data@, i as int, cipher_end as int);
                    if i + 1 < data.len() {
                        let name = format_cipher_suite(read_be16(data, i));
                        crate::text::push_joined(&mut out, Ghost(names), first, ", ", name.as_str());
                        proof {
                            names = names.push(name@);
                        }
                        first = false;
                    }
                    proof {
                        if i + 2 < cipher_end {
                            assert(rest =~= (if i + 1 < data@.len() { seq![cipher_suite_name(be16(data@[i as int], data@[i + 1]) as u16)] } else { Seq::empty() }) + suite_names(data@, i + 2, cipher_end as int));
                        } else {
                            assert(rest =~= (if i + 1 < data@.len() { seq![cipher_suite_name(be16(data@[i as int], data@[i + 1]) as u16)] } else { Seq::empty() }));
                        }
                    }
                    i = i + 2;
                }
                if !first {
                    push_field(&mut fields, FieldEntry { name: String::from_str("Cipher Suites"), value: out, byte_range: (45, cipher_end) });
                }
            }
            assert(fields_view(fields@) =~= after_server + client_hello_fields(data@));
        }
    }
    assert(fields_view(fields@) =~= tls_fields(data@));
    fields
}

/// The layer of a payload's application protocol: HTTP, DNS or TLS.
pub fn parse_application_layer(data: &[u8], frame: &Frame) -> (r: Option<ProtocolLayer>)
    requires
        app_layer_readable(data@, frame.transport),
    ensures
        match r {
            Some(l) => app_layer(data@, frame.transport) == Some(layer_view(l)),
            None => app_layer(data@, frame.transport) is None,
        },
{
    let detected = detect_application_protocol(data, frame);
    match detected {
        ProtocolType::HTTP => Some(
            ProtocolLayer {
                protocol: String::from_str("Hypertext Transfer Protocol"),
                fields: http_layer_fields(data),
                byte_range: (0, data.len()),
            },
        ),
        ProtocolType::DNS => Some(
            ProtocolLayer {
                protocol: String::from_str("Domain Name System"),
                fields: dns_layer_fields(data),
                byte_range: (0, data.len()),
            },
        ),
        ProtocolType::TLS => Some(
            ProtocolLayer {
                protocol: String::from_str("Transport Layer Security"),
                fields: tls_layer_fields(data),
                byte_range: (0, data.len()),
            },
        ),
        _ => None,
    }
}


// ---------------------------------------------------------------------------
// Packet detail

pub type LayerV = (Seq<char>, Seq<FieldV>, (usize, usize));

pub open spec fn layers_view(v: Seq<ProtocolLayer>) -> Seq<LayerV> {
    v.map_values(|l: ProtocolLayer| layer_view(l))
}

/// The layers of a frame, outermost first: Ethernet, VLAN, IP, transport and,
/// for a non-empty payload of a recognised protocol, the application layer. A
/// frame that cannot be parted gives one error layer over the whole packet.
pub open spec fn detail_layers(f: Option<FrameView>, len: nat) -> Seq<LayerV> {
    match f {
        Some(fv) => (match fv.link {
            Some(e) => seq![("Ethernet II"@, ethernet_fields(e), (0usize, 14usize))],
            None => Seq::empty(),
        }) + (match fv.vlan {
            Some(v) => seq![("VLAN"@, vlan_fields(v), (0usize, 0usize))],
            None => Seq::empty(),
        }) + (match fv.ip {
            Some(i) => seq![ip_layer(i)],
            None => Seq::empty(),
        }) + (match fv.transport {
            Some(t) => seq![transport_layer(t)],
            None => Seq::empty(),
        }) + (if fv.payload.len() > 0 {
            match app_layer(fv.payload, fv.transport) {
                Some(l) => seq![l],
                None => Seq::empty(),
            }
        } else {
            Seq::empty()
        }),
        None => seq![
            (
                "Error"@,
                seq![("Error"@, "Failed to parse packet"@, (0usize, len as usize))],
                (0usize, len as usize),
            ),
        ],
    }
}

/// The frame's payload, if it is decoded at all, can be decoded.
pub open spec fn detail_readable(f: Option<FrameView>) -> bool {
    f matches Some(fv) ==> (fv.payload.len() > 0 ==> app_layer_readable(fv.payload, fv.transport))
}

pub open spec fn detail_ok(d: PacketDetail, raw: RawPacket, f: Option<FrameView>) -> bool {
    &&& d.no == 0
    &&& d.raw_data@ == raw.data@
    &&& layers_view(d.layers@) == detail_layers(f, raw.data@.len())
}

fn push_layer(layers: &mut Vec<ProtocolLayer>, l: ProtocolLayer)
    ensures
        layers_view(final(layers)@) == layers_view(old(layers)@).push(layer_view(l)),
{
    layers.push(l);
    assert(layers_view(layers@) =~= layers_view(old(layers)@).push(layer_view(l)));
}

/// The layer-by-layer detail of a packet from its parted frame (none where
/// parting failed).
pub fn detail_from_frame(raw: &RawPacket, frame: Option<Frame>) -> (d: PacketDetail)
    requires
        detail_readable(frame_view_opt(frame)),
    ensures
        detail_ok(d, *raw, frame_view_opt(frame)),
{
    let mut layers: Vec<ProtocolLayer> = Vec::new();
    match &frame {
        Some(f) => {
            let ghost fv = f@;
            assert(layers_view(layers@) =~= Seq::<LayerV>::empty());
            match &f.link {
                Some(link) => push_layer(&mut layers, parse_ethernet_layer(link)),
                None => {},
            }
            let ghost l1 = layers_view(layers@);
            match &f.vlan {
                Some(vlan) => push_layer(&mut layers, parse_vlan_layer(vlan)),
                None => {},
            }
            let ghost l2 = layers_view(layers@);
            match &f.ip {
                Some(ip) => push_layer(&mut layers, parse_ip_layer(ip)),
                None => {},
            }
            let ghost l3 = layers_view(layers@);
            match &f.transport {
                Some(t) => push_layer(&mut layers, parse_transport_layer(t)),
                None => {},
            }
            let ghost l4 = layers_view(layers@);
            let app_data = f.payload.as_slice();
            if app_data.len() > 0 {
                match parse_application_layer(app_data, f) {
                    Some(l) => push_layer(&mut layers, l),
                    None => {},
                }
            }
            assert(layers_view(layers@) =~= detail_layers(frame_view_opt(frame), raw.data@.len()));
        },
        None => {
            let n = raw.data.len();
            let mut fields: Vec<FieldEntry> = Vec::new();
            push_field(&mut fields, field("Error", String::from_str("Failed to parse packet"), 0, n));
            push_layer(&mut layers, ProtocolLayer { protocol: String::from_str("Error"), fields, byte_range: (0, n) });
            assert(fields_view(fields@) =~= seq![("Error"@, "Failed to parse packet"@, (0usize, n))]);
            assert(layers_view(layers@) =~= detail_layers(frame_view_opt(frame), raw.data@.len()));
        },
    }
    PacketDetail { no: 0, layers, raw_data: crate::models::copy_bytes(&raw.data) }
}

/// The layer-by-layer detail of a captured packet.
pub fn parse_packet_detail(raw: &RawPacket) -> (d: PacketDetail)
    requires
        detail_readable(frame_spec(raw.data@)),
    ensures
        detail_ok(d, *raw, frame_spec(raw.data@)),
{
    let frame = slice_frame(raw.data.as_slice());
    detail_from_frame(raw, frame)
}

/// A payload that the unchecked decoder is not given: a DNS message (12 bytes
/// or more) or a client hello cut short inside its suite length.
pub open spec fn detail_refused(f: Option<FrameView>) -> bool {
    f matches Some(fv) && fv.payload.len() > 0 && {
        let p = detect_spec(fv.payload, fv.transport);
        let d = fv.payload;
        ||| p == ProtocolType::DNS && d.len() >= 12 && !dns_steps(d, 12, dns_bound(d))
        ||| p == ProtocolType::TLS && d[0] == 0x16 && d[5] == 0x01 && (d.len() == 43 || d.len() == 44)
    }
}

/// The layer-by-layer detail of a captured packet, or none where the payload is
/// a DNS message whose name does not end within a walk of the whole payload
/// plus the pointer space, or a client hello cut short inside its suite length.
pub fn parse_packet_detail_checked(raw: &RawPacket) -> (r: Option<PacketDetail>)
    ensures
        match r {
            Some(d) => detail_ok(d, *raw, frame_spec(raw.data@)),
            None => detail_refused(frame_spec(raw.data@)),
        },
{
    let frame = slice_frame(raw.data.as_slice());
    match &frame {
        Some(f) => {
            let payload = f.payload.as_slice();
            if payload.len() > 0 {
                let p = detect_application_protocol(payload, f);
                if p == ProtocolType::DNS && payload.len() >= 12 {
                    let bound = (payload.len() as u64) / 2 + 0x10000;
                    if !dns_walk_ends_within(payload, 12, bound) {
                        return None;
                    }
                }
                if p == ProtocolType::TLS && payload.len() > 5 && payload[0] == 0x16 && payload[5] == 0x01
                    && (payload.len() == 43 || payload.len() == 44) {
                    return None;
                }
            }
        },
        None => {},
    }
    Some(detail_from_frame(raw, frame))
}

// ---------------------------------------------------------------------------
// Laws of application-protocol detection

/// A UDP header with its ports exchanged.
pub open spec fn udp_swapped(h: crate::protocol::frame::UdpInfo) -> crate::protocol::frame::UdpInfo {
    crate::protocol::frame::UdpInfo { source_port: h.destination_port, destination_port: h.source_port, ..h }
}

/// A TCP header with its ports exchanged.
pub open spec fn tcp_swapped(h: TcpInfo) -> TcpInfo {
    TcpInfo { source_port: h.destination_port, destination_port: h.source_port, ..h }
}

/// Detection does not depend on which end of a conversation sent the
/// payload: exchanging the ports of the UDP or TCP header gives the same
/// protocol. A non-empty UDP payload to or from port 53 is DNS, and a frame
/// carrying one is summarised as DNS.
pub proof fn lemma_detection_port_symmetry(d: Seq<u8>, u: crate::protocol::frame::UdpInfo, t: TcpInfo, f: FrameView)
    ensures
        detect_spec(d, Some(TransportInfo::Udp(u))) == detect_spec(d, Some(TransportInfo::Udp(udp_swapped(u)))),
        detect_spec(d, Some(TransportInfo::Tcp(t))) == detect_spec(d, Some(TransportInfo::Tcp(tcp_swapped(t)))),
        d.len() > 0 && (u.source_port == 53 || u.destination_port == 53) ==> detect_spec(
            d,
            Some(TransportInfo::Udp(u)),
        ) == ProtocolType::DNS,
        d.len() > 0 && u.source_port != 53 && u.destination_port != 53 ==> detect_spec(
            d,
            Some(TransportInfo::Udp(u)),
        ) == ProtocolType::Unknown,
        f.payload.len() > 0 && f.transport == Some(TransportInfo::Udp(u)) && (u.source_port == 53
            || u.destination_port == 53) ==> packet_info(f).protocol == ProtocolType::DNS,
{
}

/// The ports of a frame's summary are those of its TCP or UDP header, the
/// sender's port as source; a frame with no TCP or UDP header has none.
pub proof fn lemma_summary_ports(f: FrameView)
    ensures
        f.transport matches Some(TransportInfo::Udp(u)) ==> packet_info(f).src_port == Some(u.source_port)
            && packet_info(f).dst_port == Some(u.destination_port),
        f.transport matches Some(TransportInfo::Tcp(t)) ==> packet_info(f).src_port == Some(t.source_port)
            && packet_info(f).dst_port == Some(t.destination_port),
        !(f.transport matches Some(TransportInfo::Udp(_))) && !(f.transport matches Some(TransportInfo::Tcp(_)))
            ==> packet_info(f).src_port is None && packet_info(f).dst_port is None,
{
}

} // verus!
