//! What the interface shows of captured packets: hex dumps, and the
//! timeline of a TCP session.
use vstd::prelude::*;
use crate::capture::engine::{CaptureEngine, first_meta};
use crate::models::{HexDumpLine, PacketMetadata, TcpFlags, TcpSequenceEntry, TcpTimelineData, flags_text};
use crate::protocol::frame::{IpView, TransportInfo, frame_spec, slice_frame, IpInfo};
use crate::session::tracker::{SessionTracker, has_key, key_index};
use crate::text::{hex_padded, push_hex_padded};

verus! {

/// The character shown for a byte: itself when printable ASCII, else `.`.
pub open spec fn shown_char(b: u8) -> char {
    if 0x20 <= b <= 0x7e {
        b as char
    } else {
        '.'
    }
}

/// The bytes of the line at `i`: sixteen, or what is left.
pub open spec fn chunk(data: Seq<u8>, i: int) -> Seq<u8> {
    data.subrange(16 * i, if 16 * i + 16 <= data.len() {
        16 * i + 16
    } else {
        data.len() as int
    })
}

/// The number of lines of a dump.
pub open spec fn line_count(n: nat) -> nat {
    (n + 15) / 16
}

/// A line of the dump of `data` at `i`: the offset in at least four hex
/// digits, each byte in two, and the bytes as characters.
pub open spec fn dump_line(l: HexDumpLine, data: Seq<u8>, i: int) -> bool {
    let c = chunk(data, i);
    &&& l.offset@ == hex_padded((16 * i) as nat, 4)
    &&& l.hex@.len() == c.len()
    &&& forall|j: int| 0 <= j < c.len() ==> (#[trigger] l.hex@[j])@ == hex_padded(c[j] as nat, 2)
    &&& l.ascii@ == c.map_values(|b: u8| shown_char(b))
}

/// The hex dump of the bytes, sixteen to a line.
pub fn format_hex_dump(data: &[u8]) -> (lines: Vec<HexDumpLine>)
    ensures
        lines@.len() == line_count(data@.len()),
        forall|i: int| 0 <= i < lines@.len() ==> dump_line(#[trigger] lines@[i], data@, i),
{
    let mut lines: Vec<HexDumpLine> = Vec::new();
    let mut start: usize = 0;
    let n = data.len();
    while start < n
        invariant
            n == data@.len(),
            start <= n,
            start < n ==> start % 16 == 0,
            start < n ==> lines@.len() * 16 == start,
            lines@.len() == line_count(start as nat),
            forall|i: int| 0 <= i < lines@.len() ==> dump_line(#[trigger] lines@[i], data@, i),
        decreases n - start,
    {
        let end: usize = if n - start >= 16 { start + 16 } else { n };
        let ghost i: int = (start / 16) as int;
        assert(16 * i == start);
        let ghost c = chunk(data@, i);
        assert(c =~= data@.subrange(start as int, end as int));
        let mut offset = String::new();
        push_hex_padded(&mut offset, start as u64, 4);
        let mut hex: Vec<String> = Vec::new();
        let mut ascii = String::new();
        let mut k: usize = start;
        proof {
            reveal_strlit("");
        }
        assert(ascii@ =~= c.take(0).map_values(|b: u8| shown_char(b)));
        while k < end
            invariant
                start <= k <= end,
                end <= n,
                n == data@.len(),
                c == data@.subrange(start as int, end as int),
                hex@.len() == k - start,
                forall|j: int| 0 <= j < k - start ==> (#[trigger] hex@[j])@ == hex_padded(c[j] as nat, 2),
                ascii@ == c.take(k - start).map_values(|b: u8| shown_char(b)),
            decreases end - k,
        {
            let b = data[k];
            assert(b == c[k - start]);
            let mut h = String::new();
            push_hex_padded(&mut h, b as u64, 2);
            hex.push(h);
            let ch: char = if b >= 0x20 && b <= 0x7e { b as char } else { '.' };
            crate::text::push_char(&mut ascii, ch);
            k = k + 1;
            assert(ascii@ =~= c.take(k - start).map_values(|b: u8| shown_char(b)));
        }
        assert(c.take(end - start) =~= c);
        lines.push(HexDumpLine { offset, hex, ascii });
        proof {
            assert(dump_line(lines@[i], data@, i));
        }
        assert(line_count(end as nat) == line_count(start as nat) + 1);
        if end < n {
            assert(end == start + 16);
        }
        start = end;
        assert(forall|q: int| 0 <= q < lines@.len() ==> dump_line(#[trigger] lines@[q], data@, q));
    }
    lines
}

/// The most packets a timeline shows in full; longer sessions show their
/// first and last packets.
pub const TIMELINE_LIMIT: usize = 5000;

/// How many packets of each end a shortened timeline shows.
pub const TIMELINE_ENDS: usize = 100;

/// The packet numbers a timeline looks at.
pub open spec fn timeline_nos(nos: Seq<u64>) -> Seq<u64> {
    if nos.len() > TIMELINE_LIMIT {
        nos.take(TIMELINE_ENDS as int) + nos.skip(nos.len() - TIMELINE_ENDS)
    } else {
        nos
    }
}

/// The packet numbers a timeline looks at: all of them, or the first and
/// last hundred of a long session.
pub fn select_timeline_nos(nos: &Vec<u64>) -> (r: Vec<u64>)
    ensures
        r@ == timeline_nos(nos@),
{
    let n = nos.len();
    let mut r: Vec<u64> = Vec::new();
    if n > TIMELINE_LIMIT {
        let mut i: usize = 0;
        while i < TIMELINE_ENDS
            invariant
                i <= TIMELINE_ENDS,
                n == nos@.len(),
                n > TIMELINE_LIMIT,
                r@ == nos@.take(i as int),
            decreases TIMELINE_ENDS - i,
        {
            r.push(nos[i]);
            i = i + 1;
            assert(r@ =~= nos@.take(i as int));
        }
        let mut j: usize = n - TIMELINE_ENDS;
        while j < n
            invariant
                n - TIMELINE_ENDS <= j <= n,
                n == nos@.len(),
                n > TIMELINE_LIMIT,
                r@ == nos@.take(TIMELINE_ENDS as int) + nos@.subrange(n - TIMELINE_ENDS, j as int),
            decreases n - j,
        {
            r.push(nos[j]);
            j = j + 1;
            assert(r@ =~= nos@.take(TIMELINE_ENDS as int) + nos@.subrange(n - TIMELINE_ENDS, j as int));
        }
        assert(nos@.subrange(n - TIMELINE_ENDS, n as int) =~= nos@.skip(n - TIMELINE_ENDS));
    } else {
        let mut i: usize = 0;
        while i < n
            invariant
                i <= n,
                n == nos@.len(),
                r@ == nos@.take(i as int),
            decreases n - i,
        {
            r.push(nos[i]);
            i = i + 1;
            assert(r@ =~= nos@.take(i as int));
        }
        assert(nos@.take(n as int) =~= nos@);
    }
    r
}

/// The TCP header flags of a parsed header.
pub open spec fn header_flags(t: crate::protocol::frame::TcpInfo) -> TcpFlags {
    TcpFlags { fin: t.fin, syn: t.syn, rst: t.rst, psh: t.psh, ack: t.ack, urg: t.urg }
}

/// The payload size of a TCP segment in IPv4 (the IP total length less
/// both headers, wrapping at 32 bits), 0 otherwise.
pub open spec fn segment_payload(ip: Option<IpView>, t: crate::protocol::frame::TcpInfo) -> u32 {
    match ip {
        Some(IpView::V4(h)) => ((h.total_len as int - h.ihl as int * 4 - t.data_offset as int * 4) % 0x1_0000_0000) as u32,
        _ => 0,
    }
}

/// The timeline entry of a packet, when its bytes parse with a TCP header.
pub open spec fn timeline_entry(
    e: TcpSequenceEntry,
    no: u64,
    raw: Seq<u8>,
    meta: Option<PacketMetadata>,
    client_addr: Seq<char>,
    client_port: u16,
) -> bool {
    &&& frame_spec(raw) matches Some(f) && f.transport matches Some(TransportInfo::Tcp(t)) && {
    &&& e.packet_no == no
    &&& e.timestamp_secs == (match meta { Some(m) => m.timestamp_secs, None => 0 })
    &&& e.timestamp_micros == (match meta { Some(m) => m.timestamp_micros, None => 0 })
    &&& e.direction == (match meta { Some(m) => m.src_addr@ == client_addr && m.src_port == Some(client_port), None => false })
    &&& e.seq_num == t.sequence_number
    &&& e.ack_num == t.acknowledgment_number
    &&& e.payload_size == segment_payload(f.ip, t)
    &&& e.flags@ == flags_text(header_flags(t))
    &&& !e.is_retransmission
    &&& e.window_size == t.window_size
    }
}

fn payload_size_of(ip: &Option<IpInfo>, t: &crate::protocol::frame::TcpInfo) -> (n: u32)
    ensures
        n == segment_payload(match ip { Some(i) => Some(i@), None => None }, *t),
{
    match ip {
        Some(IpInfo::V4(h)) => {
            let a = (h.total_len as u32).wrapping_sub((h.ihl as u32) * 4);
            let r = a.wrapping_sub((t.data_offset as u32) * 4);
            assert(r == ((h.total_len as int - h.ihl as int * 4 - t.data_offset as int * 4) % 0x1_0000_0000) as u32) by (nonlinear_arith)
                requires
                    a == ((h.total_len as int - h.ihl as int * 4) % 0x1_0000_0000) as u32,
                    r == ((a as int - t.data_offset as int * 4) % 0x1_0000_0000) as u32,
            ;
            r
        },
        _ => 0,
    }
}

/// The timeline entry of one packet, if its bytes hold a TCP header.
pub fn timeline_entry_of(
    no: u64,
    raw: &[u8],
    meta: Option<PacketMetadata>,
    client_addr: &str,
    client_port: u16,
) -> (r: Option<TcpSequenceEntry>)
    ensures
        match r {
            Some(e) => timeline_entry(e, no, raw@, meta, client_addr@, client_port),
            None => !(frame_spec(raw@) matches Some(f) && f.transport matches Some(TransportInfo::Tcp(_))),
        },
{
    match slice_frame(raw) {
        Some(frame) => {
            match frame.transport {
                Some(TransportInfo::Tcp(t)) => {
                    let direction = match &meta {
                        Some(m) => crate::text::same_text(m.src_addr.as_str(), client_addr) && m.src_port == Some(client_port),
                        None => false,
                    };
                    let flags = TcpFlags { fin: t.fin, syn: t.syn, rst: t.rst, psh: t.psh, ack: t.ack, urg: t.urg };
                    let (secs, micros) = match &meta {
                        Some(m) => (m.timestamp_secs, m.timestamp_micros),
                        None => (0, 0),
                    };
                    let payload_size = payload_size_of(&frame.ip, &t);
                    Some(TcpSequenceEntry {
                        packet_no: no,
                        timestamp_secs: secs,
                        timestamp_micros: micros,
                        direction,
                        seq_num: t.sequence_number,
                        ack_num: t.acknowledgment_number,
                        payload_size,
                        flags: flags.to_string_flags(),
                        is_retransmission: false,
                        window_size: t.window_size,
                    })
                },
                _ => None,
            }
        },
        None => None,
    }
}

/// Whether the bytes parse with a TCP header.
pub open spec fn holds_tcp(raw: Seq<u8>) -> bool {
    frame_spec(raw) matches Some(f) && f.transport matches Some(TransportInfo::Tcp(_))
}

/// The entries of a timeline for the packets `nos`, in order: one for each
/// packet whose bytes are kept and hold a TCP header.
pub open spec fn timeline_of(
    es: Seq<TcpSequenceEntry>,
    nos: Seq<u64>,
    raw: Map<u64, Vec<u8>>,
    buf: Seq<PacketMetadata>,
    client_addr: Seq<char>,
    client_port: u16,
) -> bool
    decreases nos.len(),
{
    if nos.len() == 0 {
        es.len() == 0
    } else {
        let no = nos.last();
        if raw.contains_key(no) && holds_tcp(raw[no]@) {
            &&& es.len() > 0
            &&& timeline_entry(es.last(), no, raw[no]@, first_meta(buf, no), client_addr, client_port)
            &&& timeline_of(es.drop_last(), nos.drop_last(), raw, buf, client_addr, client_port)
        } else {
            timeline_of(es, nos.drop_last(), raw, buf, client_addr, client_port)
        }
    }
}

/// The timeline of a TCP session: its client and server, and an entry for
/// each packet looked at whose bytes are kept and hold a TCP header.
/// Refused for an unknown session.
pub fn get_tcp_timeline(
    tracker: &SessionTracker,
    engine: &CaptureEngine,
    session_id: String,
) -> (r: Result<TcpTimelineData, String>)
    requires
        tracker.wf(),
    ensures
        r is Err <==> !has_key(tracker.sessions@, session_id@),
        r matches Err(m) ==> m@ == "Session '"@ + session_id@ + "' not found"@,
        r matches Ok(t) ==> {
            let e = tracker.sessions@[key_index(tracker.sessions@, session_id@)];
            &&& t.session_id@ == session_id@
            &&& t.client_addr == e.client_addr
            &&& t.client_port == e.client_port
            &&& t.server_addr == e.info.dst_addr
            &&& t.server_port == e.info.dst_port
            &&& t.total_packets == e.packet_nos@.len()
            &&& t.is_truncated == (e.packet_nos@.len() > TIMELINE_LIMIT)
            &&& timeline_of(
                t.entries@,
                timeline_nos(e.packet_nos@),
                engine.raw_data_store@,
                engine.metadata_buffer@,
                e.client_addr@,
                e.client_port,
            )
        },
{
    let nos = match tracker.get_session_packet_nos(session_id.as_str()) {
        Some(v) => v,
        None => {
            let mut m = String::from_str("Session '");
            m.append(session_id.as_str());
            m.append("' not found");
            return Err(m);
        },
    };
    let (client_addr, client_port, server_addr, server_port) = match tracker.get_session_client_info(
        session_id.as_str(),
    ) {
        Some(info) => info,
        None => {
            return Err(String::from_str("Session client info not found"));
        },
    };
    let total_packets = nos.len() as u64;
    let is_truncated = nos.len() > TIMELINE_LIMIT;
    let selected = select_timeline_nos(&nos);
    let ghost sel = selected@;
    let mut entries: Vec<TcpSequenceEntry> = Vec::new();
    let mut i: usize = 0;
    assert(sel.take(0) =~= Seq::<u64>::empty());
    while i < selected.len()
        invariant
            i <= selected@.len(),
            sel == selected@,
            timeline_of(
                entries@,
                sel.take(i as int),
                engine.raw_data_store@,
                engine.metadata_buffer@,
                client_addr@,
                client_port,
            ),
        decreases selected.len() - i,
    {
        let no = selected[i];
        assert(sel.take(i + 1).drop_last() =~= sel.take(i as int));
        assert(sel.take(i + 1).last() == no);
        match engine.get_raw_data(no) {
            Some(raw) => {
                let meta = engine.get_metadata(no);
                match timeline_entry_of(no, raw.as_slice(), meta, client_addr.as_str(), client_port) {
                    Some(e) => {
                        let ghost eb = entries@;
                        entries.push(e);
                        assert(entries@.drop_last() =~= eb);
                    },
                    None => {},
                }
            },
            None => {},
        }
        i = i + 1;
    }
    assert(sel.take(i as int) =~= sel);
    Ok(TcpTimelineData {
        session_id,
        client_addr,
        client_port,
        server_addr,
        server_port,
        entries,
        is_truncated,
        total_packets,
    })
}

} // verus!
