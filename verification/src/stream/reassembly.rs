//! Reassembly of the two directions of a TCP conversation from its segments.
use vstd::prelude::*;
use crate::models::{
    copy_bytes, PacketMetadata, ProtocolType, RawPacket, SegmentView, StreamSegment,
    TcpStreamData,
};
use crate::text::{dec_digits, push_decimal, same_text};

verus! {

/// Sequence gaps larger than this are reported as missing data.
pub const GAP_THRESHOLD: u32 = 65536;

// ---------------------------------------------------------------------------
// Where the payload and the sequence number sit in a captured frame

/// A big-endian 16-bit value.
pub open spec fn be16(hi: u8, lo: u8) -> int {
    hi as int * 256 + lo as int
}

/// A big-endian 32-bit value.
pub open spec fn be32(a: u8, b: u8, c: u8, d: u8) -> int {
    a as int * 0x1000000 + b as int * 0x10000 + c as int * 0x100 + d as int
}

/// Offset of the IP header: after an Ethernet header, and a VLAN tag if one is there.
pub open spec fn ip_offset(d: Seq<u8>) -> int {
    if be16(d[12], d[13]) == 0x8100 {
        18
    } else {
        14
    }
}

/// Start and end of the TCP payload of an Ethernet/IPv4 frame, where there is one.
pub open spec fn tcp_payload_bounds(d: Seq<u8>) -> Option<(int, int)> {
    if d.len() < 14 {
        None
    } else {
        let io = ip_offset(d);
        if d.len() < io + 20 {
            None
        } else {
            let ihl = (d[io] & 0x0f) as int * 4;
            let total = be16(d[io + 2], d[io + 3]);
            if d.len() < io + ihl || d[io + 9] != 6 {
                None
            } else {
                let to = io + ihl;
                if d.len() < to + 20 {
                    None
                } else {
                    let start = to + (d[to + 12] >> 4u8) as int * 4;
                    let end = io + total;
                    if start >= d.len() || start >= end {
                        None
                    } else {
                        Some((start, if end < d.len() { end } else { d.len() as int }))
                    }
                }
            }
        }
    }
}

/// The TCP payload of a frame; empty where the frame has none.
pub open spec fn tcp_payload(d: Seq<u8>) -> Seq<u8> {
    match tcp_payload_bounds(d) {
        Some((a, b)) => d.subrange(a, b),
        None => Seq::empty(),
    }
}

/// The TCP sequence number of a frame; 0 where the frame is too short.
pub open spec fn tcp_seq_num(d: Seq<u8>) -> u32 {
    if d.len() < 14 {
        0
    } else {
        let io = ip_offset(d);
        if d.len() < io + 20 {
            0
        } else {
            let to = io + (d[io] & 0x0f) as int * 4;
            if d.len() < to + 8 {
                0
            } else {
                be32(d[to + 4], d[to + 5], d[to + 6], d[to + 7]) as u32
            }
        }
    }
}

fn read_be16(d: &Vec<u8>, at: usize) -> (v: usize)
    requires
        at + 2 <= d.len(),
    ensures
        v == be16(d@[at as int], d@[at + 1]),
{
    let hi = d[at] as usize;
    let lo = d[at + 1] as usize;
    hi * 256 + lo
}

/// The TCP payload of a captured frame, copied out.
pub fn extract_tcp_payload(raw: &RawPacket) -> (p: Vec<u8>)
    ensures
        p@ == tcp_payload(raw.data@),
{
    let d = &raw.data;
    if d.len() < 14 {
        return Vec::new();
    }
    let ether_type = read_be16(d, 12);
    let ip_offset: usize = if ether_type == 0x8100 {
        18
    } else {
        14
    };
    if d.len() < ip_offset + 20 {
        return Vec::new();
    }
    let ihl = ((d[ip_offset] & 0x0F) as usize) * 4;
    let total_len = read_be16(d, ip_offset + 2);
    if d.len() < ip_offset + ihl {
        return Vec::new();
    }
    let protocol = d[ip_offset + 9];
    if protocol != 6 {
        return Vec::new();
    }
    let tcp_offset = ip_offset + ihl;
    if d.len() < tcp_offset + 20 {
        return Vec::new();
    }
    let data_offset = ((d[tcp_offset + 12] >> 4u8) as usize) * 4;
    let payload_start = tcp_offset + data_offset;
    let payload_end = ip_offset + total_len;
    if payload_start >= d.len() || payload_start >= payload_end {
        return Vec::new();
    }
    let end = if payload_end < d.len() {
        payload_end
    } else {
        d.len()
    };
    let mut out: Vec<u8> = Vec::new();
    let mut i: usize = payload_start;
    while i < end
        invariant
            payload_start <= i <= end <= d@.len(),
            out@ == d@.subrange(payload_start as int, i as int),
        decreases end - i,
    {
        out.push(d[i]);
        i = i + 1;
    }
    out
}

/// The TCP sequence number of a captured frame; 0 where it is too short.
pub fn extract_seq_num(raw: &RawPacket) -> (n: u32)
    ensures
        n == tcp_seq_num(raw.data@),
{
    let d = &raw.data;
    if d.len() < 14 {
        return 0;
    }
    let ether_type = read_be16(d, 12);
    let ip_offset: usize = if ether_type == 0x8100 {
        18
    } else {
        14
    };
    if d.len() < ip_offset + 20 {
        return 0;
    }
    let ihl = ((d[ip_offset] & 0x0F) as usize) * 4;
    let tcp_offset = ip_offset + ihl;
    if d.len() < tcp_offset + 8 {
        return 0;
    }
    (d[tcp_offset + 4] as u32) * 0x1000000 + (d[tcp_offset + 5] as u32) * 0x10000 + (d[tcp_offset
        + 6] as u32) * 0x100 + (d[tcp_offset + 7] as u32)
}

// ---------------------------------------------------------------------------
// The segments of one direction, ordered by sequence number

/// Segments as (sequence number, payload) pairs.
pub open spec fn entries(s: Seq<(u32, Vec<u8>)>) -> Seq<(u32, Seq<u8>)> {
    s.map_values(|e: (u32, Vec<u8>)| (e.0, e.1@))
}

/// Sequence numbers strictly ascend, so each occurs once.
pub open spec fn ascending(s: Seq<(u32, Seq<u8>)>) -> bool {
    forall|i: int, j: int| 0 <= i < j < s.len() ==> s[i].0 < s[j].0
}

/// Stores a payload under its sequence number: a payload already stored
/// under that number is replaced.
pub open spec fn insert_segment(s: Seq<(u32, Seq<u8>)>, k: u32, d: Seq<u8>) -> Seq<(u32, Seq<u8>)>
    decreases s.len(),
{
    if s.len() == 0 {
        seq![(k, d)]
    } else if k < s[0].0 {
        seq![(k, d)] + s
    } else if k == s[0].0 {
        seq![(k, d)] + s.drop_first()
    } else {
        seq![s[0]] + insert_segment(s.drop_first(), k, d)
    }
}

/// The payload stored under a sequence number.
pub open spec fn stored(s: Seq<(u32, Seq<u8>)>, k: u32) -> Option<Seq<u8>>
    decreases s.len(),
{
    if s.len() == 0 {
        None
    } else if s[0].0 == k {
        Some(s[0].1)
    } else {
        stored(s.drop_first(), k)
    }
}

proof fn lemma_insert_prefix(s: Seq<(u32, Seq<u8>)>, i: int, k: u32, d: Seq<u8>)
    requires
        0 <= i <= s.len(),
        forall|m: int| 0 <= m < i ==> #[trigger] s[m].0 < k,
    ensures
        insert_segment(s, k, d) == s.take(i) + insert_segment(s.skip(i), k, d),
    decreases i,
{
    if i == 0 {
        assert(s.skip(0) =~= s);
        assert(s.take(0) + insert_segment(s, k, d) =~= insert_segment(s, k, d));
    } else {
        let t = s.drop_first();
        assert forall|m: int| 0 <= m < i - 1 implies #[trigger] t[m].0 < k by {
            assert(t[m] == s[m + 1]);
        }
        lemma_insert_prefix(t, i - 1, k, d);
        assert(t.skip(i - 1) =~= s.skip(i));
        assert(s.take(i) =~= seq![s[0]] + t.take(i - 1));
        assert(seq![s[0]] + (t.take(i - 1) + insert_segment(s.skip(i), k, d)) =~= s.take(i)
            + insert_segment(s.skip(i), k, d));
    }
}

proof fn lemma_insert_ascending(s: Seq<(u32, Seq<u8>)>, k: u32, d: Seq<u8>)
    requires
        ascending(s),
    ensures
        ascending(insert_segment(s, k, d)),
        insert_segment(s, k, d).len() > 0,
        forall|m: int| 0 <= m < insert_segment(s, k, d).len() ==> (#[trigger] insert_segment(s, k, d)[m].0 == k || exists|j: int| 0 <= j < s.len() && s[j].0 == insert_segment(s, k, d)[m].0),
        s.len() > 0 ==> insert_segment(s, k, d)[0].0 == (if k < s[0].0 { k } else { s[0].0 }),
    decreases s.len(),
{
    if s.len() > 0 && k > s[0].0 {
        let t = s.drop_first();
        lemma_insert_ascending(t, k, d);
        let r = insert_segment(t, k, d);
        let full = insert_segment(s, k, d);
        assert(full =~= seq![s[0]] + r);
        assert forall|m: int| 0 <= m < full.len() implies (#[trigger] full[m].0 == k || exists|j: int| 0 <= j < s.len() && s[j].0 == full[m].0) by {
            if m > 0 {
                assert(full[m] == r[m - 1]);
                if r[m - 1].0 != k {
                    let j = choose|j: int| 0 <= j < t.len() && t[j].0 == r[m - 1].0;
                    assert(s[j + 1] == t[j]);
                }
            } else {
                assert(s[0].0 == full[0].0);
            }
        }
        assert forall|i: int, j: int| 0 <= i < j < full.len() implies full[i].0 < full[j].0 by {
            if i > 0 {
                assert(full[i] == r[i - 1]);
                assert(full[j] == r[j - 1]);
            } else {
                assert(full[j] == r[j - 1]);
                if r[j - 1].0 != k {
                    let jj = choose|jj: int| 0 <= jj < t.len() && t[jj].0 == r[j - 1].0;
                    assert(s[jj + 1] == t[jj]);
                }
            }
        }
    } else if s.len() > 0 && k == s[0].0 {
        let full = insert_segment(s, k, d);
        assert forall|m: int| 0 <= m < full.len() implies (#[trigger] full[m].0 == k || exists|j: int| 0 <= j < s.len() && s[j].0 == full[m].0) by {
            if m > 0 {
                assert(full[m] == s[m]);
            }
        }
        assert forall|i: int, j: int| 0 <= i < j < full.len() implies full[i].0 < full[j].0 by {
            assert(full[j] == s[j]);
            if i > 0 {
                assert(full[i] == s[i]);
            }
        }
    } else if s.len() > 0 {
        let full = insert_segment(s, k, d);
        assert forall|m: int| 0 <= m < full.len() implies (#[trigger] full[m].0 == k || exists|j: int| 0 <= j < s.len() && s[j].0 == full[m].0) by {
            if m > 0 {
                assert(full[m] == s[m - 1]);
            }
        }
        assert forall|i: int, j: int| 0 <= i < j < full.len() implies full[i].0 < full[j].0 by {
            assert(full[j] == s[j - 1]);
            if i > 0 {
                assert(full[i] == s[i - 1]);
            }
        }
    }
}

/// Stores `data` under `seq` in an ascending segment list.
fn insert_sorted(segs: &mut Vec<(u32, Vec<u8>)>, seq: u32, data: Vec<u8>)
    requires
        ascending(entries(old(segs)@)),
    ensures
        entries(final(segs)@) == insert_segment(entries(old(segs)@), seq, data@),
        ascending(entries(final(segs)@)),
{
    let ghost e = entries(segs@);
    let mut i: usize = 0;
    while i < segs.len() && segs[i].0 < seq
        invariant
            i <= segs@.len(),
            e == entries(segs@),
            forall|m: int| 0 <= m < i ==> #[trigger] e[m].0 < seq,
        decreases segs.len() - i,
    {
        i = i + 1;
    }
    proof {
        lemma_insert_prefix(e, i as int, seq, data@);
        lemma_insert_ascending(e, seq, data@);
    }
    let ghost dv = data@;
    if i < segs.len() && segs[i].0 == seq {
        segs.set(i, (seq, data));
        assert(e.skip(i as int).drop_first() =~= e.skip(i + 1));
        assert(entries(segs@) =~= e.take(i as int) + insert_segment(e.skip(i as int), seq, dv));
    } else {
        segs.insert(i, (seq, data));
        assert(entries(segs@) =~= e.take(i as int) + insert_segment(e.skip(i as int), seq, dv));
    }
}

// ---------------------------------------------------------------------------
// Reassembly of one direction

/// Where a segment ends in sequence space.
pub open spec fn seg_end(seq: u32, data: Seq<u8>) -> u32 {
    vstd::wrapping::u32_specs::wrapping_add(seq, data.len() as u32)
}

/// The output so far, the end of the last in-order segment and the next
/// sequence number expected.
pub struct DirState {
    pub out: Seq<SegmentView>,
    pub prev_end: Option<u32>,
    pub expected: u32,
}

/// One segment, in sequence-number order: a gap larger than the threshold is
/// reported first; a segment that starts before the end of the last one is a
/// retransmission; any other segment is marked missing-before when a starting
/// sequence number is known and it starts beyond the one expected.
pub open spec fn dir_step(st: DirState, seq: u32, data: Seq<u8>, next_seq: Option<u32>) -> DirState {
    let end = seg_end(seq, data);
    let out = match st.prev_end {
        Some(pe) => if vstd::wrapping::u32_specs::wrapping_sub(seq, pe) > GAP_THRESHOLD {
            st.out.push(
                SegmentView {
                    seq_start: pe,
                    seq_end: seq,
                    data: Seq::empty(),
                    is_retransmission: false,
                    missing: true,
                },
            )
        } else {
            st.out
        },
        None => st.out,
    };
    if st.prev_end.is_some() && seq < st.prev_end.unwrap() {
        DirState {
            out: out.push(
                SegmentView {
                    seq_start: seq,
                    seq_end: end,
                    data,
                    is_retransmission: true,
                    missing: false,
                },
            ),
            prev_end: st.prev_end,
            expected: st.expected,
        }
    } else {
        DirState {
            out: out.push(
                SegmentView {
                    seq_start: seq,
                    seq_end: end,
                    data,
                    is_retransmission: false,
                    missing: next_seq.is_some() && seq > st.expected,
                },
            ),
            prev_end: Some(end),
            expected: end,
        }
    }
}

pub open spec fn dir_fold(s: Seq<(u32, Seq<u8>)>, start: u32, next_seq: Option<u32>) -> DirState
    decreases s.len(),
{
    if s.len() == 0 {
        DirState { out: Seq::empty(), prev_end: None, expected: start }
    } else {
        dir_step(dir_fold(s.drop_last(), start, next_seq), s.last().0, s.last().1, next_seq)
    }
}

/// The reassembled segments of one direction.
pub open spec fn reassemble_dir(s: Seq<(u32, Seq<u8>)>, next_seq: Option<u32>) -> Seq<SegmentView> {
    if s.len() == 0 {
        Seq::empty()
    } else {
        let start = match next_seq {
            Some(n) => n,
            None => s[0].0,
        };
        dir_fold(s, start, next_seq).out
    }
}

pub open spec fn seg_views(v: Seq<StreamSegment>) -> Seq<SegmentView> {
    v.map_values(|g: StreamSegment| g@)
}

/// Whether some segment is marked missing.
pub open spec fn any_missing(v: Seq<SegmentView>) -> bool {
    exists|i: int| 0 <= i < v.len() && (#[trigger] v[i]).missing
}

/// Both directions of one TCP conversation, as seen so far.
#[derive(Debug)]
pub struct TcpReassembler {
    pub client_addr: String,
    pub client_port: u16,
    pub server_addr: String,
    pub server_port: u16,
    pub client_segments: Vec<(u32, Vec<u8>)>,
    pub server_segments: Vec<(u32, Vec<u8>)>,
    pub client_next_seq: Option<u32>,
    pub server_next_seq: Option<u32>,
}

/// The name of a conversation: `client:port->server:port`.
pub open spec fn stream_name(ca: Seq<char>, cp: u16, sa: Seq<char>, sp: u16) -> Seq<char> {
    ca + ":"@ + dec_digits(cp as nat) + "->"@ + sa + ":"@ + dec_digits(sp as nat)
}

fn push_seg_view(result: &mut Vec<StreamSegment>, seg: StreamSegment)
    ensures
        seg_views(final(result)@) == seg_views(old(result)@).push(seg@),
{
    result.push(seg);
    assert(seg_views(result@) =~= seg_views(old(result)@).push(seg@));
}


/// A reassembler after one more packet: non-TCP packets change nothing; a
/// packet without payload only fixes the starting sequence number of its
/// direction, if none is known yet; a payload is stored under its sequence
/// number, which also becomes the starting number if none is known.
pub open spec fn added_segment(o: TcpReassembler, f: TcpReassembler, meta: PacketMetadata, raw: RawPacket) -> bool {
    let payload = tcp_payload(raw.data@);
    let seq = tcp_seq_num(raw.data@);
    &&& f.client_addr == o.client_addr
    &&& f.client_port == o.client_port
    &&& f.server_addr == o.server_addr
    &&& f.server_port == o.server_port
    &&& if meta.protocol != ProtocolType::TCP {
        f == o
    } else if o.from_client(meta) {
        &&& f.server_segments == o.server_segments
        &&& f.server_next_seq == o.server_next_seq
        &&& f.client_next_seq == (if o.client_next_seq is None {
            Some(seq)
        } else {
            o.client_next_seq
        })
        &&& entries(f.client_segments@) == (if payload.len() == 0 {
            entries(o.client_segments@)
        } else {
            insert_segment(entries(o.client_segments@), seq, payload)
        })
    } else {
        &&& f.client_segments == o.client_segments
        &&& f.client_next_seq == o.client_next_seq
        &&& f.server_next_seq == (if o.server_next_seq is None {
            Some(seq)
        } else {
            o.server_next_seq
        })
        &&& entries(f.server_segments@) == (if payload.len() == 0 {
            entries(o.server_segments@)
        } else {
            insert_segment(entries(o.server_segments@), seq, payload)
        })
    }
}

impl TcpReassembler {
    /// What `reassemble` gives: the conversation's name, both directions
    /// reassembled, and a gap flag with its message.
    pub open spec fn reassembled(self, r: TcpStreamData) -> bool {
        &&& r.session_id@ == stream_name(
            self.client_addr@,
            self.client_port,
            self.server_addr@,
            self.server_port,
        )
        &&& seg_views(r.client_data@) == reassemble_dir(
            entries(self.client_segments@),
            self.client_next_seq,
        )
        &&& seg_views(r.server_data@) == reassemble_dir(
            entries(self.server_segments@),
            self.server_next_seq,
        )
        &&& r.has_gap == (any_missing(seg_views(r.client_data@)) || any_missing(
            seg_views(r.server_data@),
        ))
        &&& match r.gap_info {
            Some(g) => r.has_gap && g@ == "数据缺失"@,
            None => !r.has_gap,
        }
    }
}

impl TcpReassembler {
    /// Both segment lists ascend by sequence number.
    pub open spec fn wf(&self) -> bool {
        &&& ascending(entries(self.client_segments@))
        &&& ascending(entries(self.server_segments@))
    }

    pub fn new(client_addr: String, client_port: u16, server_addr: String, server_port: u16) -> (r:
        Self)
        ensures
            r.wf(),
            r.client_addr == client_addr,
            r.client_port == client_port,
            r.server_addr == server_addr,
            r.server_port == server_port,
            r.client_segments@.len() == 0,
            r.server_segments@.len() == 0,
            r.client_next_seq is None,
            r.server_next_seq is None,
    {
        TcpReassembler {
            client_addr,
            client_port,
            server_addr,
            server_port,
            client_segments: Vec::new(),
            server_segments: Vec::new(),
            client_next_seq: None,
            server_next_seq: None,
        }
    }

    /// Whether a packet was sent by the client of this conversation.
    pub open spec fn from_client(&self, meta: PacketMetadata) -> bool {
        meta.src_addr@ == self.client_addr@ && meta.src_port == Some(self.client_port)
    }

    /// Records one packet of the conversation: non-TCP packets are ignored; a
    /// packet without payload only fixes the starting sequence number of its
    /// direction, if none is known yet; a payload is stored under its sequence
    /// number, which also becomes the starting number if none is known.
    pub fn add_segment(&mut self, meta: &PacketMetadata, raw: &RawPacket)
        requires
            old(self).wf(),
        ensures
            final(self).wf(),
            added_segment(*old(self), *final(self), *meta, *raw),
    {
        if meta.protocol != ProtocolType::TCP {
            return;
        }
        let is_client = same_text(meta.src_addr.as_str(), self.client_addr.as_str()) && match meta.src_port {
            Some(p) => p == self.client_port,
            None => false,
        };
        let payload = extract_tcp_payload(raw);
        let seq = extract_seq_num(raw);
        if payload.len() == 0 {
            if is_client {
                if self.client_next_seq.is_none() {
                    self.client_next_seq = Some(seq);
                }
            } else {
                if self.server_next_seq.is_none() {
                    self.server_next_seq = Some(seq);
                }
            }
            return;
        }
        if is_client {
            if self.client_next_seq.is_none() {
                self.client_next_seq = Some(seq);
            }
            insert_sorted(&mut self.client_segments, seq, payload);
        } else {
            if self.server_next_seq.is_none() {
                self.server_next_seq = Some(seq);
            }
            insert_sorted(&mut self.server_segments, seq, payload);
        }
    }

    /// Both directions, reassembled.
    pub fn reassemble(&self) -> (r: TcpStreamData)
        requires
            self.wf(),
        ensures
            Self::reassembled(*self, r),
    {
        let client_data = reassemble_direction(&self.client_segments, self.client_next_seq);
        let server_data = reassemble_direction(&self.server_segments, self.server_next_seq);
        let has_gap = has_missing(&client_data) || has_missing(&server_data);
        let gap_info = if has_gap {
            Some(String::from_str("数据缺失"))
        } else {
            None
        };
        let mut session_id = String::new();
        session_id.append(self.client_addr.as_str());
        session_id.append(":");
        push_decimal(&mut session_id, self.client_port as u64);
        session_id.append("->");
        session_id.append(self.server_addr.as_str());
        session_id.append(":");
        push_decimal(&mut session_id, self.server_port as u64);
        TcpStreamData { session_id, client_data, server_data, has_gap, gap_info }
    }
}

fn has_missing(v: &Vec<StreamSegment>) -> (b: bool)
    ensures
        b == any_missing(seg_views(v@)),
{
    let mut i: usize = 0;
    while i < v.len()
        invariant
            i <= v.len(),
            forall|j: int| 0 <= j < i ==> !(#[trigger] v@[j]).missing,
        decreases v.len() - i,
    {
        if v[i].missing {
            assert(seg_views(v@)[i as int].missing);
            return true;
        }
        i = i + 1;
    }
    assert forall|j: int| 0 <= j < seg_views(v@).len() implies !(#[trigger] seg_views(v@)[j]).missing by {
        assert(seg_views(v@)[j] == v@[j]@);
    }
    false
}

/// Reassembles one direction from its ascending segments.
fn reassemble_direction(segments: &Vec<(u32, Vec<u8>)>, next_seq: Option<u32>) -> (r: Vec<
    StreamSegment,
>)
    ensures
        seg_views(r@) == reassemble_dir(entries(segments@), next_seq),
{
    let mut result: Vec<StreamSegment> = Vec::new();
    if segments.len() == 0 {
        assert(seg_views(result@) =~= Seq::<SegmentView>::empty());
        return result;
    }
    let ghost e = entries(segments@);
    let start = match next_seq {
        Some(n) => n,
        None => segments[0].0,
    };
    let mut expected_seq = start;
    let mut prev_end: Option<u32> = None;
    let mut i: usize = 0;
    assert(e.take(0) =~= Seq::<(u32, Seq<u8>)>::empty());
    assert(seg_views(result@) =~= Seq::<SegmentView>::empty());
    while i < segments.len()
        invariant
            i <= segments@.len(),
            e == entries(segments@),
            e.len() > 0,
            start == (match next_seq {
                Some(n) => n,
                None => e[0].0,
            }),
            dir_fold(e.take(i as int), start, next_seq) == (DirState {
                out: seg_views(result@),
                prev_end,
                expected: expected_seq,
            }),
        decreases segments.len() - i,
    {
        assert(e.take(i + 1).drop_last() =~= e.take(i as int));
        let seq = segments[i].0;
        let data = &segments[i].1;
        assert(e[i as int] == (seq, data@));
        let seg_end = seq.wrapping_add(data.len() as u32);
        if let Some(pe) = prev_end {
            if seq.wrapping_sub(pe) > GAP_THRESHOLD {
                push_seg_view(
                    &mut result,
                    StreamSegment {
                        seq_start: pe,
                        seq_end: seq,
                        data: Vec::new(),
                        is_retransmission: false,
                        missing: true,
                    },
                );
            }
            if seq < pe {
                push_seg_view(
                    &mut result,
                    StreamSegment {
                        seq_start: seq,
                        seq_end: seg_end,
                        data: copy_bytes(data),
                        is_retransmission: true,
                        missing: false,
                    },
                );
                i = i + 1;
                continue;
            }
        }
        let missing = match next_seq {
            Some(_) => seq > expected_seq,
            None => false,
        };
        push_seg_view(
            &mut result,
            StreamSegment {
                seq_start: seq,
                seq_end: seg_end,
                data: copy_bytes(data),
                is_retransmission: false,
                missing,
            },
        );
        prev_end = Some(seg_end);
        expected_seq = seg_end;
        i = i + 1;
    }
    assert(e.take(e.len() as int) =~= e);
    result
}

} // verus!
