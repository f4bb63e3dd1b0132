//! Grouping of packets into conversations between two endpoints.
use vstd::prelude::*;
use crate::models::{
    PacketMetadata, ProtocolType, RawPacket, SessionInfo, SessionState, TcpStreamData,
};
use crate::stream::reassembly::{added_segment, TcpReassembler};
use crate::text::{contains_str, dec_digits, occurs_in, push_decimal, same_text};

verus! {

/// At most this many sessions are kept; the oldest one gives way to a new one.
pub const MAX_ACTIVE_SESSIONS: usize = 10_000;

/// One tracked conversation.
#[derive(Debug)]
pub struct SessionEntry {
    pub key: String,
    pub info: SessionInfo,
    pub tcp_reassembler: Option<TcpReassembler>,
    pub packet_nos: Vec<u64>,
    pub client_addr: String,
    pub client_port: u16,
}

/// The conversations seen so far, oldest first.
pub struct SessionTracker {
    pub sessions: Vec<SessionEntry>,
}

pub open spec fn port_or_zero(p: Option<u16>) -> u16 {
    match p {
        Some(x) => x,
        None => 0,
    }
}

/// `addr:port->addr:port:Protocol`, a port that is absent written as 0.
pub open spec fn key_text(
    a: Seq<char>,
    ap: Option<u16>,
    b: Seq<char>,
    bp: Option<u16>,
    proto: ProtocolType,
) -> Seq<char> {
    a + ":"@ + dec_digits(port_or_zero(ap) as nat) + "->"@ + b + ":"@ + dec_digits(
        port_or_zero(bp) as nat,
    ) + ":"@ + proto.variant_name()
}

/// The key of the session a packet opens, in its own direction.
pub open spec fn session_key(m: PacketMetadata) -> Seq<char> {
    key_text(m.src_addr@, m.src_port, m.dst_addr@, m.dst_port, m.protocol)
}

/// The key of the session a packet belongs to when it answers.
pub open spec fn reverse_key(m: PacketMetadata) -> Seq<char> {
    key_text(m.dst_addr@, m.dst_port, m.src_addr@, m.src_port, m.protocol)
}

pub open spec fn has_key(s: Seq<SessionEntry>, k: Seq<char>) -> bool {
    exists|i: int| 0 <= i < s.len() && (#[trigger] s[i]).key@ == k
}

/// The position of the session with key `k`.
pub open spec fn key_index(s: Seq<SessionEntry>, k: Seq<char>) -> int {
    choose|i: int| 0 <= i < s.len() && (#[trigger] s[i]).key@ == k
}

/// The session that a packet belongs to: the one under its own key, else the
/// one under the reverse key.
pub open spec fn owner_index(s: Seq<SessionEntry>, m: PacketMetadata) -> Option<int> {
    if has_key(s, session_key(m)) {
        Some(key_index(s, session_key(m)))
    } else if has_key(s, reverse_key(m)) {
        Some(key_index(s, reverse_key(m)))
    } else {
        None
    }
}

/// Whether a TCP summary reports the end of the connection.
pub open spec fn closes(m: PacketMetadata) -> bool {
    occurs_in(m.summary@, "FIN"@) || occurs_in(m.summary@, "RST"@)
}

/// A session after one more packet of it.
pub open spec fn updated_entry(o: SessionEntry, f: SessionEntry, m: PacketMetadata, raw: RawPacket) -> bool {
    let tcp = m.protocol == ProtocolType::TCP;
    &&& f.key == o.key
    &&& f.client_addr == o.client_addr
    &&& f.client_port == o.client_port
    &&& f.info.id == o.info.id
    &&& f.info.src_addr == o.info.src_addr
    &&& f.info.src_port == o.info.src_port
    &&& f.info.dst_addr == o.info.dst_addr
    &&& f.info.dst_port == o.info.dst_port
    &&& f.info.protocol == o.info.protocol
    &&& f.info.first_packet_no == o.info.first_packet_no
    &&& f.info.packet_count == o.info.packet_count + 1
    &&& f.info.byte_count == o.info.byte_count + m.length
    &&& f.info.duration_ms == (if o.info.duration_ms <= i64::MAX && (o.info.duration_ms / 1000) as int
        >= m.timestamp_secs as int {
        (o.info.duration_ms / 1000) as int
    } else {
        m.timestamp_secs as int
    }) * 1000
    &&& f.info.last_packet_no == m.no
    &&& f.packet_nos@ == o.packet_nos@.push(m.no)
    &&& f.info.state == (if tcp && closes(m) {
        SessionState::Closed
    } else {
        o.info.state
    })
    &&& match (o.tcp_reassembler, f.tcp_reassembler) {
        (Some(a), Some(b)) => if tcp {
            added_segment(a, b, m, raw)
        } else {
            b == a
        },
        (None, None) => true,
        _ => false,
    }
}

/// The session that a packet of an unknown conversation opens.
pub open spec fn new_entry(f: SessionEntry, m: PacketMetadata) -> bool {
    let tcp = m.protocol == ProtocolType::TCP;
    &&& f.key@ == session_key(m)
    &&& f.info.id@ == session_key(m)
    &&& f.info.src_addr == m.src_addr
    &&& f.info.src_port == port_or_zero(m.src_port)
    &&& f.info.dst_addr == m.dst_addr
    &&& f.info.dst_port == port_or_zero(m.dst_port)
    &&& f.info.protocol == m.protocol
    &&& f.info.packet_count == 1
    &&& f.info.byte_count == m.length
    &&& f.info.duration_ms == 0
    &&& f.info.state == SessionState::Active
    &&& f.info.first_packet_no == m.no
    &&& f.info.last_packet_no == m.no
    &&& f.packet_nos@ == seq![m.no]
    &&& f.client_addr == m.src_addr
    &&& f.client_port == port_or_zero(m.src_port)
    &&& match f.tcp_reassembler {
        Some(r) => tcp && r.wf() && r.client_addr == m.src_addr && r.client_port == port_or_zero(
            m.src_port,
        ) && r.server_addr == m.dst_addr && r.server_port == port_or_zero(m.dst_port)
            && r.client_segments@.len() == 0 && r.server_segments@.len() == 0
            && r.client_next_seq is None && r.server_next_seq is None,
        None => !tcp,
    }
}

/// The sessions after one more packet: the session it belongs to is updated
/// in place; a packet of no session opens one at the end, the oldest giving
/// way when the limit is reached.
pub open spec fn processed(pre: Seq<SessionEntry>, post: Seq<SessionEntry>, m: PacketMetadata, raw: RawPacket) -> bool {
    match owner_index(pre, m) {
        Some(i) => {
            &&& post.len() == pre.len()
            &&& forall|j: int| 0 <= j < pre.len() && j != i ==> post[j] == pre[j]
            &&& updated_entry(pre[i], post[i], m, raw)
        },
        None => {
            let kept = if pre.len() >= MAX_ACTIVE_SESSIONS {
                pre.drop_first()
            } else {
                pre
            };
            &&& post.len() == kept.len() + 1
            &&& post.drop_last() == kept
            &&& new_entry(post.last(), m)
        },
    }
}

/// A packet from `a` to `b` and its reply from `b` to `a`, starting with no
/// sessions, make one session: keyed in the first packet's direction, with
/// the first packet's sender as client, counting both packets and both
/// lengths, and holding both packet numbers in order.
pub proof fn lemma_reply_joins_session(
    s1: Seq<SessionEntry>,
    s2: Seq<SessionEntry>,
    p1: PacketMetadata,
    r1: RawPacket,
    p2: PacketMetadata,
    r2: RawPacket,
)
    requires
        processed(Seq::empty(), s1, p1, r1),
        processed(s1, s2, p2, r2),
        p2.src_addr@ == p1.dst_addr@,
        p2.dst_addr@ == p1.src_addr@,
        port_or_zero(p2.src_port) == port_or_zero(p1.dst_port),
        port_or_zero(p2.dst_port) == port_or_zero(p1.src_port),
        p2.protocol == p1.protocol,
    ensures
        s2.len() == 1,
        s2[0].key@ == session_key(p1),
        s2[0].info.id@ == session_key(p1),
        s2[0].info.packet_count == 2,
        s2[0].info.byte_count == p1.length + p2.length,
        s2[0].info.first_packet_no == p1.no,
        s2[0].info.last_packet_no == p2.no,
        s2[0].packet_nos@ == seq![p1.no, p2.no],
        s2[0].client_addr == p1.src_addr,
        s2[0].client_port == port_or_zero(p1.src_port),
        s2[0].info.dst_addr == p1.dst_addr,
        s2[0].info.dst_port == port_or_zero(p1.dst_port),
{
    assert(!has_key(Seq::<SessionEntry>::empty(), session_key(p1)));
    assert(owner_index(Seq::<SessionEntry>::empty(), p1) is None);
    assert(s1.len() == 1);
    assert(s1.last() == s1[0]);
    assert(reverse_key(p2) == session_key(p1));
    assert(s1[0].key@ == reverse_key(p2));
    let i = owner_index(s1, p2);
    if has_key(s1, session_key(p2)) {
        assert(i == Some(key_index(s1, session_key(p2))));
    } else {
        assert(has_key(s1, reverse_key(p2)));
    }
    assert(i == Some(0int));
    assert(seq![p1.no].push(p2.no) =~= seq![p1.no, p2.no]);
}

/// No more than the limit of sessions is ever held: a packet of a new
/// conversation at the limit drops the oldest session.
pub proof fn lemma_session_cap(pre: Seq<SessionEntry>, post: Seq<SessionEntry>, m: PacketMetadata, raw: RawPacket)
    requires
        pre.len() <= MAX_ACTIVE_SESSIONS,
        processed(pre, post, m, raw),
    ensures
        post.len() <= MAX_ACTIVE_SESSIONS,
        pre.len() == MAX_ACTIVE_SESSIONS && owner_index(pre, m) is None ==> post.len()
            == MAX_ACTIVE_SESSIONS && post.drop_last() == pre.drop_first(),
{
}

fn port_value(p: Option<u16>) -> (r: u16)
    ensures
        r == port_or_zero(p),
{
    match p {
        Some(x) => x,
        None => 0,
    }
}

impl SessionTracker {
    /// Keys are unique, the count is bounded and reassemblers are well formed.
    pub open spec fn wf(&self) -> bool {
        &&& self.sessions@.len() <= MAX_ACTIVE_SESSIONS
        &&& forall|i: int, j: int|
            0 <= i < j < self.sessions@.len() ==> (#[trigger] self.sessions@[i]).key@
                != (#[trigger] self.sessions@[j]).key@
        &&& forall|i: int|
            0 <= i < self.sessions@.len() ==> {
                let e = #[trigger] self.sessions@[i];
                e.tcp_reassembler matches Some(r) ==> r.wf()
            }
    }

    /// The counters of every session can take one more packet of this length.
    pub open spec fn room_for(&self, m: PacketMetadata) -> bool {
        forall|i: int|
            0 <= i < self.sessions@.len() ==> {
                let e = #[trigger] self.sessions@[i];
                e.info.packet_count < u64::MAX && e.info.byte_count + m.length <= u64::MAX
            }
    }

    /// Whether `process_packet` can take this packet: the counters of every
    /// session have room for it and its time scales to milliseconds.
    pub fn can_record(&self, meta: &PacketMetadata) -> (b: bool)
        ensures
            b == (self.room_for(*meta) && meta.timestamp_secs <= u64::MAX / 1000),
    {
        if meta.timestamp_secs > u64::MAX / 1000 {
            return false;
        }
        let mut i: usize = 0;
        while i < self.sessions.len()
            invariant
                i <= self.sessions@.len(),
                forall|j: int|
                    0 <= j < i ==> {
                        let e = #[trigger] self.sessions@[j];
                        e.info.packet_count < u64::MAX && e.info.byte_count + meta.length <= u64::MAX
                    },
            decreases self.sessions.len() - i,
        {
            let e = &self.sessions[i];
            if e.info.packet_count == u64::MAX || e.info.byte_count > u64::MAX - meta.length as u64 {
                return false;
            }
            i = i + 1;
        }
        true
    }

    pub fn new() -> (r: Self)
        ensures
            r.wf(),
            r.sessions@.len() == 0,
    {
        SessionTracker { sessions: Vec::new() }
    }

    fn make_key(a: &String, ap: Option<u16>, b: &String, bp: Option<u16>, proto: ProtocolType) -> (r:
        String)
        ensures
            r@ == key_text(a@, ap, b@, bp, proto),
    {
        let mut k = String::new();
        k.append(a.as_str());
        k.append(":");
        push_decimal(&mut k, port_value(ap) as u64);
        k.append("->");
        k.append(b.as_str());
        k.append(":");
        push_decimal(&mut k, port_value(bp) as u64);
        k.append(":");
        k.append(proto.variant_str());
        k
    }

    fn make_session_key(meta: &PacketMetadata) -> (r: String)
        ensures
            r@ == session_key(*meta),
    {
        Self::make_key(&meta.src_addr, meta.src_port, &meta.dst_addr, meta.dst_port, meta.protocol)
    }

    fn make_reverse_session_key(meta: &PacketMetadata) -> (r: String)
        ensures
            r@ == reverse_key(*meta),
    {
        Self::make_key(&meta.dst_addr, meta.dst_port, &meta.src_addr, meta.src_port, meta.protocol)
    }

    fn find(&self, k: &str) -> (r: Option<usize>)
        requires
            self.wf(),
        ensures
            match r {
                Some(i) => i < self.sessions@.len() && self.sessions@[i as int].key@ == k@
                    && has_key(self.sessions@, k@) && key_index(self.sessions@, k@) == i,
                None => !has_key(self.sessions@, k@),
            },
    {
        let mut i: usize = 0;
        while i < self.sessions.len()
            invariant
                self.wf(),
                i <= self.sessions@.len(),
                forall|j: int| 0 <= j < i ==> (#[trigger] self.sessions@[j]).key@ != k@,
            decreases self.sessions.len() - i,
        {
            if same_text(self.sessions[i].key.as_str(), k) {
                assert(has_key(self.sessions@, k@));
                let ghost c = key_index(self.sessions@, k@);
                assert(self.sessions@[c].key@ == k@);
                assert(c == i) by {
                    if c < i {
                    } else if c > i {
                        assert(self.sessions@[i as int].key@ != self.sessions@[c].key@);
                    }
                }
                return Some(i);
            }
            i = i + 1;
        }
        None
    }

    /// Books one packet under its session, opening a session where the packet
    /// belongs to none (the oldest session gives way when the table is full).
    pub fn process_packet(&mut self, meta: &PacketMetadata, raw: &RawPacket)
        requires
            old(self).wf(),
            old(self).room_for(*meta),
            meta.timestamp_secs <= u64::MAX / 1000,
        ensures
            final(self).wf(),
            processed(old(self).sessions@, final(self).sessions@, *meta, *raw),
    {
        let key = Self::make_session_key(meta);
        let reverse_key = Self::make_reverse_session_key(meta);
        let existing = match self.find(key.as_str()) {
            Some(i) => Some(i),
            None => self.find(reverse_key.as_str()),
        };
        match existing {
            Some(i) => self.book_packet(i, meta, raw),
            None => self.open_session(key, meta),
        }
    }

    fn book_packet(&mut self, i: usize, meta: &PacketMetadata, raw: &RawPacket)
        requires
            old(self).wf(),
            old(self).room_for(*meta),
            meta.timestamp_secs <= u64::MAX / 1000,
            i < old(self).sessions@.len(),
        ensures
            final(self).wf(),
            final(self).sessions@.len() == old(self).sessions@.len(),
            forall|j: int|
                0 <= j < old(self).sessions@.len() && j != i ==> final(self).sessions@[j]
                    == old(self).sessions@[j],
            updated_entry(old(self).sessions@[i as int], final(self).sessions@[i as int], *meta, *raw),
    {
        let ghost old_sessions = self.sessions@;
        let mut entry = self.sessions.remove(i);
        let ghost o = entry;
        entry.info.packet_count = entry.info.packet_count + 1;
        entry.info.byte_count = entry.info.byte_count + meta.length as u64;
        let ts = meta.timestamp_secs;
        let dur = entry.info.duration_ms;
        // A stored time past `i64::MAX` reads back as a negative number of
        // seconds, which the packet's own time then replaces.
        let latest = if dur <= i64::MAX as u64 && dur / 1000 >= ts {
            dur / 1000
        } else {
            ts
        };
        entry.info.duration_ms = latest * 1000;
        entry.info.last_packet_no = meta.no;
        entry.packet_nos.push(meta.no);
        if meta.protocol == ProtocolType::TCP {
            Self::update_tcp_state(&mut entry.info, meta);
            match entry.tcp_reassembler {
                Some(ref mut r) => {
                    r.add_segment(meta, raw);
                },
                None => {},
            }
        }
        proof {
            assert(updated_entry(o, entry, *meta, *raw));
        }
        self.sessions.insert(i, entry);
        proof {
            assert forall|j: int|
                0 <= j < old_sessions.len() && j != i implies self.sessions@[j]
                == old_sessions[j] by {
                if j < i {
                    assert(self.sessions@[j] == old_sessions.remove(i as int)[j]);
                } else {
                    assert(self.sessions@[j] == old_sessions.remove(i as int)[j - 1]);
                }
            }
            assert forall|a: int, b: int|
                0 <= a < b < self.sessions@.len() implies (#[trigger] self.sessions@[a]).key@
                != (#[trigger] self.sessions@[b]).key@ by {
                assert(self.sessions@[a].key == old_sessions[a].key);
                assert(self.sessions@[b].key == old_sessions[b].key);
            }
            assert forall|a: int| 0 <= a < self.sessions@.len() implies {
                let e = #[trigger] self.sessions@[a];
                e.tcp_reassembler matches Some(r) ==> r.wf()
            } by {
                if a != i {
                    assert(self.sessions@[a] == old_sessions[a]);
                }
            }
        }
    }

    fn open_session(&mut self, key: String, meta: &PacketMetadata)
        requires
            old(self).wf(),
            key@ == session_key(*meta),
            !has_key(old(self).sessions@, key@),
        ensures
            final(self).wf(),
            ({
                let kept = if old(self).sessions@.len() >= MAX_ACTIVE_SESSIONS {
                    old(self).sessions@.drop_first()
                } else {
                    old(self).sessions@
                };
                &&& final(self).sessions@.len() == kept.len() + 1
                &&& final(self).sessions@.drop_last() == kept
                &&& new_entry(final(self).sessions@.last(), *meta)
            }),
    {
        let ghost before = self.sessions@;
        if self.sessions.len() >= MAX_ACTIVE_SESSIONS {
            let _evicted = self.sessions.remove(0);
        }
        let ghost kept = self.sessions@;
        proof {
            assert forall|a: int| 0 <= a < kept.len() implies #[trigger] kept[a].key@ != key@ by {
                if before.len() >= MAX_ACTIVE_SESSIONS {
                    assert(kept[a] == before[a + 1]);
                } else {
                    assert(kept[a] == before[a]);
                }
            }
        }
        let is_tcp = meta.protocol == ProtocolType::TCP;
        let reassembler = if is_tcp {
            Some(
                TcpReassembler::new(
                    meta.src_addr.clone(),
                    port_value(meta.src_port),
                    meta.dst_addr.clone(),
                    port_value(meta.dst_port),
                ),
            )
        } else {
            None
        };
        let info = SessionInfo {
            id: key.clone(),
            src_addr: meta.src_addr.clone(),
            src_port: port_value(meta.src_port),
            dst_addr: meta.dst_addr.clone(),
            dst_port: port_value(meta.dst_port),
            protocol: meta.protocol,
            packet_count: 1,
            byte_count: meta.length as u64,
            duration_ms: 0,
            state: SessionState::Active,
            first_packet_no: meta.no,
            last_packet_no: meta.no,
        };
        let mut nos: Vec<u64> = Vec::new();
        nos.push(meta.no);
        let entry = SessionEntry {
            key,
            info,
            tcp_reassembler: reassembler,
            packet_nos: nos,
            client_addr: meta.src_addr.clone(),
            client_port: port_value(meta.src_port),
        };
        self.sessions.push(entry);
        proof {
            assert(self.sessions@.drop_last() =~= kept);
            assert forall|a: int, b: int|
                0 <= a < b < self.sessions@.len() implies (#[trigger] self.sessions@[a]).key@
                != (#[trigger] self.sessions@[b]).key@ by {
                if b == self.sessions@.len() - 1 {
                    assert(self.sessions@[a] == kept[a]);
                } else {
                    assert(self.sessions@[a] == kept[a]);
                    assert(self.sessions@[b] == kept[b]);
                    if before.len() >= MAX_ACTIVE_SESSIONS {
                        assert(kept[a] == before[a + 1]);
                        assert(kept[b] == before[b + 1]);
                    }
                }
            }
            assert forall|a: int| 0 <= a < self.sessions@.len() implies {
                let e = #[trigger] self.sessions@[a];
                e.tcp_reassembler matches Some(r) ==> r.wf()
            } by {
                if a < self.sessions@.len() - 1 {
                    assert(self.sessions@[a] == kept[a]);
                    if before.len() >= MAX_ACTIVE_SESSIONS {
                        assert(kept[a] == before[a + 1]);
                    } else {
                        assert(kept[a] == before[a]);
                    }
                }
            }
        }
    }

    fn update_tcp_state(info: &mut SessionInfo, meta: &PacketMetadata)
        ensures
            final(info).state == (if closes(*meta) {
                SessionState::Closed
            } else {
                old(info).state
            }),
            *final(info) == (SessionInfo { state: final(info).state, ..*old(info) }),
    {
        if contains_str(meta.summary.as_str(), "FIN") {
            info.state = SessionState::Closed;
        } else if contains_str(meta.summary.as_str(), "RST") {
            info.state = SessionState::Closed;
        }
    }

    /// The information of every session, oldest first.
    pub fn get_sessions(&self) -> (r: Vec<SessionInfo>)
        ensures
            r@ == self.sessions@.map_values(|e: SessionEntry| e.info),
    {
        let mut r: Vec<SessionInfo> = Vec::new();
        let mut i: usize = 0;
        while i < self.sessions.len()
            invariant
                i <= self.sessions@.len(),
                r@ == self.sessions@.subrange(0, i as int).map_values(|e: SessionEntry| e.info),
            decreases self.sessions.len() - i,
        {
            r.push(self.sessions[i].info.clone());
            assert(self.sessions@.subrange(0, i + 1).map_values(|e: SessionEntry| e.info)
                =~= self.sessions@.subrange(0, i as int).map_values(|e: SessionEntry| e.info).push(
                self.sessions@[i as int].info,
            ));
            i = i + 1;
        }
        assert(self.sessions@.subrange(0, i as int) =~= self.sessions@);
        r
    }

    /// The reassembled TCP stream of a session, where it is a TCP session.
    pub fn get_tcp_stream(&mut self, session_id: &str) -> (r: Option<TcpStreamData>)
        requires
            old(self).wf(),
        ensures
            *final(self) == *old(self),
            match r {
                Some(d) => has_key(old(self).sessions@, session_id@) && old(self).sessions@[key_index(
                    old(self).sessions@,
                    session_id@,
                )].tcp_reassembler is Some,
                None => !has_key(old(self).sessions@, session_id@) || old(self).sessions@[key_index(
                    old(self).sessions@,
                    session_id@,
                )].tcp_reassembler is None,
            },
            r matches Some(d) ==> {
                let rs = old(self).sessions@[key_index(old(self).sessions@, session_id@)].tcp_reassembler->0;
                TcpReassembler::reassembled(rs, d)
            },
    {
        match self.find(session_id) {
            Some(i) => match &self.sessions[i].tcp_reassembler {
                Some(r) => Some(r.reassemble()),
                None => None,
            },
            None => None,
        }
    }

    /// The session of a packet, in either direction.
    pub fn get_session_for_packet(&self, meta: &PacketMetadata) -> (r: Option<SessionInfo>)
        requires
            self.wf(),
        ensures
            match owner_index(self.sessions@, *meta) {
                Some(i) => r == Some(self.sessions@[i].info),
                None => r is None,
            },
    {
        let key = Self::make_session_key(meta);
        match self.find(key.as_str()) {
            Some(i) => {
                return Some(self.sessions[i].info.clone());
            },
            None => {},
        }
        let reverse_key = Self::make_reverse_session_key(meta);
        match self.find(reverse_key.as_str()) {
            Some(i) => Some(self.sessions[i].info.clone()),
            None => None,
        }
    }

    /// The numbers of the packets of a session, in arrival order.
    pub fn get_session_packet_nos(&self, session_id: &str) -> (r: Option<Vec<u64>>)
        requires
            self.wf(),
        ensures
            match r {
                Some(v) => has_key(self.sessions@, session_id@) && v@ == self.sessions@[key_index(
                    self.sessions@,
                    session_id@,
                )].packet_nos@,
                None => !has_key(self.sessions@, session_id@),
            },
    {
        match self.find(session_id) {
            Some(i) => Some(self.sessions[i].packet_nos.clone()),
            None => None,
        }
    }

    /// The client endpoint and the server endpoint of a session.
    pub fn get_session_client_info(&self, session_id: &str) -> (r: Option<(String, u16, String, u16)>)
        requires
            self.wf(),
        ensures
            match r {
                Some(t) => has_key(self.sessions@, session_id@) && {
                    let e = self.sessions@[key_index(self.sessions@, session_id@)];
                    t == (e.client_addr, e.client_port, e.info.dst_addr, e.info.dst_port)
                },
                None => !has_key(self.sessions@, session_id@),
            },
    {
        match self.find(session_id) {
            Some(i) => {
                let e = &self.sessions[i];
                Some((e.client_addr.clone(), e.client_port, e.info.dst_addr.clone(), e.info.dst_port))
            },
            None => None,
        }
    }
}

} // verus!
