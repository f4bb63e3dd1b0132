//! The state of a live capture: the packet counters, the buffer of parsed
//! packets with their raw bytes, and the user's marks. Opening the device
//! and the capture thread are the caller's; the packets they produce are
//! handed in as events.
use vstd::prelude::*;
use std::collections::HashMap;
use vstd::std_specs::iter::IteratorSpec;
use crate::models::{CaptureStatus, MarkLevel, PacketMark, PacketMetadata, RawPacket};
use crate::rule::rate_counter::SlidingWindowCounter;

verus! {

broadcast use vstd::std_specs::hash::group_hash_axioms;

/// The most packets kept in the buffer.
pub const MAX_METADATA_COUNT: usize = 500000;

/// The most marks.
pub const MAX_MARK_COUNT: usize = 10000;

/// The most characters of a mark's comment.
pub const MAX_COMMENT_CHARS: usize = 200;

/// What the capture thread hands over.
pub enum CaptureEvent {
    NewPacket(PacketMetadata, Vec<u8>),
    Error(String),
}

/// The index of the first packet of the buffer without a mark, or -1.
pub open spec fn first_unmarked(b: Seq<PacketMetadata>, marks: Map<u64, PacketMark>) -> int
    decreases b.len(),
{
    if b.len() == 0 {
        -1
    } else {
        let k = first_unmarked(b.drop_last(), marks);
        if k >= 0 {
            k
        } else if !marks.contains_key(b.last().no) {
            b.len() - 1
        } else {
            -1
        }
    }
}

proof fn lemma_first_unmarked(b: Seq<PacketMetadata>, marks: Map<u64, PacketMark>)
    ensures
        -1 <= first_unmarked(b, marks) < b.len(),
        first_unmarked(b, marks) >= 0 ==> !marks.contains_key(b[first_unmarked(b, marks)].no),
        first_unmarked(b, marks) >= 0 ==> forall|j: int|
            0 <= j < first_unmarked(b, marks) ==> marks.contains_key(#[trigger] b[j].no),
        first_unmarked(b, marks) == -1 ==> forall|j: int| 0 <= j < b.len() ==> marks.contains_key(#[trigger] b[j].no),
    decreases b.len(),
{
    if b.len() > 0 {
        lemma_first_unmarked(b.drop_last(), marks);
        assert forall|j: int| 0 <= j < b.len() - 1 implies #[trigger] b[j] == b.drop_last()[j] by {}
    }
}

/// A packet can be stored: the buffer has room, or a packet in it has no
/// mark and can go. (When neither holds, the buffer would wait forever for
/// an unmarked packet.)
pub open spec fn store_ok(b: Seq<PacketMetadata>, marks: Map<u64, PacketMark>) -> bool {
    b.len() < MAX_METADATA_COUNT || first_unmarked(b, marks) >= 0
}

/// The buffer after the oldest unmarked packet went: the marked packets
/// before it move to the back, in order.
pub open spec fn evicted(b: Seq<PacketMetadata>, marks: Map<u64, PacketMark>) -> Seq<PacketMetadata> {
    let i = first_unmarked(b, marks);
    b.skip(i + 1) + b.take(i)
}

/// Buffer and raw bytes after storing a packet.
pub open spec fn stored(
    b: Seq<PacketMetadata>,
    raw: Map<u64, Vec<u8>>,
    marks: Map<u64, PacketMark>,
    no: u64,
    data: Vec<u8>,
) -> (Seq<PacketMetadata>, Map<u64, Vec<u8>>) {
    if b.len() >= MAX_METADATA_COUNT {
        (evicted(b, marks), raw.remove(b[first_unmarked(b, marks)].no).insert(no, data))
    } else {
        (b, raw.insert(no, data))
    }
}

/// Buffer and raw bytes after storing the packets of the events in order.
pub open spec fn drained(
    b: Seq<PacketMetadata>,
    raw: Map<u64, Vec<u8>>,
    marks: Map<u64, PacketMark>,
    events: Seq<CaptureEvent>,
) -> (Seq<PacketMetadata>, Map<u64, Vec<u8>>)
    decreases events.len(),
{
    if events.len() == 0 {
        (b, raw)
    } else {
        let before = drained(b, raw, marks, events.drop_last());
        match events.last() {
            CaptureEvent::NewPacket(meta, data) => {
                let s = stored(before.0, before.1, marks, meta.no, data);
                (s.0.push(meta), s.1)
            },
            CaptureEvent::Error(_) => before,
        }
    }
}

/// Every packet of the events can be stored in turn.
pub open spec fn drain_ok(
    b: Seq<PacketMetadata>,
    raw: Map<u64, Vec<u8>>,
    marks: Map<u64, PacketMark>,
    events: Seq<CaptureEvent>,
) -> bool
    decreases events.len(),
{
    if events.len() == 0 {
        true
    } else {
        &&& drain_ok(b, raw, marks, events.drop_last())
        &&& (events.last() is NewPacket ==> store_ok(drained(b, raw, marks, events.drop_last()).0, marks))
    }
}

/// The packets of the events, in order.
pub open spec fn new_packets(events: Seq<CaptureEvent>) -> Seq<PacketMetadata>
    decreases events.len(),
{
    if events.len() == 0 {
        Seq::empty()
    } else {
        match events.last() {
            CaptureEvent::NewPacket(meta, _) => new_packets(events.drop_last()).push(meta),
            CaptureEvent::Error(_) => new_packets(events.drop_last()),
        }
    }
}

/// Whether a packet has a mark.
pub open spec fn marked_in(marks: Map<u64, PacketMark>) -> spec_fn(PacketMetadata) -> bool {
    |m: PacketMetadata| marks.contains_key(m.no)
}

/// The first packet of the number in the buffer.
pub open spec fn first_meta(b: Seq<PacketMetadata>, no: u64) -> Option<PacketMetadata>
    decreases b.len(),
{
    if b.len() == 0 {
        None
    } else {
        match first_meta(b.drop_last(), no) {
            Some(m) => Some(m),
            None => if b.last().no == no {
                Some(b.last())
            } else {
                None
            },
        }
    }
}

proof fn lemma_first_meta_prefix(b: Seq<PacketMetadata>, no: u64, i: int, j: int)
    requires
        0 <= i <= j <= b.len(),
        first_meta(b.take(i), no) is Some,
    ensures
        first_meta(b.take(j), no) == first_meta(b.take(i), no),
    decreases j - i,
{
    if j > i {
        lemma_first_meta_prefix(b, no, i, j - 1);
        assert(b.take(j).drop_last() =~= b.take(j - 1));
    }
}

/// The comment as kept: its first characters.
pub open spec fn kept_comment(c: Seq<char>) -> Seq<char> {
    if c.len() > MAX_COMMENT_CHARS {
        c.take(MAX_COMMENT_CHARS as int)
    } else {
        c
    }
}

/// The state of a capture.
pub struct CaptureEngine {
    pub is_capturing: bool,
    pub packet_counter: u64,
    pub dropped_count: u64,
    pub interface_name: Option<String>,
    pub metadata_buffer: Vec<PacketMetadata>,
    pub raw_data_store: HashMap<u64, Vec<u8>>,
    pub marks: HashMap<u64, PacketMark>,
}

impl CaptureEngine {
    pub fn new() -> (e: Self)
        ensures
            !e.is_capturing,
            e.packet_counter == 0,
            e.dropped_count == 0,
            e.interface_name is None,
            e.metadata_buffer@.len() == 0,
            e.raw_data_store@ == Map::<u64, Vec<u8>>::empty(),
            e.marks@ == Map::<u64, PacketMark>::empty(),
    {
        CaptureEngine {
            is_capturing: false,
            packet_counter: 0,
            dropped_count: 0,
            interface_name: None,
            metadata_buffer: Vec::new(),
            raw_data_store: HashMap::new(),
            marks: HashMap::new(),
        }
    }

    /// Starts a capture on the interface once its device is open: counters
    /// and buffer start afresh. Refused while a capture runs.
    pub fn begin_capture(&mut self, interface_name: &str) -> (r: Result<(), String>)
        ensures
            r is Err <==> old(self).is_capturing,
            r matches Err(m) ==> m@ == "Already capturing"@ && *final(self) == *old(self),
            r is Ok ==> {
                &&& final(self).is_capturing
                &&& final(self).interface_name matches Some(n) && n@ == interface_name@
                &&& final(self).packet_counter == 0
                &&& final(self).dropped_count == 0
                &&& final(self).metadata_buffer@.len() == 0
                &&& final(self).raw_data_store@ == Map::<u64, Vec<u8>>::empty()
                &&& final(self).marks == old(self).marks
            },
    {
        if self.is_capturing {
            return Err(String::from_str("Already capturing"));
        }
        self.interface_name = Some(String::from_str(interface_name));
        self.packet_counter = 0;
        self.dropped_count = 0;
        self.metadata_buffer = Vec::new();
        self.raw_data_store.clear();
        self.is_capturing = true;
        Ok(())
    }

    /// Stops the capture; refused when none runs.
    pub fn stop_capture(&mut self) -> (r: Result<(), String>)
        ensures
            r is Err <==> !old(self).is_capturing,
            r matches Err(m) ==> m@ == "Not capturing"@,
            !final(self).is_capturing,
            final(self).metadata_buffer == old(self).metadata_buffer,
            final(self).marks == old(self).marks,
            final(self).packet_counter == old(self).packet_counter,
    {
        if !self.is_capturing {
            return Err(String::from_str("Not capturing"));
        }
        self.is_capturing = false;
        Ok(())
    }

    /// The capture thread ended.
    pub fn capture_ended(&mut self)
        ensures
            !final(self).is_capturing,
            final(self).metadata_buffer == old(self).metadata_buffer,
            final(self).marks == old(self).marks,
            final(self).packet_counter == old(self).packet_counter,
    {
        self.is_capturing = false;
    }

    /// Whether a capture runs, on which interface, and the counts; the
    /// dropped count is kept to its low 32 bits.
    pub fn get_status(&self) -> (s: CaptureStatus)
        ensures
            s.is_capturing == self.is_capturing,
            s.packet_count == self.packet_counter,
            s.dropped_count == self.dropped_count as u32,
            match (s.interface_name, self.interface_name) {
                (Some(a), Some(b)) => a@ == b@,
                (None, None) => true,
                _ => false,
            },
    {
        let name = match &self.interface_name {
            Some(n) => Some(n.clone()),
            None => None,
        };
        CaptureStatus {
            is_capturing: self.is_capturing,
            interface_name: name,
            packet_count: self.packet_counter,
            dropped_count: self.dropped_count as u32,
        }
    }

    /// Takes the next packet number; the counter wraps.
    pub fn next_packet_no(&mut self) -> (n: u64)
        ensures
            n == old(self).packet_counter,
            final(self).packet_counter == old(self).packet_counter.wrapping_add(1),
            final(self).metadata_buffer == old(self).metadata_buffer,
            final(self).marks == old(self).marks,
            final(self).raw_data_store == old(self).raw_data_store,
            final(self).is_capturing == old(self).is_capturing,
    {
        let n = self.packet_counter;
        self.packet_counter = self.packet_counter.wrapping_add(1);
        n
    }

    /// Removes the oldest packet without a mark and its bytes; the marked
    /// packets before it move to the back of the buffer.
    fn evict_oldest_unmarked(&mut self)
        requires
            first_unmarked(old(self).metadata_buffer@, old(self).marks@) >= 0,
        ensures
            final(self).metadata_buffer@ == evicted(old(self).metadata_buffer@, old(self).marks@),
            final(self).raw_data_store@ == old(self).raw_data_store@.remove(
                old(self).metadata_buffer@[first_unmarked(old(self).metadata_buffer@, old(self).marks@)].no,
            ),
            final(self).marks == old(self).marks,
            final(self).is_capturing == old(self).is_capturing,
            final(self).packet_counter == old(self).packet_counter,
            final(self).dropped_count == old(self).dropped_count,
            final(self).interface_name == old(self).interface_name,
    {
        let ghost b = self.metadata_buffer@;
        proof {
            lemma_first_unmarked(b, self.marks@);
        }
        let ghost k = first_unmarked(b, self.marks@);
        let mut i: usize = 0;
        while i < self.metadata_buffer.len()
            invariant
                i <= self.metadata_buffer@.len(),
                b == self.metadata_buffer@,
                0 <= k < b.len(),
                i <= k,
                self.marks == old(self).marks,
                !self.marks@.contains_key(b[k].no),
                forall|j: int| 0 <= j < k ==> self.marks@.contains_key(#[trigger] b[j].no),
            ensures
                i == k,
            decreases self.metadata_buffer.len() - i,
        {
            if !self.marks.contains_key(&self.metadata_buffer[i].no) {
                break;
            }
            i = i + 1;
        }
        let len = self.metadata_buffer.len();
        assert(i < len);
        let no = self.metadata_buffer[i].no;
        let mut rest: Vec<PacketMetadata> = Vec::new();
        let mut j: usize = i + 1;
        while j < self.metadata_buffer.len()
            invariant
                i < j <= self.metadata_buffer@.len(),
                b == self.metadata_buffer@,
                rest@ == b.subrange(i + 1, j as int),
            decreases self.metadata_buffer.len() - j,
        {
            rest.push(self.metadata_buffer[j].clone());
            j = j + 1;
            assert(rest@ =~= b.subrange(i + 1, j as int));
        }
        let mut q: usize = 0;
        while q < i
            invariant
                q <= i,
                i < b.len(),
                b == self.metadata_buffer@,
                rest@ == b.skip(i + 1) + b.take(q as int),
            decreases i - q,
        {
            rest.push(self.metadata_buffer[q].clone());
            q = q + 1;
            assert(rest@ =~= b.skip(i + 1) + b.take(q as int));
        }
        assert(b.subrange(i + 1, b.len() as int) =~= b.skip(i + 1));
        self.metadata_buffer = rest;
        self.raw_data_store.remove(&no);
    }

    /// Stores a packet's bytes, making room first when the buffer is full.
    pub fn store_raw_packet(&mut self, no: u64, raw: RawPacket)
        requires
            store_ok(old(self).metadata_buffer@, old(self).marks@),
        ensures
            (final(self).metadata_buffer@, final(self).raw_data_store@) == ({
                let s = stored(old(self).metadata_buffer@, old(self).raw_data_store@, old(self).marks@, no, raw.data);
                (s.0, s.1)
            }),
            final(self).marks == old(self).marks,
            final(self).packet_counter == old(self).packet_counter,
    {
        if self.metadata_buffer.len() >= MAX_METADATA_COUNT {
            self.evict_oldest_unmarked();
        }
        self.raw_data_store.insert(no, raw.data);
    }

    /// Stores an imported packet and its bytes, making room first when the
    /// buffer is full.
    pub fn store_imported_packet(&mut self, meta: PacketMetadata, raw: RawPacket)
        requires
            store_ok(old(self).metadata_buffer@, old(self).marks@),
        ensures
            ({
                let s = stored(old(self).metadata_buffer@, old(self).raw_data_store@, old(self).marks@, meta.no, raw.data);
                final(self).metadata_buffer@ == s.0.push(meta) && final(self).raw_data_store@ == s.1
            }),
            final(self).marks == old(self).marks,
            final(self).packet_counter == old(self).packet_counter,
    {
        if self.metadata_buffer.len() >= MAX_METADATA_COUNT {
            self.evict_oldest_unmarked();
        }
        self.raw_data_store.insert(meta.no, raw.data);
        self.metadata_buffer.push(meta);
    }

    /// Stores the packets the capture thread handed over, in order, and
    /// returns them; error events are skipped.
    pub fn drain_new_packets(&mut self, events: Vec<CaptureEvent>) -> (r: Vec<PacketMetadata>)
        requires
            drain_ok(old(self).metadata_buffer@, old(self).raw_data_store@, old(self).marks@, events@),
        ensures
            r@ == new_packets(events@),
            (final(self).metadata_buffer@, final(self).raw_data_store@) == drained(
                old(self).metadata_buffer@,
                old(self).raw_data_store@,
                old(self).marks@,
                events@,
            ),
            final(self).marks == old(self).marks,
            final(self).packet_counter == old(self).packet_counter,
    {
        let ghost evs = events@;
        let ghost b0 = self.metadata_buffer@;
        let ghost r0 = self.raw_data_store@;
        let mut out: Vec<PacketMetadata> = Vec::new();
        let mut events = events;
        let mut rev: Vec<CaptureEvent> = Vec::new();
        while events.len() > 0
            invariant
                evs == events@ + rev@.reverse(),
            decreases events.len(),
        {
            let ghost eb = events@;
            let ghost rb = rev@;
            let e = events.pop().unwrap();
            rev.push(e);
            assert(eb =~= events@.push(e));
            assert(rev@.reverse() =~= seq![e] + rb.reverse());
            assert(evs =~= events@ + rev@.reverse());
        }
        assert(evs =~= rev@.reverse());
        let ghost n: int = evs.len() as int;
        assert(evs.skip(0) =~= evs);
        assert(evs.take(0) =~= Seq::<CaptureEvent>::empty());
        while rev.len() > 0
            invariant
                rev@.len() <= n,
                n == evs.len(),
                rev@.reverse() == evs.skip(n - rev@.len()),
                drain_ok(b0, r0, self.marks@, evs),
                self.marks == old(self).marks,
                self.packet_counter == old(self).packet_counter,
                out@ == new_packets(evs.take(n - rev@.len())),
                (self.metadata_buffer@, self.raw_data_store@) == drained(b0, r0, self.marks@, evs.take(n - rev@.len())),
            decreases rev.len(),
        {
            let ghost i: int = n - rev@.len();
            let ghost rb = rev@;
            let e = rev.pop().unwrap();
            proof {
                assert(rb =~= rev@.push(e));
                assert(rb.reverse()[0] == e);
                assert(evs.skip(i)[0] == evs[i]);
                assert(rev@.reverse() =~= rb.reverse().drop_first());
                assert(evs.skip(i + 1) =~= evs.skip(i).drop_first());
                assert(evs.take(i + 1).drop_last() =~= evs.take(i));
                assert(evs.take(i + 1).last() == e);
                lemma_drain_ok_prefix(b0, r0, self.marks@, evs, i + 1);
            }
            match e {
                CaptureEvent::NewPacket(meta, raw_data) => {
                    if self.metadata_buffer.len() >= MAX_METADATA_COUNT {
                        self.evict_oldest_unmarked();
                    }
                    self.raw_data_store.insert(meta.no, raw_data);
                    self.metadata_buffer.push(meta.clone());
                    out.push(meta);
                },
                CaptureEvent::Error(_) => {},
            }
        }
        assert(evs.take(n as int) =~= evs);
        out
    }

    /// The first packet of the number in the buffer.
    pub fn get_metadata(&self, no: u64) -> (r: Option<PacketMetadata>)
        ensures
            r == first_meta(self.metadata_buffer@, no),
    {
        let ghost b = self.metadata_buffer@;
        let mut i: usize = 0;
        assert(b.take(0) =~= Seq::<PacketMetadata>::empty());
        while i < self.metadata_buffer.len()
            invariant
                i <= b.len(),
                b == self.metadata_buffer@,
                first_meta(b.take(i as int), no) is None,
            decreases self.metadata_buffer.len() - i,
        {
            assert(b.take(i + 1).drop_last() =~= b.take(i as int));
            assert(b.take(i + 1).last() == b[i as int]);
            if self.metadata_buffer[i].no == no {
                let m = self.metadata_buffer[i].clone();
                proof {
                    lemma_first_meta_prefix(b, no, i + 1, b.len() as int);
                    assert(b.take(b.len() as int) =~= b);
                }
                return Some(m);
            }
            i = i + 1;
        }
        assert(b.take(i as int) =~= b);
        None
    }

    /// The packets in the buffer, in order.
    pub fn get_all_metadata(&self) -> (r: Vec<PacketMetadata>)
        ensures
            r@ == self.metadata_buffer@,
    {
        let mut r: Vec<PacketMetadata> = Vec::new();
        let mut i: usize = 0;
        while i < self.metadata_buffer.len()
            invariant
                i <= self.metadata_buffer@.len(),
                r@ == self.metadata_buffer@.take(i as int),
            decreases self.metadata_buffer.len() - i,
        {
            r.push(self.metadata_buffer[i].clone());
            i = i + 1;
            assert(r@ =~= self.metadata_buffer@.take(i as int));
        }
        assert(self.metadata_buffer@.take(i as int) =~= self.metadata_buffer@);
        r
    }

    /// The bytes of the packet of the number.
    pub fn get_raw_data(&self, no: u64) -> (r: Option<Vec<u8>>)
        ensures
            match r {
                Some(d) => self.raw_data_store@.contains_key(no) && d@ == self.raw_data_store@[no]@,
                None => !self.raw_data_store@.contains_key(no),
            },
    {
        match self.raw_data_store.get(&no) {
            Some(d) => {
                let mut c: Vec<u8> = Vec::new();
                let mut i: usize = 0;
                while i < d.len()
                    invariant
                        i <= d@.len(),
                        c@ == d@.take(i as int),
                    decreases d.len() - i,
                {
                    c.push(d[i]);
                    i = i + 1;
                    assert(c@ =~= d@.take(i as int));
                }
                assert(d@.take(i as int) =~= d@);
                Some(c)
            },
            None => None,
        }
    }

    /// The engine after marking packet `packet_no` with `level` and
    /// `comment`: refused, with nothing changed, when the marks are full and
    /// the packet has none; otherwise the packet's mark is added or replaced,
    /// its comment cut to its first characters, other marks and every other
    /// field staying as they were.
    pub open spec fn mark_set(pre: Self, post: Self, packet_no: u64, level: MarkLevel, comment: Seq<char>) -> bool {
        if pre.marks@.len() >= MAX_MARK_COUNT && !pre.marks@.contains_key(packet_no) {
            post == pre
        } else {
            &&& post == (CaptureEngine { marks: post.marks, ..pre })
            &&& post.marks@.dom() == pre.marks@.dom().insert(packet_no)
            &&& forall|k: u64|
                k != packet_no && pre.marks@.contains_key(k) ==> #[trigger] post.marks@[k] == pre.marks@[k]
            &&& post.marks@[packet_no].packet_no == packet_no
            &&& post.marks@[packet_no].level == level
            &&& post.marks@[packet_no].comment@ == kept_comment(comment)
        }
    }

    /// Marks a packet at `now`, in place of any mark it had; the comment
    /// keeps its first characters. Refused when the marks are full and the
    /// packet has none.
    pub fn set_mark_at(&mut self, packet_no: u64, level: MarkLevel, comment: String, now: u64) -> (r: Result<
        (),
        String,
    >)
        ensures
            r is Err <==> old(self).marks@.len() >= MAX_MARK_COUNT && !old(self).marks@.contains_key(packet_no),
            r matches Err(m) ==> m@ == "标记数量已达上限，请清理旧标记"@ && final(self).marks == old(self).marks,
            r is Ok ==> final(self).marks@.dom() == old(self).marks@.dom().insert(packet_no) && (forall|k: u64|
                k != packet_no && old(self).marks@.contains_key(k) ==> #[trigger] final(self).marks@[k] == old(
                    self,
                ).marks@[k]) && final(self).marks@[packet_no].packet_no == packet_no
                && final(self).marks@[packet_no].level == level && final(self).marks@[packet_no].created_at == now
                && final(self).marks@[packet_no].comment@ == kept_comment(comment@),
            final(self).metadata_buffer == old(self).metadata_buffer,
            final(self).raw_data_store == old(self).raw_data_store,
            final(self).packet_counter == old(self).packet_counter,
            final(self).is_capturing == old(self).is_capturing,
            Self::mark_set(*old(self), *final(self), packet_no, level, comment@),
    {
        if self.marks.len() >= MAX_MARK_COUNT && !self.marks.contains_key(&packet_no) {
            return Err(String::from_str("标记数量已达上限，请清理旧标记"));
        }
        let n = comment.unicode_len();
        let kept = if n > MAX_COMMENT_CHARS {
            String::from_str(comment.as_str().substring_char(0, MAX_COMMENT_CHARS))
        } else {
            comment
        };
        let mark = PacketMark { packet_no, level, comment: kept, created_at: now };
        self.marks.insert(packet_no, mark);
        Ok(())
    }

    /// Marks a packet now (see `set_mark_at`).
    pub fn set_mark(&mut self, packet_no: u64, level: MarkLevel, comment: String) -> (r: Result<(), String>)
        ensures
            r is Err <==> old(self).marks@.len() >= MAX_MARK_COUNT && !old(self).marks@.contains_key(packet_no),
            r is Ok ==> final(self).marks@.dom() == old(self).marks@.dom().insert(packet_no)
                && final(self).marks@[packet_no].level == level
                && final(self).marks@[packet_no].comment@ == kept_comment(comment@),
            r is Err ==> final(self).marks == old(self).marks,
            final(self).metadata_buffer == old(self).metadata_buffer,
            Self::mark_set(*old(self), *final(self), packet_no, level, comment@),
    {
        let now = SlidingWindowCounter::current_timestamp_secs();
        self.set_mark_at(packet_no, level, comment, now)
    }

    /// Takes the mark off a packet.
    pub fn remove_mark(&mut self, packet_no: u64) -> (r: Result<(), String>)
        ensures
            r is Ok,
            final(self).marks@ == old(self).marks@.remove(packet_no),
            final(self).metadata_buffer == old(self).metadata_buffer,
            final(self).raw_data_store == old(self).raw_data_store,
    {
        self.marks.remove(&packet_no);
        Ok(())
    }

    /// The mark of a packet.
    pub fn get_mark(&self, packet_no: u64) -> (r: Option<PacketMark>)
        ensures
            match r {
                Some(m) => self.marks@.contains_key(packet_no) && m == self.marks@[packet_no],
                None => !self.marks@.contains_key(packet_no),
            },
    {
        match self.marks.get(&packet_no) {
            Some(m) => Some(m.clone()),
            None => None,
        }
    }

    /// All marks, in no particular order.
    pub fn get_all_marks(&self) -> (r: Vec<PacketMark>)
        ensures
            r@.to_set() == self.marks@.values(),
            r@.len() == self.marks@.len(),
    {
        let ghost s = vstd::std_specs::hash::spec_values_iter(&self.marks).remaining();
        let mut r: Vec<PacketMark> = Vec::new();
        for m in it: self.marks.values()
            invariant
                it.seq() == s,
                r@ == s.take(it.index()).unref(),
        {
            r.push(m.clone());
            assert(r@ =~= s.take(it.index() + 1).unref());
        }
        assert(r@.len() == s.len());
        assert(s.take(s.len() as int) =~= s);
        r
    }

    /// The number of marks.
    pub fn mark_count(&self) -> (n: usize)
        ensures
            n == self.marks@.len(),
    {
        self.marks.len()
    }

    /// The packets of the buffer that have a mark, in order.
    pub fn get_marked_packets(&self) -> (r: Vec<PacketMetadata>)
        ensures
            r@ == self.metadata_buffer@.filter(marked_in(self.marks@)),
    {
        let ghost b = self.metadata_buffer@;
        let ghost f = marked_in(self.marks@);
        let mut r: Vec<PacketMetadata> = Vec::new();
        let mut i: usize = 0;
        assert(b.take(0) =~= Seq::<PacketMetadata>::empty());
        assert(b.take(0).filter(f) =~= Seq::<PacketMetadata>::empty()) by {
            reveal(Seq::filter);
        }
        while i < self.metadata_buffer.len()
            invariant
                i <= b.len(),
                b == self.metadata_buffer@,
                f == marked_in(self.marks@),
                r@ == b.take(i as int).filter(f),
            decreases self.metadata_buffer.len() - i,
        {
            proof {
                assert(b.take(i + 1).drop_last() =~= b.take(i as int));
                assert(b.take(i + 1).last() == b[i as int]);
            }
            let ghost rb = r@;
            let has = self.marks.contains_key(&self.metadata_buffer[i].no);
            assert(has == f(b[i as int]));
            if has {
                r.push(self.metadata_buffer[i].clone());
                assert(r@ == rb.push(b[i as int]));
            }
            assert(b.take(i + 1).filter(f) == if f(b[i as int]) {
                b.take(i as int).filter(f).push(b[i as int])
            } else {
                b.take(i as int).filter(f)
            }) by {
                reveal(Seq::filter);
            }
            assert(b.take(i + 1).filter(f) == if f(b[i as int]) {
                b.take(i as int).filter(f).push(b[i as int])
            } else {
                b.take(i as int).filter(f)
            });
            i = i + 1;
        }
        assert(b.take(i as int) =~= b);
        r
    }
}

proof fn lemma_drain_ok_prefix(
    b: Seq<PacketMetadata>,
    raw: Map<u64, Vec<u8>>,
    marks: Map<u64, PacketMark>,
    events: Seq<CaptureEvent>,
    k: int,
)
    requires
        0 <= k <= events.len(),
        drain_ok(b, raw, marks, events),
    ensures
        drain_ok(b, raw, marks, events.take(k)),
    decreases events.len() - k,
{
    if k < events.len() {
        lemma_drain_ok_prefix(b, raw, marks, events.drop_last(), k);
        assert(events.drop_last().take(k) =~= events.take(k));
    } else {
        assert(events.take(k) =~= events);
    }
}

} // verus!
