//! Reading packets from a classic PCAP file held in memory.
use vstd::prelude::*;
use byteorder::{ByteOrder, LittleEndian};
use crate::models::{raw_view, RawPacket};
use crate::pcap_io::export::{header_bytes, le16_bytes, le32_bytes, record_bytes, records_bytes, PCAP_MAGIC};
use crate::text::{hex_padded, push_hex_padded};

verus! {

/// The magic number of a file written with the other byte order.
pub const PCAP_MAGIC_SWAPPED: u32 = 0xd4c3b2a1;

/// The little-endian 32-bit value at `at`.
pub open spec fn le32_at(s: Seq<u8>, at: int) -> u32 {
    (s[at] as int + s[at + 1] as int * 256 + s[at + 2] as int * 65536 + s[at + 3] as int
        * 16777216) as u32
}

/// `x` with its four bytes in reverse order.
pub open spec fn byte_swap(x: u32) -> u32 {
    ((x % 256) as int * 16777216 + ((x / 256) % 256) as int * 65536 + ((x / 65536) % 256) as int
        * 256 + (x / 16777216) as int) as u32
}

/// Calls `LittleEndian::read_u32` on the four bytes at `at`.
#[verifier::external_body]
fn le_u32_read(buf: &Vec<u8>, at: usize) -> (r: u32)
    requires
        at + 4 <= buf@.len(),
    ensures
        r == le32_at(buf@, at as int),
{
    LittleEndian::read_u32(&buf[at..at + 4])
}

/// The value with its four bytes in reverse order.
fn swap_u32(x: u32) -> (r: u32)
    ensures
        r == byte_swap(x),
{
    let b0 = x % 256;
    let b1 = (x / 256) % 256;
    let b2 = (x / 65536) % 256;
    let b3 = x / 16777216;
    assert(b3 < 256) by (nonlinear_arith)
        requires
            b3 == x / 16777216,
    ;
    assert(b0 * 16777216 + b1 * 65536 + b2 * 256 + b3 <= u32::MAX) by (nonlinear_arith)
        requires
            b0 < 256,
            b1 < 256,
            b2 < 256,
            b3 < 256,
    ;
    b0 * 16777216 + b1 * 65536 + b2 * 256 + b3
}

/// What a read past the end of the input reports.
pub open spec fn eof_message() -> Seq<char> {
    "failed to fill whole buffer"@
}

pub open spec fn magic_message(m: u32) -> Seq<char> {
    "Invalid PCAP magic number: 0x"@ + hex_padded(m as nat, 8)
}

/// The outcome of reading one record at `pos`.
pub enum Step {
    /// Fewer than four bytes are left: no more packets.
    End,
    /// The record is cut short.
    Truncated,
    /// A packet (seconds, microseconds, data) and the position after it.
    Packet(u64, u32, Seq<u8>, int),
}

/// Reads the record at `pos`. Only the captured length is swapped for a file
/// of the other byte order; the times are taken as they are.
pub open spec fn next_record(d: Seq<u8>, pos: int, swap: bool) -> Step {
    if d.len() - pos < 4 {
        Step::End
    } else if d.len() - pos < 16 {
        Step::Truncated
    } else {
        let raw = le32_at(d, pos + 8);
        let n = if swap {
            byte_swap(raw)
        } else {
            raw
        };
        if d.len() - pos - 16 < n {
            Step::Truncated
        } else {
            Step::Packet(le32_at(d, pos) as u64, le32_at(d, pos + 4), d.subrange(pos + 16, pos + 16 + n), pos + 16 + n)
        }
    }
}

/// All packets from `pos` on, or `None` where a record is cut short.
pub open spec fn read_all_from(d: Seq<u8>, pos: int, swap: bool) -> Option<Seq<(u64, u32, Seq<u8>)>>
    decreases d.len() - pos,
{
    match next_record(d, pos, swap) {
        Step::End => Some(Seq::empty()),
        Step::Truncated => None,
        Step::Packet(s, u, data, next) => if next <= pos {
            None
        } else {
            match read_all_from(d, next, swap) {
                Some(rest) => Some(seq![(s, u, data)] + rest),
                None => None,
            }
        },
    }
}

/// Reads a PCAP file held in a byte buffer.
pub struct PcapReader {
    pub reader: Vec<u8>,
    pub pos: usize,
    pub swap_endian: bool,
    pub link_type: u32,
    pub snap_len: u32,
}

fn eof_error() -> (e: String)
    ensures
        e@ == eof_message(),
{
    String::from_str("failed to fill whole buffer")
}

impl PcapReader {
    pub open spec fn wf(&self) -> bool {
        self.pos <= self.reader@.len()
    }

    /// Reads the file header: the magic number says the byte order; the
    /// fourth and fifth words are taken as snapshot length and link type.
    pub fn new(reader: Vec<u8>) -> (r: Result<Self, String>)
        ensures
            match r {
                Ok(rd) => {
                    let m = le32_at(reader@, 0);
                    &&& reader@.len() >= 24
                    &&& (m == PCAP_MAGIC || m == PCAP_MAGIC_SWAPPED)
                    &&& rd.reader@ == reader@
                    &&& rd.pos == 24
                    &&& rd.wf()
                    &&& rd.swap_endian == (m == PCAP_MAGIC_SWAPPED)
                    &&& rd.snap_len == le32_at(reader@, 16)
                    &&& rd.link_type == le32_at(reader@, 20)
                },
                Err(e) => if reader@.len() < 4 {
                    e@ == eof_message()
                } else if le32_at(reader@, 0) != PCAP_MAGIC && le32_at(reader@, 0)
                    != PCAP_MAGIC_SWAPPED {
                    e@ == magic_message(le32_at(reader@, 0))
                } else {
                    reader@.len() < 24 && e@ == eof_message()
                },
            },
    {
        if reader.len() < 4 {
            return Err(eof_error());
        }
        let magic = le_u32_read(&reader, 0);
        let swap_endian = if magic == PCAP_MAGIC {
            false
        } else if magic == PCAP_MAGIC_SWAPPED {
            true
        } else {
            let mut msg = String::from_str("Invalid PCAP magic number: 0x");
            push_hex_padded(&mut msg, magic as u64, 8);
            return Err(msg);
        };
        if reader.len() < 24 {
            return Err(eof_error());
        }
        let snap_len = le_u32_read(&reader, 16);
        let link_type = le_u32_read(&reader, 20);
        Ok(PcapReader { reader, pos: 24, swap_endian, link_type, snap_len })
    }

    pub fn link_type(&self) -> (r: u32)
        ensures
            r == self.link_type,
    {
        self.link_type
    }

    /// Reads the next packet: `None` at the end of the input, an error where
    /// the record is cut short (the reader is then at the end).
    pub fn read_packet(&mut self) -> (r: Result<Option<RawPacket>, String>)
        requires
            old(self).wf(),
        ensures
            final(self).wf(),
            final(self).reader == old(self).reader,
            final(self).swap_endian == old(self).swap_endian,
            final(self).link_type == old(self).link_type,
            final(self).snap_len == old(self).snap_len,
            match next_record(old(self).reader@, old(self).pos as int, old(self).swap_endian) {
                Step::End => r == Ok::<Option<RawPacket>, String>(None) && final(self).pos == old(self).reader@.len(),
                Step::Truncated => r matches Err(e) && e@ == eof_message() && final(self).pos == old(self).reader@.len(),
                Step::Packet(s, u, data, next) => r matches Ok(Some(p)) && raw_view(p) == (s, u, data)
                    && final(self).pos == next,
            },
    {
        let n = self.reader.len();
        if n - self.pos < 4 {
            self.pos = n;
            return Ok(None);
        }
        if n - self.pos < 16 {
            self.pos = n;
            return Err(eof_error());
        }
        let ts_sec = le_u32_read(&self.reader, self.pos);
        let ts_usec = le_u32_read(&self.reader, self.pos + 4);
        let raw_len = le_u32_read(&self.reader, self.pos + 8);
        let incl_len = if self.swap_endian {
            swap_u32(raw_len)
        } else {
            raw_len
        };
        if ((n - self.pos - 16) as u64) < incl_len as u64 {
            self.pos = n;
            return Err(eof_error());
        }
        let start = self.pos + 16;
        let end = start + incl_len as usize;
        let mut data: Vec<u8> = Vec::new();
        let mut i: usize = start;
        while i < end
            invariant
                start <= i <= end <= self.reader@.len(),
                data@ == self.reader@.subrange(start as int, i as int),
            decreases end - i,
        {
            data.push(self.reader[i]);
            i = i + 1;
        }
        self.pos = end;
        Ok(Some(RawPacket { timestamp_secs: ts_sec as u64, timestamp_micros: ts_usec, data }))
    }

    /// Reads every remaining packet; an error where a record is cut short.
    pub fn read_all_packets(&mut self) -> (r: Result<Vec<RawPacket>, String>)
        requires
            old(self).wf(),
        ensures
            final(self).wf(),
            match r {
                Ok(v) => read_all_from(old(self).reader@, old(self).pos as int, old(self).swap_endian)
                    == Some(v@.map_values(|p: RawPacket| raw_view(p))),
                Err(e) => read_all_from(
                    old(self).reader@,
                    old(self).pos as int,
                    old(self).swap_endian,
                ) is None && e@ == eof_message(),
            },
    {
        let ghost d = self.reader@;
        let ghost start = self.pos as int;
        let mut packets: Vec<RawPacket> = Vec::new();
        loop
            invariant
                self.wf(),
                self.reader@ == d,
                d == old(self).reader@,
                start == old(self).pos,
                self.swap_endian == old(self).swap_endian,
                start <= self.pos,
                read_all_from(d, start, self.swap_endian) == match read_all_from(d, self.pos as int, self.swap_endian) {
                    Some(rest) => Some(packets@.map_values(|p: RawPacket| raw_view(p)) + rest),
                    None => None::<Seq<(u64, u32, Seq<u8>)>>,
                },
            decreases d.len() - self.pos,
        {
            let ghost before = self.pos as int;
            let ghost vs = packets@.map_values(|p: RawPacket| raw_view(p));
            match self.read_packet() {
                Ok(Some(p)) => {
                    proof {
                        assert(vs.push(raw_view(p)) =~= packets@.push(p).map_values(|p: RawPacket| raw_view(p)));
                        match read_all_from(d, self.pos as int, self.swap_endian) {
                            Some(rest) => {
                                assert(vs + (seq![raw_view(p)] + rest) =~= vs.push(raw_view(p)) + rest);
                            },
                            None => {},
                        }
                    }
                    packets.push(p);
                },
                Ok(None) => {
                    assert(next_record(d, before, self.swap_endian) is End);
                    assert(read_all_from(d, before, self.swap_endian) == Some(Seq::<(u64, u32, Seq<u8>)>::empty()));
                    assert(vs + Seq::<(u64, u32, Seq<u8>)>::empty() =~= vs);
                    return Ok(packets);
                },
                Err(e) => {
                    assert(next_record(d, before, self.swap_endian) is Truncated);
                    assert(read_all_from(d, before, self.swap_endian) is None);
                    return Err(e);
                },
            }
        }
    }
}

// ---------------------------------------------------------------------------
// What is written reads back

proof fn lemma_le32_value(n: u32)
    ensures
        ((n % 256) as u8) as int + ((n / 256) % 256) as u8 as int * 256 + ((n / 65536) % 256) as u8 as int
            * 65536 + (n / 16777216) as u8 as int * 16777216 == n,
{
    assert(((n % 256) as u8) as int + ((n / 256) % 256) as u8 as int * 256 + ((n / 65536) % 256) as u8 as int
        * 65536 + (n / 16777216) as u8 as int * 16777216 == n) by (bit_vector);
}

proof fn lemma_le32_at(pre: Seq<u8>, n: u32, rest: Seq<u8>)
    ensures
        le32_at(pre + le32_bytes(n) + rest, pre.len() as int) == n,
{
    let d = pre + le32_bytes(n) + rest;
    let k = pre.len() as int;
    assert(d[k] == le32_bytes(n)[0]);
    assert(d[k + 1] == le32_bytes(n)[1]);
    assert(d[k + 2] == le32_bytes(n)[2]);
    assert(d[k + 3] == le32_bytes(n)[3]);
    lemma_le32_value(n);
}

/// The view of a packet after a trip through a file: seconds kept to 32 bits.
pub open spec fn stored_view(p: RawPacket) -> (u64, u32, Seq<u8>) {
    ((p.timestamp_secs as u32) as u64, p.timestamp_micros, p.data@)
}

proof fn lemma_next_record(pre: Seq<u8>, p: RawPacket, rest: Seq<u8>)
    requires
        p.data@.len() <= u32::MAX,
    ensures
        next_record(pre + record_bytes(p) + rest, pre.len() as int, false) == Step::Packet(
            (p.timestamp_secs as u32) as u64,
            p.timestamp_micros,
            p.data@,
            pre.len() + record_bytes(p).len() as int,
        ),
        record_bytes(p).len() == 16 + p.data@.len(),
{
    let d = pre + record_bytes(p) + rest;
    let pos = pre.len() as int;
    let len = p.data@.len() as u32;
    let a = le32_bytes(p.timestamp_secs as u32);
    let b = le32_bytes(p.timestamp_micros);
    let c = le32_bytes(len);
    let tail = p.data@ + rest;
    assert(d =~= pre + a + (b + c + c + tail));
    lemma_le32_at(pre, p.timestamp_secs as u32, b + c + c + tail);
    assert(d =~= pre + a + b + (c + c + tail));
    lemma_le32_at(pre + a, p.timestamp_micros, c + c + tail);
    assert(d =~= pre + a + b + c + (c + tail));
    lemma_le32_at(pre + a + b, len, c + tail);
    assert(d.subrange(pos + 16, pos + 16 + len) =~= p.data@);
}

proof fn lemma_read_records(pre: Seq<u8>, ps: Seq<RawPacket>)
    requires
        forall|i: int| 0 <= i < ps.len() ==> (#[trigger] ps[i]).data@.len() <= u32::MAX,
    ensures
        read_all_from(pre + records_bytes(ps), pre.len() as int, false) == Some(
            ps.map_values(|p: RawPacket| stored_view(p)),
        ),
    decreases ps.len(),
{
    let d = pre + records_bytes(ps);
    if ps.len() == 0 {
        assert(d =~= pre);
        assert(ps.map_values(|p: RawPacket| stored_view(p)) =~= Seq::<(u64, u32, Seq<u8>)>::empty());
    } else {
        let p = ps[0];
        let tail = ps.drop_first();
        assert(ps[0].data@.len() <= u32::MAX);
        lemma_next_record(pre, p, records_bytes(tail));
        assert(pre + record_bytes(p) + records_bytes(tail) =~= d);
        let pre2 = pre + record_bytes(p);
        assert(pre2 + records_bytes(tail) =~= d);
        assert forall|i: int| 0 <= i < tail.len() implies (#[trigger] tail[i]).data@.len() <= u32::MAX by {
            assert(tail[i] == ps[i + 1]);
        }
        lemma_read_records(pre2, tail);
        assert(ps.map_values(|p: RawPacket| stored_view(p)) =~= seq![stored_view(p)] + tail.map_values(
            |p: RawPacket| stored_view(p),
        ));
    }
}

/// A buffer written by `PcapWriter::new` and `write_packets` is accepted by
/// `PcapReader::new` as a file in native byte order, and `read_all_packets`
/// gives back the packets written, in order, with their data and
/// microseconds, and their seconds kept to 32 bits.
pub proof fn lemma_pcap_roundtrip(ps: Seq<RawPacket>)
    requires
        forall|i: int| 0 <= i < ps.len() ==> (#[trigger] ps[i]).data@.len() <= u32::MAX,
    ensures
        ({
            let d = header_bytes() + records_bytes(ps);
            &&& d.len() >= 24
            &&& le32_at(d, 0) == PCAP_MAGIC
            &&& read_all_from(d, 24, false) == Some(ps.map_values(|p: RawPacket| stored_view(p)))
        }),
{
    let h = header_bytes();
    let d = h + records_bytes(ps);
    assert(h.len() == 24);
    lemma_le32_at(Seq::empty(), PCAP_MAGIC, h.skip(4) + records_bytes(ps));
    assert(Seq::<u8>::empty() + le32_bytes(PCAP_MAGIC) + (h.skip(4) + records_bytes(ps)) =~= d);
    lemma_read_records(h, ps);
}

} // verus!
