//! Writing packets in the classic PCAP format, little-endian.
use vstd::prelude::*;
use byteorder::{ByteOrder, LittleEndian};
use crate::models::RawPacket;

verus! {

pub const PCAP_MAGIC: u32 = 0xa1b2c3d4;
pub const PCAP_VERSION_MAJOR: u16 = 2;
pub const PCAP_VERSION_MINOR: u16 = 4;
pub const PCAP_LINK_TYPE_ETHERNET: u32 = 1;

/// The two bytes of `n`, least significant first.
pub open spec fn le16_bytes(n: u16) -> Seq<u8> {
    seq![(n % 256) as u8, (n / 256) as u8]
}

/// The four bytes of `n`, least significant first.
pub open spec fn le32_bytes(n: u32) -> Seq<u8> {
    seq![(n % 256) as u8, ((n / 256) % 256) as u8, ((n / 65536) % 256) as u8, (n / 16777216) as u8]
}

/// Calls `LittleEndian::write_u32` on a four-byte buffer and hands the buffer
/// back: the bytes of `n`, least significant first.
#[verifier::external_body]
pub(crate) fn le_u32_bytes(n: u32) -> (r: Vec<u8>)
    ensures
        r@ == le32_bytes(n),
{
    let mut b = [0u8; 4];
    LittleEndian::write_u32(&mut b, n);
    b.to_vec()
}

/// Calls `LittleEndian::write_u16` on a two-byte buffer and hands the buffer
/// back: the bytes of `n`, least significant first.
#[verifier::external_body]
pub(crate) fn le_u16_bytes(n: u16) -> (r: Vec<u8>)
    ensures
        r@ == le16_bytes(n),
{
    let mut b = [0u8; 2];
    LittleEndian::write_u16(&mut b, n);
    b.to_vec()
}

/// Calls `LittleEndian::write_i32` on a four-byte buffer and hands the buffer
/// back: the two's-complement bytes of `n`, least significant first.
#[verifier::external_body]
pub(crate) fn le_i32_bytes(n: i32) -> (r: Vec<u8>)
    ensures
        r@ == le32_bytes(n as u32),
{
    let mut b = [0u8; 4];
    LittleEndian::write_i32(&mut b, n);
    b.to_vec()
}

/// The file header: magic number, version 2.4, time-zone offset and accuracy
/// 0, then link type Ethernet and 65535, in that order.
pub open spec fn header_bytes() -> Seq<u8> {
    le32_bytes(PCAP_MAGIC) + le16_bytes(PCAP_VERSION_MAJOR) + le16_bytes(PCAP_VERSION_MINOR)
        + le32_bytes(0) + le32_bytes(0) + le32_bytes(PCAP_LINK_TYPE_ETHERNET) + le32_bytes(65535)
}

/// One packet record: seconds and microseconds, captured and original length
/// (both the length of the data, kept to 32 bits), then the data.
pub open spec fn record_bytes(p: RawPacket) -> Seq<u8> {
    le32_bytes(p.timestamp_secs as u32) + le32_bytes(p.timestamp_micros) + le32_bytes(
        p.data@.len() as u32,
    ) + le32_bytes(p.data@.len() as u32) + p.data@
}

/// The records of packets, one after the other.
pub open spec fn records_bytes(ps: Seq<RawPacket>) -> Seq<u8>
    decreases ps.len(),
{
    if ps.len() == 0 {
        Seq::empty()
    } else {
        record_bytes(ps[0]) + records_bytes(ps.drop_first())
    }
}

pub proof fn lemma_records_push(ps: Seq<RawPacket>, p: RawPacket)
    ensures
        records_bytes(ps.push(p)) == records_bytes(ps) + record_bytes(p),
    decreases ps.len(),
{
    if ps.len() == 0 {
        assert(ps.push(p).drop_first() =~= Seq::<RawPacket>::empty());
        assert(records_bytes(Seq::<RawPacket>::empty()) =~= Seq::<u8>::empty());
        assert(record_bytes(p) + Seq::<u8>::empty() =~= record_bytes(p));
    } else {
        assert(ps.push(p).drop_first() =~= ps.drop_first().push(p));
        lemma_records_push(ps.drop_first(), p);
        assert(record_bytes(ps[0]) + (records_bytes(ps.drop_first()) + record_bytes(p))
            =~= (record_bytes(ps[0]) + records_bytes(ps.drop_first())) + record_bytes(p));
    }
}

pub(crate) fn append_bytes(out: &mut Vec<u8>, b: &Vec<u8>)
    ensures
        final(out)@ == old(out)@ + b@,
{
    let mut i: usize = 0;
    while i < b.len()
        invariant
            i <= b@.len(),
            out@ == old(out)@ + b@.take(i as int),
        decreases b.len() - i,
    {
        out.push(b[i]);
        assert(old(out)@ + b@.take(i + 1) =~= (old(out)@ + b@.take(i as int)).push(b@[i as int]));
        i = i + 1;
    }
    assert(b@.take(i as int) =~= b@);
}

/// Writes a PCAP file into a byte buffer.
pub struct PcapWriter {
    pub writer: Vec<u8>,
}

impl PcapWriter {
    /// Starts a file in `writer` with the header.
    pub fn new(writer: Vec<u8>) -> (r: Self)
        ensures
            r.writer@ == writer@ + header_bytes(),
    {
        let mut w = writer;
        append_bytes(&mut w, &le_u32_bytes(PCAP_MAGIC));
        append_bytes(&mut w, &le_u16_bytes(PCAP_VERSION_MAJOR));
        append_bytes(&mut w, &le_u16_bytes(PCAP_VERSION_MINOR));
        append_bytes(&mut w, &le_i32_bytes(0));
        append_bytes(&mut w, &le_u32_bytes(0));
        append_bytes(&mut w, &le_u32_bytes(PCAP_LINK_TYPE_ETHERNET));
        append_bytes(&mut w, &le_u32_bytes(65535));
        assert(w@ =~= writer@ + header_bytes());
        PcapWriter { writer: w }
    }

    /// Appends the record of one packet.
    pub fn write_packet(&mut self, packet: &RawPacket)
        ensures
            final(self).writer@ == old(self).writer@ + record_bytes(*packet),
    {
        let len = packet.data.len() as u32;
        append_bytes(&mut self.writer, &le_u32_bytes(packet.timestamp_secs as u32));
        append_bytes(&mut self.writer, &le_u32_bytes(packet.timestamp_micros));
        append_bytes(&mut self.writer, &le_u32_bytes(len));
        append_bytes(&mut self.writer, &le_u32_bytes(len));
        append_bytes(&mut self.writer, &packet.data);
        assert(self.writer@ =~= old(self).writer@ + record_bytes(*packet));
    }

    /// Appends the records of packets, in order.
    pub fn write_packets(&mut self, packets: &[RawPacket])
        ensures
            final(self).writer@ == old(self).writer@ + records_bytes(packets@),
    {
        let mut i: usize = 0;
        assert(packets@.take(0) =~= Seq::<RawPacket>::empty());
        assert(old(self).writer@ + records_bytes(Seq::<RawPacket>::empty()) =~= old(self).writer@);
        while i < packets.len()
            invariant
                i <= packets@.len(),
                self.writer@ == old(self).writer@ + records_bytes(packets@.take(i as int)),
            decreases packets.len() - i,
        {
            self.write_packet(&packets[i]);
            proof {
                assert(packets@.take(i + 1) =~= packets@.take(i as int).push(packets@[i as int]));
                lemma_records_push(packets@.take(i as int), packets@[i as int]);
                assert(self.writer@ =~= old(self).writer@ + records_bytes(packets@.take(i + 1)));
            }
            i = i + 1;
        }
        assert(packets@.take(i as int) =~= packets@);
    }

    /// The bytes written.
    pub fn into_inner(self) -> (r: Vec<u8>)
        ensures
            r == self.writer,
    {
        self.writer
    }
}

} // verus!
