//! Running traffic statistics and their snapshot.
use vstd::prelude::*;
use crate::models::{PacketMetadata, ProtocolType, StatsSnapshot};
use crate::text::{contains_str, occurs_in, same_text};

verus! {

/// Width of a timeline bucket, in seconds.
pub const TIMELINE_WINDOW_SECS: u64 = 1;

/// Packets and bytes of one timeline bucket.
#[derive(Debug, Default)]
pub struct TimelineEntry {
    pub packets: u64,
    pub bytes: u64,
}

// ---------------------------------------------------------------------------
// Tallies: lists of (key, count) with each key once, in order of first use

/// The total counted under key `k`.
pub open spec fn tally<K>(s: Seq<(K, u64)>, k: K) -> int
    decreases s.len(),
{
    if s.len() == 0 {
        0
    } else {
        tally(s.drop_last(), k) + if s.last().0 == k {
            s.last().1 as int
        } else {
            0
        }
    }
}

/// The total counted under a text key.
pub open spec fn text_tally(s: Seq<(String, u64)>, k: Seq<char>) -> int
    decreases s.len(),
{
    if s.len() == 0 {
        0
    } else {
        text_tally(s.drop_last(), k) + if s.last().0@ == k {
            s.last().1 as int
        } else {
            0
        }
    }
}

pub open spec fn text_keys_unique(s: Seq<(String, u64)>) -> bool {
    forall|i: int, j: int| 0 <= i < j < s.len() ==> (#[trigger] s[i]).0@ != (#[trigger] s[j]).0@
}

pub open spec fn keys_unique<K>(s: Seq<(K, u64)>) -> bool {
    forall|i: int, j: int| 0 <= i < j < s.len() ==> (#[trigger] s[i]).0 != (#[trigger] s[j]).0
}

/// Every count is at least one.
pub open spec fn all_positive<K>(s: Seq<(K, u64)>) -> bool {
    forall|i: int| 0 <= i < s.len() ==> (#[trigger] s[i]).1 >= 1
}

pub open spec fn all_at_most<K>(s: Seq<(K, u64)>, bound: int) -> bool {
    forall|i: int| 0 <= i < s.len() ==> (#[trigger] s[i]).1 <= bound
}

/// The sum of all counts of a tally.
pub open spec fn total_of<K>(s: Seq<(K, u64)>) -> int
    decreases s.len(),
{
    if s.len() == 0 {
        0
    } else {
        total_of(s.drop_last()) + s.last().1
    }
}

proof fn lemma_total_update<K>(s: Seq<(K, u64)>, i: int, e: (K, u64))
    requires
        0 <= i < s.len(),
    ensures
        total_of(s.update(i, e)) == total_of(s) - s[i].1 + e.1,
    decreases s.len(),
{
    let t = s.update(i, e);
    if i < s.len() - 1 {
        assert(t.drop_last() =~= s.drop_last().update(i, e));
        lemma_total_update(s.drop_last(), i, e);
    } else {
        assert(t.drop_last() =~= s.drop_last());
    }
}

proof fn lemma_total_insert<K>(s: Seq<(K, u64)>, i: int, e: (K, u64))
    requires
        0 <= i <= s.len(),
    ensures
        total_of(s.insert(i, e)) == total_of(s) + e.1,
    decreases s.len(),
{
    if i < s.len() {
        assert(s.insert(i, e).drop_last() =~= s.drop_last().insert(i, e));
        lemma_total_insert(s.drop_last(), i, e);
    } else {
        assert(s.insert(i, e).drop_last() =~= s);
    }
}

proof fn lemma_total_push<K>(s: Seq<(K, u64)>, e: (K, u64))
    ensures
        total_of(s.push(e)) == total_of(s) + e.1,
{
    assert(s.push(e).drop_last() =~= s);
}

proof fn lemma_tally_update<K>(s: Seq<(K, u64)>, i: int, v: u64, k: K)
    requires
        0 <= i < s.len(),
    ensures
        tally(s.update(i, (s[i].0, v)), k) == tally(s, k) + if s[i].0 == k {
            v - s[i].1
        } else {
            0
        },
    decreases s.len(),
{
    let t = s.update(i, (s[i].0, v));
    if i < s.len() - 1 {
        assert(t.drop_last() =~= s.drop_last().update(i, (s[i].0, v)));
        lemma_tally_update(s.drop_last(), i, v, k);
    } else {
        assert(t.drop_last() =~= s.drop_last());
    }
}

proof fn lemma_text_tally_update(s: Seq<(String, u64)>, i: int, v: u64, k: Seq<char>)
    requires
        0 <= i < s.len(),
    ensures
        text_tally(s.update(i, (s[i].0, v)), k) == text_tally(s, k) + if s[i].0@ == k {
            v - s[i].1
        } else {
            0
        },
    decreases s.len(),
{
    let t = s.update(i, (s[i].0, v));
    if i < s.len() - 1 {
        assert(t.drop_last() =~= s.drop_last().update(i, (s[i].0, v)));
        lemma_text_tally_update(s.drop_last(), i, v, k);
    } else {
        assert(t.drop_last() =~= s.drop_last());
    }
}

proof fn lemma_text_tally_absent(s: Seq<(String, u64)>, k: Seq<char>)
    requires
        forall|i: int| 0 <= i < s.len() ==> (#[trigger] s[i]).0@ != k,
    ensures
        text_tally(s, k) == 0,
    decreases s.len(),
{
    if s.len() > 0 {
        lemma_text_tally_absent(s.drop_last(), k);
    }
}

proof fn lemma_tally_absent<K>(s: Seq<(K, u64)>, k: K)
    requires
        forall|i: int| 0 <= i < s.len() ==> (#[trigger] s[i]).0 != k,
    ensures
        tally(s, k) == 0,
    decreases s.len(),
{
    if s.len() > 0 {
        lemma_tally_absent(s.drop_last(), k);
    }
}

/// Adds `by` to the count of a text key, appending the key if it is new.
fn bump_text(s: &mut Vec<(String, u64)>, key: &str, by: u64, Ghost(bound): Ghost<int>)
    requires
        text_keys_unique(old(s)@),
        all_at_most(old(s)@, bound),
        bound + by <= u64::MAX,
        by <= bound + by,
    ensures
        text_keys_unique(final(s)@),
        all_at_most(final(s)@, bound + by),
        forall|k: Seq<char>| #[trigger]
            text_tally(final(s)@, k) == text_tally(old(s)@, k) + if k == key@ {
                by as int
            } else {
                0
            },
        total_of(final(s)@) == total_of(old(s)@) + by,
        by >= 1 && all_positive(old(s)@) ==> all_positive(final(s)@),
{
    let mut i: usize = 0;
    while i < s.len()
        invariant
            i <= s@.len(),
            s@ == old(s)@,
            text_keys_unique(s@),
            all_at_most(s@, bound),
            bound + by <= u64::MAX,
            forall|j: int| 0 <= j < i ==> (#[trigger] s@[j]).0@ != key@,
        decreases s.len() - i,
    {
        if same_text(s[i].0.as_str(), key) {
            let ghost before = s@;
            let name = s[i].0.clone();
            let v = s[i].1 + by;
            s.set(i, (name, v));
            proof {
                assert(before[i as int].1 <= bound);
                assert(s@ =~= before.update(i as int, (before[i as int].0, v)));
                lemma_total_update(before, i as int, (before[i as int].0, v));
                assert forall|k: Seq<char>| #[trigger]
                    text_tally(s@, k) == text_tally(before, k) + if k == key@ {
                        by as int
                    } else {
                        0
                    } by {
                    lemma_text_tally_update(before, i as int, v, k);
                }
                assert forall|a: int, b: int| 0 <= a < b < s@.len() implies (#[trigger] s@[a]).0@
                    != (#[trigger] s@[b]).0@ by {
                    assert(s@[a].0 == before[a].0);
                    assert(s@[b].0 == before[b].0);
                }
            }
            return;
        }
        i = i + 1;
    }
    let ghost before = s@;
    s.push((String::from_str(key), by));
    proof {
        assert(s@.drop_last() =~= before);
        lemma_total_push(before, s@.last());
        assert forall|k: Seq<char>| #[trigger]
            text_tally(s@, k) == text_tally(before, k) + if k == key@ {
                by as int
            } else {
                0
            } by {}
        assert forall|a: int, b: int| 0 <= a < b < s@.len() implies (#[trigger] s@[a]).0@
            != (#[trigger] s@[b]).0@ by {
            assert(s@[a] == before[a]);
            if b < before.len() {
                assert(s@[b] == before[b]);
            }
        }
    }
}

/// Adds `by` to the count of a port, appending the port if it is new.
fn bump_port(s: &mut Vec<(u16, u64)>, key: u16, by: u64, Ghost(bound): Ghost<int>)
    requires
        keys_unique(old(s)@),
        all_at_most(old(s)@, bound),
        bound + by <= u64::MAX,
        0 <= bound,
    ensures
        keys_unique(final(s)@),
        all_at_most(final(s)@, bound + by),
        forall|k: u16| #[trigger]
            tally(final(s)@, k) == tally(old(s)@, k) + if k == key {
                by as int
            } else {
                0
            },
{
    let mut i: usize = 0;
    while i < s.len()
        invariant
            i <= s@.len(),
            s@ == old(s)@,
            keys_unique(s@),
            all_at_most(s@, bound),
            bound + by <= u64::MAX,
            forall|j: int| 0 <= j < i ==> (#[trigger] s@[j]).0 != key,
        decreases s.len() - i,
    {
        if s[i].0 == key {
            let ghost before = s@;
            let v = s[i].1 + by;
            s.set(i, (key, v));
            proof {
                assert(s@ =~= before.update(i as int, (before[i as int].0, v)));
                assert forall|k: u16| #[trigger]
                    tally(s@, k) == tally(before, k) + if k == key {
                        by as int
                    } else {
                        0
                    } by {
                    lemma_tally_update(before, i as int, v, k);
                }
                assert forall|a: int, b: int| 0 <= a < b < s@.len() implies (#[trigger] s@[a]).0
                    != (#[trigger] s@[b]).0 by {
                    assert(s@[a].0 == before[a].0);
                    assert(s@[b].0 == before[b].0);
                }
            }
            return;
        }
        i = i + 1;
    }
    let ghost before = s@;
    s.push((key, by));
    proof {
        assert(s@.drop_last() =~= before);
        assert forall|a: int, b: int| 0 <= a < b < s@.len() implies (#[trigger] s@[a]).0
            != (#[trigger] s@[b]).0 by {
            assert(s@[a] == before[a]);
            if b < before.len() {
                assert(s@[b] == before[b]);
            }
        }
    }
}

// ---------------------------------------------------------------------------
// The timeline: one entry per bucket, ascending by bucket

pub open spec fn buckets_ascending(s: Seq<(u64, TimelineEntry)>) -> bool {
    forall|i: int, j: int| 0 <= i < j < s.len() ==> (#[trigger] s[i]).0 < (#[trigger] s[j]).0
}

pub open spec fn bucket_packets(s: Seq<(u64, TimelineEntry)>) -> Seq<(u64, u64)> {
    s.map_values(|e: (u64, TimelineEntry)| (e.0, e.1.packets))
}

pub open spec fn bucket_bytes(s: Seq<(u64, TimelineEntry)>) -> Seq<(u64, u64)> {
    s.map_values(|e: (u64, TimelineEntry)| (e.0, e.1.bytes))
}

pub open spec fn timeline_bounded(s: Seq<(u64, TimelineEntry)>, packets: int, bytes: int) -> bool {
    forall|i: int|
        0 <= i < s.len() ==> (#[trigger] s[i]).1.packets <= packets && s[i].1.bytes <= bytes
}

proof fn lemma_tally_insert<K>(s: Seq<(K, u64)>, i: int, e: (K, u64), k: K)
    requires
        0 <= i <= s.len(),
    ensures
        tally(s.insert(i, e), k) == tally(s, k) + if e.0 == k {
            e.1 as int
        } else {
            0
        },
    decreases s.len(),
{
    if i < s.len() {
        assert(s.insert(i, e).drop_last() =~= s.drop_last().insert(i, e));
        lemma_tally_insert(s.drop_last(), i, e, k);
    } else {
        assert(s.insert(i, e).drop_last() =~= s);
    }
}

/// Adds one packet of `len` bytes to the bucket `b`, creating the bucket in
/// its place if it is new.
fn bump_bucket(s: &mut Vec<(u64, TimelineEntry)>, b: u64, len: u64, Ghost(packets): Ghost<int>, Ghost(bytes): Ghost<int>)
    requires
        buckets_ascending(old(s)@),
        timeline_bounded(old(s)@, packets, bytes),
        packets + 1 <= u64::MAX,
        bytes + len <= u64::MAX,
        0 <= packets,
        0 <= bytes,
    ensures
        buckets_ascending(final(s)@),
        timeline_bounded(final(s)@, packets + 1, bytes + len),
        forall|k: u64| #[trigger]
            tally(bucket_packets(final(s)@), k) == tally(bucket_packets(old(s)@), k) + if k == b {
                1int
            } else {
                0
            },
        forall|k: u64| #[trigger]
            tally(bucket_bytes(final(s)@), k) == tally(bucket_bytes(old(s)@), k) + if k == b {
                len as int
            } else {
                0
            },
        total_of(bucket_packets(final(s)@)) == total_of(bucket_packets(old(s)@)) + 1,
        total_of(bucket_bytes(final(s)@)) == total_of(bucket_bytes(old(s)@)) + len,
{
    let ghost before = s@;
    let mut i: usize = 0;
    while i < s.len() && s[i].0 < b
        invariant
            i <= s@.len(),
            s@ == before,
            forall|j: int| 0 <= j < i ==> (#[trigger] s@[j]).0 < b,
        decreases s.len() - i,
    {
        i = i + 1;
    }
    if i < s.len() && s[i].0 == b {
        let p = s[i].1.packets + 1;
        let y = s[i].1.bytes + len;
        s.set(i, (b, TimelineEntry { packets: p, bytes: y }));
        proof {
            assert(bucket_packets(s@) =~= bucket_packets(before).update(i as int, (b, p)));
            assert(bucket_bytes(s@) =~= bucket_bytes(before).update(i as int, (b, y)));
            lemma_total_update(bucket_packets(before), i as int, (b, p));
            lemma_total_update(bucket_bytes(before), i as int, (b, y));
            assert forall|k: u64| #[trigger]
                tally(bucket_packets(s@), k) == tally(bucket_packets(before), k) + if k == b {
                    1int
                } else {
                    0
                } by {
                lemma_tally_update(bucket_packets(before), i as int, p, k);
            }
            assert forall|k: u64| #[trigger]
                tally(bucket_bytes(s@), k) == tally(bucket_bytes(before), k) + if k == b {
                    len as int
                } else {
                    0
                } by {
                lemma_tally_update(bucket_bytes(before), i as int, y, k);
            }
            assert forall|a: int, c: int| 0 <= a < c < s@.len() implies (#[trigger] s@[a]).0
                < (#[trigger] s@[c]).0 by {
                assert(s@[a].0 == before[a].0);
                assert(s@[c].0 == before[c].0);
            }
        }
    } else {
        s.insert(i, (b, TimelineEntry { packets: 1, bytes: len }));
        proof {
            assert(bucket_packets(s@) =~= bucket_packets(before).insert(i as int, (b, 1u64)));
            assert(bucket_bytes(s@) =~= bucket_bytes(before).insert(i as int, (b, len)));
            lemma_total_insert(bucket_packets(before), i as int, (b, 1u64));
            lemma_total_insert(bucket_bytes(before), i as int, (b, len));
            assert forall|k: u64| #[trigger]
                tally(bucket_packets(s@), k) == tally(bucket_packets(before), k) + if k == b {
                    1int
                } else {
                    0
                } by {
                lemma_tally_insert(bucket_packets(before), i as int, (b, 1u64), k);
            }
            assert forall|k: u64| #[trigger]
                tally(bucket_bytes(s@), k) == tally(bucket_bytes(before), k) + if k == b {
                    len as int
                } else {
                    0
                } by {
                lemma_tally_insert(bucket_bytes(before), i as int, (b, len), k);
            }
            assert forall|a: int, c: int| 0 <= a < c < s@.len() implies (#[trigger] s@[a]).0
                < (#[trigger] s@[c]).0 by {
                if c < i {
                    assert(s@[a] == before[a]);
                    assert(s@[c] == before[c]);
                } else if c == i {
                    assert(s@[a] == before[a]);
                } else if a < i {
                    assert(s@[a] == before[a]);
                    assert(s@[c] == before[c - 1]);
                } else if a == i {
                    assert(s@[c] == before[c - 1]);
                } else {
                    assert(s@[a] == before[a - 1]);
                    assert(s@[c] == before[c - 1]);
                }
            }
        }
    }
}

// ---------------------------------------------------------------------------
// Ordering by count, largest first; equal counts keep their order

pub open spec fn insert_desc<K>(s: Seq<(K, u64)>, x: (K, u64)) -> Seq<(K, u64)>
    decreases s.len(),
{
    if s.len() == 0 {
        seq![x]
    } else if s[0].1 < x.1 {
        seq![x] + s
    } else {
        seq![s[0]] + insert_desc(s.drop_first(), x)
    }
}

/// The stable sort of a tally by count, largest first.
pub open spec fn sort_desc<K>(s: Seq<(K, u64)>) -> Seq<(K, u64)>
    decreases s.len(),
{
    if s.len() == 0 {
        Seq::empty()
    } else {
        insert_desc(sort_desc(s.drop_last()), s.last())
    }
}

/// The first ten entries, or all of them where there are fewer.
pub open spec fn top10<K>(s: Seq<(K, u64)>) -> Seq<(K, u64)> {
    if s.len() > 10 {
        s.take(10)
    } else {
        s
    }
}

proof fn lemma_insert_desc_at<K>(s: Seq<(K, u64)>, j: int, x: (K, u64))
    requires
        0 <= j <= s.len(),
        forall|m: int| 0 <= m < j ==> (#[trigger] s[m]).1 >= x.1,
        j < s.len() ==> s[j].1 < x.1,
    ensures
        insert_desc(s, x) == s.insert(j, x),
    decreases j,
{
    if j == 0 {
        assert(seq![x] + s =~= s.insert(0, x));
        if s.len() == 0 {
            assert(seq![x] =~= s.insert(0, x));
        }
    } else {
        let t = s.drop_first();
        assert forall|m: int| 0 <= m < j - 1 implies (#[trigger] t[m]).1 >= x.1 by {
            assert(t[m] == s[m + 1]);
        }
        if j - 1 < t.len() {
            assert(t[j - 1] == s[j]);
        }
        lemma_insert_desc_at(t, j - 1, x);
        assert(seq![s[0]] + t.insert(j - 1, x) =~= s.insert(j, x));
    }
}

/// Sorts a tally by count, largest first; equal counts keep their order.
fn sort_by_count_desc<K>(v: Vec<(K, u64)>) -> (r: Vec<(K, u64)>)
    ensures
        r@ == sort_desc(v@),
{
    let ghost orig = v@;
    let total = v.len();
    let mut rest = v;
    let mut out: Vec<(K, u64)> = Vec::new();
    let mut i: usize = 0;
    assert(orig.take(0) =~= Seq::<(K, u64)>::empty());
    assert(orig.skip(0) =~= orig);
    while rest.len() > 0
        invariant
            i <= orig.len(),
            orig.len() == total,
            rest@ == orig.skip(i as int),
            out@ == sort_desc(orig.take(i as int)),
        decreases rest.len(),
    {
        let x = rest.remove(0);
        let mut j: usize = 0;
        while j < out.len() && out[j].1 >= x.1
            invariant
                j <= out@.len(),
                forall|m: int| 0 <= m < j ==> (#[trigger] out@[m]).1 >= x.1,
            decreases out.len() - j,
        {
            j = j + 1;
        }
        proof {
            lemma_insert_desc_at(out@, j as int, x);
            assert(orig.take(i + 1).drop_last() =~= orig.take(i as int));
            assert(orig[i as int] == x);
            assert(rest@ =~= orig.skip(i + 1));
        }
        out.insert(j, x);
        i = i + 1;
    }
    assert(orig.take(i as int) =~= orig);
    out
}

fn truncate_to_ten<K>(v: &mut Vec<(K, u64)>)
    ensures
        final(v)@ == top10(old(v)@),
{
    if v.len() > 10 {
        v.truncate(10);
    }
}

fn copy_text_tally(s: &Vec<(String, u64)>) -> (r: Vec<(String, u64)>)
    ensures
        r@ == s@,
{
    let mut r: Vec<(String, u64)> = Vec::new();
    let mut i: usize = 0;
    while i < s.len()
        invariant
            i <= s@.len(),
            r@ == s@.take(i as int),
        decreases s.len() - i,
    {
        r.push((s[i].0.clone(), s[i].1));
        assert(r@ =~= s@.take(i + 1));
        i = i + 1;
    }
    assert(s@.take(i as int) =~= s@);
    r
}

// ---------------------------------------------------------------------------
// The collector

/// The TCP state that a packet summary suggests.
pub open spec fn tcp_state_of(summary: Seq<char>) -> Seq<char> {
    let syn = occurs_in(summary, "SYN"@);
    let ack = occurs_in(summary, "ACK"@);
    if syn && !ack {
        "SYN_SENT"@
    } else if syn && ack {
        "SYN_RECEIVED"@
    } else if occurs_in(summary, "FIN"@) {
        "FIN_WAIT"@
    } else if occurs_in(summary, "RST"@) {
        "RESET"@
    } else if ack {
        "ESTABLISHED"@
    } else {
        "OTHER"@
    }
}

fn tcp_state_name(summary: &str) -> (s: &'static str)
    ensures
        s@ == tcp_state_of(summary@),
{
    let syn = contains_str(summary, "SYN");
    let ack = contains_str(summary, "ACK");
    if syn && !ack {
        "SYN_SENT"
    } else if syn && ack {
        "SYN_RECEIVED"
    } else if contains_str(summary, "FIN") {
        "FIN_WAIT"
    } else if contains_str(summary, "RST") {
        "RESET"
    } else if ack {
        "ESTABLISHED"
    } else {
        "OTHER"
    }
}

pub open spec fn port_hits(m: PacketMetadata, p: u16) -> int {
    (if m.src_port == Some(p) {
        1int
    } else {
        0
    }) + (if m.dst_port == Some(p) {
        1int
    } else {
        0
    })
}

/// The statistics after one more packet: the totals grow by one packet and
/// its length, the start time is the first packet's, and every tally grows
/// under the packet's own keys.
pub open spec fn recorded(pre: StatsCollector, post: StatsCollector, meta: PacketMetadata) -> bool {
    &&& post.start_time == (if pre.start_time is None {
        Some(meta.timestamp_secs)
    } else {
        pre.start_time
    })
    &&& post.total_packets == pre.total_packets + 1
    &&& post.total_bytes == pre.total_bytes + meta.length
    &&& total_of(post.protocol_counts@) == total_of(pre.protocol_counts@) + 1
    &&& total_of(post.protocol_bytes@) == total_of(pre.protocol_bytes@) + meta.length
    &&& total_of(bucket_packets(post.timeline@)) == total_of(bucket_packets(pre.timeline@)) + 1
    &&& total_of(bucket_bytes(post.timeline@)) == total_of(bucket_bytes(pre.timeline@)) + meta.length
    &&& total_of(post.tcp_states@) == total_of(pre.tcp_states@) + one_if(meta.protocol == ProtocolType::TCP)
    &&& forall|k: Seq<char>| #[trigger]
        text_tally(post.protocol_counts@, k) == text_tally(
            pre.protocol_counts@,
            k,
        ) + if k == meta.protocol.name_of() {
            1int
        } else {
            0
        }
    &&& forall|k: Seq<char>| #[trigger]
        text_tally(post.protocol_bytes@, k) == text_tally(
            pre.protocol_bytes@,
            k,
        ) + if k == meta.protocol.name_of() {
            meta.length as int
        } else {
            0
        }
    &&& forall|k: u64| #[trigger]
        tally(bucket_packets(post.timeline@), k) == tally(
            bucket_packets(pre.timeline@),
            k,
        ) + if k == meta.timestamp_secs / TIMELINE_WINDOW_SECS {
            1int
        } else {
            0
        }
    &&& forall|k: u64| #[trigger]
        tally(bucket_bytes(post.timeline@), k) == tally(
            bucket_bytes(pre.timeline@),
            k,
        ) + if k == meta.timestamp_secs / TIMELINE_WINDOW_SECS {
            meta.length as int
        } else {
            0
        }
    &&& forall|k: Seq<char>| #[trigger]
        text_tally(post.src_ip_counts@, k) == text_tally(
            pre.src_ip_counts@,
            k,
        ) + if k == meta.src_addr@ {
            1int
        } else {
            0
        }
    &&& forall|k: Seq<char>| #[trigger]
        text_tally(post.dst_ip_counts@, k) == text_tally(
            pre.dst_ip_counts@,
            k,
        ) + if k == meta.dst_addr@ {
            1int
        } else {
            0
        }
    &&& forall|p: u16| #[trigger]
        tally(post.port_counts@, p) == tally(pre.port_counts@, p) + port_hits(
            meta,
            p,
        )
    &&& forall|k: Seq<char>| #[trigger]
        text_tally(post.tcp_states@, k) == text_tally(pre.tcp_states@, k)
            + if meta.protocol == ProtocolType::TCP && k == tcp_state_of(meta.summary@) {
            1int
        } else {
            0
        }
}

/// The snapshot of the statistics: protocol counts and bytes ordered by
/// count, the timelines by second, the top-ten address and port tallies, and
/// the TCP states.
pub open spec fn snapshot_of(c: StatsCollector, r: StatsSnapshot) -> bool {
    &&& r.protocol_counts@ == sort_desc(c.protocol_counts@)
    &&& r.protocol_bytes@ == sort_desc(c.protocol_bytes@)
    &&& r.pps_timeline@ == bucket_packets(c.timeline@)
    &&& r.bps_timeline@ == bucket_bytes(c.timeline@)
    &&& r.top_src_ips@ == top10(sort_desc(c.src_ip_counts@))
    &&& r.top_dst_ips@ == top10(sort_desc(c.dst_ip_counts@))
    &&& r.top_ports@ == top10(sort_desc(c.port_counts@))
    &&& r.tcp_states@ == c.tcp_states@
}

/// Running counts of the packets seen.
pub struct StatsCollector {
    pub protocol_counts: Vec<(String, u64)>,
    pub protocol_bytes: Vec<(String, u64)>,
    pub timeline: Vec<(u64, TimelineEntry)>,
    pub src_ip_counts: Vec<(String, u64)>,
    pub dst_ip_counts: Vec<(String, u64)>,
    pub port_counts: Vec<(u16, u64)>,
    pub tcp_states: Vec<(String, u64)>,
    pub total_packets: u64,
    pub total_bytes: u64,
    pub start_time: Option<u64>,
}

impl StatsCollector {
    /// Each tally names a key once; no count exceeds what the totals allow.
    pub open spec fn wf(&self) -> bool {
        let p = self.total_packets as int;
        let b = self.total_bytes as int;
        &&& text_keys_unique(self.protocol_counts@) && all_at_most(self.protocol_counts@, p)
        &&& all_positive(self.protocol_counts@)
        &&& text_keys_unique(self.protocol_bytes@) && all_at_most(self.protocol_bytes@, b)
        &&& buckets_ascending(self.timeline@) && timeline_bounded(self.timeline@, p, b)
        &&& text_keys_unique(self.src_ip_counts@) && all_at_most(self.src_ip_counts@, p)
        &&& text_keys_unique(self.dst_ip_counts@) && all_at_most(self.dst_ip_counts@, p)
        &&& keys_unique(self.port_counts@) && all_at_most(self.port_counts@, 2 * p)
        &&& text_keys_unique(self.tcp_states@) && all_at_most(self.tcp_states@, p)
    }

    /// The totals can take one more packet of `len` bytes.
    pub open spec fn room_for(&self, len: u32) -> bool {
        self.total_packets < u64::MAX / 2 && self.total_bytes + len <= u64::MAX
    }

    pub fn new() -> (r: Self)
        ensures
            r.wf(),
            r.total_packets == 0,
            r.total_bytes == 0,
            r.start_time is None,
            r.protocol_counts@.len() == 0,
            r.protocol_bytes@.len() == 0,
            r.timeline@.len() == 0,
            r.src_ip_counts@.len() == 0,
            r.dst_ip_counts@.len() == 0,
            r.port_counts@.len() == 0,
            r.tcp_states@.len() == 0,
    {
        StatsCollector {
            protocol_counts: Vec::new(),
            protocol_bytes: Vec::new(),
            timeline: Vec::new(),
            src_ip_counts: Vec::new(),
            dst_ip_counts: Vec::new(),
            port_counts: Vec::new(),
            tcp_states: Vec::new(),
            total_packets: 0,
            total_bytes: 0,
            start_time: None,
        }
    }

    /// Counts one packet in every statistic.
    pub fn record_packet(&mut self, meta: &PacketMetadata)
        requires
            old(self).wf(),
            old(self).room_for(meta.length),
        ensures
            final(self).wf(),
            recorded(*old(self), *final(self), *meta),
    {
        if self.start_time.is_none() {
            self.start_time = Some(meta.timestamp_secs);
        }
        let ghost p0 = self.total_packets as int;
        let ghost b0 = self.total_bytes as int;
        let len = meta.length as u64;
        self.total_packets = self.total_packets + 1;
        self.total_bytes = self.total_bytes + len;
        let proto_name = meta.protocol.as_str();
        bump_text(&mut self.protocol_counts, proto_name, 1, Ghost(p0));
        bump_text(&mut self.protocol_bytes, proto_name, len, Ghost(b0));
        let bucket = meta.timestamp_secs / TIMELINE_WINDOW_SECS;
        bump_bucket(&mut self.timeline, bucket, len, Ghost(p0), Ghost(b0));
        bump_text(&mut self.src_ip_counts, meta.src_addr.as_str(), 1, Ghost(p0));
        bump_text(&mut self.dst_ip_counts, meta.dst_addr.as_str(), 1, Ghost(p0));
        let ghost ports0 = self.port_counts@;
        match meta.src_port {
            Some(sp) => bump_port(&mut self.port_counts, sp, 1, Ghost(2 * p0)),
            None => {},
        }
        let ghost ports1 = self.port_counts@;
        assert(all_at_most(ports1, 2 * p0 + 1));
        match meta.dst_port {
            Some(dp) => bump_port(&mut self.port_counts, dp, 1, Ghost(2 * p0 + 1)),
            None => {},
        }
        assert(all_at_most(self.port_counts@, 2 * p0 + 2)) by {
            assert forall|i: int| 0 <= i < self.port_counts@.len() implies (
            #[trigger] self.port_counts@[i]).1 <= 2 * p0 + 2 by {
                if meta.dst_port is None {
                    if meta.src_port is None {
                        assert(self.port_counts@ == ports0);
                    }
                }
            }
        }
        let ghost states0 = self.tcp_states@;
        if meta.protocol == ProtocolType::TCP {
            let state = tcp_state_name(meta.summary.as_str());
            bump_text(&mut self.tcp_states, state, 1, Ghost(p0));
        }
        assert(all_at_most(self.tcp_states@, p0 + 1)) by {
            assert forall|i: int| 0 <= i < self.tcp_states@.len() implies (
            #[trigger] self.tcp_states@[i]).1 <= p0 + 1 by {
                if meta.protocol != ProtocolType::TCP {
                    assert(self.tcp_states@ == states0);
                }
            }
        }
    }

    /// The statistics: protocol counts and bytes and the top-ten tallies
    /// ordered by count, largest first (equal counts in order of first
    /// appearance); the timelines ordered by bucket.
    pub fn get_snapshot(&self) -> (r: StatsSnapshot)
        requires
            self.wf(),
        ensures
            r.protocol_counts@ == sort_desc(self.protocol_counts@),
            r.protocol_bytes@ == sort_desc(self.protocol_bytes@),
            r.pps_timeline@ == bucket_packets(self.timeline@),
            r.bps_timeline@ == bucket_bytes(self.timeline@),
            r.top_src_ips@ == top10(sort_desc(self.src_ip_counts@)),
            r.top_dst_ips@ == top10(sort_desc(self.dst_ip_counts@)),
            r.top_ports@ == top10(sort_desc(self.port_counts@)),
            r.tcp_states@ == self.tcp_states@,
            snapshot_of(*self, r),
    {
        let protocol_counts = sort_by_count_desc(copy_text_tally(&self.protocol_counts));
        let protocol_bytes = sort_by_count_desc(copy_text_tally(&self.protocol_bytes));
        let mut pps_timeline: Vec<(u64, u64)> = Vec::new();
        let mut bps_timeline: Vec<(u64, u64)> = Vec::new();
        let mut i: usize = 0;
        while i < self.timeline.len()
            invariant
                i <= self.timeline@.len(),
                pps_timeline@ == bucket_packets(self.timeline@).take(i as int),
                bps_timeline@ == bucket_bytes(self.timeline@).take(i as int),
            decreases self.timeline.len() - i,
        {
            pps_timeline.push((self.timeline[i].0, self.timeline[i].1.packets));
            bps_timeline.push((self.timeline[i].0, self.timeline[i].1.bytes));
            assert(pps_timeline@ =~= bucket_packets(self.timeline@).take(i + 1));
            assert(bps_timeline@ =~= bucket_bytes(self.timeline@).take(i + 1));
            i = i + 1;
        }
        assert(bucket_packets(self.timeline@).take(i as int) =~= bucket_packets(self.timeline@));
        assert(bucket_bytes(self.timeline@).take(i as int) =~= bucket_bytes(self.timeline@));
        let mut top_src_ips = sort_by_count_desc(copy_text_tally(&self.src_ip_counts));
        truncate_to_ten(&mut top_src_ips);
        let mut top_dst_ips = sort_by_count_desc(copy_text_tally(&self.dst_ip_counts));
        truncate_to_ten(&mut top_dst_ips);
        let mut ports: Vec<(u16, u64)> = Vec::new();
        let mut j: usize = 0;
        while j < self.port_counts.len()
            invariant
                j <= self.port_counts@.len(),
                ports@ == self.port_counts@.take(j as int),
            decreases self.port_counts.len() - j,
        {
            ports.push(self.port_counts[j]);
            assert(ports@ =~= self.port_counts@.take(j + 1));
            j = j + 1;
        }
        assert(self.port_counts@.take(j as int) =~= self.port_counts@);
        let mut top_ports = sort_by_count_desc(ports);
        truncate_to_ten(&mut top_ports);
        let tcp_states = copy_text_tally(&self.tcp_states);
        StatsSnapshot {
            protocol_counts,
            protocol_bytes,
            pps_timeline,
            bps_timeline,
            top_src_ips,
            top_dst_ips,
            top_ports,
            tcp_states,
        }
    }
}

// ---------------------------------------------------------------------------
// Statistics over a run of packets

/// The sum of `f` over the packets of a run.
pub open spec fn sum_over(run: Seq<PacketMetadata>, f: spec_fn(PacketMetadata) -> int) -> int
    decreases run.len(),
{
    if run.len() == 0 {
        0
    } else {
        sum_over(run.drop_last(), f) + f(run.last())
    }
}

pub open spec fn one_if(b: bool) -> int {
    if b {
        1
    } else {
        0
    }
}

/// A collector with no packets counted.
pub open spec fn fresh(c: StatsCollector) -> bool {
    &&& c.total_packets == 0
    &&& c.total_bytes == 0
    &&& c.protocol_counts@.len() == 0
    &&& c.protocol_bytes@.len() == 0
    &&& c.timeline@.len() == 0
    &&& c.tcp_states@.len() == 0
}

/// What the collector holds after counting a run of packets from nothing:
/// `states[i + 1]` is `states[i]` after packet `i`.
pub open spec fn counted_run(states: Seq<StatsCollector>, run: Seq<PacketMetadata>) -> bool {
    &&& states.len() == run.len() + 1
    &&& fresh(states[0])
    &&& forall|i: int| 0 <= i < run.len() ==> #[trigger] recorded(states[i], states[i + 1], run[i])
    &&& states.last().wf()
}


proof fn lemma_text_tally_prepend(x: (String, u64), s: Seq<(String, u64)>, k: Seq<char>)
    ensures
        text_tally(seq![x] + s, k) == text_tally(s, k) + if x.0@ == k {
            x.1 as int
        } else {
            0
        },
    decreases s.len(),
{
    let t = seq![x] + s;
    if s.len() == 0 {
        assert(t.drop_last() =~= Seq::<(String, u64)>::empty());
        assert(t.last() == x);
        assert(text_tally(t.drop_last(), k) == 0);
        assert(text_tally(t, k) == text_tally(t.drop_last(), k) + if t.last().0@ == k {
            t.last().1 as int
        } else {
            0
        });
    } else {
        lemma_text_tally_prepend(x, s.drop_last(), k);
        assert(t.drop_last() =~= seq![x] + s.drop_last());
        assert(t.last() == s.last());
        assert(text_tally(t, k) == text_tally(t.drop_last(), k) + if t.last().0@ == k {
            t.last().1 as int
        } else {
            0
        });
    }
}

proof fn lemma_text_tally_insert_desc(s: Seq<(String, u64)>, x: (String, u64), k: Seq<char>)
    ensures
        text_tally(insert_desc(s, x), k) == text_tally(s, k) + if x.0@ == k {
            x.1 as int
        } else {
            0
        },
    decreases s.len(),
{
    if s.len() == 0 {
        lemma_text_tally_prepend(x, s, k);
        assert(seq![x] + s =~= seq![x]);
    } else if s[0].1 < x.1 {
        lemma_text_tally_prepend(x, s, k);
    } else {
        let r = s.drop_first();
        lemma_text_tally_insert_desc(r, x, k);
        lemma_text_tally_prepend(s[0], insert_desc(r, x), k);
        lemma_text_tally_prepend(s[0], r, k);
        assert(seq![s[0]] + r =~= s);
    }
}

/// Ordering a tally by count keeps the count of every key.
proof fn lemma_text_tally_sort(s: Seq<(String, u64)>, k: Seq<char>)
    ensures
        text_tally(sort_desc(s), k) == text_tally(s, k),
    decreases s.len(),
{
    if s.len() > 0 {
        lemma_text_tally_sort(s.drop_last(), k);
        lemma_text_tally_insert_desc(sort_desc(s.drop_last()), s.last(), k);
    }
}

proof fn lemma_total_prepend<K>(x: (K, u64), s: Seq<(K, u64)>)
    ensures
        total_of(seq![x] + s) == total_of(s) + x.1,
    decreases s.len(),
{
    let t = seq![x] + s;
    if s.len() == 0 {
        assert(t.drop_last() =~= Seq::<(K, u64)>::empty());
        assert(t.last() == x);
        assert(total_of(t) == total_of(t.drop_last()) + t.last().1);
    } else {
        lemma_total_prepend(x, s.drop_last());
        assert(t.drop_last() =~= seq![x] + s.drop_last());
        assert(t.last() == s.last());
        assert(total_of(t) == total_of(t.drop_last()) + t.last().1);
    }
}

proof fn lemma_total_insert_desc<K>(s: Seq<(K, u64)>, x: (K, u64))
    ensures
        total_of(insert_desc(s, x)) == total_of(s) + x.1,
    decreases s.len(),
{
    if s.len() == 0 {
        lemma_total_prepend(x, s);
        assert(seq![x] + s =~= seq![x]);
    } else if s[0].1 < x.1 {
        lemma_total_prepend(x, s);
    } else {
        let r = s.drop_first();
        lemma_total_insert_desc(r, x);
        lemma_total_prepend(s[0], insert_desc(r, x));
        lemma_total_prepend(s[0], r);
        assert(seq![s[0]] + r =~= s);
    }
}

/// Ordering a tally by count keeps the sum of its counts.
proof fn lemma_total_sort<K>(s: Seq<(K, u64)>)
    ensures
        total_of(sort_desc(s)) == total_of(s),
    decreases s.len(),
{
    if s.len() > 0 {
        lemma_total_sort(s.drop_last());
        lemma_total_insert_desc(sort_desc(s.drop_last()), s.last());
    }
}

/// In a tally with each key once, an entry holds its key's whole count.
proof fn lemma_entry_is_tally<K>(s: Seq<(K, u64)>, i: int)
    requires
        keys_unique(s),
        0 <= i < s.len(),
    ensures
        tally(s, s[i].0) == s[i].1,
    decreases s.len(),
{
    let d = s.drop_last();
    if i == s.len() - 1 {
        assert forall|j: int| 0 <= j < d.len() implies (#[trigger] d[j]).0 != s[i].0 by {
            assert(d[j] == s[j]);
        }
        lemma_tally_absent(d, s[i].0);
    } else {
        assert(keys_unique(d)) by {
            assert forall|a: int, b: int| 0 <= a < b < d.len() implies (#[trigger] d[a]).0 != (
            #[trigger] d[b]).0 by {
                assert(d[a] == s[a]);
                assert(d[b] == s[b]);
            }
        }
        lemma_entry_is_tally(d, i);
        assert(d[i] == s[i]);
    }
}

proof fn lemma_tallies_of_run(states: Seq<StatsCollector>, run: Seq<PacketMetadata>)
    requires
        states.len() == run.len() + 1,
        fresh(states[0]),
        forall|i: int| 0 <= i < run.len() ==> #[trigger] recorded(states[i], states[i + 1], run[i]),
    ensures
        states.last().total_packets == run.len(),
        states.last().total_bytes == sum_over(run, |m: PacketMetadata| m.length as int),
        forall|k: Seq<char>| #[trigger]
            text_tally(states.last().protocol_counts@, k) == sum_over(
                run,
                |m: PacketMetadata| one_if(m.protocol.name_of() == k),
            ),
        forall|k: Seq<char>| #[trigger]
            text_tally(states.last().protocol_bytes@, k) == sum_over(
                run,
                |m: PacketMetadata| if m.protocol.name_of() == k { m.length as int } else { 0 },
            ),
        forall|k: u64| #[trigger]
            tally(bucket_packets(states.last().timeline@), k) == sum_over(
                run,
                |m: PacketMetadata| one_if(m.timestamp_secs / TIMELINE_WINDOW_SECS == k),
            ),
        forall|k: u64| #[trigger]
            tally(bucket_bytes(states.last().timeline@), k) == sum_over(
                run,
                |m: PacketMetadata|
                    if m.timestamp_secs / TIMELINE_WINDOW_SECS == k { m.length as int } else { 0 },
            ),
        forall|k: Seq<char>| #[trigger]
            text_tally(states.last().tcp_states@, k) == sum_over(
                run,
                |m: PacketMetadata|
                    one_if(m.protocol == ProtocolType::TCP && k == tcp_state_of(m.summary@)),
            ),
    decreases run.len(),
{
    let n = run.len();
    if n == 0 {
        assert(bucket_packets(states[0].timeline@).len() == 0);
        assert(bucket_bytes(states[0].timeline@).len() == 0);
    } else {
        let p = run.drop_last();
        let ps = states.drop_last();
        assert forall|i: int| 0 <= i < p.len() implies #[trigger] recorded(ps[i], ps[i + 1], p[i]) by {
            assert(recorded(states[i], states[i + 1], run[i]));
        }
        lemma_tallies_of_run(ps, p);
        let j: int = n - 1;
        assert(ps.last() == states[j]);
        assert(recorded(states[j], states[j + 1], run[j]));
        assert(run.last() == run[j]);
        assert(states.last() == states[j + 1]);
    }
}

proof fn lemma_totals_of_run(states: Seq<StatsCollector>, run: Seq<PacketMetadata>)
    requires
        states.len() == run.len() + 1,
        fresh(states[0]),
        forall|i: int| 0 <= i < run.len() ==> #[trigger] recorded(states[i], states[i + 1], run[i]),
    ensures
        total_of(states.last().protocol_counts@) == run.len(),
        total_of(states.last().protocol_bytes@) == sum_over(run, |m: PacketMetadata| m.length as int),
        total_of(bucket_packets(states.last().timeline@)) == run.len(),
        total_of(bucket_bytes(states.last().timeline@)) == sum_over(run, |m: PacketMetadata| m.length as int),
        total_of(states.last().tcp_states@) == sum_over(
            run,
            |m: PacketMetadata| one_if(m.protocol == ProtocolType::TCP),
        ),
    decreases run.len(),
{
    let n = run.len();
    if n == 0 {
        assert(bucket_packets(states[0].timeline@).len() == 0);
        assert(bucket_bytes(states[0].timeline@).len() == 0);
    } else {
        let p = run.drop_last();
        let ps = states.drop_last();
        assert forall|i: int| 0 <= i < p.len() implies #[trigger] recorded(ps[i], ps[i + 1], p[i]) by {
            assert(recorded(states[i], states[i + 1], run[i]));
        }
        lemma_totals_of_run(ps, p);
        let j: int = n - 1;
        assert(ps.last() == states[j]);
        assert(recorded(states[j], states[j + 1], run[j]));
        assert(run.last() == run[j]);
        assert(states.last() == states[j + 1]);
    }
}

/// After counting a run of packets from nothing, the totals are the number of
/// packets and the sum of their lengths; per protocol, per second and per TCP
/// state the counts are those of the packets of that key, and the bytes per
/// protocol and per second are the sum of their lengths. The counts of each
/// table sum to the packets it counts and its bytes to their lengths; the
/// snapshot's ordering by count keeps every key's count and every sum; the
/// timeline runs in ascending seconds, each entry holding its second's count.
pub proof fn lemma_stats_of_run(states: Seq<StatsCollector>, run: Seq<PacketMetadata>)
    requires
        counted_run(states, run),
    ensures
        states.last().total_packets == run.len(),
        states.last().total_bytes == sum_over(run, |m: PacketMetadata| m.length as int),
        forall|k: Seq<char>| #[trigger]
            text_tally(states.last().protocol_counts@, k) == sum_over(
                run,
                |m: PacketMetadata| one_if(m.protocol.name_of() == k),
            ),
        forall|k: Seq<char>| #[trigger]
            text_tally(states.last().protocol_bytes@, k) == sum_over(
                run,
                |m: PacketMetadata| if m.protocol.name_of() == k { m.length as int } else { 0 },
            ),
        forall|k: u64| #[trigger]
            tally(bucket_packets(states.last().timeline@), k) == sum_over(
                run,
                |m: PacketMetadata| one_if(m.timestamp_secs / TIMELINE_WINDOW_SECS == k),
            ),
        forall|k: u64| #[trigger]
            tally(bucket_bytes(states.last().timeline@), k) == sum_over(
                run,
                |m: PacketMetadata|
                    if m.timestamp_secs / TIMELINE_WINDOW_SECS == k { m.length as int } else { 0 },
            ),
        forall|k: Seq<char>| #[trigger]
            text_tally(states.last().tcp_states@, k) == sum_over(
                run,
                |m: PacketMetadata|
                    one_if(m.protocol == ProtocolType::TCP && k == tcp_state_of(m.summary@)),
            ),
        total_of(states.last().protocol_counts@) == run.len(),
        total_of(states.last().protocol_bytes@) == sum_over(run, |m: PacketMetadata| m.length as int),
        total_of(bucket_packets(states.last().timeline@)) == run.len(),
        total_of(bucket_bytes(states.last().timeline@)) == sum_over(run, |m: PacketMetadata| m.length as int),
        total_of(states.last().tcp_states@) == sum_over(
            run,
            |m: PacketMetadata| one_if(m.protocol == ProtocolType::TCP),
        ),
        forall|k: Seq<char>| #[trigger]
            text_tally(sort_desc(states.last().protocol_counts@), k) == text_tally(
                states.last().protocol_counts@,
                k,
            ),
        forall|k: Seq<char>| #[trigger]
            text_tally(sort_desc(states.last().protocol_bytes@), k) == text_tally(
                states.last().protocol_bytes@,
                k,
            ),
        forall|k: Seq<char>| #[trigger]
            text_tally(sort_desc(states.last().tcp_states@), k) == text_tally(
                states.last().tcp_states@,
                k,
            ),
        total_of(sort_desc(states.last().protocol_counts@)) == run.len(),
        total_of(sort_desc(states.last().protocol_bytes@)) == sum_over(run, |m: PacketMetadata| m.length as int),
        total_of(sort_desc(states.last().tcp_states@)) == sum_over(
            run,
            |m: PacketMetadata| one_if(m.protocol == ProtocolType::TCP),
        ),
        buckets_ascending(states.last().timeline@),
        forall|i: int|
            0 <= i < states.last().timeline@.len() ==> (#[trigger] bucket_packets(states.last().timeline@)[i]).1
                == sum_over(
                run,
                |m: PacketMetadata|
                    one_if(m.timestamp_secs / TIMELINE_WINDOW_SECS == bucket_packets(states.last().timeline@)[i].0),
            ),
{
    lemma_tallies_of_run(states, run);
    lemma_totals_of_run(states, run);
    lemma_total_sort(states.last().protocol_counts@);
    lemma_total_sort(states.last().protocol_bytes@);
    lemma_total_sort(states.last().tcp_states@);
    assert forall|k: Seq<char>| #[trigger]
        text_tally(sort_desc(states.last().protocol_counts@), k) == text_tally(
            states.last().protocol_counts@,
            k,
        ) by {
        lemma_text_tally_sort(states.last().protocol_counts@, k);
    }
    assert forall|k: Seq<char>| #[trigger]
        text_tally(sort_desc(states.last().protocol_bytes@), k) == text_tally(
            states.last().protocol_bytes@,
            k,
        ) by {
        lemma_text_tally_sort(states.last().protocol_bytes@, k);
    }
    assert forall|k: Seq<char>| #[trigger]
        text_tally(sort_desc(states.last().tcp_states@), k) == text_tally(states.last().tcp_states@, k) by {
        lemma_text_tally_sort(states.last().tcp_states@, k);
    }
    let bp = bucket_packets(states.last().timeline@);
    assert(keys_unique(bp)) by {
        assert forall|a: int, b: int| 0 <= a < b < bp.len() implies (#[trigger] bp[a]).0 != (#[trigger] bp[b]).0 by {
            assert(states.last().timeline@[a].0 < states.last().timeline@[b].0);
        }
    }
    assert forall|i: int| 0 <= i < states.last().timeline@.len() implies (#[trigger] bucket_packets(
        states.last().timeline@,
    )[i]).1 == sum_over(
        run,
        |m: PacketMetadata|
            one_if(m.timestamp_secs / TIMELINE_WINDOW_SECS == bucket_packets(states.last().timeline@)[i].0),
    ) by {
        lemma_entry_is_tally(bp, i);
    }
}

/// The snapshot taken after counting a run of packets from nothing: the
/// protocol counts sum to the number of packets and the protocol bytes to
/// the sum of their lengths, each protocol holding its packets' count and
/// bytes; the packet timeline runs in ascending seconds, each entry holding
/// the number of packets of its second, and every second's count is that of
/// its packets; the byte timeline sums to the lengths, per second too; the
/// TCP states count the TCP packets, per state.
pub proof fn lemma_snapshot_of_run(states: Seq<StatsCollector>, run: Seq<PacketMetadata>, snap: StatsSnapshot)
    requires
        counted_run(states, run),
        snapshot_of(states.last(), snap),
    ensures
        total_of(snap.protocol_counts@) == run.len(),
        total_of(snap.protocol_bytes@) == sum_over(run, |m: PacketMetadata| m.length as int),
        forall|k: Seq<char>| #[trigger]
            text_tally(snap.protocol_counts@, k) == sum_over(
                run,
                |m: PacketMetadata| one_if(m.protocol.name_of() == k),
            ),
        forall|k: Seq<char>| #[trigger]
            text_tally(snap.protocol_bytes@, k) == sum_over(
                run,
                |m: PacketMetadata| if m.protocol.name_of() == k { m.length as int } else { 0 },
            ),
        forall|i: int, j: int|
            0 <= i < j < snap.pps_timeline@.len() ==> (#[trigger] snap.pps_timeline@[i]).0 < (
            #[trigger] snap.pps_timeline@[j]).0,
        forall|i: int|
            0 <= i < snap.pps_timeline@.len() ==> (#[trigger] snap.pps_timeline@[i]).1 == sum_over(
                run,
                |m: PacketMetadata| one_if(m.timestamp_secs / TIMELINE_WINDOW_SECS == snap.pps_timeline@[i].0),
            ),
        forall|k: u64| #[trigger]
            tally(snap.pps_timeline@, k) == sum_over(
                run,
                |m: PacketMetadata| one_if(m.timestamp_secs / TIMELINE_WINDOW_SECS == k),
            ),
        total_of(snap.pps_timeline@) == run.len(),
        total_of(snap.bps_timeline@) == sum_over(run, |m: PacketMetadata| m.length as int),
        forall|k: u64| #[trigger]
            tally(snap.bps_timeline@, k) == sum_over(
                run,
                |m: PacketMetadata|
                    if m.timestamp_secs / TIMELINE_WINDOW_SECS == k { m.length as int } else { 0 },
            ),
        total_of(snap.tcp_states@) == sum_over(run, |m: PacketMetadata| one_if(m.protocol == ProtocolType::TCP)),
        forall|k: Seq<char>| #[trigger]
            text_tally(snap.tcp_states@, k) == sum_over(
                run,
                |m: PacketMetadata|
                    one_if(m.protocol == ProtocolType::TCP && k == tcp_state_of(m.summary@)),
            ),
{
    lemma_stats_of_run(states, run);
    let t = states.last().timeline@;
    assert forall|i: int, j: int| 0 <= i < j < snap.pps_timeline@.len() implies (
    #[trigger] snap.pps_timeline@[i]).0 < (#[trigger] snap.pps_timeline@[j]).0 by {
        assert(t[i].0 < t[j].0);
    }
}

/// The keys of a tally.
pub open spec fn has_text_key(s: Seq<(String, u64)>, k: Seq<char>) -> bool {
    exists|i: int| 0 <= i < s.len() && (#[trigger] s[i]).0@ == k
}

proof fn lemma_text_entry_is_tally(s: Seq<(String, u64)>, i: int)
    requires
        text_keys_unique(s),
        0 <= i < s.len(),
    ensures
        text_tally(s, s[i].0@) == s[i].1,
    decreases s.len(),
{
    let d = s.drop_last();
    if i == s.len() - 1 {
        assert forall|j: int| 0 <= j < d.len() implies (#[trigger] d[j]).0@ != s[i].0@ by {
            assert(d[j] == s[j]);
        }
        lemma_text_tally_absent(d, s[i].0@);
    } else {
        assert(text_keys_unique(d)) by {
            assert forall|a: int, b: int| 0 <= a < b < d.len() implies (#[trigger] d[a]).0@ != (
            #[trigger] d[b]).0@ by {
                assert(d[a] == s[a]);
                assert(d[b] == s[b]);
            }
        }
        lemma_text_entry_is_tally(d, i);
        assert(d[i] == s[i]);
    }
}

/// With each key once and every count positive, a key is held exactly when
/// its tally is positive.
proof fn lemma_key_iff_tally(s: Seq<(String, u64)>, k: Seq<char>)
    requires
        text_keys_unique(s),
        all_positive(s),
    ensures
        has_text_key(s, k) <==> text_tally(s, k) > 0,
{
    if has_text_key(s, k) {
        let i = choose|i: int| 0 <= i < s.len() && (#[trigger] s[i]).0@ == k;
        lemma_text_entry_is_tally(s, i);
    } else {
        assert forall|i: int| 0 <= i < s.len() implies (#[trigger] s[i]).0@ != k by {}
        lemma_text_tally_absent(s, k);
    }
}

proof fn lemma_insert_desc_contains<K>(s: Seq<(K, u64)>, x: (K, u64), e: (K, u64))
    ensures
        insert_desc(s, x).contains(e) <==> (s.contains(e) || e == x),
    decreases s.len(),
{
    if s.len() == 0 {
        assert(insert_desc(s, x) =~= seq![x]);
        assert(seq![x][0] == x);
    } else if s[0].1 < x.1 {
        let t = seq![x] + s;
        assert(t[0] == x);
        if s.contains(e) {
            let j = choose|j: int| 0 <= j < s.len() && s[j] == e;
            assert(t[j + 1] == e);
        }
        if t.contains(e) && e != x {
            let j = choose|j: int| 0 <= j < t.len() && t[j] == e;
            assert(s[j - 1] == e);
        }
    } else {
        let r = s.drop_first();
        lemma_insert_desc_contains(r, x, e);
        let t = seq![s[0]] + insert_desc(r, x);
        assert(t[0] == s[0]);
        if s.contains(e) {
            let j = choose|j: int| 0 <= j < s.len() && s[j] == e;
            if j > 0 {
                assert(r[j - 1] == e);
                assert(r.contains(e));
                let m = choose|m: int| 0 <= m < insert_desc(r, x).len() && insert_desc(r, x)[m] == e;
                assert(t[m + 1] == e);
            }
        }
        if e == x {
            let m = choose|m: int| 0 <= m < insert_desc(r, x).len() && insert_desc(r, x)[m] == e;
            assert(t[m + 1] == e);
        }
        if t.contains(e) {
            let j = choose|j: int| 0 <= j < t.len() && t[j] == e;
            if j > 0 {
                assert(insert_desc(r, x)[j - 1] == e);
                assert(insert_desc(r, x).contains(e));
                if r.contains(e) {
                    let m = choose|m: int| 0 <= m < r.len() && r[m] == e;
                    assert(s[m + 1] == e);
                }
            } else {
                assert(s[0] == e);
            }
        }
    }
}

/// Ordering a tally by count keeps its entries.
proof fn lemma_sort_contains<K>(s: Seq<(K, u64)>, e: (K, u64))
    ensures
        sort_desc(s).contains(e) <==> s.contains(e),
    decreases s.len(),
{
    if s.len() > 0 {
        let d = s.drop_last();
        lemma_sort_contains(d, e);
        lemma_insert_desc_contains(sort_desc(d), s.last(), e);
        if s.contains(e) && e != s.last() {
            let j = choose|j: int| 0 <= j < s.len() && s[j] == e;
            assert(d[j] == e);
        }
        if d.contains(e) {
            let j = choose|j: int| 0 <= j < d.len() && d[j] == e;
            assert(s[j] == e);
        }
        assert(s[s.len() - 1] == s.last());
    }
}

/// The sum of a 0-or-1 test over a run is positive exactly when some packet
/// passes it.
proof fn lemma_count_positive(run: Seq<PacketMetadata>, f: spec_fn(PacketMetadata) -> int)
    requires
        forall|m: PacketMetadata| 0 <= #[trigger] f(m) <= 1,
    ensures
        sum_over(run, f) > 0 <==> exists|j: int| 0 <= j < run.len() && #[trigger] f(run[j]) == 1,
        sum_over(run, f) >= 0,
    decreases run.len(),
{
    if run.len() > 0 {
        let d = run.drop_last();
        lemma_count_positive(d, f);
        assert(run[run.len() - 1] == run.last());
        if exists|j: int| 0 <= j < run.len() && #[trigger] f(run[j]) == 1 {
            let j = choose|j: int| 0 <= j < run.len() && #[trigger] f(run[j]) == 1;
            if j < run.len() - 1 {
                assert(d[j] == run[j]);
            }
        }
        if exists|j: int| 0 <= j < d.len() && #[trigger] f(d[j]) == 1 {
            let j = choose|j: int| 0 <= j < d.len() && #[trigger] f(d[j]) == 1;
            assert(run[j] == d[j]);
        }
    }
}

/// The protocols of the snapshot taken after counting a run of packets from
/// nothing are exactly the protocols of those packets, each with a count of
/// at least one.
pub proof fn lemma_snapshot_protocols(states: Seq<StatsCollector>, run: Seq<PacketMetadata>, snap: StatsSnapshot)
    requires
        counted_run(states, run),
        snapshot_of(states.last(), snap),
    ensures
        all_positive(snap.protocol_counts@),
        forall|k: Seq<char>|
            #[trigger] has_text_key(snap.protocol_counts@, k) <==> exists|j: int|
                0 <= j < run.len() && (#[trigger] run[j]).protocol.name_of() == k,
{
    lemma_stats_of_run(states, run);
    let c = states.last().protocol_counts@;
    let sc = snap.protocol_counts@;
    assert forall|i: int| 0 <= i < sc.len() implies (#[trigger] sc[i]).1 >= 1 by {
        assert(sc.contains(sc[i]));
        lemma_sort_contains(c, sc[i]);
        let j = choose|j: int| 0 <= j < c.len() && c[j] == sc[i];
    }
    assert forall|k: Seq<char>|
        #[trigger] has_text_key(sc, k) <==> exists|j: int|
            0 <= j < run.len() && (#[trigger] run[j]).protocol.name_of() == k by {
        let f = |m: PacketMetadata| one_if(m.protocol.name_of() == k);
        lemma_count_positive(run, f);
        lemma_key_iff_tally(c, k);
        if has_text_key(sc, k) {
            let i = choose|i: int| 0 <= i < sc.len() && (#[trigger] sc[i]).0@ == k;
            assert(sc.contains(sc[i]));
            lemma_sort_contains(c, sc[i]);
            let j = choose|j: int| 0 <= j < c.len() && c[j] == sc[i];
            assert(has_text_key(c, k));
            let p = choose|p: int| 0 <= p < run.len() && #[trigger] f(run[p]) == 1;
            assert(run[p].protocol.name_of() == k);
        }
        if exists|j: int| 0 <= j < run.len() && (#[trigger] run[j]).protocol.name_of() == k {
            let j = choose|j: int| 0 <= j < run.len() && (#[trigger] run[j]).protocol.name_of() == k;
            assert(f(run[j]) == 1);
            assert(has_text_key(c, k));
            let i = choose|i: int| 0 <= i < c.len() && (#[trigger] c[i]).0@ == k;
            assert(c.contains(c[i]));
            lemma_sort_contains(c, c[i]);
            let m = choose|m: int| 0 <= m < sc.len() && sc[m] == c[i];
            assert(sc[m].0@ == k);
        }
    }
}

} // verus!
