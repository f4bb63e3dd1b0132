//! Sliding-window packet counters, overall and per address.
use vstd::prelude::*;
use crate::text::same_text;

verus! {

/// Per-second counts: (second, packets in that second), in order of recording.
pub type Buckets = Seq<(u64, u32)>;

/// All packets counted.
pub open spec fn total(s: Buckets) -> int
    decreases s.len(),
{
    if s.len() == 0 {
        0
    } else {
        total(s.drop_last()) + s.last().1
    }
}

/// Packets counted in seconds after `thr`.
pub open spec fn in_window(s: Buckets, thr: u64) -> int
    decreases s.len(),
{
    if s.len() == 0 {
        0
    } else {
        in_window(s.drop_last(), thr) + if s.last().0 > thr {
            s.last().1 as int
        } else {
            0
        }
    }
}

/// The counts without the leading ones at or before `thr`.
pub open spec fn drop_expired(s: Buckets, thr: u64) -> Buckets
    decreases s.len(),
{
    if s.len() > 0 && s[0].0 <= thr {
        drop_expired(s.drop_first(), thr)
    } else {
        s
    }
}

/// One more packet at second `t`: the last count grows if it is for `t`,
/// else a count of one for `t` is appended.
pub open spec fn bumped(s: Buckets, t: u64) -> Buckets {
    if s.len() > 0 && s.last().0 == t {
        s.drop_last().push((t, (s.last().1 + 1) as u32))
    } else {
        s.push((t, 1u32))
    }
}

/// Per-address counts, in order of first recording.
pub type IpCounts = Seq<(Seq<char>, Buckets)>;

/// The counts of an address.
pub open spec fn lookup(m: IpCounts, k: Seq<char>) -> Option<Buckets>
    decreases m.len(),
{
    if m.len() == 0 {
        None
    } else if m[0].0 == k {
        Some(m[0].1)
    } else {
        lookup(m.drop_first(), k)
    }
}

/// One more packet of address `k` at second `t`.
pub open spec fn record_ip(m: IpCounts, k: Seq<char>, t: u64) -> IpCounts
    decreases m.len(),
{
    if m.len() == 0 {
        seq![(k, bumped(Seq::empty(), t))]
    } else if m[0].0 == k {
        seq![(k, bumped(m[0].1, t))] + m.drop_first()
    } else {
        seq![m[0]] + record_ip(m.drop_first(), k, t)
    }
}

/// Every address loses its expired counts; addresses left with none go.
pub open spec fn prune(m: IpCounts, thr: u64) -> IpCounts
    decreases m.len(),
{
    if m.len() == 0 {
        Seq::empty()
    } else {
        let c = drop_expired(m[0].1, thr);
        let rest = prune(m.drop_first(), thr);
        if c.len() == 0 {
            rest
        } else {
            seq![(m[0].0, c)] + rest
        }
    }
}

/// Every address has at most `b` packets counted.
pub open spec fn bounded(m: IpCounts, b: int) -> bool
    decreases m.len(),
{
    m.len() == 0 || (total(m[0].1) <= b && bounded(m.drop_first(), b))
}

/// `t - w`, or 0 where `w` is larger.
pub open spec fn window_start(t: u64, w: u32) -> u64 {
    if t >= w {
        (t - w) as u64
    } else {
        0
    }
}

/// The window length actually used: the requested one, kept within 1..=60 seconds.
pub open spec fn clamp_window(w: u32) -> u32 {
    if w > 60 {
        60
    } else if w < 1 {
        1
    } else {
        w
    }
}

/// The overall counts after one more packet at second `t`.
pub open spec fn rec_global(g: Buckets, w: u32, t: u64) -> Buckets {
    bumped(drop_expired(g, window_start(t, w)), t)
}

/// The per-address counts after one more packet at second `t`, of address
/// `ip` where one is given.
pub open spec fn rec_ips(m: IpCounts, w: u32, ip: Option<Seq<char>>, t: u64) -> IpCounts {
    let pruned = prune(m, window_start(t, w));
    match ip {
        Some(k) => record_ip(pruned, k, t),
        None => pruned,
    }
}

pub open spec fn opt_text(ip: Option<&str>) -> Option<Seq<char>> {
    match ip {
        Some(k) => Some(k@),
        None => None,
    }
}

pub open spec fn ip_view(m: Seq<(String, Vec<(u64, u32)>)>) -> IpCounts {
    m.map_values(|e: (String, Vec<(u64, u32)>)| (e.0@, e.1@))
}

// ---------------------------------------------------------------------------
// Facts about the counts

proof fn lemma_total_first(s: Buckets)
    requires
        s.len() > 0,
    ensures
        total(s) == s[0].1 + total(s.drop_first()),
    decreases s.len(),
{
    if s.len() > 1 {
        lemma_total_first(s.drop_last());
        assert(s.drop_last().drop_first() =~= s.drop_first().drop_last());
        assert(s.drop_first().last() == s.last());
        assert(total(s.drop_first()) == total(s.drop_first().drop_last()) + s.drop_first().last().1);
    } else {
        assert(s.drop_last() =~= Seq::<(u64, u32)>::empty());
        assert(s.drop_first() =~= Seq::<(u64, u32)>::empty());
    }
}

proof fn lemma_total_nonneg(s: Buckets)
    ensures
        total(s) >= 0,
    decreases s.len(),
{
    if s.len() > 0 {
        lemma_total_nonneg(s.drop_last());
    }
}

proof fn lemma_drop_expired_total(s: Buckets, thr: u64)
    ensures
        total(drop_expired(s, thr)) <= total(s),
    decreases s.len(),
{
    if s.len() > 0 && s[0].0 <= thr {
        lemma_drop_expired_total(s.drop_first(), thr);
        lemma_total_first(s);
    }
}

proof fn lemma_in_window_total(s: Buckets, thr: u64)
    ensures
        0 <= in_window(s, thr) <= total(s),
    decreases s.len(),
{
    if s.len() > 0 {
        lemma_in_window_total(s.drop_last(), thr);
    }
}

proof fn lemma_bumped_total(s: Buckets, t: u64)
    requires
        total(s) < u32::MAX,
    ensures
        total(bumped(s, t)) == total(s) + 1,
{
    if s.len() > 0 && s.last().0 == t {
        lemma_total_nonneg(s.drop_last());
        let b = bumped(s, t);
        assert(b.drop_last() =~= s.drop_last());
    } else {
        assert(s.push((t, 1u32)).drop_last() =~= s);
    }
}

proof fn lemma_prune_bounded(m: IpCounts, thr: u64, b: int)
    requires
        bounded(m, b),
    ensures
        bounded(prune(m, thr), b),
    decreases m.len(),
{
    if m.len() > 0 {
        lemma_prune_bounded(m.drop_first(), thr, b);
        lemma_drop_expired_total(m[0].1, thr);
        let c = drop_expired(m[0].1, thr);
        if c.len() > 0 {
            let r = seq![(m[0].0, c)] + prune(m.drop_first(), thr);
            assert(r.drop_first() =~= prune(m.drop_first(), thr));
            assert(r[0] == (m[0].0, c));
            assert(prune(m, thr) == r);
        }
    }
}

proof fn lemma_record_ip_bounded(m: IpCounts, k: Seq<char>, t: u64, b: int)
    requires
        bounded(m, b),
        0 <= b,
        b + 1 <= u32::MAX,
    ensures
        bounded(record_ip(m, k, t), b + 1),
    decreases m.len(),
{
    let r = record_ip(m, k, t);
    if m.len() == 0 {
        lemma_bumped_total(Seq::empty(), t);
        assert(r.drop_first() =~= Seq::<(Seq<char>, Buckets)>::empty());
        assert(bounded(Seq::<(Seq<char>, Buckets)>::empty(), b + 1));
        assert(bounded(r.drop_first(), b + 1));
        assert(r[0] == (k, bumped(Seq::empty(), t)));
    } else if m[0].0 == k {
        lemma_bumped_total(m[0].1, t);
        lemma_bounded_weaken(m.drop_first(), b, b + 1);
        assert(r.drop_first() =~= m.drop_first());
        assert(bounded(r.drop_first(), b + 1));
        assert(r[0] == (k, bumped(m[0].1, t)));
    } else {
        lemma_record_ip_bounded(m.drop_first(), k, t, b);
        assert(r.drop_first() =~= record_ip(m.drop_first(), k, t));
        assert(bounded(r.drop_first(), b + 1));
        assert(r[0] == m[0]);
    }
}

proof fn lemma_bounded_weaken(m: IpCounts, b: int, c: int)
    requires
        bounded(m, b),
        b <= c,
    ensures
        bounded(m, c),
    decreases m.len(),
{
    if m.len() > 0 {
        lemma_bounded_weaken(m.drop_first(), b, c);
    }
}

proof fn lemma_lookup_bounded(m: IpCounts, k: Seq<char>, b: int)
    requires
        bounded(m, b),
    ensures
        lookup(m, k) matches Some(c) ==> total(c) <= b,
    decreases m.len(),
{
    if m.len() > 0 && m[0].0 != k {
        lemma_lookup_bounded(m.drop_first(), k, b);
    }
}

proof fn lemma_prune_split(m: IpCounts, i: int, thr: u64)
    requires
        0 <= i <= m.len(),
    ensures
        prune(m, thr) == prune(m.take(i), thr) + prune(m.skip(i), thr),
    decreases i,
{
    if i == 0 {
        assert(m.skip(0) =~= m);
        assert(prune(m.take(0), thr) =~= Seq::<(Seq<char>, Buckets)>::empty());
        assert(prune(m.take(0), thr) + prune(m, thr) =~= prune(m, thr));
    } else {
        let t = m.drop_first();
        lemma_prune_split(t, i - 1, thr);
        assert(t.skip(i - 1) =~= m.skip(i));
        assert(m.take(i).drop_first() =~= t.take(i - 1));
        assert(m.take(i)[0] == m[0]);
        let c = drop_expired(m[0].1, thr);
        if c.len() > 0 {
            assert(seq![(m[0].0, c)] + (prune(t.take(i - 1), thr) + prune(m.skip(i), thr))
                =~= (seq![(m[0].0, c)] + prune(t.take(i - 1), thr)) + prune(m.skip(i), thr));
        }
    }
}

proof fn lemma_record_ip_at(m: IpCounts, i: int, k: Seq<char>, t: u64)
    requires
        0 <= i <= m.len(),
        forall|j: int| 0 <= j < i ==> (#[trigger] m[j]).0 != k,
    ensures
        record_ip(m, k, t) == m.take(i) + record_ip(m.skip(i), k, t),
        lookup(m, k) == lookup(m.skip(i), k),
    decreases i,
{
    if i == 0 {
        assert(m.skip(0) =~= m);
        assert(m.take(0) + record_ip(m, k, t) =~= record_ip(m, k, t));
    } else {
        let d = m.drop_first();
        assert forall|j: int| 0 <= j < i - 1 implies (#[trigger] d[j]).0 != k by {
            assert(d[j] == m[j + 1]);
        }
        lemma_record_ip_at(d, i - 1, k, t);
        assert(d.skip(i - 1) =~= m.skip(i));
        assert(m.take(i) =~= seq![m[0]] + d.take(i - 1));
        assert(seq![m[0]] + (d.take(i - 1) + record_ip(m.skip(i), k, t)) =~= m.take(i)
            + record_ip(m.skip(i), k, t));
    }
}

// ---------------------------------------------------------------------------
// Executable helpers

fn drop_expired_vec(s: &Vec<(u64, u32)>, thr: u64) -> (r: Vec<(u64, u32)>)
    ensures
        r@ == drop_expired(s@, thr),
{
    let mut k: usize = 0;
    assert(s@.skip(0) =~= s@);
    while k < s.len() && s[k].0 <= thr
        invariant
            k <= s@.len(),
            drop_expired(s@, thr) == drop_expired(s@.skip(k as int), thr),
        decreases s.len() - k,
    {
        assert(s@.skip(k as int).drop_first() =~= s@.skip(k + 1));
        k = k + 1;
    }
    let mut r: Vec<(u64, u32)> = Vec::new();
    let mut i: usize = k;
    while i < s.len()
        invariant
            k <= i <= s@.len(),
            r@ == s@.subrange(k as int, i as int),
        decreases s.len() - i,
    {
        r.push(s[i]);
        i = i + 1;
    }
    assert(r@ =~= s@.skip(k as int));
    r
}

fn add_to_counter(counter: &mut Vec<(u64, u32)>, timestamp_secs: u64)
    requires
        total(old(counter)@) < u32::MAX,
    ensures
        final(counter)@ == bumped(old(counter)@, timestamp_secs),
        total(final(counter)@) == total(old(counter)@) + 1,
{
    proof {
        lemma_bumped_total(counter@, timestamp_secs);
    }
    let n = counter.len();
    if n > 0 && counter[n - 1].0 == timestamp_secs {
        proof {
            lemma_total_nonneg(counter@.drop_last());
        }
        let c = counter[n - 1].1 + 1;
        counter.set(n - 1, (timestamp_secs, c));
        assert(counter@ =~= old(counter)@.drop_last().push((timestamp_secs, c)));
        return;
    }
    counter.push((timestamp_secs, 1));
}

fn sum_window(s: &Vec<(u64, u32)>, thr: u64) -> (r: u32)
    requires
        total(s@) <= u32::MAX,
    ensures
        r == in_window(s@, thr),
{
    let mut sum: u32 = 0;
    let mut i: usize = 0;
    while i < s.len()
        invariant
            i <= s@.len(),
            total(s@) <= u32::MAX,
            sum == in_window(s@.take(i as int), thr),
        decreases s.len() - i,
    {
        proof {
            assert(s@.take(i + 1).drop_last() =~= s@.take(i as int));
            lemma_in_window_total(s@.take(i + 1), thr);
            lemma_total_prefix(s@, i + 1);
        }
        if s[i].0 > thr {
            sum = sum + s[i].1;
        }
        i = i + 1;
    }
    assert(s@.take(i as int) =~= s@);
    sum
}

proof fn lemma_total_prefix(s: Buckets, i: int)
    requires
        0 <= i <= s.len(),
    ensures
        total(s.take(i)) <= total(s),
    decreases s.len() - i,
{
    if i < s.len() {
        lemma_total_prefix(s, i + 1);
        assert(s.take(i + 1).drop_last() =~= s.take(i));
    } else {
        assert(s.take(i) =~= s);
    }
}

/// Counts packets over a sliding window of whole seconds.
#[derive(Debug)]
pub struct SlidingWindowCounter {
    pub window_secs: u32,
    pub per_ip_counters: Vec<(String, Vec<(u64, u32)>)>,
    pub global_counters: Vec<(u64, u32)>,
}

impl SlidingWindowCounter {
    /// The counts fit in `u32`, as the counters hold them.
    pub open spec fn wf(&self) -> bool {
        &&& total(self.global_counters@) <= u32::MAX
        &&& bounded(ip_view(self.per_ip_counters@), u32::MAX as int)
    }

    /// A counter over the last `window_secs` seconds, the window kept within
    /// 1..=60 seconds.
    pub fn new(window_secs: u32) -> (r: Self)
        ensures
            r.wf(),
            r.window_secs == clamp_window(window_secs),
            r.per_ip_counters@.len() == 0,
            r.global_counters@.len() == 0,
    {
        let w = if window_secs > 60 {
            60
        } else {
            window_secs
        };
        let w = if w < 1 {
            1
        } else {
            w
        };
        SlidingWindowCounter {
            window_secs: w,
            per_ip_counters: Vec::new(),
            global_counters: Vec::new(),
        }
    }

    pub fn window_secs(&self) -> (r: u32)
        ensures
            r == self.window_secs,
    {
        self.window_secs
    }

    /// Records one packet at second `timestamp_secs`, for an address if one is
    /// given, and overall; counts that left the window are dropped first.
    pub fn record(&mut self, ip: Option<&str>, timestamp_secs: u64)
        requires
            old(self).wf(),
            total(old(self).global_counters@) < u32::MAX,
            bounded(ip_view(old(self).per_ip_counters@), u32::MAX - 1),
        ensures
            final(self).wf(),
            final(self).window_secs == old(self).window_secs,
            total(final(self).global_counters@) <= total(old(self).global_counters@) + 1,
            forall|b: int|
                0 <= b < u32::MAX && #[trigger] bounded(ip_view(old(self).per_ip_counters@), b)
                    ==> bounded(ip_view(final(self).per_ip_counters@), b + 1),
            final(self).global_counters@ == rec_global(
                old(self).global_counters@,
                old(self).window_secs,
                timestamp_secs,
            ),
            ip_view(final(self).per_ip_counters@) == rec_ips(
                ip_view(old(self).per_ip_counters@),
                old(self).window_secs,
                opt_text(ip),
                timestamp_secs,
            ),
            record_step(*old(self), *final(self), (opt_text(ip), timestamp_secs)),
    {
        let thr = timestamp_secs.saturating_sub(self.window_secs as u64);
        self.cleanup_old_entries(timestamp_secs);
        let ghost pruned = ip_view(self.per_ip_counters@);
        proof {
            lemma_prune_bounded(ip_view(old(self).per_ip_counters@), thr, u32::MAX - 1);
        }
        match ip {
            Some(k) => {
                let mut i: usize = 0;
                while i < self.per_ip_counters.len()
                    invariant
                        i <= self.per_ip_counters@.len(),
                        ip_view(self.per_ip_counters@) == pruned,
                        forall|j: int| 0 <= j < i ==> (#[trigger] pruned[j]).0 != k@,
                    ensures
                        i <= self.per_ip_counters@.len(),
                        ip_view(self.per_ip_counters@) == pruned,
                        forall|j: int| 0 <= j < i ==> (#[trigger] pruned[j]).0 != k@,
                        i < self.per_ip_counters@.len() ==> pruned[i as int].0 == k@,
                    decreases self.per_ip_counters.len() - i,
                {
                    if same_text(self.per_ip_counters[i].0.as_str(), k) {
                        break;
                    }
                    i = i + 1;
                }
                proof {
                    lemma_record_ip_at(pruned, i as int, k@, timestamp_secs);
                    lemma_record_ip_bounded(pruned, k@, timestamp_secs, u32::MAX - 1);
                }
                if i < self.per_ip_counters.len() {
                    let (name, mut counter) = self.per_ip_counters.remove(i);
                    proof {
                        assert(pruned.skip(i as int)[0] == pruned[i as int]);
                        lemma_lookup_bounded(pruned, k@, u32::MAX - 1);
                        assert(counter@ == pruned[i as int].1);
                        assert(pruned.skip(i as int).drop_first() =~= pruned.skip(i + 1));
                    }
                    add_to_counter(&mut counter, timestamp_secs);
                    self.per_ip_counters.insert(i, (name, counter));
                    assert(ip_view(self.per_ip_counters@) =~= pruned.take(i as int) + record_ip(
                        pruned.skip(i as int),
                        k@,
                        timestamp_secs,
                    ));
                } else {
                    let mut counter: Vec<(u64, u32)> = Vec::new();
                    add_to_counter(&mut counter, timestamp_secs);
                    self.per_ip_counters.push((String::from_str(k), counter));
                    assert(pruned.skip(i as int) =~= Seq::<(Seq<char>, Buckets)>::empty());
                    assert(ip_view(self.per_ip_counters@) =~= pruned.take(i as int) + record_ip(
                        pruned.skip(i as int),
                        k@,
                        timestamp_secs,
                    ));
                }
                proof {
                    lemma_bounded_weaken(record_ip(pruned, k@, timestamp_secs), u32::MAX as int, u32::MAX as int);
                }
            },
            None => {
                proof {
                    lemma_bounded_weaken(pruned, u32::MAX - 1, u32::MAX as int);
                }
            },
        }
        proof {
            lemma_drop_expired_total(old(self).global_counters@, thr);
            assert forall|b: int|
                0 <= b < u32::MAX && #[trigger] bounded(ip_view(old(self).per_ip_counters@), b)
                    implies bounded(ip_view(self.per_ip_counters@), b + 1) by {
                lemma_prune_bounded(ip_view(old(self).per_ip_counters@), thr, b);
                match ip {
                    Some(k) => lemma_record_ip_bounded(pruned, k@, timestamp_secs, b),
                    None => lemma_bounded_weaken(pruned, b, b + 1),
                }
            }
        }
        add_to_counter(&mut self.global_counters, timestamp_secs);
    }

    /// Packets counted in the window that ends at `timestamp_secs`, for an
    /// address (0 for one never seen) or overall.
    pub fn count(&self, ip: Option<&str>, timestamp_secs: u64) -> (r: u32)
        requires
            self.wf(),
        ensures
            r == (match ip {
                Some(k) => match lookup(ip_view(self.per_ip_counters@), k@) {
                    Some(c) => in_window(c, window_start(timestamp_secs, self.window_secs)),
                    None => 0,
                },
                None => in_window(
                    self.global_counters@,
                    window_start(timestamp_secs, self.window_secs),
                ),
            }),
    {
        let threshold = timestamp_secs.saturating_sub(self.window_secs as u64);
        match ip {
            Some(k) => {
                let ghost m = ip_view(self.per_ip_counters@);
                let mut i: usize = 0;
                while i < self.per_ip_counters.len()
                    invariant
                        self.wf(),
                        ip == Some(k),
                        threshold == window_start(timestamp_secs, self.window_secs),
                        i <= self.per_ip_counters@.len(),
                        m == ip_view(self.per_ip_counters@),
                        forall|j: int| 0 <= j < i ==> (#[trigger] m[j]).0 != k@,
                    decreases self.per_ip_counters.len() - i,
                {
                    if same_text(self.per_ip_counters[i].0.as_str(), k) {
                        proof {
                            assert(m[i as int] == (self.per_ip_counters@[i as int].0@, self.per_ip_counters@[i as int].1@));
                            lemma_record_ip_at(m, i as int, k@, timestamp_secs);
                            assert(m.skip(i as int)[0] == m[i as int]);
                            assert(m[i as int].1 == self.per_ip_counters@[i as int].1@);
                            assert(lookup(m.skip(i as int), k@) == Some(m[i as int].1));
                            lemma_lookup_bounded(m, k@, u32::MAX as int);
                        }
                        let r = sum_window(&self.per_ip_counters[i].1, threshold);
                        return r;
                    }
                    i = i + 1;
                }
                proof {
                    lemma_record_ip_at(m, i as int, k@, timestamp_secs);
                    assert(m.skip(i as int) =~= Seq::<(Seq<char>, Buckets)>::empty());
                }
                0
            },
            None => sum_window(&self.global_counters, threshold),
        }
    }

    fn cleanup_old_entries(&mut self, current_secs: u64)
        requires
            old(self).wf(),
        ensures
            final(self).window_secs == old(self).window_secs,
            final(self).global_counters@ == drop_expired(
                old(self).global_counters@,
                window_start(current_secs, old(self).window_secs),
            ),
            ip_view(final(self).per_ip_counters@) == prune(
                ip_view(old(self).per_ip_counters@),
                window_start(current_secs, old(self).window_secs),
            ),
    {
        let threshold = current_secs.saturating_sub(self.window_secs as u64);
        self.global_counters = drop_expired_vec(&self.global_counters, threshold);
        let ghost m = ip_view(self.per_ip_counters@);
        let mut kept: Vec<(String, Vec<(u64, u32)>)> = Vec::new();
        let mut i: usize = 0;
        assert(prune(m.take(0), threshold) =~= Seq::<(Seq<char>, Buckets)>::empty());
        while i < self.per_ip_counters.len()
            invariant
                i <= self.per_ip_counters@.len(),
                m == ip_view(self.per_ip_counters@),
                ip_view(kept@) == prune(m.take(i as int), threshold),
            decreases self.per_ip_counters.len() - i,
        {
            let c = drop_expired_vec(&self.per_ip_counters[i].1, threshold);
            proof {
                lemma_prune_split(m.take(i + 1), i as int, threshold);
                assert(m.take(i + 1).take(i as int) =~= m.take(i as int));
                assert(m.take(i + 1).skip(i as int) =~= seq![m[i as int]]);
                assert(seq![m[i as int]].drop_first() =~= Seq::<(Seq<char>, Buckets)>::empty());
            }
            proof {
                let x = m[i as int];
                assert(x == (self.per_ip_counters@[i as int].0@, self.per_ip_counters@[i as int].1@));
                assert(seq![x][0] == x);
                assert(seq![x].drop_first() =~= Seq::<(Seq<char>, Buckets)>::empty());
                assert(prune(Seq::<(Seq<char>, Buckets)>::empty(), threshold) =~= Seq::<(Seq<char>, Buckets)>::empty());
                assert(prune(seq![x], threshold) == if c@.len() == 0 {
                    Seq::<(Seq<char>, Buckets)>::empty()
                } else {
                    seq![(m[i as int].0, c@)]
                });
                if c@.len() == 0 {
                    assert(prune(m.take(i as int), threshold) + Seq::<(Seq<char>, Buckets)>::empty() =~= prune(m.take(i as int), threshold));
                }
            }
            if c.len() > 0 {
                kept.push((self.per_ip_counters[i].0.clone(), c));
                assert(ip_view(kept@) =~= prune(m.take(i as int), threshold) + seq![(m[i as int].0, c@)]);
            }
            i = i + 1;
        }
        assert(m.take(i as int) =~= m);
        self.per_ip_counters = kept;
    }

    /// Seconds since the Unix epoch, 0 if the clock is before it.
    #[verifier::external_body]
    pub fn current_timestamp_secs() -> u64 {
        std::time::SystemTime::now().duration_since(std::time::SystemTime::UNIX_EPOCH).map(|d| d.as_secs()).unwrap_or(0)
    }
}

/// The sliding-window counters in use, one per window length and kind
/// (per address or overall).
pub struct RateCounterManager {
    pub counters: Vec<((u32, bool), SlidingWindowCounter)>,
}

/// Every counter can take `n` more packets, overall and per address.
pub open spec fn counters_room(c: Seq<((u32, bool), SlidingWindowCounter)>, n: int) -> bool {
    forall|i: int|
        0 <= i < c.len() ==> total((#[trigger] c[i]).1.global_counters@) + n <= u32::MAX
            && bounded(ip_view(c[i].1.per_ip_counters@), u32::MAX - n)
}

pub open spec fn manager_keys_unique(c: Seq<((u32, bool), SlidingWindowCounter)>) -> bool {
    forall|i: int, j: int| 0 <= i < j < c.len() ==> (#[trigger] c[i]).0 != (#[trigger] c[j]).0
}

pub open spec fn has_counter(c: Seq<((u32, bool), SlidingWindowCounter)>, key: (u32, bool)) -> bool {
    exists|i: int| 0 <= i < c.len() && (#[trigger] c[i]).0 == key
}

pub open spec fn counter_index(c: Seq<((u32, bool), SlidingWindowCounter)>, key: (u32, bool)) -> int {
    choose|i: int| 0 <= i < c.len() && (#[trigger] c[i]).0 == key
}

/// A counter after one packet from `src` to `dst`: per-address counters count
/// it for both addresses, in that order; overall counters count it once.
pub open spec fn counted_packet(
    o: SlidingWindowCounter,
    f: SlidingWindowCounter,
    per_ip: bool,
    src: Seq<char>,
    dst: Seq<char>,
    t: u64,
) -> bool {
    let w = o.window_secs;
    &&& f.window_secs == w
    &&& if per_ip {
        &&& f.global_counters@ == rec_global(rec_global(o.global_counters@, w, t), w, t)
        &&& ip_view(f.per_ip_counters@) == rec_ips(
            rec_ips(ip_view(o.per_ip_counters@), w, Some(src), t),
            w,
            Some(dst),
            t,
        )
    } else {
        &&& f.global_counters@ == rec_global(o.global_counters@, w, t)
        &&& ip_view(f.per_ip_counters@) == rec_ips(ip_view(o.per_ip_counters@), w, None, t)
    }
}

/// A counter's window length, overall counts and per-address counts.
pub type CounterView = (u32, Buckets, IpCounts);

pub open spec fn counter_view(c: SlidingWindowCounter) -> CounterView {
    (c.window_secs, c.global_counters@, ip_view(c.per_ip_counters@))
}

/// The counters by key (window length, per address).
pub open spec fn manager_view(c: Seq<((u32, bool), SlidingWindowCounter)>) -> Seq<((u32, bool), CounterView)> {
    c.map_values(|e: ((u32, bool), SlidingWindowCounter)| (e.0, counter_view(e.1)))
}

/// A counter after one packet from `src` to `dst` (see `counted_packet`).
pub open spec fn counted_view(c: CounterView, per_ip: bool, src: Seq<char>, dst: Seq<char>, t: u64) -> CounterView {
    let w = c.0;
    if per_ip {
        (w, rec_global(rec_global(c.1, w, t), w, t), rec_ips(rec_ips(c.2, w, Some(src), t), w, Some(dst), t))
    } else {
        (w, rec_global(c.1, w, t), rec_ips(c.2, w, None, t))
    }
}

/// Every counter after one packet from `src` to `dst`.
pub open spec fn recorded_view(v: Seq<((u32, bool), CounterView)>, src: Seq<char>, dst: Seq<char>, t: u64) -> Seq<
    ((u32, bool), CounterView),
> {
    v.map_values(|e: ((u32, bool), CounterView)| (e.0, counted_view(e.1, e.0.1, src, dst, t)))
}

pub open spec fn view_has(v: Seq<((u32, bool), CounterView)>, key: (u32, bool)) -> bool {
    exists|i: int| 0 <= i < v.len() && (#[trigger] v[i]).0 == key
}

pub open spec fn view_index(v: Seq<((u32, bool), CounterView)>, key: (u32, bool)) -> int {
    choose|i: int| 0 <= i < v.len() && (#[trigger] v[i]).0 == key
}

/// A rate check: whether more than `thr` packets of the window (of address
/// `ip` where the counter is per address) are counted, and the counters after
/// it (a new empty counter where there was none for the key).
pub open spec fn rate_view(
    v: Seq<((u32, bool), CounterView)>,
    w: u32,
    thr: u32,
    per_ip: bool,
    ip: Seq<char>,
    t: u64,
) -> (bool, Seq<((u32, bool), CounterView)>) {
    if view_has(v, (w, per_ip)) {
        let c = v[view_index(v, (w, per_ip))].1;
        let ws = window_start(t, c.0);
        (
            (if per_ip {
                match lookup(c.2, ip) {
                    Some(b) => in_window(b, ws),
                    None => 0,
                }
            } else {
                in_window(c.1, ws)
            }) > thr,
            v,
        )
    } else {
        (false, v.push(((w, per_ip), (clamp_window(w), Seq::empty(), Seq::empty()))))
    }
}

proof fn lemma_rec_global_total(g: Buckets, w: u32, t: u64)
    requires
        total(g) < u32::MAX,
    ensures
        total(rec_global(g, w, t)) <= total(g) + 1,
{
    lemma_drop_expired_total(g, window_start(t, w));
    lemma_bumped_total(drop_expired(g, window_start(t, w)), t);
}

proof fn lemma_rec_ips_bounded(m: IpCounts, w: u32, ip: Option<Seq<char>>, t: u64, b: int)
    requires
        bounded(m, b),
        0 <= b,
        b + 1 <= u32::MAX,
    ensures
        bounded(rec_ips(m, w, ip, t), b + 1),
{
    lemma_prune_bounded(m, window_start(t, w), b);
    match ip {
        Some(k) => lemma_record_ip_bounded(prune(m, window_start(t, w)), k, t, b),
        None => lemma_bounded_weaken(prune(m, window_start(t, w)), b, b + 1),
    }
}

/// After one recorded packet, every counter has two fewer counts to spare.
pub proof fn lemma_recorded_room(
    o: Seq<((u32, bool), SlidingWindowCounter)>,
    f: Seq<((u32, bool), SlidingWindowCounter)>,
    src: Seq<char>,
    dst: Seq<char>,
    t: u64,
    n: int,
)
    requires
        2 <= n <= u32::MAX,
        counters_room(o, n),
        f.len() == o.len(),
        forall|i: int|
            0 <= i < o.len() ==> (#[trigger] f[i]).0 == o[i].0 && counted_packet(o[i].1, f[i].1, o[i].0.1, src, dst, t),
    ensures
        counters_room(f, n - 2),
{
    assert forall|i: int| 0 <= i < f.len() implies total((#[trigger] f[i]).1.global_counters@) + (n - 2) <= u32::MAX
        && bounded(ip_view(f[i].1.per_ip_counters@), u32::MAX - (n - 2)) by {
        let oc = o[i].1;
        let w = oc.window_secs;
        let g = oc.global_counters@;
        let m = ip_view(oc.per_ip_counters@);
        assert(total(g) + n <= u32::MAX);
        assert(bounded(m, u32::MAX - n));
        lemma_rec_global_total(g, w, t);
        lemma_rec_ips_bounded(m, w, if o[i].0.1 { Some(src) } else { None }, t, u32::MAX - n);
        if o[i].0.1 {
            lemma_rec_global_total(rec_global(g, w, t), w, t);
            lemma_rec_ips_bounded(rec_ips(m, w, Some(src), t), w, Some(dst), t, u32::MAX - n + 1);
        } else {
            lemma_bounded_weaken(rec_ips(m, w, None, t), u32::MAX - n + 1, u32::MAX - n + 2);
        }
    }
}

/// Room for `n` more counts leaves room for fewer.
pub proof fn lemma_room_weaken(c: Seq<((u32, bool), SlidingWindowCounter)>, n: int, k: int)
    requires
        counters_room(c, n),
        0 <= k <= n,
        n <= u32::MAX,
    ensures
        counters_room(c, k),
{
    assert forall|i: int| 0 <= i < c.len() implies total((#[trigger] c[i]).1.global_counters@) + k <= u32::MAX
        && bounded(ip_view(c[i].1.per_ip_counters@), u32::MAX - k) by {
        lemma_bounded_weaken(ip_view(c[i].1.per_ip_counters@), u32::MAX - n, u32::MAX - k);
    }
}

impl RateCounterManager {
    pub open spec fn wf(&self) -> bool {
        &&& manager_keys_unique(self.counters@)
        &&& forall|i: int| 0 <= i < self.counters@.len() ==> (#[trigger] self.counters@[i]).1.wf()
    }

    pub fn new() -> (r: Self)
        ensures
            r.wf(),
            r.counters@.len() == 0,
    {
        RateCounterManager { counters: Vec::new() }
    }

    fn find(&self, window_secs: u32, per_ip: bool) -> (r: Option<usize>)
        requires
            self.wf(),
        ensures
            match r {
                Some(i) => i < self.counters@.len() && self.counters@[i as int].0 == (window_secs, per_ip)
                    && has_counter(self.counters@, (window_secs, per_ip)) && counter_index(
                    self.counters@,
                    (window_secs, per_ip),
                ) == i,
                None => !has_counter(self.counters@, (window_secs, per_ip)),
            },
    {
        let mut i: usize = 0;
        while i < self.counters.len()
            invariant
                self.wf(),
                i <= self.counters@.len(),
                forall|j: int| 0 <= j < i ==> (#[trigger] self.counters@[j]).0 != (window_secs, per_ip),
            decreases self.counters.len() - i,
        {
            if self.counters[i].0.0 == window_secs && self.counters[i].0.1 == per_ip {
                let ghost c = counter_index(self.counters@, (window_secs, per_ip));
                assert(has_counter(self.counters@, (window_secs, per_ip)));
                assert(c == i) by {
                    if c > i {
                        assert(self.counters@[i as int].0 != self.counters@[c].0);
                    }
                }
                return Some(i);
            }
            i = i + 1;
        }
        None
    }

    fn index_or_create(&mut self, window_secs: u32, per_ip: bool) -> (i: usize)
        requires
            old(self).wf(),
        ensures
            final(self).wf(),
            i < final(self).counters@.len(),
            final(self).counters@[i as int].0 == (window_secs, per_ip),
            has_counter(old(self).counters@, (window_secs, per_ip)) ==> final(self).counters@
                == old(self).counters@ && i == counter_index(old(self).counters@, (window_secs, per_ip)),
            !has_counter(old(self).counters@, (window_secs, per_ip)) ==> {
                &&& final(self).counters@.drop_last() == old(self).counters@
                &&& i == old(self).counters@.len()
                &&& final(self).counters@[i as int].1.window_secs == clamp_window(window_secs)
                &&& final(self).counters@[i as int].1.per_ip_counters@.len() == 0
                &&& final(self).counters@[i as int].1.global_counters@.len() == 0
            },
    {
        match self.find(window_secs, per_ip) {
            Some(i) => i,
            None => {
                let ghost before = self.counters@;
                self.counters.push(((window_secs, per_ip), SlidingWindowCounter::new(window_secs)));
                proof {
                    assert(self.counters@.drop_last() =~= before);
                    assert forall|a: int, b: int| 0 <= a < b < self.counters@.len() implies (
                    #[trigger] self.counters@[a]).0 != (#[trigger] self.counters@[b]).0 by {
                        assert(self.counters@[a] == before[a]);
                        if b < before.len() {
                            assert(self.counters@[b] == before[b]);
                        }
                    }
                    assert forall|a: int| 0 <= a < self.counters@.len() implies (
                    #[trigger] self.counters@[a]).1.wf() by {
                        if a < before.len() {
                            assert(self.counters@[a] == before[a]);
                        }
                    }
                }
                self.counters.len() - 1
            },
        }
    }

    /// The counter for a window length and kind, created empty if there is none.
    pub fn get_or_create(&mut self, window_secs: u32, per_ip: bool) -> (r: &mut SlidingWindowCounter)
        requires
            old(self).wf(),
        ensures
            has_counter(old(self).counters@, (window_secs, per_ip)) ==> {
                let c = old(self).counters@;
                *r == c[counter_index(c, (window_secs, per_ip))].1
            },
            !has_counter(old(self).counters@, (window_secs, per_ip)) ==> r.window_secs
                == clamp_window(window_secs) && r.per_ip_counters@.len() == 0
                && r.global_counters@.len() == 0,
            r.wf(),
            ({
                let c = old(self).counters@;
                let key = (window_secs, per_ip);
                if has_counter(c, key) {
                    final(self).counters@ == c.update(counter_index(c, key), (key, *final(r)))
                } else {
                    final(self).counters@ == c.push((key, *final(r)))
                }
            }),
    {
        let i = self.index_or_create(window_secs, per_ip);
        &mut self.counters[i].1
    }

    /// Counts one packet in every counter.
    pub fn record_packet(&mut self, src_ip: &str, dst_ip: &str, timestamp_secs: u64)
        requires
            old(self).wf(),
            counters_room(old(self).counters@, 2),
        ensures
            final(self).wf(),
            final(self).counters@.len() == old(self).counters@.len(),
            manager_view(final(self).counters@) == recorded_view(
                manager_view(old(self).counters@),
                src_ip@,
                dst_ip@,
                timestamp_secs,
            ),
            forall|i: int|
                0 <= i < old(self).counters@.len() ==> (#[trigger] final(self).counters@[i]).0
                    == old(self).counters@[i].0 && counted_packet(
                    old(self).counters@[i].1,
                    final(self).counters@[i].1,
                    old(self).counters@[i].0.1,
                    src_ip@,
                    dst_ip@,
                    timestamp_secs,
                ),
    {
        let mut i: usize = 0;
        while i < self.counters.len()
            invariant
                i <= self.counters@.len(),
                self.counters@.len() == old(self).counters@.len(),
                manager_keys_unique(old(self).counters@),
                counters_room(old(self).counters@, 2),
                forall|j: int| 0 <= j < old(self).counters@.len() ==> (#[trigger] old(self).counters@[j]).1.wf(),
                forall|j: int| i <= j < self.counters@.len() ==> #[trigger] self.counters@[j] == old(self).counters@[j],
                forall|j: int|
                    0 <= j < i ==> (#[trigger] self.counters@[j]).0 == old(self).counters@[j].0
                        && self.counters@[j].1.wf() && counted_packet(
                        old(self).counters@[j].1,
                        self.counters@[j].1,
                        old(self).counters@[j].0.1,
                        src_ip@,
                        dst_ip@,
                        timestamp_secs,
                    ),
            decreases self.counters.len() - i,
        {
            let ghost before = self.counters@;
            let (key, mut counter) = self.counters.remove(i);
            let ghost o = counter;
            assert(o == old(self).counters@[i as int].1);
            proof {
                assert(total(old(self).counters@[i as int].1.global_counters@) + 2 <= u32::MAX);
                lemma_bounded_weaken(ip_view(o.per_ip_counters@), u32::MAX - 2, u32::MAX - 1);
            }
            if key.1 {
                counter.record(Some(src_ip), timestamp_secs);
                proof {
                    assert(bounded(ip_view(o.per_ip_counters@), u32::MAX - 2));
                }
                counter.record(Some(dst_ip), timestamp_secs);
            } else {
                counter.record(None, timestamp_secs);
            }
            self.counters.insert(i, (key, counter));
            proof {
                assert forall|j: int| i < j < self.counters@.len() implies #[trigger] self.counters@[j]
                    == old(self).counters@[j] by {
                    assert(self.counters@[j] == before[j]);
                }
                assert forall|j: int| 0 <= j < i implies (#[trigger] self.counters@[j]).0
                    == old(self).counters@[j].0 && self.counters@[j].1.wf() && counted_packet(
                    old(self).counters@[j].1,
                    self.counters@[j].1,
                    old(self).counters@[j].0.1,
                    src_ip@,
                    dst_ip@,
                    timestamp_secs,
                ) by {
                    assert(self.counters@[j] == before[j]);
                }
            }
            i = i + 1;
        }
        proof {
            assert forall|a: int, b: int| 0 <= a < b < self.counters@.len() implies (
            #[trigger] self.counters@[a]).0 != (#[trigger] self.counters@[b]).0 by {
                assert(self.counters@[a].0 == old(self).counters@[a].0);
                assert(self.counters@[b].0 == old(self).counters@[b].0);
            }
            assert(manager_view(self.counters@) =~= recorded_view(
                manager_view(old(self).counters@),
                src_ip@,
                dst_ip@,
                timestamp_secs,
            ));
        }
    }

    /// Whether more than `threshold` packets fall in the window (for the address
    /// `ip` when the counter is per address); creates the counter if it is new,
    /// and a new counter holds no packets.
    pub fn check_rate(
        &mut self,
        window_secs: u32,
        threshold: u32,
        src_ip: bool,
        ip: &str,
        timestamp_secs: u64,
    ) -> (r: bool)
        requires
            old(self).wf(),
        ensures
            final(self).wf(),
            (r, manager_view(final(self).counters@)) == rate_view(
                manager_view(old(self).counters@),
                window_secs,
                threshold,
                src_ip,
                ip@,
                timestamp_secs,
            ),
            forall|k: int|
                0 <= k <= u32::MAX && #[trigger] counters_room(old(self).counters@, k) ==> counters_room(
                    final(self).counters@,
                    k,
                ),
            has_counter(old(self).counters@, (window_secs, src_ip)) ==> {
                let c = old(self).counters@[counter_index(old(self).counters@, (window_secs, src_ip))].1;
                let ws = window_start(timestamp_secs, c.window_secs);
                &&& final(self).counters@ == old(self).counters@
                &&& r == (if src_ip {
                    match lookup(ip_view(c.per_ip_counters@), ip@) {
                        Some(b) => in_window(b, ws),
                        None => 0,
                    }
                } else {
                    in_window(c.global_counters@, ws)
                } > threshold)
            },
            !has_counter(old(self).counters@, (window_secs, src_ip)) ==> {
                let f = final(self).counters@;
                &&& !r
                &&& f.drop_last() == old(self).counters@
                &&& f.last().0 == (window_secs, src_ip)
                &&& f.last().1.window_secs == clamp_window(window_secs)
                &&& f.last().1.per_ip_counters@.len() == 0
                &&& f.last().1.global_counters@.len() == 0
            },
    {
        let i = self.index_or_create(window_secs, src_ip);
        let counter = &self.counters[i].1;
        proof {
            assert(counter.wf());
        }
        let count = if src_ip {
            counter.count(Some(ip), timestamp_secs)
        } else {
            counter.count(None, timestamp_secs)
        };
        proof {
            let ov = manager_view(old(self).counters@);
            let key = (window_secs, src_ip);
            if !has_counter(old(self).counters@, key) {
                assert(ip_view(counter.per_ip_counters@) =~= Seq::<(Seq<char>, Buckets)>::empty());
                assert(counter.global_counters@ =~= Seq::<(u64, u32)>::empty());
                assert(!view_has(ov, key)) by {
                    if view_has(ov, key) {
                        let j = view_index(ov, key);
                        assert(old(self).counters@[j].0 == key);
                    }
                }
                assert(manager_view(self.counters@) =~= ov.push((key, (clamp_window(window_secs), Seq::empty(), Seq::empty()))));
                assert(total(Seq::<(u64, u32)>::empty()) == 0);
                assert(bounded(Seq::<(Seq<char>, Buckets)>::empty(), 0));
                assert forall|k: int| 0 <= k <= u32::MAX && #[trigger] counters_room(old(self).counters@, k) implies counters_room(self.counters@, k) by {
                    assert forall|j: int| 0 <= j < self.counters@.len() implies total((#[trigger] self.counters@[j]).1.global_counters@) + k <= u32::MAX
                        && bounded(ip_view(self.counters@[j].1.per_ip_counters@), u32::MAX - k) by {
                        if j < old(self).counters@.len() {
                            assert(self.counters@[j] == old(self).counters@[j]);
                        } else {
                            assert(ip_view(self.counters@[j].1.per_ip_counters@) =~= Seq::<(Seq<char>, Buckets)>::empty());
                        }
                    }
                }
            } else {
                let j = counter_index(old(self).counters@, key);
                assert(ov[j].0 == key);
                assert(view_has(ov, key));
                let k = view_index(ov, key);
                assert(old(self).counters@[k].0 == key);
                assert(k == j) by {
                    if k != j {
                        if k < j {
                            assert(old(self).counters@[k].0 != old(self).counters@[j].0);
                        } else {
                            assert(old(self).counters@[j].0 != old(self).counters@[k].0);
                        }
                    }
                }
                assert(manager_view(self.counters@) =~= ov);
            }
        }
        count > threshold
    }
}

impl Default for RateCounterManager {
    fn default() -> (r: Self)
        ensures
            r.wf(),
            r.counters@.len() == 0,
    {
        RateCounterManager::new()
    }
}

// ---------------------------------------------------------------------------
// Counts over a run of records

/// Each address appears at most once.
pub open spec fn keys_once(m: IpCounts) -> bool
    decreases m.len(),
{
    m.len() == 0 || (lookup(m.drop_first(), m[0].0) is None && keys_once(m.drop_first()))
}

/// Packets of address `k` counted after `thr` (0 for an address not held).
pub open spec fn ip_in_window(m: IpCounts, k: Seq<char>, thr: u64) -> int {
    match lookup(m, k) {
        Some(c) => in_window(c, thr),
        None => 0,
    }
}

/// A run of records: the address, if any, and the second of each packet.
pub type Run = Seq<(Option<Seq<char>>, u64)>;

/// The overall counts of a fresh counter with window `w` after the run.
pub open spec fn run_global(w: u32, run: Run) -> Buckets
    decreases run.len(),
{
    if run.len() == 0 {
        Seq::empty()
    } else {
        rec_global(run_global(w, run.drop_last()), w, run.last().1)
    }
}

/// The per-address counts of a fresh counter with window `w` after the run.
pub open spec fn run_ips(w: u32, run: Run) -> IpCounts
    decreases run.len(),
{
    if run.len() == 0 {
        Seq::empty()
    } else {
        rec_ips(run_ips(w, run.drop_last()), w, run.last().0, run.last().1)
    }
}

/// How many records of the run fall after second `thr`: all of them, or
/// those of address `k` where `ip` is `Some(k)`.
pub open spec fn recent(run: Run, thr: u64, ip: Option<Seq<char>>) -> int
    decreases run.len(),
{
    if run.len() == 0 {
        0
    } else {
        recent(run.drop_last(), thr, ip) + if run.last().1 > thr && (ip is None || run.last().0 == ip) {
            1int
        } else {
            0
        }
    }
}

proof fn lemma_in_window_first(s: Buckets, thr: u64)
    requires
        s.len() > 0,
    ensures
        in_window(s, thr) == (if s[0].0 > thr {
            s[0].1 as int
        } else {
            0
        }) + in_window(s.drop_first(), thr),
    decreases s.len(),
{
    if s.len() > 1 {
        lemma_in_window_first(s.drop_last(), thr);
        assert(s.drop_last().drop_first() =~= s.drop_first().drop_last());
        assert(s.drop_first().last() == s.last());
    } else {
        assert(s.drop_last() =~= Seq::<(u64, u32)>::empty());
        assert(s.drop_first() =~= Seq::<(u64, u32)>::empty());
    }
}

proof fn lemma_in_window_expired(s: Buckets, d: u64, thr: u64)
    requires
        d <= thr,
    ensures
        in_window(drop_expired(s, d), thr) == in_window(s, thr),
    decreases s.len(),
{
    if s.len() > 0 && s[0].0 <= d {
        lemma_in_window_expired(s.drop_first(), d, thr);
        lemma_in_window_first(s, thr);
    }
}

proof fn lemma_in_window_bumped(s: Buckets, x: u64, thr: u64)
    requires
        s.len() > 0 && s.last().0 == x ==> s.last().1 < u32::MAX,
    ensures
        in_window(bumped(s, x), thr) == in_window(s, thr) + if x > thr {
            1int
        } else {
            0
        },
{
    if s.len() > 0 && s.last().0 == x {
        assert(bumped(s, x).drop_last() =~= s.drop_last());
    } else {
        assert(s.push((x, 1u32)).drop_last() =~= s);
    }
}

proof fn lemma_last_within_total(s: Buckets)
    requires
        s.len() > 0,
    ensures
        s.last().1 <= total(s),
{
    lemma_total_nonneg(s.drop_last());
}

proof fn lemma_prune_lookup(m: IpCounts, d: u64, k: Seq<char>)
    requires
        keys_once(m),
    ensures
        keys_once(prune(m, d)),
        lookup(prune(m, d), k) == match lookup(m, k) {
            Some(c) => if drop_expired(c, d).len() == 0 {
                None
            } else {
                Some(drop_expired(c, d))
            },
            None => None,
        },
    decreases m.len(),
{
    if m.len() > 0 {
        let rest = prune(m.drop_first(), d);
        let c = drop_expired(m[0].1, d);
        lemma_prune_lookup(m.drop_first(), d, k);
        lemma_prune_lookup(m.drop_first(), d, m[0].0);
        if c.len() > 0 {
            let r = seq![(m[0].0, c)] + rest;
            assert(r.drop_first() =~= rest);
            assert(r[0] == (m[0].0, c));
            assert(prune(m, d) == r);
        }
    }
}

proof fn lemma_record_lookup(m: IpCounts, k: Seq<char>, t: u64, k2: Seq<char>)
    requires
        keys_once(m),
    ensures
        keys_once(record_ip(m, k, t)),
        lookup(record_ip(m, k, t), k2) == if k2 == k {
            Some(
                bumped(
                    match lookup(m, k) {
                        Some(c) => c,
                        None => Seq::empty(),
                    },
                    t,
                ),
            )
        } else {
            lookup(m, k2)
        },
    decreases m.len(),
{
    let r = record_ip(m, k, t);
    if m.len() == 0 {
        assert(r.drop_first() =~= Seq::<(Seq<char>, Buckets)>::empty());
        assert(r[0] == (k, bumped(Seq::empty(), t)));
        assert(r.len() == 1);
        assert(lookup(r.drop_first(), k) is None);
        assert(lookup(r, k2) == if k2 == k {
            Some(bumped(Seq::<(u64, u32)>::empty(), t))
        } else {
            None::<Buckets>
        });
        assert(keys_once(r.drop_first()));
    } else if m[0].0 == k {
        assert(r.drop_first() =~= m.drop_first());
        assert(r[0] == (k, bumped(m[0].1, t)));
        assert(lookup(m.drop_first(), m[0].0) is None && keys_once(m.drop_first()));
        assert(lookup(r.drop_first(), r[0].0) is None);
        assert(keys_once(r.drop_first()));
        assert(r.len() > 0);
        assert(lookup(m, k) == Some(m[0].1));
        assert(k2 != k ==> lookup(m, k2) == lookup(m.drop_first(), k2));
        assert(k2 != k ==> lookup(r, k2) == lookup(r.drop_first(), k2));
    } else {
        lemma_record_lookup(m.drop_first(), k, t, k2);
        lemma_record_lookup(m.drop_first(), k, t, m[0].0);
        assert(r.drop_first() =~= record_ip(m.drop_first(), k, t));
        assert(r[0] == m[0]);
        assert(r.len() > 0);
        assert(lookup(m, k) == lookup(m.drop_first(), k));
        assert(k2 != m[0].0 ==> lookup(r, k2) == lookup(r.drop_first(), k2));
        assert(k2 != m[0].0 ==> lookup(m, k2) == lookup(m.drop_first(), k2));
        assert(lookup(r.drop_first(), r[0].0) is None);
        assert(keys_once(r.drop_first()));
    }
}

proof fn lemma_window_start_mono(a: u64, b: u64, w: u32)
    requires
        a <= b,
    ensures
        window_start(a, w) <= window_start(b, w),
{
}

/// One record moves the per-address count at `thr` only for its own address,
/// and by one exactly when its second is after `thr`.
proof fn lemma_ip_step(m: IpCounts, w: u32, ip: Option<Seq<char>>, t: u64, k: Seq<char>, thr: u64, b: int)
    requires
        keys_once(m),
        bounded(m, b),
        0 <= b < u32::MAX,
        window_start(t, w) <= thr,
    ensures
        keys_once(rec_ips(m, w, ip, t)),
        ip_in_window(rec_ips(m, w, ip, t), k, thr) == ip_in_window(m, k, thr) + if t > thr && ip
            == Some(k) {
            1int
        } else {
            0
        },
{
    let d = window_start(t, w);
    let pruned = prune(m, d);
    lemma_prune_lookup(m, d, k);
    lemma_prune_bounded(m, d, b);
    match lookup(m, k) {
        Some(c) => {
            lemma_in_window_expired(c, d, thr);
        },
        None => {},
    }
    assert(ip_in_window(pruned, k, thr) == ip_in_window(m, k, thr));
    match ip {
        Some(k1) => {
            lemma_record_lookup(pruned, k1, t, k);
            if k1 == k {
                let c1 = match lookup(pruned, k) {
                    Some(c) => c,
                    None => Seq::<(u64, u32)>::empty(),
                };
                lemma_lookup_bounded(pruned, k, b);
                if c1.len() > 0 {
                    lemma_last_within_total(c1);
                }
                lemma_in_window_bumped(c1, t, thr);
            }
        },
        None => {},
    }
}

/// A counter that starts empty and records the run counts, at any second `t`
/// no earlier than any second of the run, exactly the recorded packets after
/// the window start: overall, and for each address those of that address.
pub proof fn lemma_counts_of_run(w: u32, run: Run, t: u64)
    requires
        run.len() < u32::MAX,
        forall|i: int| 0 <= i < run.len() ==> (#[trigger] run[i]).1 <= t,
    ensures
        in_window(run_global(w, run), window_start(t, w)) == recent(run, window_start(t, w), None),
        forall|k: Seq<char>| #[trigger]
            ip_in_window(run_ips(w, run), k, window_start(t, w)) == recent(
                run,
                window_start(t, w),
                Some(k),
            ),
        total(run_global(w, run)) <= run.len(),
        bounded(run_ips(w, run), run.len() as int),
        keys_once(run_ips(w, run)),
    decreases run.len(),
{
    let thr = window_start(t, w);
    if run.len() == 0 {
        assert(bounded(Seq::<(Seq<char>, Buckets)>::empty(), 0));
    } else {
        let p = run.drop_last();
        let (ip, x) = run.last();
        assert forall|i: int| 0 <= i < p.len() implies (#[trigger] p[i]).1 <= t by {
            assert(p[i] == run[i]);
        }
        lemma_counts_of_run(w, p, t);
        assert(run[run.len() - 1] == run.last());
        lemma_window_start_mono(x, t, w);
        let g = run_global(w, p);
        let d = window_start(x, w);
        let dg = drop_expired(g, d);
        lemma_in_window_expired(g, d, thr);
        lemma_drop_expired_total(g, d);
        if dg.len() > 0 {
            lemma_last_within_total(dg);
        }
        lemma_in_window_bumped(dg, x, thr);
        lemma_bumped_total(dg, x);
        let m = run_ips(w, p);
        let b = p.len() as int;
        assert forall|k: Seq<char>| #[trigger]
            ip_in_window(run_ips(w, run), k, thr) == recent(run, thr, Some(k)) by {
            lemma_ip_step(m, w, ip, x, k, thr, b);
        }
        lemma_ip_step(m, w, ip, x, Seq::empty(), thr, b);
        lemma_prune_bounded(m, d, b);
        match ip {
            Some(k) => lemma_record_ip_bounded(prune(m, d), k, x, b),
            None => lemma_bounded_weaken(prune(m, d), b, b + 1),
        }
    }
}

// ---------------------------------------------------------------------------
// Room checks

proof fn lemma_bounded_all(m: IpCounts, b: int)
    ensures
        bounded(m, b) == forall|i: int| 0 <= i < m.len() ==> total((#[trigger] m[i]).1) <= b,
    decreases m.len(),
{
    if m.len() > 0 {
        lemma_bounded_all(m.drop_first(), b);
        if bounded(m, b) {
            assert forall|i: int| 0 <= i < m.len() implies total((#[trigger] m[i]).1) <= b by {
                if i > 0 {
                    assert(m.drop_first()[i - 1] == m[i]);
                }
            }
        }
        if forall|i: int| 0 <= i < m.len() ==> total((#[trigger] m[i]).1) <= b {
            assert forall|i: int| 0 <= i < m.drop_first().len() implies total(
                (#[trigger] m.drop_first()[i]).1,
            ) <= b by {
                assert(m.drop_first()[i] == m[i + 1]);
            }
            assert(total(m[0].1) <= b);
        }
    }
}

/// Whether all the counts of `v` sum to at most `limit`.
fn total_within(v: &Vec<(u64, u32)>, limit: u64) -> (b: bool)
    requires
        limit <= u32::MAX,
    ensures
        b == (total(v@) <= limit),
{
    let mut sum: u64 = 0;
    let mut i: usize = 0;
    assert(v@.take(0) =~= Seq::<(u64, u32)>::empty());
    while i < v.len()
        invariant
            i <= v@.len(),
            sum == total(v@.take(i as int)),
            sum <= limit,
            limit <= u32::MAX,
        decreases v.len() - i,
    {
        assert(v@.take(i + 1).drop_last() =~= v@.take(i as int));
        assert(v@.take(i + 1).last() == v@[i as int]);
        sum = sum + v[i].1 as u64;
        if sum > limit {
            proof {
                lemma_total_prefix(v@, i + 1);
            }
            return false;
        }
        i = i + 1;
    }
    assert(v@.take(i as int) =~= v@);
    true
}

impl SlidingWindowCounter {
    /// Whether the counter can take `n` more packets, overall and for each
    /// address.
    pub fn has_room(&self, n: u32) -> (b: bool)
        ensures
            b == (total(self.global_counters@) + n <= u32::MAX && bounded(
                ip_view(self.per_ip_counters@),
                u32::MAX - n,
            )),
    {
        let lim = (u32::MAX - n) as u64;
        if !total_within(&self.global_counters, lim) {
            return false;
        }
        let ghost m = ip_view(self.per_ip_counters@);
        proof {
            lemma_bounded_all(m, u32::MAX - n);
        }
        let mut i: usize = 0;
        while i < self.per_ip_counters.len()
            invariant
                i <= self.per_ip_counters@.len(),
                m == ip_view(self.per_ip_counters@),
                m.len() == self.per_ip_counters@.len(),
                lim == u32::MAX - n,
                forall|j: int| 0 <= j < i ==> total((#[trigger] m[j]).1) <= lim,
            decreases self.per_ip_counters.len() - i,
        {
            assert(m[i as int].1 == self.per_ip_counters@[i as int].1@);
            if !total_within(&self.per_ip_counters[i].1, lim) {
                proof {
                    lemma_bounded_all(m, u32::MAX - n);
                    assert(total(m[i as int].1) > u32::MAX - n);
                }
                return false;
            }
            i = i + 1;
        }
        assert(bounded(m, u32::MAX - n));
        true
    }
}

impl RateCounterManager {
    /// Whether every counter can take `n` more packets.
    pub fn has_room(&self, n: u32) -> (b: bool)
        ensures
            b == counters_room(self.counters@, n as int),
    {
        let mut i: usize = 0;
        while i < self.counters.len()
            invariant
                i <= self.counters@.len(),
                forall|j: int|
                    0 <= j < i ==> total((#[trigger] self.counters@[j]).1.global_counters@) + n <= u32::MAX
                        && bounded(ip_view(self.counters@[j].1.per_ip_counters@), u32::MAX - n),
            decreases self.counters.len() - i,
        {
            if !self.counters[i].1.has_room(n) {
                return false;
            }
            i = i + 1;
        }
        true
    }
}

// ---------------------------------------------------------------------------
// Counts after a run of `record` calls

/// One `record` call, as it states: the window stays, the counts are those
/// of recording the address and second of `e`.
pub open spec fn record_step(pre: SlidingWindowCounter, post: SlidingWindowCounter, e: (Option<Seq<char>>, u64)) -> bool {
    &&& post.window_secs == pre.window_secs
    &&& post.global_counters@ == rec_global(pre.global_counters@, pre.window_secs, e.1)
    &&& ip_view(post.per_ip_counters@) == rec_ips(ip_view(pre.per_ip_counters@), pre.window_secs, e.0, e.1)
}

/// `cs[0]` is a counter with nothing counted, and each `cs[i + 1]` is
/// `cs[i]` after recording `run[i]`.
pub open spec fn recorded_run(cs: Seq<SlidingWindowCounter>, run: Run) -> bool {
    &&& cs.len() == run.len() + 1
    &&& cs[0].global_counters@.len() == 0
    &&& cs[0].per_ip_counters@.len() == 0
    &&& forall|i: int| 0 <= i < run.len() ==> #[trigger] record_step(cs[i], cs[i + 1], run[i])
}

proof fn lemma_recorded_prefix(cs: Seq<SlidingWindowCounter>, run: Run, i: int)
    requires
        recorded_run(cs, run),
        0 <= i <= run.len(),
    ensures
        cs[i].window_secs == cs[0].window_secs,
        cs[i].global_counters@ == run_global(cs[0].window_secs, run.take(i)),
        ip_view(cs[i].per_ip_counters@) == run_ips(cs[0].window_secs, run.take(i)),
    decreases i,
{
    if i == 0 {
        assert(ip_view(cs[0].per_ip_counters@) =~= Seq::<(Seq<char>, Buckets)>::empty());
    } else {
        lemma_recorded_prefix(cs, run, i - 1);
        assert(record_step(cs[i - 1], cs[i - 1 + 1], run[i - 1]));
        assert(run.take(i).drop_last() =~= run.take(i - 1));
        assert(run.take(i).last() == run[i - 1]);
    }
}

/// A counter that records a run of packets from nothing counts, at any
/// second `t` no earlier than those of the run, exactly the recorded packets
/// after `t` less the window: overall all of them, and for an address those
/// recorded for it (0 for an address never recorded).
pub proof fn lemma_count_after_records(cs: Seq<SlidingWindowCounter>, run: Run, t: u64)
    requires
        recorded_run(cs, run),
        run.len() < u32::MAX,
        forall|i: int| 0 <= i < run.len() ==> (#[trigger] run[i]).1 <= t,
    ensures
        in_window(cs.last().global_counters@, window_start(t, cs.last().window_secs)) == recent(
            run,
            window_start(t, cs.last().window_secs),
            None,
        ),
        forall|k: Seq<char>| #[trigger]
            ip_in_window(ip_view(cs.last().per_ip_counters@), k, window_start(t, cs.last().window_secs))
                == recent(run, window_start(t, cs.last().window_secs), Some(k)),
{
    let n = run.len() as int;
    lemma_recorded_prefix(cs, run, n);
    assert(run.take(n) =~= run);
    assert(cs.last() == cs[n]);
    lemma_counts_of_run(cs[0].window_secs, run, t);
}

} // verus!
