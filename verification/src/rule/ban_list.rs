//! The list of banned addresses, one entry per address.
use vstd::prelude::*;
use crate::rule::models::BanEntry;
use crate::rule::rate_counter::SlidingWindowCounter;
use crate::text::same_text;

verus! {

pub open spec fn has_ip(s: Seq<BanEntry>, ip: Seq<char>) -> bool {
    exists|i: int| 0 <= i < s.len() && (#[trigger] s[i]).ip@ == ip
}

/// The position of the entry for `ip`.
pub open spec fn ip_index(s: Seq<BanEntry>, ip: Seq<char>) -> int {
    choose|i: int| 0 <= i < s.len() && (#[trigger] s[i]).ip@ == ip
}

/// The ban on an address, if there is one.
pub open spec fn ban_of(s: Seq<BanEntry>, ip: Seq<char>) -> Option<BanEntry> {
    if has_ip(s, ip) {
        Some(s[ip_index(s, ip)])
    } else {
        None
    }
}

/// Each address has at most one entry.
pub open spec fn ips_unique(s: Seq<BanEntry>) -> bool {
    forall|i: int, j: int| 0 <= i < j < s.len() ==> (#[trigger] s[i]).ip@ != (#[trigger] s[j]).ip@
}

/// The list with `e` stored under its address: an entry already there is
/// replaced in place, else `e` is appended.
pub open spec fn put(s: Seq<BanEntry>, e: BanEntry) -> Seq<BanEntry> {
    if has_ip(s, e.ip@) {
        s.update(ip_index(s, e.ip@), e)
    } else {
        s.push(e)
    }
}

/// The list without the entry for `ip`.
pub open spec fn without(s: Seq<BanEntry>, ip: Seq<char>) -> Seq<BanEntry> {
    if has_ip(s, ip) {
        s.remove(ip_index(s, ip))
    } else {
        s
    }
}

/// The entries stored one after the other into an empty list.
pub open spec fn put_all(list: Seq<BanEntry>) -> Seq<BanEntry>
    decreases list.len(),
{
    if list.len() == 0 {
        Seq::empty()
    } else {
        put(put_all(list.drop_last()), list.last())
    }
}

/// The entries that have not expired at `now`, in order.
pub open spec fn unexpired(s: Seq<BanEntry>, now: u64) -> Seq<BanEntry>
    decreases s.len(),
{
    if s.len() == 0 {
        Seq::empty()
    } else if s.last().expired_at(now) {
        unexpired(s.drop_last(), now)
    } else {
        unexpired(s.drop_last(), now).push(s.last())
    }
}

/// Whether `ip` is under a ban that has not expired at `now`.
pub open spec fn banned_at(s: Seq<BanEntry>, ip: Seq<char>, now: u64) -> bool {
    match ban_of(s, ip) {
        Some(e) => !e.expired_at(now),
        None => false,
    }
}

pub proof fn lemma_ban_of_at(s: Seq<BanEntry>, i: int)
    requires
        ips_unique(s),
        0 <= i < s.len(),
    ensures
        ban_of(s, s[i].ip@) == Some(s[i]),
{
    assert(has_ip(s, s[i].ip@));
    let j = ip_index(s, s[i].ip@);
    if j != i {
        if j < i {
            assert(s[j].ip@ != s[i].ip@);
        } else {
            assert(s[i].ip@ != s[j].ip@);
        }
    }
}

proof fn lemma_put_unique(s: Seq<BanEntry>, e: BanEntry)
    requires
        ips_unique(s),
    ensures
        ips_unique(put(s, e)),
{
    let r = put(s, e);
    if has_ip(s, e.ip@) {
        let k = ip_index(s, e.ip@);
        assert forall|i: int, j: int| 0 <= i < j < r.len() implies (#[trigger] r[i]).ip@ != (
        #[trigger] r[j]).ip@ by {
            if i != k && j != k {
                assert(r[i] == s[i] && r[j] == s[j]);
            } else if i == k {
                assert(r[j] == s[j]);
                assert(s[k].ip@ != s[j].ip@);
            } else {
                assert(r[i] == s[i]);
                assert(s[i].ip@ != s[k].ip@);
            }
        }
    } else {
        assert forall|i: int, j: int| 0 <= i < j < r.len() implies (#[trigger] r[i]).ip@ != (
        #[trigger] r[j]).ip@ by {
            assert(r[i] == s[i]);
            if j < s.len() {
                assert(r[j] == s[j]);
            }
        }
    }
}

proof fn lemma_without_unique(s: Seq<BanEntry>, ip: Seq<char>)
    requires
        ips_unique(s),
    ensures
        ips_unique(without(s, ip)),
{
    let r = without(s, ip);
    if has_ip(s, ip) {
        let k = ip_index(s, ip);
        assert forall|i: int, j: int| 0 <= i < j < r.len() implies (#[trigger] r[i]).ip@ != (
        #[trigger] r[j]).ip@ by {
            let a = if i < k { i } else { i + 1 };
            let b = if j < k { j } else { j + 1 };
            assert(r[i] == s[a]);
            assert(r[j] == s[b]);
        }
    }
}

/// After storing an entry, the address has exactly that entry and every other
/// address keeps its own.
pub proof fn lemma_put_then_lookup(s: Seq<BanEntry>, e: BanEntry, k: Seq<char>)
    requires
        ips_unique(s),
    ensures
        ban_of(put(s, e), k) == (if k == e.ip@ {
            Some(e)
        } else {
            ban_of(s, k)
        }),
{
    let r = put(s, e);
    lemma_put_unique(s, e);
    if has_ip(s, e.ip@) {
        let idx = ip_index(s, e.ip@);
        if k == e.ip@ {
            assert(r[idx] == e);
            lemma_ban_of_at(r, idx);
        } else if has_ip(s, k) {
            let j = ip_index(s, k);
            assert(j != idx);
            assert(r[j] == s[j]);
            lemma_ban_of_at(r, j);
            lemma_ban_of_at(s, j);
        } else {
            assert forall|i: int| 0 <= i < r.len() implies (#[trigger] r[i]).ip@ != k by {
                if i != idx {
                    assert(r[i] == s[i]);
                }
            }
        }
    } else {
        if k == e.ip@ {
            assert(r[s.len() as int] == e);
            lemma_ban_of_at(r, s.len() as int);
        } else if has_ip(s, k) {
            let j = ip_index(s, k);
            assert(r[j] == s[j]);
            lemma_ban_of_at(r, j);
            lemma_ban_of_at(s, j);
        } else {
            assert forall|i: int| 0 <= i < r.len() implies (#[trigger] r[i]).ip@ != k by {
                if i < s.len() {
                    assert(r[i] == s[i]);
                }
            }
        }
    }
}

/// After removing the entry of an address, that address has none and every
/// other address keeps its own.
pub proof fn lemma_without_then_lookup(s: Seq<BanEntry>, ip: Seq<char>, k: Seq<char>)
    requires
        ips_unique(s),
    ensures
        ban_of(without(s, ip), k) == (if k == ip {
            None
        } else {
            ban_of(s, k)
        }),
{
    let r = without(s, ip);
    lemma_without_unique(s, ip);
    if has_ip(s, ip) {
        let idx = ip_index(s, ip);
        if k == ip {
            assert forall|i: int| 0 <= i < r.len() implies (#[trigger] r[i]).ip@ != k by {
                let a = if i < idx { i } else { i + 1 };
                assert(r[i] == s[a]);
                assert(a != idx);
                if a < idx {
                    assert(s[a].ip@ != s[idx].ip@);
                } else {
                    assert(s[idx].ip@ != s[a].ip@);
                }
            }
        } else if has_ip(s, k) {
            let j = ip_index(s, k);
            let jj = if j < idx { j } else { j - 1 };
            assert(r[jj] == s[j]);
            lemma_ban_of_at(r, jj);
            lemma_ban_of_at(s, j);
        } else {
            assert forall|i: int| 0 <= i < r.len() implies (#[trigger] r[i]).ip@ != k by {
                let a = if i < idx { i } else { i + 1 };
                assert(r[i] == s[a]);
            }
        }
    }
}

/// Banned addresses; the file they are kept in is handled by the caller.
pub struct BanListManager {
    pub entries: Vec<BanEntry>,
    pub file_path: Option<String>,
}

impl BanListManager {
    pub open spec fn wf(&self) -> bool {
        ips_unique(self.entries@)
    }

    pub fn new() -> (r: Self)
        ensures
            r.wf(),
            r.entries@.len() == 0,
            r.file_path is None,
    {
        BanListManager { entries: Vec::new(), file_path: None }
    }

    /// Records where the list is kept.
    pub fn set_file_path(&mut self, path: String)
        ensures
            final(self).entries == old(self).entries,
            final(self).file_path == Some(path),
    {
        self.file_path = Some(path);
    }

    fn find(&self, ip: &str) -> (r: Option<usize>)
        requires
            self.wf(),
        ensures
            match r {
                Some(i) => i < self.entries@.len() && has_ip(self.entries@, ip@) && ip_index(
                    self.entries@,
                    ip@,
                ) == i,
                None => !has_ip(self.entries@, ip@),
            },
    {
        let mut i: usize = 0;
        while i < self.entries.len()
            invariant
                self.wf(),
                i <= self.entries@.len(),
                forall|j: int| 0 <= j < i ==> (#[trigger] self.entries@[j]).ip@ != ip@,
            decreases self.entries.len() - i,
        {
            if same_text(self.entries[i].ip.as_str(), ip) {
                proof {
                    lemma_ban_of_at(self.entries@, i as int);
                    let c = ip_index(self.entries@, ip@);
                    if c != i {
                        if c < i {
                            assert(self.entries@[c].ip@ != self.entries@[i as int].ip@);
                        } else {
                            assert(self.entries@[i as int].ip@ != self.entries@[c].ip@);
                        }
                    }
                }
                return Some(i);
            }
            i = i + 1;
        }
        None
    }

    /// Stores a ban under its address, replacing any earlier ban of it.
    pub fn add_entry(&mut self, entry: BanEntry)
        requires
            old(self).wf(),
        ensures
            final(self).wf(),
            final(self).file_path == old(self).file_path,
            final(self).entries@ == put(old(self).entries@, entry),
    {
        proof {
            lemma_put_unique(self.entries@, entry);
        }
        match self.find(entry.ip.as_str()) {
            Some(i) => {
                self.entries.set(i, entry);
            },
            None => {
                self.entries.push(entry);
            },
        }
    }

    /// Replaces the list by the given entries, stored one after the other.
    pub fn load_entries(&mut self, list: Vec<BanEntry>)
        ensures
            final(self).wf(),
            final(self).file_path == old(self).file_path,
            final(self).entries@ == put_all(list@),
    {
        self.entries = Vec::new();
        let mut i: usize = 0;
        assert(list@.take(0) =~= Seq::<BanEntry>::empty());
        while i < list.len()
            invariant
                i <= list@.len(),
                self.wf(),
                self.file_path == old(self).file_path,
                self.entries@ == put_all(list@.take(i as int)),
            decreases list.len() - i,
        {
            assert(list@.take(i + 1).drop_last() =~= list@.take(i as int));
            self.add_entry(list[i].clone());
            i = i + 1;
        }
        assert(list@.take(i as int) =~= list@);
    }

    /// Whether an address is under a ban that has not expired at `now`.
    pub fn is_banned_at(&self, addr: &str, now: u64) -> (b: bool)
        requires
            self.wf(),
        ensures
            b == banned_at(self.entries@, addr@, now),
    {
        match self.find(addr) {
            Some(i) => {
                proof {
                    lemma_ban_of_at(self.entries@, i as int);
                }
                !self.entries[i].is_expired(now)
            },
            None => false,
        }
    }

    /// Whether an address is under a ban that has not expired now.
    pub fn is_banned(&self, addr: &str) -> (b: bool)
        requires
            self.wf(),
        ensures
            exists|now: u64| b == #[trigger] banned_at(self.entries@, addr@, now),
            b ==> has_ip(self.entries@, addr@),
    {
        let now = SlidingWindowCounter::current_timestamp_secs();
        self.is_banned_at(addr, now)
    }

    /// Whether either address is under a ban that has not expired at `now`.
    pub fn check_ip_match_at(&self, src_addr: &str, dst_addr: &str, now: u64) -> (b: bool)
        requires
            self.wf(),
        ensures
            b == (banned_at(self.entries@, src_addr@, now) || banned_at(
                self.entries@,
                dst_addr@,
                now,
            )),
    {
        self.is_banned_at(src_addr, now) || self.is_banned_at(dst_addr, now)
    }

    /// Whether either address is under a ban that has not expired now.
    pub fn check_ip_match(&self, src_addr: &str, dst_addr: &str) -> (b: bool)
        requires
            self.wf(),
        ensures
            exists|now: u64|
                b == (#[trigger] banned_at(self.entries@, src_addr@, now) || banned_at(
                    self.entries@,
                    dst_addr@,
                    now,
                )),
            b ==> has_ip(self.entries@, src_addr@) || has_ip(self.entries@, dst_addr@),
    {
        let now = SlidingWindowCounter::current_timestamp_secs();
        self.check_ip_match_at(src_addr, dst_addr, now)
    }

    /// All bans.
    pub fn get_all_entries(&self) -> (r: Vec<BanEntry>)
        ensures
            r@ == self.entries@,
    {
        let mut r: Vec<BanEntry> = Vec::new();
        let mut i: usize = 0;
        while i < self.entries.len()
            invariant
                i <= self.entries@.len(),
                r@ == self.entries@.take(i as int),
            decreases self.entries.len() - i,
        {
            r.push(self.entries[i].clone());
            assert(r@ =~= self.entries@.take(i + 1));
            i = i + 1;
        }
        assert(self.entries@.take(i as int) =~= self.entries@);
        r
    }

    /// Lifts the ban on an address, if there is one.
    pub fn unban(&mut self, ip: &str)
        requires
            old(self).wf(),
        ensures
            final(self).wf(),
            final(self).file_path == old(self).file_path,
            final(self).entries@ == without(old(self).entries@, ip@),
    {
        proof {
            lemma_without_unique(self.entries@, ip@);
        }
        match self.find(ip) {
            Some(i) => {
                let _gone = self.entries.remove(i);
            },
            None => {},
        }
    }

    /// Drops the bans expired at `now`; returns how many were dropped.
    pub fn cleanup_expired_at(&mut self, now: u64) -> (removed: usize)
        requires
            old(self).wf(),
        ensures
            final(self).wf(),
            final(self).file_path == old(self).file_path,
            final(self).entries@ == unexpired(old(self).entries@, now),
            removed == old(self).entries@.len() - final(self).entries@.len(),
    {
        let ghost s = self.entries@;
        let before = self.entries.len();
        let mut kept: Vec<BanEntry> = Vec::new();
        let mut i: usize = 0;
        assert(s.take(0) =~= Seq::<BanEntry>::empty());
        while i < self.entries.len()
            invariant
                i <= s.len(),
                s == self.entries@,
                before == s.len(),
                ips_unique(s),
                kept@ == unexpired(s.take(i as int), now),
                kept@.len() <= i,
                forall|a: int| 0 <= a < kept@.len() ==> exists|b: int| 0 <= b < i && #[trigger] kept@[a] == s[b],
                forall|a: int, c: int| 0 <= a < c < kept@.len() ==> (#[trigger] kept@[a]).ip@ != (#[trigger] kept@[c]).ip@,
            decreases self.entries.len() - i,
        {
            assert(s.take(i + 1).drop_last() =~= s.take(i as int));
            if !self.entries[i].is_expired(now) {
                let ghost k0 = kept@;
                kept.push(self.entries[i].clone());
                proof {
                    assert forall|a: int| 0 <= a < kept@.len() implies exists|b: int| 0 <= b < i + 1 && #[trigger] kept@[a] == s[b] by {
                        if a < k0.len() {
                            assert(kept@[a] == k0[a]);
                        } else {
                            assert(kept@[a] == s[i as int]);
                        }
                    }
                    assert forall|a: int, c: int| 0 <= a < c < kept@.len() implies (#[trigger] kept@[a]).ip@ != (#[trigger] kept@[c]).ip@ by {
                        if c == k0.len() {
                            assert(kept@[a] == k0[a]);
                            let b = choose|b: int| 0 <= b < i && k0[a] == s[b];
                            assert(s[b].ip@ != s[i as int].ip@);
                        } else {
                            assert(kept@[a] == k0[a]);
                            assert(kept@[c] == k0[c]);
                        }
                    }
                }
            }
            i = i + 1;
        }
        assert(s.take(i as int) =~= s);
        self.entries = kept;
        before - self.entries.len()
    }

    /// Drops the bans that have expired now; returns how many were dropped.
    pub fn cleanup_expired(&mut self) -> (removed: usize)
        requires
            old(self).wf(),
        ensures
            final(self).wf(),
            final(self).file_path == old(self).file_path,
            exists|now: u64| final(self).entries@ == #[trigger] unexpired(old(self).entries@, now),
            removed == old(self).entries@.len() - final(self).entries@.len(),
    {
        let now = SlidingWindowCounter::current_timestamp_secs();
        self.cleanup_expired_at(now)
    }

    /// Lifts every ban.
    pub fn clear_all(&mut self)
        ensures
            final(self).wf(),
            final(self).file_path == old(self).file_path,
            final(self).entries@.len() == 0,
    {
        self.entries = Vec::new();
    }
}

impl Default for BanListManager {
    fn default() -> (r: Self)
        ensures
            r.wf(),
            r.entries@.len() == 0,
            r.file_path is None,
    {
        BanListManager::new()
    }
}

} // verus!
