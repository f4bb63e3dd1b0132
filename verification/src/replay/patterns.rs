//! Attack patterns: the built-in ones and those the user adds.
use vstd::prelude::*;
use crate::replay::models::{same_patterns, AttackCategory, AttackPattern, AttackPatternParams};
use crate::rule::rate_counter::SlidingWindowCounter;
use crate::text::same_text;

verus! {

// ---------------------------------------------------------------------------
// The built-in patterns

pub open spec fn builtin_id(i: int) -> Seq<char> {
    if i == 0 {
        "builtin_port_scan"@
    } else if i == 1 {
        "builtin_syn_flood"@
    } else if i == 2 {
        "builtin_dns_amp"@
    } else if i == 3 {
        "builtin_brute_force_ssh"@
    } else if i == 4 {
        "builtin_http_flood"@
    } else if i == 5 {
        "builtin_udp_flood"@
    } else {
        "builtin_icmp_flood"@
    }
}

pub open spec fn builtin_name(i: int) -> Seq<char> {
    if i == 0 {
        "TCP端口扫描"@
    } else if i == 1 {
        "SYN洪泛攻击"@
    } else if i == 2 {
        "DNS放大攻击"@
    } else if i == 3 {
        "SSH暴力破解"@
    } else if i == 4 {
        "HTTP洪泛攻击"@
    } else if i == 5 {
        "UDP洪泛攻击"@
    } else {
        "ICMP洪泛攻击(Ping of Death)"@
    }
}

pub open spec fn builtin_category(i: int) -> AttackCategory {
    if i == 0 {
        AttackCategory::PortScan
    } else if i == 1 {
        AttackCategory::SynFlood
    } else if i == 2 {
        AttackCategory::DnsAmplification
    } else if i == 3 {
        AttackCategory::BruteForce
    } else if i == 4 {
        AttackCategory::HttpFlood
    } else if i == 5 {
        AttackCategory::UdpFlood
    } else {
        AttackCategory::IcmpFlood
    }
}

pub open spec fn builtin_description(i: int) -> Seq<char> {
    if i == 0 {
        "模拟从单一源IP向多个目标端口发送SYN包的端口扫描行为"@
    } else if i == 1 {
        "模拟大量伪造源IP的SYN包，目标为同一端口"@
    } else if i == 2 {
        "模拟向DNS服务器发送大量ANY查询请求"@
    } else if i == 3 {
        "模拟对SSH端口(22)的高频连接尝试"@
    } else if i == 4 {
        "模拟大量HTTP GET请求"@
    } else if i == 5 {
        "模拟大量UDP数据包攻击"@
    } else {
        "模拟大量ICMP Echo请求"@
    }
}

/// Target ports, source ports, packet count and rate of a built-in pattern.
pub open spec fn builtin_numbers(i: int) -> (u16, u16, u16, u16, u32, u32) {
    if i == 0 {
        (1, 1000, 40000, 60000, 500, 100)
    } else if i == 1 {
        (80, 80, 1024, 65535, 2000, 500)
    } else if i == 2 {
        (53, 53, 1024, 65535, 500, 100)
    } else if i == 3 {
        (22, 22, 1024, 65535, 300, 5)
    } else if i == 4 {
        (80, 80, 1024, 65535, 1000, 200)
    } else if i == 5 {
        (5000, 6000, 1024, 65535, 1500, 300)
    } else {
        (1, 1024, 1024, 65535, 800, 200)
    }
}

pub open spec fn builtin_protocol(i: int) -> Seq<char> {
    if i == 2 || i == 5 {
        "UDP"@
    } else if i == 6 {
        "ICMP"@
    } else {
        "TCP"@
    }
}

pub open spec fn opt_text(o: Option<String>) -> Option<Seq<char>> {
    match o {
        Some(s) => Some(s@),
        None => None,
    }
}

/// The parameters of built-in pattern `i`.
pub open spec fn builtin_params(i: int, p: AttackPatternParams) -> bool {
    let (tmin, tmax, smin, smax, count, pps) = builtin_numbers(i);
    &&& p.target_ip is None
    &&& p.target_port_min == tmin
    &&& p.target_port_max == tmax
    &&& p.source_port_min == smin
    &&& p.source_port_max == smax
    &&& p.packet_count == count
    &&& p.packets_per_second == pps
    &&& p.protocol@ == builtin_protocol(i)
    &&& p.payload_pattern is None
    &&& p.random_source_ip == !(i == 0 || i == 3)
    &&& match p.tcp_flags {
        Some(f) => (i == 0 || i == 1 || i == 3) && f@.len() == 1 && f@[0]@ == "SYN"@,
        None => !(i == 0 || i == 1 || i == 3),
    }
    &&& opt_text(p.dns_domain) == (if i == 2 {
        Some("example.com"@)
    } else {
        None
    })
    &&& opt_text(p.http_method) == (if i == 4 {
        Some("GET"@)
    } else {
        None
    })
    &&& opt_text(p.http_path) == (if i == 4 {
        Some("/"@)
    } else {
        None
    })
}

/// The seven built-in patterns, stamped with time `now`.
pub open spec fn builtin_at(ps: Seq<AttackPattern>, now: u64) -> bool {
    &&& ps.len() == 7
    &&& forall|i: int|
        0 <= i < 7 ==> {
            let p = #[trigger] ps[i];
            &&& p.id@ == builtin_id(i)
            &&& p.name@ == builtin_name(i)
            &&& p.category == builtin_category(i)
            &&& p.description@ == builtin_description(i)
            &&& builtin_params(i, p.params)
            &&& p.is_builtin
            &&& p.created_at == now
            &&& p.updated_at == now
        }
}

/// `builtin_category` at a machine index.
pub open spec fn builtin_category_at(i: usize) -> AttackCategory {
    if i == 0 {
        AttackCategory::PortScan
    } else if i == 1 {
        AttackCategory::SynFlood
    } else if i == 2 {
        AttackCategory::DnsAmplification
    } else if i == 3 {
        AttackCategory::BruteForce
    } else if i == 4 {
        AttackCategory::HttpFlood
    } else if i == 5 {
        AttackCategory::UdpFlood
    } else {
        AttackCategory::IcmpFlood
    }
}

fn category_for(i: usize) -> (c: AttackCategory)
    ensures
        c == builtin_category_at(i),
{
    if i == 0 {
        AttackCategory::PortScan
    } else if i == 1 {
        AttackCategory::SynFlood
    } else if i == 2 {
        AttackCategory::DnsAmplification
    } else if i == 3 {
        AttackCategory::BruteForce
    } else if i == 4 {
        AttackCategory::HttpFlood
    } else if i == 5 {
        AttackCategory::UdpFlood
    } else {
        AttackCategory::IcmpFlood
    }
}

fn opt_string(s: Option<&str>) -> (r: Option<String>)
    ensures
        opt_text(r) == (match s {
            Some(t) => Some(t@),
            None => None::<Seq<char>>,
        }),
{
    match s {
        Some(t) => Some(String::from_str(t)),
        None => None,
    }
}

fn builtin_entry(i: usize, now: u64) -> (p: AttackPattern)
    requires
        i < 7,
    ensures
        p.id@ == builtin_id(i as int),
        p.name@ == builtin_name(i as int),
        p.category == builtin_category(i as int),
        p.description@ == builtin_description(i as int),
        builtin_params(i as int, p.params),
        p.is_builtin,
        p.created_at == now,
        p.updated_at == now,
{
    let (id, name, description) = if i == 0 {
        ("builtin_port_scan", "TCP端口扫描", "模拟从单一源IP向多个目标端口发送SYN包的端口扫描行为")
    } else if i == 1 {
        ("builtin_syn_flood", "SYN洪泛攻击", "模拟大量伪造源IP的SYN包，目标为同一端口")
    } else if i == 2 {
        ("builtin_dns_amp", "DNS放大攻击", "模拟向DNS服务器发送大量ANY查询请求")
    } else if i == 3 {
        ("builtin_brute_force_ssh", "SSH暴力破解", "模拟对SSH端口(22)的高频连接尝试")
    } else if i == 4 {
        ("builtin_http_flood", "HTTP洪泛攻击", "模拟大量HTTP GET请求")
    } else if i == 5 {
        ("builtin_udp_flood", "UDP洪泛攻击", "模拟大量UDP数据包攻击")
    } else {
        ("builtin_icmp_flood", "ICMP洪泛攻击(Ping of Death)", "模拟大量ICMP Echo请求")
    };
    let category = category_for(i);
    let (tmin, tmax, smin, smax, count, pps): (u16, u16, u16, u16, u32, u32) = if i == 0 {
        (1, 1000, 40000, 60000, 500, 100)
    } else if i == 1 {
        (80, 80, 1024, 65535, 2000, 500)
    } else if i == 2 {
        (53, 53, 1024, 65535, 500, 100)
    } else if i == 3 {
        (22, 22, 1024, 65535, 300, 5)
    } else if i == 4 {
        (80, 80, 1024, 65535, 1000, 200)
    } else if i == 5 {
        (5000, 6000, 1024, 65535, 1500, 300)
    } else {
        (1, 1024, 1024, 65535, 800, 200)
    };
    let protocol = if i == 2 || i == 5 {
        "UDP"
    } else if i == 6 {
        "ICMP"
    } else {
        "TCP"
    };
    let tcp_flags = if i == 0 || i == 1 || i == 3 {
        let mut f: Vec<String> = Vec::new();
        f.push(String::from_str("SYN"));
        Some(f)
    } else {
        None
    };
    let params = AttackPatternParams {
        target_ip: None,
        target_port_min: tmin,
        target_port_max: tmax,
        source_port_min: smin,
        source_port_max: smax,
        packet_count: count,
        packets_per_second: pps,
        protocol: String::from_str(protocol),
        payload_pattern: None,
        random_source_ip: !(i == 0 || i == 3),
        tcp_flags,
        dns_domain: opt_string(if i == 2 { Some("example.com") } else { None }),
        http_method: opt_string(if i == 4 { Some("GET") } else { None }),
        http_path: opt_string(if i == 4 { Some("/") } else { None }),
    };
    AttackPattern {
        id: String::from_str(id),
        name: String::from_str(name),
        category,
        description: String::from_str(description),
        params,
        is_builtin: true,
        created_at: now,
        updated_at: now,
    }
}

/// The built-in patterns, stamped with time `now`.
pub fn builtin_patterns_at(now: u64) -> (v: Vec<AttackPattern>)
    ensures
        builtin_at(v@, now),
{
    let mut v: Vec<AttackPattern> = Vec::new();
    let mut i: usize = 0;
    while i < 7
        invariant
            i <= 7,
            v@.len() == i,
            forall|j: int|
                0 <= j < i ==> {
                    let p = #[trigger] v@[j];
                    &&& p.id@ == builtin_id(j)
                    &&& p.name@ == builtin_name(j)
                    &&& p.category == builtin_category(j)
                    &&& p.description@ == builtin_description(j)
                    &&& builtin_params(j, p.params)
                    &&& p.is_builtin
                    &&& p.created_at == now
                    &&& p.updated_at == now
                },
        decreases 7 - i,
    {
        v.push(builtin_entry(i, now));
        i = i + 1;
    }
    v
}

/// The built-in patterns, stamped with the current time.
pub fn builtin_patterns() -> (v: Vec<AttackPattern>)
    ensures
        builtin_at(v@, v@[0].created_at),
{
    let now = SlidingWindowCounter::current_timestamp_secs();
    builtin_patterns_at(now)
}

// ---------------------------------------------------------------------------
// Queries

/// The patterns of a category, in order.
pub open spec fn of_category(s: Seq<AttackPattern>, c: AttackCategory) -> Seq<AttackPattern>
    decreases s.len(),
{
    if s.len() == 0 {
        Seq::empty()
    } else if s.last().category == c {
        of_category(s.drop_last(), c).push(s.last())
    } else {
        of_category(s.drop_last(), c)
    }
}

/// The first pattern with the given id.
pub open spec fn first_with_id(s: Seq<AttackPattern>, id: Seq<char>) -> Option<AttackPattern>
    decreases s.len(),
{
    if s.len() == 0 {
        None
    } else if s[0].id@ == id {
        Some(s[0])
    } else {
        first_with_id(s.drop_first(), id)
    }
}

pub open spec fn has_id(s: Seq<AttackPattern>, id: Seq<char>) -> bool {
    exists|i: int| 0 <= i < s.len() && (#[trigger] s[i]).id@ == id
}

/// The patterns whose id differs from `id`, in order.
pub open spec fn without_id(s: Seq<AttackPattern>, id: Seq<char>) -> Seq<AttackPattern>
    decreases s.len(),
{
    if s.len() == 0 {
        Seq::empty()
    } else if s.last().id@ == id {
        without_id(s.drop_last(), id)
    } else {
        without_id(s.drop_last(), id).push(s.last())
    }
}

/// The position of the first pattern with the given id.
pub open spec fn first_index(s: Seq<AttackPattern>, id: Seq<char>) -> int
    decreases s.len(),
{
    if s.len() == 0 {
        0
    } else if s[0].id@ == id {
        0
    } else {
        1 + first_index(s.drop_first(), id)
    }
}

proof fn lemma_first_prefix(s: Seq<AttackPattern>, i: int, id: Seq<char>)
    requires
        0 <= i <= s.len(),
        forall|j: int| 0 <= j < i ==> (#[trigger] s[j]).id@ != id,
    ensures
        first_with_id(s, id) == first_with_id(s.skip(i), id),
        first_index(s, id) == i + first_index(s.skip(i), id),
    decreases i,
{
    if i == 0 {
        assert(s.skip(0) =~= s);
    } else {
        let d = s.drop_first();
        assert forall|j: int| 0 <= j < i - 1 implies (#[trigger] d[j]).id@ != id by {
            assert(d[j] == s[j + 1]);
        }
        lemma_first_prefix(d, i - 1, id);
        assert(d.skip(i - 1) =~= s.skip(i));
    }
}

/// The built-in patterns and the user's patterns.
pub struct AttackPatternManager {
    pub file_path: Option<String>,
    pub builtin_patterns: Vec<AttackPattern>,
    pub custom_patterns: Vec<AttackPattern>,
}

impl AttackPatternManager {
    /// All patterns: the built-in ones, then the user's.
    pub open spec fn all(&self) -> Seq<AttackPattern> {
        self.builtin_patterns@ + self.custom_patterns@
    }

    pub fn new() -> (r: Self)
        ensures
            r.file_path is None,
            builtin_at(r.builtin_patterns@, r.builtin_patterns@[0].created_at),
            r.custom_patterns@.len() == 0,
    {
        AttackPatternManager {
            file_path: None,
            builtin_patterns: builtin_patterns(),
            custom_patterns: Vec::new(),
        }
    }

    /// Records where the patterns are kept.
    pub fn set_file_path(&mut self, path: String)
        ensures
            final(self).file_path == Some(path),
            final(self).builtin_patterns == old(self).builtin_patterns,
            final(self).custom_patterns == old(self).custom_patterns,
    {
        self.file_path = Some(path);
    }

    /// Takes the patterns read from the file: its built-in list only where it
    /// is not empty, its custom list always.
    pub fn load_patterns(&mut self, builtin: Vec<AttackPattern>, custom: Vec<AttackPattern>)
        ensures
            final(self).file_path == old(self).file_path,
            final(self).builtin_patterns@ == (if builtin@.len() == 0 {
                old(self).builtin_patterns@
            } else {
                builtin@
            }),
            final(self).custom_patterns@ == custom@,
    {
        if builtin.len() > 0 {
            self.builtin_patterns = builtin;
        }
        self.custom_patterns = custom;
    }

    /// Copies of all patterns: the built-in ones, then the user's.
    pub fn get_all_patterns(&self) -> (r: Vec<AttackPattern>)
        ensures
            same_patterns(r@, self.all()),
    {
        let mut r: Vec<AttackPattern> = Vec::new();
        let mut i: usize = 0;
        while i < self.builtin_patterns.len()
            invariant
                i <= self.builtin_patterns@.len(),
                same_patterns(r@, self.builtin_patterns@.take(i as int)),
            decreases self.builtin_patterns.len() - i,
        {
            r.push(self.builtin_patterns[i].duplicate());
            i = i + 1;
        }
        let mut j: usize = 0;
        while j < self.custom_patterns.len()
            invariant
                j <= self.custom_patterns@.len(),
                i == self.builtin_patterns@.len(),
                same_patterns(r@, self.builtin_patterns@ + self.custom_patterns@.take(j as int)),
            decreases self.custom_patterns.len() - j,
        {
            assert(self.builtin_patterns@.take(i as int) =~= self.builtin_patterns@);
            r.push(self.custom_patterns[j].duplicate());
            j = j + 1;
        }
        assert(self.custom_patterns@.take(j as int) =~= self.custom_patterns@);
        r
    }

    /// Copies of the patterns of a category, in order.
    pub fn get_patterns_by_category(&self, category: &AttackCategory) -> (r: Vec<AttackPattern>)
        ensures
            same_patterns(r@, of_category(self.all(), *category)),
    {
        let all = self.get_all_patterns();
        let ghost a = self.all();
        let mut r: Vec<AttackPattern> = Vec::new();
        let mut i: usize = 0;
        assert(a.take(0) =~= Seq::<AttackPattern>::empty());
        while i < all.len()
            invariant
                i <= all@.len(),
                same_patterns(all@, a),
                same_patterns(r@, of_category(a.take(i as int), *category)),
            decreases all.len() - i,
        {
            assert(a.take(i + 1).drop_last() =~= a.take(i as int));
            assert(all@[i as int].same(a[i as int]));
            if all[i].category == *category {
                r.push(all[i].duplicate());
            }
            i = i + 1;
        }
        assert(a.take(i as int) =~= a);
        r
    }

    /// A copy of the first pattern with the given id.
    pub fn get_pattern(&self, id: &str) -> (r: Option<AttackPattern>)
        ensures
            match r {
                Some(p) => first_with_id(self.all(), id@) matches Some(q) && p.same(q),
                None => first_with_id(self.all(), id@) is None,
            },
    {
        let all = self.get_all_patterns();
        let ghost a = self.all();
        let mut i: usize = 0;
        while i < all.len()
            invariant
                i <= all@.len(),
                a == self.all(),
                same_patterns(all@, a),
                forall|j: int| 0 <= j < i ==> (#[trigger] a[j]).id@ != id@,
            decreases all.len() - i,
        {
            assert(all@[i as int].same(a[i as int]));
            if same_text(all[i].id.as_str(), id) {
                proof {
                    lemma_first_prefix(a, i as int, id@);
                    assert(a.skip(i as int)[0] == a[i as int]);
                    assert(first_with_id(a.skip(i as int), id@) == Some(a[i as int]));
                }
                let p = all[i].duplicate();
                assert(p.same(a[i as int]));
                return Some(p);
            }
            i = i + 1;
        }
        proof {
            lemma_first_prefix(a, i as int, id@);
            assert(a.skip(i as int) =~= Seq::<AttackPattern>::empty());
        }
        None
    }

    fn contains_id(&self, id: &str) -> (b: bool)
        ensures
            b == has_id(self.all(), id@),
    {
        let ghost a = self.all();
        let mut i: usize = 0;
        while i < self.builtin_patterns.len()
            invariant
                i <= self.builtin_patterns@.len(),
                a == self.all(),
                forall|j: int| 0 <= j < i ==> (#[trigger] a[j]).id@ != id@,
            decreases self.builtin_patterns.len() - i,
        {
            if same_text(self.builtin_patterns[i].id.as_str(), id) {
                assert(a[i as int] == self.builtin_patterns@[i as int]);
                return true;
            }
            i = i + 1;
        }
        let n = self.builtin_patterns.len();
        let mut j: usize = 0;
        while j < self.custom_patterns.len()
            invariant
                j <= self.custom_patterns@.len(),
                n == self.builtin_patterns@.len(),
                a == self.all(),
                forall|k: int| 0 <= k < n + j ==> (#[trigger] a[k]).id@ != id@,
            decreases self.custom_patterns.len() - j,
        {
            if same_text(self.custom_patterns[j].id.as_str(), id) {
                assert(a[n + j] == self.custom_patterns@[j as int]);
                return true;
            }
            j = j + 1;
        }
        false
    }

    /// What adding `pattern` at time `now` leaves: on success the pattern,
    /// marked as a user pattern and stamped `now` twice, is appended to the
    /// user patterns; if some pattern already has its id, the error names
    /// that and the user patterns stay as they were.
    pub open spec fn added(pre: Self, post: Self, pattern: AttackPattern, now: u64, r: Result<(), String>) -> bool {
        match r {
            Ok(()) => {
                &&& !has_id(pre.all(), pattern.id@)
                &&& post.custom_patterns@ == pre.custom_patterns@.push(
                    AttackPattern { is_builtin: false, created_at: now, updated_at: now, ..pattern },
                )
            },
            Err(e) => has_id(pre.all(), pattern.id@) && e@ == "特征ID已存在"@
                && post.custom_patterns == pre.custom_patterns,
        }
    }

    /// What updating with `pattern` at time `now` leaves: on success the
    /// first user pattern with its id is replaced by it, marked as a user
    /// pattern, keeping the old creation time and stamped `now` as updated;
    /// if no user pattern has its id, the error names that and the user
    /// patterns stay as they were.
    pub open spec fn updated(pre: Self, post: Self, pattern: AttackPattern, now: u64, r: Result<(), String>) -> bool {
        match r {
            Ok(()) => {
                let k = first_index(pre.custom_patterns@, pattern.id@);
                &&& has_id(pre.custom_patterns@, pattern.id@)
                &&& post.custom_patterns@ == pre.custom_patterns@.update(
                    k,
                    AttackPattern {
                        is_builtin: false,
                        updated_at: now,
                        created_at: pre.custom_patterns@[k].created_at,
                        ..pattern
                    },
                )
            },
            Err(e) => !has_id(pre.custom_patterns@, pattern.id@) && e@ == "自定义特征不存在"@
                && post.custom_patterns == pre.custom_patterns,
        }
    }

    /// Adds a user pattern stamped with time `now`, unless some pattern
    /// already has its id.
    pub fn add_custom_pattern_at(&mut self, pattern: AttackPattern, now: u64) -> (r: Result<(), String>)
        ensures
            final(self).file_path == old(self).file_path,
            final(self).builtin_patterns == old(self).builtin_patterns,
            Self::added(*old(self), *final(self), pattern, now, r),
    {
        if self.contains_id(pattern.id.as_str()) {
            return Err(String::from_str("特征ID已存在"));
        }
        let mut p = pattern;
        p.is_builtin = false;
        p.created_at = now;
        p.updated_at = now;
        self.custom_patterns.push(p);
        Ok(())
    }

    /// Adds a user pattern stamped with the current time, unless some pattern
    /// already has its id.
    pub fn add_custom_pattern(&mut self, pattern: AttackPattern) -> (r: Result<(), String>)
        ensures
            final(self).file_path == old(self).file_path,
            final(self).builtin_patterns == old(self).builtin_patterns,
            exists|now: u64| #[trigger] Self::added(*old(self), *final(self), pattern, now, r),
            r is Ok <==> !has_id(old(self).all(), pattern.id@),
    {
        let now = SlidingWindowCounter::current_timestamp_secs();
        self.add_custom_pattern_at(pattern, now)
    }

    /// Replaces the first user pattern with the same id, keeping its creation
    /// time and stamping the update with `now`.
    pub fn update_custom_pattern_at(&mut self, pattern: AttackPattern, now: u64) -> (r: Result<(), String>)
        ensures
            final(self).file_path == old(self).file_path,
            final(self).builtin_patterns == old(self).builtin_patterns,
            Self::updated(*old(self), *final(self), pattern, now, r),
    {
        let ghost c = self.custom_patterns@;
        let mut i: usize = 0;
        while i < self.custom_patterns.len()
            invariant
                i <= self.custom_patterns@.len(),
                c == self.custom_patterns@,
                c == old(self).custom_patterns@,
                self.custom_patterns == old(self).custom_patterns,
                self.file_path == old(self).file_path,
                self.builtin_patterns == old(self).builtin_patterns,
                forall|j: int| 0 <= j < i ==> (#[trigger] c[j]).id@ != pattern.id@,
            decreases self.custom_patterns.len() - i,
        {
            if same_text(self.custom_patterns[i].id.as_str(), pattern.id.as_str()) {
                proof {
                    lemma_first_prefix(c, i as int, pattern.id@);
                    assert(c.skip(i as int)[0] == c[i as int]);
                    assert(has_id(c, pattern.id@));
                }
                let created = self.custom_patterns[i].created_at;
                let mut p = pattern;
                p.is_builtin = false;
                p.updated_at = now;
                p.created_at = created;
                self.custom_patterns.set(i, p);
                return Ok(());
            }
            i = i + 1;
        }
        Err(String::from_str("自定义特征不存在"))
    }

    /// Replaces a user pattern, stamping the update with the current time.
    pub fn update_custom_pattern(&mut self, pattern: AttackPattern) -> (r: Result<(), String>)
        ensures
            final(self).file_path == old(self).file_path,
            final(self).builtin_patterns == old(self).builtin_patterns,
            exists|now: u64| #[trigger] Self::updated(*old(self), *final(self), pattern, now, r),
            r is Ok <==> has_id(old(self).custom_patterns@, pattern.id@),
    {
        let now = SlidingWindowCounter::current_timestamp_secs();
        self.update_custom_pattern_at(pattern, now)
    }

    /// Removes every user pattern with the given id; built-in patterns cannot
    /// be removed.
    pub fn delete_custom_pattern(&mut self, id: &str) -> (r: Result<(), String>)
        ensures
            final(self).file_path == old(self).file_path,
            final(self).builtin_patterns == old(self).builtin_patterns,
            has_id(old(self).builtin_patterns@, id@) ==> (r matches Err(e) && e@ == "内置特征不可删除"@
                && final(self).custom_patterns == old(self).custom_patterns),
            !has_id(old(self).builtin_patterns@, id@) ==> {
                &&& final(self).custom_patterns@ == without_id(old(self).custom_patterns@, id@)
                &&& match r {
                    Ok(()) => has_id(old(self).custom_patterns@, id@),
                    Err(e) => !has_id(old(self).custom_patterns@, id@) && e@ == "特征不存在"@,
                }
            },
    {
        let mut i: usize = 0;
        while i < self.builtin_patterns.len()
            invariant
                i <= self.builtin_patterns@.len(),
                forall|j: int| 0 <= j < i ==> (#[trigger] self.builtin_patterns@[j]).id@ != id@,
            decreases self.builtin_patterns.len() - i,
        {
            if same_text(self.builtin_patterns[i].id.as_str(), id) {
                return Err(String::from_str("内置特征不可删除"));
            }
            i = i + 1;
        }
        let ghost c = self.custom_patterns@;
        let n = self.custom_patterns.len();
        let mut rest: Vec<AttackPattern> = Vec::new();
        std::mem::swap(&mut rest, &mut self.custom_patterns);
        let mut kept: Vec<AttackPattern> = Vec::new();
        let mut found = false;
        let mut j: usize = 0;
        assert(c.take(0) =~= Seq::<AttackPattern>::empty());
        assert(c.skip(0) =~= c);
        while rest.len() > 0
            invariant
                j <= c.len(),
                c.len() == n,
                rest@ == c.skip(j as int),
                kept@ == without_id(c.take(j as int), id@),
                found == has_id(c.take(j as int), id@),
                self.builtin_patterns == old(self).builtin_patterns,
                self.file_path == old(self).file_path,
            decreases rest.len(),
        {
            assert(c.take(j + 1).drop_last() =~= c.take(j as int));
            proof {
                if has_id(c.take(j as int), id@) {
                    let k = choose|k: int| 0 <= k < c.take(j as int).len() && (#[trigger] c.take(j as int)[k]).id@ == id@;
                    assert(c.take(j + 1)[k] == c.take(j as int)[k]);
                }
                if has_id(c.take(j + 1), id@) {
                    let k = choose|k: int| 0 <= k < c.take(j + 1).len() && (#[trigger] c.take(j + 1)[k]).id@ == id@;
                    if k < j {
                        assert(c.take(j as int)[k] == c.take(j + 1)[k]);
                    }
                }
            }
            let p = rest.remove(0);
            assert(p == c[j as int]);
            assert(rest@ =~= c.skip(j + 1));
            if same_text(p.id.as_str(), id) {
                found = true;
                assert(c.take(j + 1)[j as int] == c[j as int]);
            } else {
                kept.push(p);
            }
            j = j + 1;
        }
        assert(c.take(j as int) =~= c);
        self.custom_patterns = kept;
        if !found {
            return Err(String::from_str("特征不存在"));
        }
        Ok(())
    }
}

impl Default for AttackPatternManager {
    fn default() -> (r: Self)
        ensures
            r.file_path is None,
            builtin_at(r.builtin_patterns@, r.builtin_patterns@[0].created_at),
            r.custom_patterns@.len() == 0,
    {
        AttackPatternManager::new()
    }
}

} // verus!
