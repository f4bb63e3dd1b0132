//! Records of replaying traffic against the rules, and attack patterns.
use vstd::prelude::*;
use crate::rule::models::ResponseLogEntry;

verus! {

/// How often one rule fired during a replay, and when first.
#[derive(Debug)]
pub struct RuleMatchRecord {
    pub rule_id: String,
    pub rule_name: String,
    pub trigger_count: u64,
    pub first_packet_no: u64,
    pub first_timestamp_secs: u64,
    pub first_timestamp_micros: u32,
}

/// The outcome of replaying one session.
#[derive(Debug)]
pub struct ReplaySessionResult {
    pub session_id: String,
    pub session_label: String,
    pub total_packets: u64,
    pub processed_packets: u64,
    pub matched_rules: Vec<RuleMatchRecord>,
    pub response_logs: Vec<ResponseLogEntry>,
    pub started_at: u64,
    pub finished_at: u64,
}

/// The outcome of replaying several sessions.
#[derive(Debug)]
pub struct ReplayBatchSummary {
    pub session_count: u64,
    pub total_packets: u64,
    pub total_matched_rules: u64,
    pub total_response_actions: u64,
    pub sessions_with_hits: Vec<String>,
    pub sessions_without_hits: Vec<String>,
    pub per_session_results: Vec<ReplaySessionResult>,
}

/// Where a replay stands.
#[derive(Debug)]
pub struct ReplayProgress {
    pub session_id: String,
    pub current_packet: u64,
    pub total_packets: u64,
    pub is_batch: bool,
    pub current_session_index: u64,
    pub total_sessions: u64,
}

/// The kind of attack a pattern simulates.
#[derive(Debug, Clone, Copy, PartialEq, Eq, Structural)]
pub enum AttackCategory {
    PortScan,
    SynFlood,
    DnsAmplification,
    BruteForce,
    ArpSpoof,
    HttpFlood,
    UdpFlood,
    IcmpFlood,
    SlowLoris,
    Custom,
}

impl AttackCategory {
    /// The display name of the category.
    pub open spec fn label(self) -> Seq<char> {
        match self {
            AttackCategory::PortScan => "端口扫描"@,
            AttackCategory::SynFlood => "SYN洪泛"@,
            AttackCategory::DnsAmplification => "DNS放大"@,
            AttackCategory::BruteForce => "暴力破解"@,
            AttackCategory::ArpSpoof => "ARP欺骗"@,
            AttackCategory::HttpFlood => "HTTP洪泛"@,
            AttackCategory::UdpFlood => "UDP洪泛"@,
            AttackCategory::IcmpFlood => "ICMP洪泛"@,
            AttackCategory::SlowLoris => "SlowLoris"@,
            AttackCategory::Custom => "自定义"@,
        }
    }

    pub fn as_str(&self) -> (s: &'static str)
        ensures
            s@ == self.label(),
    {
        match self {
            AttackCategory::PortScan => "端口扫描",
            AttackCategory::SynFlood => "SYN洪泛",
            AttackCategory::DnsAmplification => "DNS放大",
            AttackCategory::BruteForce => "暴力破解",
            AttackCategory::ArpSpoof => "ARP欺骗",
            AttackCategory::HttpFlood => "HTTP洪泛",
            AttackCategory::UdpFlood => "UDP洪泛",
            AttackCategory::IcmpFlood => "ICMP洪泛",
            AttackCategory::SlowLoris => "SlowLoris",
            AttackCategory::Custom => "自定义",
        }
    }

    /// Every category, in declaration order.
    pub open spec fn every() -> Seq<AttackCategory> {
        seq![
            AttackCategory::PortScan,
            AttackCategory::SynFlood,
            AttackCategory::DnsAmplification,
            AttackCategory::BruteForce,
            AttackCategory::ArpSpoof,
            AttackCategory::HttpFlood,
            AttackCategory::UdpFlood,
            AttackCategory::IcmpFlood,
            AttackCategory::SlowLoris,
            AttackCategory::Custom,
        ]
    }

    pub fn all() -> (v: Vec<AttackCategory>)
        ensures
            v@ == Self::every(),
    {
        let v = vec![
            AttackCategory::PortScan,
            AttackCategory::SynFlood,
            AttackCategory::DnsAmplification,
            AttackCategory::BruteForce,
            AttackCategory::ArpSpoof,
            AttackCategory::HttpFlood,
            AttackCategory::UdpFlood,
            AttackCategory::IcmpFlood,
            AttackCategory::SlowLoris,
            AttackCategory::Custom,
        ];
        assert(v@ =~= Self::every());
        v
    }
}

/// The traffic a pattern generates.
#[derive(Debug)]
pub struct AttackPatternParams {
    pub target_ip: Option<String>,
    pub target_port_min: u16,
    pub target_port_max: u16,
    pub source_port_min: u16,
    pub source_port_max: u16,
    pub packet_count: u32,
    pub packets_per_second: u32,
    pub protocol: String,
    pub payload_pattern: Option<String>,
    pub random_source_ip: bool,
    pub tcp_flags: Option<Vec<String>>,
    pub dns_domain: Option<String>,
    pub http_method: Option<String>,
    pub http_path: Option<String>,
}

pub open spec fn opt_strings_view(v: Option<Vec<String>>) -> Option<Seq<String>> {
    match v {
        Some(x) => Some(x@),
        None => None,
    }
}

impl AttackPatternParams {
    /// The same parameters: fields equal, the flag lists element by element.
    pub open spec fn same(self, o: Self) -> bool {
        &&& self.target_ip == o.target_ip
        &&& self.target_port_min == o.target_port_min
        &&& self.target_port_max == o.target_port_max
        &&& self.source_port_min == o.source_port_min
        &&& self.source_port_max == o.source_port_max
        &&& self.packet_count == o.packet_count
        &&& self.packets_per_second == o.packets_per_second
        &&& self.protocol == o.protocol
        &&& self.payload_pattern == o.payload_pattern
        &&& self.random_source_ip == o.random_source_ip
        &&& opt_strings_view(self.tcp_flags) == opt_strings_view(o.tcp_flags)
        &&& self.dns_domain == o.dns_domain
        &&& self.http_method == o.http_method
        &&& self.http_path == o.http_path
    }

    pub fn duplicate(&self) -> (r: Self)
        ensures
            r.same(*self),
    {
        let tcp_flags = match &self.tcp_flags {
            Some(v) => Some(crate::text::copy_strings(v)),
            None => None,
        };
        AttackPatternParams {
            target_ip: crate::text::copy_opt_string(&self.target_ip),
            target_port_min: self.target_port_min,
            target_port_max: self.target_port_max,
            source_port_min: self.source_port_min,
            source_port_max: self.source_port_max,
            packet_count: self.packet_count,
            packets_per_second: self.packets_per_second,
            protocol: self.protocol.clone(),
            payload_pattern: crate::text::copy_opt_string(&self.payload_pattern),
            random_source_ip: self.random_source_ip,
            tcp_flags,
            dns_domain: crate::text::copy_opt_string(&self.dns_domain),
            http_method: crate::text::copy_opt_string(&self.http_method),
            http_path: crate::text::copy_opt_string(&self.http_path),
        }
    }

    /// The defaults: ports 1..=1024 on the target and 1024..=65535 at the
    /// source, 100 TCP packets at 10 per second from random sources.
    pub open spec fn is_default(self) -> bool {
        &&& self.target_ip is None
        &&& self.target_port_min == 1
        &&& self.target_port_max == 1024
        &&& self.source_port_min == 1024
        &&& self.source_port_max == 65535
        &&& self.packet_count == 100
        &&& self.packets_per_second == 10
        &&& self.protocol@ == "TCP"@
        &&& self.payload_pattern is None
        &&& self.random_source_ip
        &&& self.tcp_flags is None
        &&& self.dns_domain is None
        &&& self.http_method is None
        &&& self.http_path is None
    }
}

impl Default for AttackPatternParams {
    fn default() -> (r: Self)
        ensures
            r.is_default(),
    {
        AttackPatternParams {
            target_ip: None,
            target_port_min: 1,
            target_port_max: 1024,
            source_port_min: 1024,
            source_port_max: 65535,
            packet_count: 100,
            packets_per_second: 10,
            protocol: String::from_str("TCP"),
            payload_pattern: None,
            random_source_ip: true,
            tcp_flags: None,
            dns_domain: None,
            http_method: None,
            http_path: None,
        }
    }
}

/// A named attack to simulate.
#[derive(Debug)]
pub struct AttackPattern {
    pub id: String,
    pub name: String,
    pub category: AttackCategory,
    pub description: String,
    pub params: AttackPatternParams,
    pub is_builtin: bool,
    pub created_at: u64,
    pub updated_at: u64,
}

impl AttackPattern {
    /// The same pattern, field by field.
    pub open spec fn same(self, o: Self) -> bool {
        &&& self.id == o.id
        &&& self.name == o.name
        &&& self.category == o.category
        &&& self.description == o.description
        &&& self.params.same(o.params)
        &&& self.is_builtin == o.is_builtin
        &&& self.created_at == o.created_at
        &&& self.updated_at == o.updated_at
    }

    pub fn duplicate(&self) -> (r: Self)
        ensures
            r.same(*self),
    {
        AttackPattern {
            id: self.id.clone(),
            name: self.name.clone(),
            category: self.category,
            description: self.description.clone(),
            params: self.params.duplicate(),
            is_builtin: self.is_builtin,
            created_at: self.created_at,
            updated_at: self.updated_at,
        }
    }
}

/// Two lists hold the same patterns in the same order.
pub open spec fn same_patterns(a: Seq<AttackPattern>, b: Seq<AttackPattern>) -> bool {
    a.len() == b.len() && forall|i: int| 0 <= i < a.len() ==> (#[trigger] a[i]).same(b[i])
}

/// How one attack pattern fared against the rules.
#[derive(Debug)]
pub struct RuleEffectivenessItem {
    pub pattern_id: String,
    pub pattern_name: String,
    pub pattern_category: String,
    pub is_detected: bool,
    pub matched_rule_names: Vec<String>,
    pub response_triggered: bool,
    pub response_actions: Vec<String>,
    pub total_packets: u64,
}

} // verus!
