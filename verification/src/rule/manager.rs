//! The rule manager: the rule set, its groups, versions, statistics and
//! alerts, and the summaries that describe rules and matches.
use vstd::prelude::*;
use crate::rule::engine::{RuleEngine, by_priority, compile_regex_in_rule, first_bad_pattern, regex_error};
use crate::rule::models::{
    AlertRecord, Cond, ConditionNode, DetectionRule, IpField, LengthOperator, PortField,
    RuleConflict, RuleGroup, RuleStats, RuleV, RuleVersion, RulesFile, TcpFlag, VersionV, conds_of,
    duplicate_rules, lemma_conds_of, rules_view, texts, versions_view,
};
use crate::rule::response::ResponseExecutor;
use crate::rule::rate_counter::SlidingWindowCounter;
use crate::text::{dec_digits, join, push_decimal};
use crate::rule::stats::{add_missing, all_stats, counted_rows, first_row, has_headroom, keyed_rows, loaded_stats, merge_rows, merge_stats, merge_tables, rows, count_in_table};
use crate::rule::models::{BanEntry, ResponseConfig, ResponseLogEntry};
use crate::rule::response::select_logs;
use crate::rule::ban_list::{banned_at, unexpired, without};

verus! {

// ---------------------------------------------------------------------------
// Summaries of conditions

pub open spec fn flag_name(f: TcpFlag) -> Seq<char> {
    match f {
        TcpFlag::SYN => "SYN"@,
        TcpFlag::ACK => "ACK"@,
        TcpFlag::FIN => "FIN"@,
        TcpFlag::RST => "RST"@,
        TcpFlag::PSH => "PSH"@,
        TcpFlag::URG => "URG"@,
    }
}

fn flag_str(f: TcpFlag) -> (s: &'static str)
    ensures
        s@ == flag_name(f),
{
    match f {
        TcpFlag::SYN => "SYN",
        TcpFlag::ACK => "ACK",
        TcpFlag::FIN => "FIN",
        TcpFlag::RST => "RST",
        TcpFlag::PSH => "PSH",
        TcpFlag::URG => "URG",
    }
}

pub open spec fn flag_names(fs: Seq<TcpFlag>) -> Seq<Seq<char>> {
    fs.map_values(|f: TcpFlag| flag_name(f))
}

fn push_flag_list(out: &mut String, fs: &Vec<TcpFlag>)
    ensures
        final(out)@ == old(out)@ + join(flag_names(fs@), ","@),
{
    let ghost start = out@;
    let mut part = String::new();
    let mut i: usize = 0;
    proof {
        reveal_strlit("");
        assert(flag_names(fs@).take(0) =~= Seq::<Seq<char>>::empty());
    }
    while i < fs.len()
        invariant
            i <= fs@.len(),
            part@ == join(flag_names(fs@).take(i as int), ","@),
        decreases fs.len() - i,
    {
        let ghost parts = flag_names(fs@).take(i as int);
        crate::text::push_joined(&mut part, Ghost(parts), i == 0, ",", flag_str(fs[i]));
        assert(parts.push(flag_name(fs@[i as int])) =~= flag_names(fs@).take(i as int + 1));
        i = i + 1;
    }
    assert(flag_names(fs@).take(i as int) =~= flag_names(fs@));
    out.append(part.as_str());
}

pub open spec fn ip_label(f: IpField) -> Seq<char> {
    match f {
        IpField::Src => "源IP"@,
        IpField::Dst => "目的IP"@,
        IpField::Either => "IP"@,
    }
}

pub open spec fn port_label(f: PortField) -> Seq<char> {
    match f {
        PortField::Src => "源端口"@,
        PortField::Dst => "目的端口"@,
        PortField::Either => "端口"@,
    }
}

pub open spec fn op_symbol(op: LengthOperator) -> Seq<char> {
    match op {
        LengthOperator::GreaterThan => ">"@,
        LengthOperator::LessThan => "<"@,
        LengthOperator::Equal => "=="@,
    }
}

fn op_str(op: LengthOperator) -> (s: &'static str)
    ensures
        s@ == op_symbol(op),
{
    match op {
        LengthOperator::GreaterThan => ">",
        LengthOperator::LessThan => "<",
        LengthOperator::Equal => "==",
    }
}

pub open spec fn dec(n: int) -> Seq<char> {
    dec_digits(n as nat)
}

/// The line of a single test in a match summary.
pub open spec fn match_leaf(c: Cond) -> Seq<char> {
    match c {
        Cond::ProtocolMatch(p) => "协议: "@ + p,
        Cond::IpMatch(f, cidr) => ip_label(f) + "匹配: "@ + cidr,
        Cond::PortRange(f, lo, hi) => port_label(f) + "范围: "@ + dec(lo as int) + "-"@ + dec(hi as int),
        Cond::PacketLength(op, v) => "包长"@ + op_symbol(op) + " "@ + dec(v as int),
        Cond::TcpFlags(fs, _) => "TCP标志: "@ + join(flag_names(fs), ","@),
        Cond::PayloadKeyword(p) => "载荷关键字: "@ + p,
        Cond::RateLimit(w, t, src) => "速率超限("@ + dec(w as int) + "s/"@ + dec(t as int) + "包) - "@ + (if src {
            "源IP"@
        } else {
            "目的IP"@
        }),
        _ => "DNS黑名单匹配"@,
    }
}

/// The lines of a match summary: one per test, depth first.
pub open spec fn match_parts(c: Cond) -> Seq<Seq<char>>
    decreases c,
{
    match c {
        Cond::And(cs) => match_parts_all(cs),
        Cond::Or(cs) => match_parts_all(cs),
        Cond::Not(b) => match_parts(*b),
        _ => seq![match_leaf(c)],
    }
}

pub open spec fn match_parts_all(cs: Seq<Cond>) -> Seq<Seq<char>>
    decreases cs,
{
    if cs.len() == 0 {
        Seq::empty()
    } else {
        match_parts(cs[0]) + match_parts_all(cs.subrange(1, cs.len() as int))
    }
}

fn match_leaf_text(node: &ConditionNode) -> (s: String)
    requires
        !(node@ is And || node@ is Or || node@ is Not),
    ensures
        s@ == match_leaf(node@),
{
    let mut s = String::new();
    proof {
        reveal_strlit("");
        reveal_strlit("-");
        reveal_strlit(" ");
    }
    match node {
        ConditionNode::ProtocolMatch { protocol } => {
            s.append("协议: ");
            s.append(protocol.as_str());
        },
        ConditionNode::IpMatch { field, cidr } => {
            s.append(match field {
                IpField::Src => "源IP",
                IpField::Dst => "目的IP",
                IpField::Either => "IP",
            });
            s.append("匹配: ");
            s.append(cidr.as_str());
        },
        ConditionNode::PortRange { field, min, max } => {
            s.append(match field {
                PortField::Src => "源端口",
                PortField::Dst => "目的端口",
                PortField::Either => "端口",
            });
            s.append("范围: ");
            push_decimal(&mut s, *min as u64);
            s.append("-");
            push_decimal(&mut s, *max as u64);
        },
        ConditionNode::PacketLength { operator, value } => {
            s.append("包长");
            s.append(op_str(*operator));
            s.append(" ");
            push_decimal(&mut s, *value as u64);
        },
        ConditionNode::TcpFlags { flags, .. } => {
            s.append("TCP标志: ");
            push_flag_list(&mut s, flags);
        },
        ConditionNode::PayloadKeyword { pattern } => {
            s.append("载荷关键字: ");
            s.append(pattern.as_str());
        },
        ConditionNode::RateLimit { window_secs, threshold, src_ip } => {
            s.append("速率超限(");
            push_decimal(&mut s, *window_secs as u64);
            s.append("s/");
            push_decimal(&mut s, *threshold as u64);
            s.append("包) - ");
            s.append(if *src_ip {
                "源IP"
            } else {
                "目的IP"
            });
        },
        _ => {
            s.append("DNS黑名单匹配");
        },
    }
    assert(s@ =~= match_leaf(node@));
    s
}

/// Appends the lines of a match summary of the condition.
pub fn collect_match_parts(node: &ConditionNode, parts: &mut Vec<String>)
    ensures
        texts(final(parts)@) == texts(old(parts)@) + match_parts(node@),
    decreases node,
{
    match node {
        ConditionNode::And { children } => collect_match_parts_all(children, 0, parts),
        ConditionNode::Or { children } => collect_match_parts_all(children, 0, parts),
        ConditionNode::Not { child } => collect_match_parts(child, parts),
        _ => {
            let line = match_leaf_text(node);
            let ghost before = texts(parts@);
            parts.push(line);
            assert(texts(parts@) =~= before + seq![match_leaf(node@)]);
        },
    }
    proof {
        match node {
            ConditionNode::And { children } => {
                lemma_conds_of(children@);
                assert(conds_of(children@).subrange(0, children@.len() as int) =~= conds_of(children@));
            },
            ConditionNode::Or { children } => {
                lemma_conds_of(children@);
                assert(conds_of(children@).subrange(0, children@.len() as int) =~= conds_of(children@));
            },
            _ => {},
        }
    }
}

fn collect_match_parts_all(children: &Vec<ConditionNode>, i: usize, parts: &mut Vec<String>)
    requires
        i <= children@.len(),
    ensures
        texts(final(parts)@) == texts(old(parts)@) + match_parts_all(
            conds_of(children@).subrange(i as int, children@.len() as int),
        ),
    decreases children, children@.len() - i,
{
    proof {
        lemma_conds_of(children@);
    }
    let ghost sub = conds_of(children@).subrange(i as int, children@.len() as int);
    if i == children.len() {
        assert(sub.len() == 0);
        assert(texts(parts@) + Seq::<Seq<char>>::empty() =~= texts(parts@));
        return;
    }
    proof {
        vstd::std_specs::vec::axiom_vec_index_decreases(*children, i as int);
        assert(sub[0] == children@[i as int]@);
        assert(sub.subrange(1, sub.len() as int) =~= conds_of(children@).subrange(i + 1, children@.len() as int));
    }
    let ghost p0 = texts(parts@);
    collect_match_parts(&children[i], parts);
    collect_match_parts_all(children, i + 1, parts);
    assert(p0 + match_parts_all(sub) =~= p0 + match_parts(sub[0]) + match_parts_all(
        sub.subrange(1, sub.len() as int),
    ));
}

/// A summary of what a matched condition tested.
pub open spec fn match_summary(c: Cond) -> Seq<char> {
    let p = match_parts(c);
    if p.len() == 0 {
        "匹配成功"@
    } else {
        join(p, "; "@)
    }
}

pub fn generate_match_summary(condition: &ConditionNode) -> (s: String)
    ensures
        s@ == match_summary(condition@),
{
    let mut parts: Vec<String> = Vec::new();
    assert(texts(parts@) =~= Seq::<Seq<char>>::empty());
    collect_match_parts(condition, &mut parts);
    assert(texts(parts@) =~= match_parts(condition@));
    if parts.len() == 0 {
        String::from_str("匹配成功")
    } else {
        assert(texts(parts@) =~= crate::replay::generator::strings_view(parts@));
        crate::replay::generator::join_strings(&parts, "; ")
    }
}

pub open spec fn side_prefix_ip(f: IpField) -> Seq<char> {
    match f {
        IpField::Src => "源"@,
        IpField::Dst => "目的"@,
        IpField::Either => ""@,
    }
}

pub open spec fn side_prefix_port(f: PortField) -> Seq<char> {
    match f {
        PortField::Src => "源"@,
        PortField::Dst => "目的"@,
        PortField::Either => ""@,
    }
}

/// The line of a single test in a condition summary.
pub open spec fn summary_leaf(c: Cond) -> Seq<char> {
    match c {
        Cond::ProtocolMatch(p) => "协议:"@ + p,
        Cond::IpMatch(f, cidr) => side_prefix_ip(f) + "IP:"@ + cidr,
        Cond::PortRange(f, lo, hi) => side_prefix_port(f) + "端口:"@ + dec(lo as int) + "-"@ + dec(hi as int),
        Cond::PacketLength(op, v) => "包长"@ + op_symbol(op) + dec(v as int),
        Cond::TcpFlags(fs, _) => "TCP:"@ + join(flag_names(fs), ","@),
        Cond::PayloadKeyword(p) => "载荷:"@ + p,
        Cond::RateLimit(w, t, _) => "速率:"@ + dec(t as int) + "/"@ + dec(w as int) + "s"@,
        Cond::DnsBlacklist(d) => "DNS黑名单:"@ + dec(d.len() as int) + "个"@,
        _ => Seq::empty(),
    }
}

/// All lines of a condition summary, one per test, depth first.
pub open spec fn summary_all(c: Cond) -> Seq<Seq<char>>
    decreases c,
{
    match c {
        Cond::And(cs) => summary_all_in(cs),
        Cond::Or(cs) => summary_all_in(cs),
        Cond::Not(b) => summary_all(*b),
        _ => seq![summary_leaf(c)],
    }
}

pub open spec fn summary_all_in(cs: Seq<Cond>) -> Seq<Seq<char>>
    decreases cs,
{
    if cs.len() == 0 {
        Seq::empty()
    } else {
        summary_all(cs[0]) + summary_all_in(cs.subrange(1, cs.len() as int))
    }
}

/// `p` with items appended until it holds `limit` lines.
pub open spec fn fill(p: Seq<Seq<char>>, items: Seq<Seq<char>>, limit: int) -> Seq<Seq<char>> {
    if p.len() >= limit {
        p
    } else if items.len() <= limit - p.len() {
        p + items
    } else {
        p + items.take(limit - p.len())
    }
}

proof fn lemma_fill_twice(p: Seq<Seq<char>>, a: Seq<Seq<char>>, b: Seq<Seq<char>>, limit: int)
    ensures
        fill(fill(p, a, limit), b, limit) == fill(p, a + b, limit),
{
    if p.len() < limit {
        let k = limit - p.len();
        if a.len() >= k {
            if a.len() > k {
                assert((a + b).take(k) =~= a.take(k));
            } else {
                assert(p + a + b.take(0) =~= p + a);
                if (a + b).len() > k {
                    assert((a + b).take(k) =~= a);
                }
            }
        } else {
            if b.len() <= k - a.len() {
                assert(p + a + b =~= p + (a + b));
            } else {
                assert(p + a + b.take(k - a.len()) =~= p + (a + b).take(k));
            }
        }
    }
}

fn summary_leaf_text(node: &ConditionNode) -> (s: String)
    requires
        !(node@ is And || node@ is Or || node@ is Not),
    ensures
        s@ == summary_leaf(node@),
{
    let mut s = String::new();
    proof {
        reveal_strlit("");
        reveal_strlit("-");
        reveal_strlit("/");
        reveal_strlit("s");
    }
    match node {
        ConditionNode::ProtocolMatch { protocol } => {
            s.append("协议:");
            s.append(protocol.as_str());
        },
        ConditionNode::IpMatch { field, cidr } => {
            s.append(match field {
                IpField::Src => "源",
                IpField::Dst => "目的",
                IpField::Either => "",
            });
            s.append("IP:");
            s.append(cidr.as_str());
        },
        ConditionNode::PortRange { field, min, max } => {
            s.append(match field {
                PortField::Src => "源",
                PortField::Dst => "目的",
                PortField::Either => "",
            });
            s.append("端口:");
            push_decimal(&mut s, *min as u64);
            s.append("-");
            push_decimal(&mut s, *max as u64);
        },
        ConditionNode::PacketLength { operator, value } => {
            s.append("包长");
            s.append(op_str(*operator));
            push_decimal(&mut s, *value as u64);
        },
        ConditionNode::TcpFlags { flags, .. } => {
            s.append("TCP:");
            push_flag_list(&mut s, flags);
        },
        ConditionNode::PayloadKeyword { pattern } => {
            s.append("载荷:");
            s.append(pattern.as_str());
        },
        ConditionNode::RateLimit { window_secs, threshold, .. } => {
            s.append("速率:");
            push_decimal(&mut s, *threshold as u64);
            s.append("/");
            push_decimal(&mut s, *window_secs as u64);
            s.append("s");
        },
        ConditionNode::DnsBlacklist { domains } => {
            s.append("DNS黑名单:");
            push_decimal(&mut s, domains.len() as u64);
            s.append("个");
            assert(texts(domains@).len() == domains@.len());
        },
        _ => {},
    }
    assert(s@ =~= summary_leaf(node@));
    s
}

/// Appends lines of a condition summary until `parts` holds `limit` lines.
pub fn collect_summary_parts(node: &ConditionNode, parts: &mut Vec<String>, limit: usize)
    ensures
        texts(final(parts)@) == fill(texts(old(parts)@), summary_all(node@), limit as int),
    decreases node,
{
    if parts.len() >= limit {
        return;
    }
    match node {
        ConditionNode::And { children } => {
            proof {
                lemma_conds_of(children@);
                assert(conds_of(children@).subrange(0, children@.len() as int) =~= conds_of(children@));
            }
            collect_summary_in(children, 0, parts, limit);
        },
        ConditionNode::Or { children } => {
            proof {
                lemma_conds_of(children@);
                assert(conds_of(children@).subrange(0, children@.len() as int) =~= conds_of(children@));
            }
            collect_summary_in(children, 0, parts, limit);
        },
        ConditionNode::Not { child } => collect_summary_parts(child, parts, limit),
        _ => {
            let line = summary_leaf_text(node);
            let ghost before = texts(parts@);
            parts.push(line);
            assert(texts(parts@) =~= before + seq![summary_leaf(node@)]);
        },
    }
}

fn collect_summary_in(children: &Vec<ConditionNode>, i: usize, parts: &mut Vec<String>, limit: usize)
    requires
        i <= children@.len(),
    ensures
        texts(final(parts)@) == fill(
            texts(old(parts)@),
            summary_all_in(conds_of(children@).subrange(i as int, children@.len() as int)),
            limit as int,
        ),
    decreases children, children@.len() - i,
{
    proof {
        lemma_conds_of(children@);
    }
    let ghost sub = conds_of(children@).subrange(i as int, children@.len() as int);
    let ghost p0 = texts(parts@);
    if i == children.len() {
        assert(sub.len() == 0);
        assert(p0 + Seq::<Seq<char>>::empty() =~= p0);
        return;
    }
    proof {
        vstd::std_specs::vec::axiom_vec_index_decreases(*children, i as int);
        assert(sub[0] == children@[i as int]@);
        assert(sub.subrange(1, sub.len() as int) =~= conds_of(children@).subrange(i + 1, children@.len() as int));
    }
    collect_summary_parts(&children[i], parts, limit);
    let ghost p1 = texts(parts@);
    proof {
        lemma_fill_twice(p0, summary_all(sub[0]), summary_all_in(sub.subrange(1, sub.len() as int)), limit as int);
    }
    if parts.len() >= limit {
        return;
    }
    collect_summary_in(children, i + 1, parts, limit);
}

/// A summary of a condition: its first three tests.
pub open spec fn condition_summary(c: Cond) -> Seq<char> {
    let p = fill(Seq::empty(), summary_all(c), 3);
    if p.len() == 0 {
        "空条件"@
    } else {
        join(p, "; "@)
    }
}

pub fn generate_condition_summary(condition: &ConditionNode) -> (s: String)
    ensures
        s@ == condition_summary(condition@),
{
    let mut parts: Vec<String> = Vec::new();
    assert(texts(parts@) =~= Seq::<Seq<char>>::empty());
    collect_summary_parts(condition, &mut parts, 3);
    if parts.len() == 0 {
        String::from_str("空条件")
    } else {
        assert(texts(parts@) =~= crate::replay::generator::strings_view(parts@));
        crate::replay::generator::join_strings(&parts, "; ")
    }
}

// ---------------------------------------------------------------------------
// The rule set

/// The most alerts kept.
pub const MAX_ALERTS: usize = 50000;

/// The most saved versions kept per rule.
pub const MAX_VERSIONS: usize = 20;

/// The most rules.
pub const MAX_RULES: usize = 200;


/// The position of the first rule with the id.
pub open spec fn rule_index(rs: Seq<RuleV>, id: Seq<char>) -> Option<int> {
    if exists|i: int| 0 <= i < rs.len() && (#[trigger] rs[i]).id@ == id {
        Some(choose|i: int| 0 <= i < rs.len() && (#[trigger] rs[i]).id@ == id && forall|j: int| 0 <= j < i ==> rs[j].id@ != id)
    } else {
        None
    }
}

/// The enabled rules, in order.
pub open spec fn enabled_only(rs: Seq<RuleV>) -> Seq<RuleV>
    decreases rs.len(),
{
    if rs.len() == 0 {
        Seq::empty()
    } else {
        let r = enabled_only(rs.drop_last());
        if rs.last().enabled {
            r.push(rs.last())
        } else {
            r
        }
    }
}

/// The versions kept: the last `MAX_VERSIONS`.
pub open spec fn trimmed_versions(v: Seq<VersionV>) -> Seq<VersionV> {
    if v.len() > MAX_VERSIONS {
        v.skip(v.len() - MAX_VERSIONS)
    } else {
        v
    }
}

/// A snapshot of a rule as a version, taken at `now`.
pub open spec fn is_snapshot(v: VersionV, r: RuleV, now: u64) -> bool {
    &&& v.version == r.current_version
    &&& v.condition == r.condition
    &&& v.expression == r.expression
    &&& v.actions == r.actions
    &&& v.saved_at == now
    &&& v.summary@ == condition_summary(r.condition)
}

/// The rules, their groups, statistics and alerts, with the engine that
/// evaluates the enabled rules and the executor of their responses.
pub struct RuleManager {
    pub rules: Vec<DetectionRule>,
    pub groups: Vec<RuleGroup>,
    pub alerts: Vec<AlertRecord>,
    pub rule_stats: Vec<RuleStats>,
    pub shared_stats: Vec<RuleStats>,
    pub rule_engine: RuleEngine,
    pub response_executor: ResponseExecutor,
    pub app_data_dir: Option<String>,
}

impl RuleManager {
    pub open spec fn rules_v(&self) -> Seq<RuleV> {
        rules_view(self.rules@)
    }

    pub open spec fn wf(&self) -> bool {
        &&& self.rule_engine.wf()
        &&& self.response_executor.wf()
        &&& self.alerts@.len() <= MAX_ALERTS
    }

    /// The engine evaluates the enabled rules, by priority.
    pub open spec fn engine_current(&self) -> bool {
        self.rule_engine.rules_v() == by_priority(enabled_only(self.rules_v()))
    }

    pub fn new() -> (m: Self)
        ensures
            m.wf(),
            m.engine_current(),
            m.rules@.len() == 0,
            m.groups@.len() == 0,
            m.alerts@.len() == 0,
            m.rule_stats@.len() == 0,
            m.app_data_dir is None,
    {
        let ban_list = crate::rule::ban_list::BanListManager::new();
        let config = crate::rule::models::ResponseConfig::default();
        let m = RuleManager {
            rules: Vec::new(),
            groups: Vec::new(),
            alerts: Vec::new(),
            rule_stats: Vec::new(),
            shared_stats: Vec::new(),
            rule_engine: RuleEngine::new(),
            response_executor: ResponseExecutor::new(ban_list, config),
            app_data_dir: None,
        };
        assert(m.rules_v() =~= Seq::<RuleV>::empty());
        assert(enabled_only(m.rules_v()) =~= Seq::<RuleV>::empty());
        assert(by_priority(Seq::<RuleV>::empty()) =~= Seq::<RuleV>::empty());
        assert(m.rule_engine.rules_v() =~= Seq::<RuleV>::empty());
        m
    }

    /// Sets the directory the rules are kept in.
    pub fn set_app_data_dir(&mut self, path: String)
        ensures
            final(self).app_data_dir == Some(path),
            final(self).rules == old(self).rules,
            final(self).groups == old(self).groups,
            final(self).alerts == old(self).alerts,
            final(self).rule_stats == old(self).rule_stats,
            final(self).rule_engine == old(self).rule_engine,
            final(self).response_executor == old(self).response_executor,
            final(self).shared_stats == old(self).shared_stats,
    {
        self.app_data_dir = Some(path);
    }

    fn find_rule(&self, id: &str) -> (r: Option<usize>)
        ensures
            match r {
                Some(i) => i < self.rules@.len() && rule_index(self.rules_v(), id@) == Some(i as int),
                None => rule_index(self.rules_v(), id@) is None,
            },
    {
        let ghost rs = self.rules_v();
        let mut i: usize = 0;
        while i < self.rules.len()
            invariant
                i <= self.rules@.len(),
                rs == rules_view(self.rules@),
                forall|j: int| 0 <= j < i ==> (#[trigger] rs[j]).id@ != id@,
            decreases self.rules.len() - i,
        {
            assert(rs[i as int] == self.rules@[i as int]@);
            if crate::text::same_text(self.rules[i].id.as_str(), id) {
                assert(rs[i as int].id@ == id@);
                proof {
                    let k = choose|k: int| 0 <= k < rs.len() && (#[trigger] rs[k]).id@ == id@ && forall|j: int| 0 <= j < k ==> rs[j].id@ != id@;
                    assert(k == i) by {
                        if k < i {
                            assert(rs[k].id@ != id@);
                        } else if k > i {
                            assert(rs[i as int].id@ != id@);
                        }
                    }
                }
                return Some(i);
            }
            i = i + 1;
        }
        None
    }

    /// Gives the engine copies of the enabled rules.
    pub fn refresh_engine(&mut self)
        requires
            old(self).wf(),
        ensures
            final(self).wf(),
            final(self).engine_current(),
            final(self).rules == old(self).rules,
            final(self).groups == old(self).groups,
            final(self).alerts == old(self).alerts,
            final(self).rule_stats == old(self).rule_stats,
            final(self).response_executor == old(self).response_executor,
            final(self).shared_stats == old(self).shared_stats,
            final(self).app_data_dir == old(self).app_data_dir,
            final(self).rule_engine.counters_v() == old(self).rule_engine.counters_v(),
    {
        let mut enabled: Vec<DetectionRule> = Vec::new();
        let mut i: usize = 0;
        assert(self.rules_v().take(0) =~= Seq::<RuleV>::empty());
        assert(rules_view(enabled@) =~= Seq::<RuleV>::empty());
        while i < self.rules.len()
            invariant
                i <= self.rules@.len(),
                rules_view(enabled@) == enabled_only(self.rules_v().take(i as int)),
            decreases self.rules.len() - i,
        {
            let ghost t = self.rules_v().take(i as int + 1);
            assert(t.drop_last() =~= self.rules_v().take(i as int));
            assert(t.last() == self.rules@[i as int]@);
            if self.rules[i].enabled {
                let ghost before = enabled@;
                enabled.push(self.rules[i].duplicate());
                assert(rules_view(enabled@) =~= rules_view(before).push(self.rules@[i as int]@));
            }
            i = i + 1;
        }
        assert(self.rules_v().take(i as int) =~= self.rules_v());
        self.rule_engine.set_rules(enabled);
    }

    pub fn get_rules(&self) -> (r: Vec<DetectionRule>)
        ensures
            rules_view(r@) == self.rules_v(),
    {
        duplicate_rules(&self.rules)
    }

    pub fn get_groups(&self) -> (r: Vec<RuleGroup>)
        ensures
            r@ == self.groups@,
    {
        let mut r: Vec<RuleGroup> = Vec::new();
        let mut i: usize = 0;
        while i < self.groups.len()
            invariant
                i <= self.groups@.len(),
                r@ == self.groups@.take(i as int),
            decreases self.groups.len() - i,
        {
            r.push(self.groups[i].clone());
            i = i + 1;
            assert(r@ =~= self.groups@.take(i as int));
        }
        assert(self.groups@.take(i as int) =~= self.groups@);
        r
    }

    /// The alerts, newest first.
    pub fn get_alerts(&self) -> (r: Vec<AlertRecord>)
        ensures
            r@ == self.alerts@.reverse(),
    {
        let mut r: Vec<AlertRecord> = Vec::new();
        let n = self.alerts.len();
        let mut i: usize = n;
        while i > 0
            invariant
                i <= n,
                n == self.alerts@.len(),
                r@ == self.alerts@.subrange(i as int, n as int).reverse(),
            decreases i,
        {
            i = i - 1;
            r.push(self.alerts[i].clone());
            assert(r@ =~= self.alerts@.subrange(i as int, n as int).reverse());
        }
        assert(self.alerts@.subrange(0, n as int) =~= self.alerts@);
        r
    }

    pub fn get_alert_count(&self) -> (n: usize)
        ensures
            n == self.alerts@.len(),
    {
        self.alerts.len()
    }

    /// A snapshot of the rule as a version, taken now.
    pub fn create_version_snapshot(rule: &DetectionRule) -> (v: RuleVersion)
        ensures
            exists|now: u64| is_snapshot(v@, rule@, now),
    {
        let summary = generate_condition_summary(&rule.condition);
        let now = SlidingWindowCounter::current_timestamp_secs();
        let v = RuleVersion {
            version: rule.current_version,
            condition: rule.condition.duplicate(),
            expression: rule.expression.clone(),
            actions: rule.actions.duplicate(),
            saved_at: now,
            summary,
        };
        assert(is_snapshot(v@, rule@, now));
        v
    }
}

pub open spec fn stats_views(s: Seq<RuleStats>) -> Seq<crate::rule::models::StatsV> {
    s.map_values(|x: RuleStats| x@)
}

/// The statistics of a rule: the first entry for it.
pub open spec fn stat_first(v: Seq<crate::rule::models::StatsV>, id: Seq<char>) -> Option<crate::rule::models::StatsV>
    decreases v.len(),
{
    if v.len() == 0 {
        None
    } else if v[0].rule_id@ == id {
        Some(v[0])
    } else {
        stat_first(v.drop_first(), id)
    }
}

pub open spec fn stat_of(s: Seq<RuleStats>, id: Seq<char>) -> Option<crate::rule::models::StatsV> {
    stat_first(stats_views(s), id)
}

/// The entries of rules not in `ids`, in order.
pub open spec fn stats_without(v: Seq<crate::rule::models::StatsV>, ids: Seq<Seq<char>>) -> Seq<crate::rule::models::StatsV>
    decreases v.len(),
{
    if v.len() == 0 {
        Seq::empty()
    } else if ids.contains(v[0].rule_id@) {
        stats_without(v.drop_first(), ids)
    } else {
        seq![v[0]] + stats_without(v.drop_first(), ids)
    }
}

proof fn lemma_stat_first_update(v: Seq<crate::rule::models::StatsV>, i: int, e: crate::rule::models::StatsV, k: Seq<char>)
    requires
        0 <= i < v.len(),
        v[i].rule_id@ == e.rule_id@,
        forall|j: int| 0 <= j < i ==> (#[trigger] v[j]).rule_id@ != e.rule_id@,
    ensures
        stat_first(v.update(i, e), k) == if k == e.rule_id@ {
            Some(e)
        } else {
            stat_first(v, k)
        },
    decreases i,
{
    let n = v.update(i, e);
    if i > 0 {
        assert(n.drop_first() =~= v.drop_first().update(i - 1, e));
        assert forall|j: int| 0 <= j < i - 1 implies (#[trigger] v.drop_first()[j]).rule_id@ != e.rule_id@ by {
            assert(v.drop_first()[j] == v[j + 1]);
        }
        lemma_stat_first_update(v.drop_first(), i - 1, e, k);
        assert(n[0] == v[0]);
    } else {
        assert(n.drop_first() =~= v.drop_first());
    }
}

proof fn lemma_stat_first_push(v: Seq<crate::rule::models::StatsV>, e: crate::rule::models::StatsV, k: Seq<char>)
    requires
        forall|j: int| 0 <= j < v.len() ==> (#[trigger] v[j]).rule_id@ != e.rule_id@,
    ensures
        stat_first(v.push(e), k) == if k == e.rule_id@ && stat_first(v, k) is None {
            Some(e)
        } else {
            stat_first(v, k)
        },
    decreases v.len(),
{
    let n = v.push(e);
    if v.len() == 0 {
        assert(n.drop_first() =~= Seq::<crate::rule::models::StatsV>::empty());
    } else {
        assert(n.drop_first() =~= v.drop_first().push(e));
        assert forall|j: int| 0 <= j < v.drop_first().len() implies (#[trigger] v.drop_first()[j]).rule_id@ != e.rule_id@ by {
            assert(v.drop_first()[j] == v[j + 1]);
        }
        lemma_stat_first_push(v.drop_first(), e, k);
        assert(n[0] == v[0]);
    }
}

proof fn lemma_stat_first_none(v: Seq<crate::rule::models::StatsV>, id: Seq<char>)
    requires
        forall|j: int| 0 <= j < v.len() ==> (#[trigger] v[j]).rule_id@ != id,
    ensures
        stat_first(v, id) is None,
    decreases v.len(),
{
    if v.len() > 0 {
        assert forall|j: int| 0 <= j < v.drop_first().len() implies (#[trigger] v.drop_first()[j]).rule_id@ != id by {
            assert(v.drop_first()[j] == v[j + 1]);
        }
        lemma_stat_first_none(v.drop_first(), id);
    }
}

/// Dropping the entries of some rules keeps those of the others.
pub proof fn lemma_stats_without(v: Seq<crate::rule::models::StatsV>, ids: Seq<Seq<char>>, k: Seq<char>)
    ensures
        stat_first(stats_without(v, ids), k) == if ids.contains(k) {
            None
        } else {
            stat_first(v, k)
        },
    decreases v.len(),
{
    if v.len() > 0 {
        lemma_stats_without(v.drop_first(), ids, k);
        if !ids.contains(v[0].rule_id@) {
            let w = seq![v[0]] + stats_without(v.drop_first(), ids);
            assert(w.drop_first() =~= stats_without(v.drop_first(), ids));
        }
    }
}

/// Fresh, empty statistics of the rule.
pub open spec fn fresh_stats(v: crate::rule::models::StatsV, id: Seq<char>) -> bool {
    &&& v.rule_id@ == id
    &&& v.total_triggers == 0
    &&& v.triggers_last_24h == 0
    &&& v.last_24h_triggers == 0
    &&& v.first_trigger_time is None
    &&& v.last_trigger_time is None
    &&& v.last_24h_window_start == 0
    &&& v.recent_triggers.len() == 0
}

/// Two rules equal but for their version number and saved versions.
pub open spec fn same_but_versions(a: RuleV, b: RuleV) -> bool {
    &&& a.id == b.id
    &&& a.name == b.name
    &&& a.priority == b.priority
    &&& a.enabled == b.enabled
    &&& a.condition == b.condition
    &&& a.expression == b.expression
    &&& a.actions == b.actions
    &&& a.group == b.group
    &&& a.description == b.description
    &&& a.created_at == b.created_at
    &&& a.updated_at == b.updated_at
    &&& a.response_actions == b.response_actions
    &&& a.cooldown_secs == b.cooldown_secs
}

/// The error of a rule whose pattern does not compile, if any.
pub open spec fn pattern_error(r: RuleV) -> Option<Seq<char>> {
    match first_bad_pattern(r.condition) {
        Some(p) => Some(regex_error(p)),
        None => None,
    }
}

pub open spec fn rules_full_message() -> Seq<char> {
    "规则数量已达上限("@ + dec(MAX_RULES as int) + ")，请删除旧规则"@
}

impl RuleManager {
    /// Sets empty statistics for the rule, in place of any it had.
    fn reset_stats(&mut self, id: &String)
        ensures
            stat_of(final(self).rule_stats@, id@) matches Some(v) && fresh_stats(v, id@),
            forall|k: Seq<char>| k != id@ ==> #[trigger] stat_of(final(self).rule_stats@, k) == stat_of(old(self).rule_stats@, k),
            final(self).rules == old(self).rules,
            final(self).groups == old(self).groups,
            final(self).alerts == old(self).alerts,
            final(self).rule_engine == old(self).rule_engine,
            final(self).response_executor == old(self).response_executor,
            final(self).shared_stats == old(self).shared_stats,
            final(self).app_data_dir == old(self).app_data_dir,
    {
        let ghost v = stats_views(self.rule_stats@);
        let mut i: usize = 0;
        while i < self.rule_stats.len()
            invariant
                i <= self.rule_stats@.len(),
                v == stats_views(self.rule_stats@),
                forall|j: int| 0 <= j < i ==> (#[trigger] v[j]).rule_id@ != id@,
            ensures
                i <= self.rule_stats@.len(),
                forall|j: int| 0 <= j < i ==> (#[trigger] v[j]).rule_id@ != id@,
                i < self.rule_stats@.len() ==> v[i as int].rule_id@ == id@,
            decreases self.rule_stats.len() - i,
        {
            assert(v[i as int] == self.rule_stats@[i as int]@);
            if crate::text::same_text(self.rule_stats[i].rule_id.as_str(), id.as_str()) {
                break;
            }
            i = i + 1;
        }
        let fresh = RuleStats::for_rule(id.clone());
        let ghost fv = fresh@;
        if i < self.rule_stats.len() {
            self.rule_stats.set(i, fresh);
            assert(stats_views(self.rule_stats@) =~= v.update(i as int, fv));
            assert forall|k: Seq<char>| #[trigger] stat_of(self.rule_stats@, k) == (if k == id@ { Some(fv) } else { stat_first(v, k) }) by {
                lemma_stat_first_update(v, i as int, fv, k);
            }
        } else {
            self.rule_stats.push(fresh);
            assert(stats_views(self.rule_stats@) =~= v.push(fv));
            proof {
                lemma_stat_first_none(v, id@);
            }
            assert forall|k: Seq<char>| #[trigger] stat_of(self.rule_stats@, k) == (if k == id@ { Some(fv) } else { stat_first(v, k) }) by {
                lemma_stat_first_push(v, fv, k);
            }
        }
        assert(stat_of(self.rule_stats@, id@) == Some(fv));
    }

    /// Drops the statistics of the rules with the ids.
    fn remove_stats(&mut self, Ghost(ids): Ghost<Seq<Seq<char>>>, list: &Vec<String>)
        requires
            texts(list@) == ids,
        ensures
            stats_views(final(self).rule_stats@) == stats_without(stats_views(old(self).rule_stats@), ids),
            final(self).rules == old(self).rules,
            final(self).groups == old(self).groups,
            final(self).alerts == old(self).alerts,
            final(self).rule_engine == old(self).rule_engine,
            final(self).response_executor == old(self).response_executor,
            final(self).shared_stats == old(self).shared_stats,
            final(self).app_data_dir == old(self).app_data_dir,
    {
        let ghost v = stats_views(self.rule_stats@);
        let mut kept: Vec<RuleStats> = Vec::new();
        let mut i: usize = 0;
        assert(v.skip(0) =~= v);
        assert(stats_views(kept@) + stats_without(v.skip(0), ids) =~= stats_without(v, ids));
        while i < self.rule_stats.len()
            invariant
                i <= self.rule_stats@.len(),
                v == stats_views(self.rule_stats@),
                texts(list@) == ids,
                stats_views(kept@) + stats_without(v.skip(i as int), ids) == stats_without(v, ids),
            decreases self.rule_stats.len() - i,
        {
            let mut found = false;
            let mut k: usize = 0;
            while k < list.len()
                invariant
                    k <= list@.len(),
                    i < self.rule_stats@.len(),
                    texts(list@) == ids,
                    found == exists|a: int| 0 <= a < k && ids[a] == self.rule_stats@[i as int].rule_id@,
                decreases list.len() - k,
            {
                assert(ids[k as int] == list@[k as int]@);
                if crate::text::same_text(list[k].as_str(), self.rule_stats[i].rule_id.as_str()) {
                    found = true;
                }
                k = k + 1;
            }
            let ghost rest = v.skip(i as int);
            assert(rest[0] == self.rule_stats@[i as int]@);
            assert(rest.drop_first() =~= v.skip(i as int + 1));
            proof {
                if found {
                    assert(ids.contains(rest[0].rule_id@));
                } else {
                    assert(!ids.contains(rest[0].rule_id@)) by {
                        if ids.contains(rest[0].rule_id@) {
                            let a = choose|a: int| 0 <= a < ids.len() && ids[a] == rest[0].rule_id@;
                        }
                    }
                }
            }
            if !found {
                let ghost kb = stats_views(kept@);
                kept.push(self.rule_stats[i].duplicate());
                assert(stats_views(kept@) =~= kb.push(rest[0]));
                assert(kb + stats_without(rest, ids) =~= stats_views(kept@) + stats_without(v.skip(i as int + 1), ids));
            }
            i = i + 1;
        }
        assert(v.skip(i as int) =~= Seq::<crate::rule::models::StatsV>::empty());
        assert(stats_views(kept@) + Seq::<crate::rule::models::StatsV>::empty() =~= stats_views(kept@));
        self.rule_stats = kept;
    }
}

/// The rule as added: version 1, with one saved version, a snapshot of it.
pub open spec fn as_added(a: RuleV, r: RuleV) -> bool {
    &&& same_but_versions(a, r)
    &&& a.current_version == 1
    &&& a.versions.len() == 1
    &&& exists|now: u64| is_snapshot(a.versions[0], RuleV { current_version: 1, ..r }, now)
}

/// The rule as updated: the new rule's fields, the next version number, and
/// the old rule's versions with a snapshot of it appended (the last
/// `MAX_VERSIONS` kept).
pub open spec fn as_updated(a: RuleV, new_rule: RuleV, old_rule: RuleV) -> bool {
    &&& same_but_versions(a, new_rule)
    &&& a.current_version == old_rule.current_version + 1
    &&& a.versions.len() >= 1
    &&& exists|v: VersionV, now: u64| is_snapshot(v, old_rule, now) && a.versions == trimmed_versions(old_rule.versions.push(v))
}

fn trim_versions(v: &mut Vec<RuleVersion>)
    ensures
        versions_view(final(v)@) == trimmed_versions(versions_view(old(v)@)),
{
    if v.len() > MAX_VERSIONS {
        let drop = v.len() - MAX_VERSIONS;
        let mut kept: Vec<RuleVersion> = Vec::new();
        let mut i: usize = drop;
        while i < v.len()
            invariant
                drop <= i <= v@.len(),
                drop == v@.len() - MAX_VERSIONS,
                kept@.len() == i - drop,
                versions_view(kept@) == versions_view(v@).subrange(drop as int, i as int),
            decreases v.len() - i,
        {
            let ghost before = kept@;
            kept.push(v[i].duplicate());
            assert(versions_view(kept@) =~= versions_view(v@).subrange(drop as int, i + 1)) by {
                assert forall|j: int| 0 <= j < kept@.len() implies #[trigger] versions_view(kept@)[j] == versions_view(v@).subrange(drop as int, i + 1)[j] by {
                    if j < before.len() {
                        assert(kept@[j] == before[j]);
                        assert(versions_view(before)[j] == versions_view(v@).subrange(drop as int, i as int)[j]);
                    }
                }
            }
            i = i + 1;
        }
        assert(versions_view(v@).subrange(drop as int, v@.len() as int) =~= versions_view(v@).skip(drop as int));
        *v = kept;
    }
}

impl RuleManager {
    /// Adds a rule, as version 1 with a snapshot of itself; refused when the
    /// rule set is full, the id is taken, or a payload pattern does not
    /// compile.
    pub fn add_rule(&mut self, rule: DetectionRule) -> (r: Result<(), String>)
        requires
            old(self).wf(),
        ensures
            final(self).wf(),
            old(self).rules@.len() >= MAX_RULES ==> (r matches Err(m) && m@ == rules_full_message()),
            old(self).rules@.len() < MAX_RULES && rule_index(old(self).rules_v(), rule.id@) is Some ==> (r matches Err(m)
                && m@ == "规则ID已存在"@),
            old(self).rules@.len() < MAX_RULES && rule_index(old(self).rules_v(), rule.id@) is None && pattern_error(
                rule@,
            ) is Some ==> (r matches Err(m) && Some(m@) == pattern_error(rule@)),
            r is Err ==> final(self).rules == old(self).rules && final(self).rule_stats == old(self).rule_stats
                && final(self).rule_engine == old(self).rule_engine,
            r is Ok <==> old(self).rules@.len() < MAX_RULES && rule_index(old(self).rules_v(), rule.id@) is None
                && pattern_error(rule@) is None,
            r is Ok ==> {
                &&& final(self).rules_v().len() == old(self).rules_v().len() + 1
                &&& final(self).rules_v().drop_last() == old(self).rules_v()
                &&& as_added(final(self).rules_v().last(), rule@)
                &&& final(self).engine_current()
                &&& stat_of(final(self).rule_stats@, rule.id@) matches Some(v) && fresh_stats(v, rule.id@)
            },
            final(self).groups == old(self).groups,
            final(self).alerts == old(self).alerts,
    {
        if self.rules.len() >= MAX_RULES {
            let mut m = String::from_str("规则数量已达上限(");
            push_decimal(&mut m, MAX_RULES as u64);
            m.append(")，请删除旧规则");
            return Err(m);
        }
        if self.find_rule(rule.id.as_str()).is_some() {
            return Err(String::from_str("规则ID已存在"));
        }
        match compile_regex_in_rule(&rule) {
            Err(e) => {
                return Err(e);
            },
            Ok(()) => {},
        }
        let mut rule = rule;
        let ghost orig = rule@;
        rule.current_version = 1;
        let snapshot = Self::create_version_snapshot(&rule);
        let ghost snap = snapshot@;
        let ghost now = choose|now: u64| is_snapshot(snap, rule@, now);
        let mut versions: Vec<RuleVersion> = Vec::new();
        versions.push(snapshot);
        assert(versions_view(versions@) =~= seq![snap]);
        rule.versions = versions;
        assert(same_but_versions(rule@, orig));
        assert(is_snapshot(rule@.versions[0], RuleV { current_version: 1, ..orig }, now));
        assert(as_added(rule@, orig));
        let id = rule.id.clone();
        self.reset_stats(&id);
        let ghost before = self.rules_v();
        let ghost added = rule@;
        self.rules.push(rule);
        assert(self.rules_v() =~= before.push(added));
        self.refresh_engine();
        assert(self.rules_v().last() == added);
        Ok(())
    }
}

/// A rule as toggled: enabled or not, updated at `now`, otherwise the same.
pub open spec fn as_toggled(a: RuleV, r: RuleV, enabled: bool, now: u64) -> bool {
    a == RuleV { enabled: enabled, updated_at: now, ..r }
}

/// The saved version with the number, the first one if several.
pub open spec fn version_index(vs: Seq<VersionV>, n: u32) -> Option<int> {
    if exists|i: int| 0 <= i < vs.len() && (#[trigger] vs[i]).version == n {
        Some(choose|i: int| 0 <= i < vs.len() && (#[trigger] vs[i]).version == n && forall|j: int| 0 <= j < i ==> vs[j].version != n)
    } else {
        None
    }
}

/// A rule rolled back to a saved version: that version's condition,
/// expression and actions, the next version number, a snapshot of the rule
/// as it was appended to its versions, updated at some time.
pub open spec fn as_rolled_back(a: RuleV, r: RuleV, target: VersionV) -> bool {
    &&& a.id == r.id && a.name == r.name && a.priority == r.priority && a.enabled == r.enabled
    &&& a.group == r.group && a.description == r.description && a.created_at == r.created_at
    &&& a.response_actions == r.response_actions && a.cooldown_secs == r.cooldown_secs
    &&& a.condition == target.condition && a.expression == target.expression && a.actions == target.actions
    &&& a.current_version == r.current_version + 1
    &&& exists|v: VersionV, now: u64| is_snapshot(v, r, now) && a.versions == trimmed_versions(r.versions.push(v))
}

impl RuleManager {
    /// Replaces a rule by a new version of it: the next version number, with
    /// a snapshot of the old rule saved; refused when a payload pattern does
    /// not compile or no rule has the id.
    pub fn update_rule(&mut self, rule: DetectionRule) -> (r: Result<(), String>)
        requires
            old(self).wf(),
            forall|i: int| 0 <= i < old(self).rules@.len() ==> (#[trigger] old(self).rules@[i]).current_version < u32::MAX,
        ensures
            final(self).wf(),
            pattern_error(rule@) is Some ==> (r matches Err(m) && Some(m@) == pattern_error(rule@)),
            pattern_error(rule@) is None && rule_index(old(self).rules_v(), rule.id@) is None ==> (r matches Err(m) && m@
                == "规则不存在"@),
            r is Err ==> final(self).rules == old(self).rules && final(self).rule_engine == old(self).rule_engine,
            r is Ok <==> pattern_error(rule@) is None && rule_index(old(self).rules_v(), rule.id@) is Some,
            r is Ok ==> {
                let i = rule_index(old(self).rules_v(), rule.id@)->0;
                &&& final(self).rules_v().len() == old(self).rules_v().len()
                &&& forall|j: int| 0 <= j < old(self).rules_v().len() && j != i ==> final(self).rules_v()[j] == old(self).rules_v()[j]
                &&& as_updated(final(self).rules_v()[i], rule@, old(self).rules_v()[i])
                &&& final(self).engine_current()
            },
            final(self).rule_stats == old(self).rule_stats,
            final(self).groups == old(self).groups,
            final(self).alerts == old(self).alerts,
    {
        match compile_regex_in_rule(&rule) {
            Err(e) => {
                return Err(e);
            },
            Ok(()) => {},
        }
        let i = match self.find_rule(rule.id.as_str()) {
            Some(i) => i,
            None => {
                return Err(String::from_str("规则不存在"));
            },
        };
        let ghost before = self.rules_v();
        let old_version = Self::create_version_snapshot(&self.rules[i]);
        let ghost snap = old_version@;
        let mut versions = crate::rule::models::duplicate_versions(&self.rules[i].versions);
        let ghost vb = versions@;
        versions.push(old_version);
        assert(versions_view(versions@) =~= versions_view(vb).push(snap));
        trim_versions(&mut versions);
        let ghost given = rule@;
        let mut rule = rule;
        rule.current_version = self.rules[i].current_version + 1;
        rule.versions = versions;
        assert(as_updated(rule@, given, before[i as int])) by {
            let now = choose|now: u64| is_snapshot(snap, before[i as int], now);
            assert(is_snapshot(snap, before[i as int], now));
        }
        let ghost nv = rule@;
        self.rules.set(i, rule);
        assert(self.rules_v() =~= before.update(i as int, nv));
        self.refresh_engine();
        Ok(())
    }
}

/// The rules without those whose id is in `ids`, in order.
pub open spec fn without_ids(rs: Seq<RuleV>, ids: Seq<Seq<char>>) -> Seq<RuleV>
    decreases rs.len(),
{
    if rs.len() == 0 {
        Seq::empty()
    } else {
        let r = without_ids(rs.drop_last(), ids);
        if ids.contains(rs.last().id@) {
            r
        } else {
            r.push(rs.last())
        }
    }
}

/// The rule at `i` toggled at some time, the others unchanged.
pub open spec fn toggled_at(n: Seq<RuleV>, o: Seq<RuleV>, i: int, enabled: bool) -> bool {
    &&& n == o.update(i, n[i])
    &&& exists|now: u64| #[trigger] as_toggled(n[i], o[i], enabled, now)
}

/// Every listed rule toggled at `now`, the others unchanged.
pub open spec fn toggled_all(n: Seq<RuleV>, o: Seq<RuleV>, ids: Seq<Seq<char>>, enabled: bool, now: u64) -> bool {
    &&& n.len() == o.len()
    &&& forall|j: int| 0 <= j < o.len() ==> #[trigger] n[j] == if ids.contains(o[j].id@) {
        RuleV { enabled: enabled, updated_at: now, ..o[j] }
    } else {
        o[j]
    }
}

impl RuleManager {
    /// Keeps the rules whose ids are not listed.
    fn drop_rules(&mut self, Ghost(ids): Ghost<Seq<Seq<char>>>, list: &Vec<String>)
        requires
            old(self).wf(),
            texts(list@) == ids,
        ensures
            final(self).rules_v() == without_ids(old(self).rules_v(), ids),
            final(self).rules@.len() <= old(self).rules@.len(),
            final(self).groups == old(self).groups,
            final(self).alerts == old(self).alerts,
            final(self).rule_stats == old(self).rule_stats,
            final(self).rule_engine == old(self).rule_engine,
            final(self).response_executor == old(self).response_executor,
            final(self).shared_stats == old(self).shared_stats,
            final(self).app_data_dir == old(self).app_data_dir,
    {
        let ghost rs = self.rules_v();
        let mut kept: Vec<DetectionRule> = Vec::new();
        let mut i: usize = 0;
        assert(rs.take(0) =~= Seq::<RuleV>::empty());
        assert(rules_view(kept@) =~= Seq::<RuleV>::empty());
        while i < self.rules.len()
            invariant
                i <= self.rules@.len(),
                rs == rules_view(self.rules@),
                texts(list@) == ids,
                rules_view(kept@) == without_ids(rs.take(i as int), ids),
                kept@.len() <= i,
            decreases self.rules.len() - i,
        {
            let ghost t = rs.take(i as int + 1);
            assert(t.drop_last() =~= rs.take(i as int));
            assert(t.last() == self.rules@[i as int]@);
            let mut found = false;
            let mut k: usize = 0;
            while k < list.len()
                invariant
                    k <= list@.len(),
                    i < self.rules@.len(),
                    texts(list@) == ids,
                    found == exists|a: int| 0 <= a < k && ids[a] == self.rules@[i as int].id@,
                decreases list.len() - k,
            {
                assert(ids[k as int] == list@[k as int]@);
                if crate::text::same_text(list[k].as_str(), self.rules[i].id.as_str()) {
                    found = true;
                }
                k = k + 1;
            }
            proof {
                if found {
                    assert(ids.contains(t.last().id@));
                } else {
                    assert(!ids.contains(t.last().id@)) by {
                        if ids.contains(t.last().id@) {
                            let a = choose|a: int| 0 <= a < ids.len() && ids[a] == t.last().id@;
                        }
                    }
                }
            }
            if !found {
                let ghost kb = kept@;
                kept.push(self.rules[i].duplicate());
                assert(rules_view(kept@) =~= rules_view(kb).push(t.last()));
            }
            i = i + 1;
        }
        assert(rs.take(i as int) =~= rs);
        self.rules = kept;
    }

    /// Deletes the rule with the id (if any) and its statistics.
    pub fn delete_rule(&mut self, rule_id: &str)
        requires
            old(self).wf(),
        ensures
            final(self).wf(),
            final(self).rules_v() == without_ids(old(self).rules_v(), seq![rule_id@]),
            stats_views(final(self).rule_stats@) == stats_without(stats_views(old(self).rule_stats@), seq![rule_id@]),
            final(self).engine_current(),
            final(self).groups == old(self).groups,
            final(self).alerts == old(self).alerts,
    {
        let mut list: Vec<String> = Vec::new();
        list.push(String::from_str(rule_id));
        let ghost ids = seq![rule_id@];
        assert(texts(list@) =~= ids);
        self.drop_rules(Ghost(ids), &list);
        self.remove_stats(Ghost(ids), &list);
        self.refresh_engine();
    }

    /// Deletes the rules with the ids, and their statistics.
    pub fn batch_delete(&mut self, rule_ids: &Vec<String>)
        requires
            old(self).wf(),
        ensures
            final(self).wf(),
            final(self).rules_v() == without_ids(old(self).rules_v(), texts(rule_ids@)),
            stats_views(final(self).rule_stats@) == stats_without(stats_views(old(self).rule_stats@), texts(rule_ids@)),
            final(self).engine_current(),
            final(self).groups == old(self).groups,
            final(self).alerts == old(self).alerts,
    {
        let ghost ids = texts(rule_ids@);
        self.drop_rules(Ghost(ids), rule_ids);
        self.remove_stats(Ghost(ids), rule_ids);
        self.refresh_engine();
    }

    /// Replaces the rule at `i` by a copy with `enabled` set and updated at `now`.
    fn set_enabled_at(&mut self, i: usize, enabled: bool, now: u64)
        requires
            old(self).wf(),
            i < old(self).rules@.len(),
        ensures
            final(self).wf(),
            final(self).rules_v() == old(self).rules_v().update(
                i as int,
                RuleV { enabled: enabled, updated_at: now, ..old(self).rules_v()[i as int] },
            ),
            final(self).groups == old(self).groups,
            final(self).alerts == old(self).alerts,
            final(self).rule_stats == old(self).rule_stats,
            final(self).rule_engine == old(self).rule_engine,
            final(self).response_executor == old(self).response_executor,
            final(self).shared_stats == old(self).shared_stats,
            final(self).app_data_dir == old(self).app_data_dir,
    {
        let ghost before = self.rules_v();
        let mut r = self.rules[i].duplicate();
        r.enabled = enabled;
        r.updated_at = now;
        let ghost nv = r@;
        self.rules.set(i, r);
        assert(self.rules_v() =~= before.update(i as int, nv));
    }

    /// Enables or disables the rule with the id, marking it updated now.
    pub fn toggle_rule(&mut self, rule_id: &str, enabled: bool) -> (r: Result<(), String>)
        requires
            old(self).wf(),
        ensures
            final(self).wf(),
            r is Ok <==> rule_index(old(self).rules_v(), rule_id@) is Some,
            r matches Err(m) ==> m@ == "规则不存在"@ && final(self).rules == old(self).rules,
            r is Ok ==> final(self).engine_current() && toggled_at(
                final(self).rules_v(),
                old(self).rules_v(),
                rule_index(old(self).rules_v(), rule_id@)->0,
                enabled,
            ),
            final(self).groups == old(self).groups,
            final(self).alerts == old(self).alerts,
            final(self).rule_stats == old(self).rule_stats,
    {
        match self.find_rule(rule_id) {
            Some(i) => {
                assert(rule_index(old(self).rules_v(), rule_id@) == Some(i as int));
                let now = SlidingWindowCounter::current_timestamp_secs();
                self.set_enabled_at(i, enabled, now);
                self.refresh_engine();
                assert(self.engine_current());
                assert(as_toggled(self.rules_v()[i as int], old(self).rules_v()[i as int], enabled, now));
                assert(self.rules_v() =~= old(self).rules_v().update(i as int, self.rules_v()[i as int]));
                assert(toggled_at(self.rules_v(), old(self).rules_v(), i as int, enabled));
                Ok(())
            },
            None => Err(String::from_str("规则不存在")),
        }
    }

    /// Enables or disables each listed rule that exists, marking it updated
    /// now.
    pub fn batch_toggle(&mut self, rule_ids: &Vec<String>, enabled: bool)
        requires
            old(self).wf(),
        ensures
            final(self).wf(),
            final(self).engine_current(),
            final(self).rules_v().len() == old(self).rules_v().len(),
            exists|now: u64| #[trigger] toggled_all(final(self).rules_v(), old(self).rules_v(), texts(rule_ids@), enabled, now),
            final(self).groups == old(self).groups,
            final(self).alerts == old(self).alerts,
            final(self).rule_stats == old(self).rule_stats,
    {
        let now = SlidingWindowCounter::current_timestamp_secs();
        let ghost ids = texts(rule_ids@);
        let ghost o = self.rules_v();
        let mut out: Vec<DetectionRule> = Vec::new();
        let mut i: usize = 0;
        while i < self.rules.len()
            invariant
                i <= self.rules@.len(),
                o == rules_view(self.rules@),
                ids == texts(rule_ids@),
                out@.len() == i,
                forall|j: int| 0 <= j < i ==> #[trigger] rules_view(out@)[j] == if ids.contains(o[j].id@) {
                    RuleV { enabled: enabled, updated_at: now, ..o[j] }
                } else {
                    o[j]
                },
            decreases self.rules.len() - i,
        {
            let mut found = false;
            let mut k: usize = 0;
            while k < rule_ids.len()
                invariant
                    k <= rule_ids@.len(),
                    i < self.rules@.len(),
                    ids == texts(rule_ids@),
                    found == exists|a: int| 0 <= a < k && ids[a] == self.rules@[i as int].id@,
                decreases rule_ids.len() - k,
            {
                assert(ids[k as int] == rule_ids@[k as int]@);
                if crate::text::same_text(rule_ids[k].as_str(), self.rules[i].id.as_str()) {
                    found = true;
                }
                k = k + 1;
            }
            proof {
                assert(o[i as int] == self.rules@[i as int]@);
                if found {
                    assert(ids.contains(o[i as int].id@));
                } else {
                    assert(!ids.contains(o[i as int].id@)) by {
                        if ids.contains(o[i as int].id@) {
                            let a = choose|a: int| 0 <= a < ids.len() && ids[a] == o[i as int].id@;
                        }
                    }
                }
            }
            let mut r = self.rules[i].duplicate();
            if found {
                r.enabled = enabled;
                r.updated_at = now;
            }
            let ghost ob = out@;
            out.push(r);
            proof {
                assert forall|j: int| 0 <= j < i + 1 implies #[trigger] rules_view(out@)[j] == if ids.contains(o[j].id@) {
                    RuleV { enabled: enabled, updated_at: now, ..o[j] }
                } else {
                    o[j]
                } by {
                    if j < i {
                        assert(out@[j] == ob[j]);
                        assert(rules_view(ob)[j] == rules_view(out@)[j]);
                    }
                }
            }
            i = i + 1;
        }
        proof {
            assert(toggled_all(rules_view(out@), o, ids, enabled, now));
        }
        self.rules = out;
        self.refresh_engine();
    }
}

/// The group with the id, if any.
pub open spec fn has_group(gs: Seq<RuleGroup>, id: Seq<char>) -> bool {
    exists|i: int| 0 <= i < gs.len() && (#[trigger] gs[i]).id@ == id
}

/// The rules that conflict with `r`: enabled, of another id, with a
/// conflict, in order, with the text of each conflict.
pub open spec fn conflicts_with(rs: Seq<RuleV>, r: RuleV) -> Seq<(RuleV, Seq<char>)>
    decreases rs.len(),
{
    if rs.len() == 0 {
        Seq::empty()
    } else {
        let c = conflicts_with(rs.drop_last(), r);
        let e = rs.last();
        if e.enabled && e.id@ != r.id@ && crate::rule::conflict::conflict_spec(e, r) is Some {
            c.push((e, crate::rule::conflict::conflict_spec(e, r)->0))
        } else {
            c
        }
    }
}

impl RuleManager {
    /// The saved versions of the rule with the id.
    pub fn get_rule_versions(&self, rule_id: &str) -> (r: Option<Vec<RuleVersion>>)
        ensures
            match r {
                Some(v) => rule_index(self.rules_v(), rule_id@) matches Some(i) && versions_view(v@) == self.rules_v()[i].versions,
                None => rule_index(self.rules_v(), rule_id@) is None,
            },
    {
        match self.find_rule(rule_id) {
            Some(i) => Some(crate::rule::models::duplicate_versions(&self.rules[i].versions)),
            None => None,
        }
    }

    /// Rolls the rule back to a saved version: its condition, expression and
    /// actions come back, under the next version number, and the rule as it
    /// was is saved as a version.
    #[verifier::rlimit(40)]
    pub fn rollback_rule(&mut self, rule_id: &str, target_version: u32) -> (r: Result<(), String>)
        requires
            old(self).wf(),
            forall|i: int| 0 <= i < old(self).rules@.len() ==> (#[trigger] old(self).rules@[i]).current_version < u32::MAX,
        ensures
            final(self).wf(),
            rule_index(old(self).rules_v(), rule_id@) is None ==> (r matches Err(m) && m@ == "规则不存在"@),
            rule_index(old(self).rules_v(), rule_id@) matches Some(i) && version_index(old(self).rules_v()[i].versions, target_version) is None
                ==> (r matches Err(m) && m@ == "目标版本不存在"@),
            r is Err ==> final(self).rules == old(self).rules && final(self).rule_engine == old(self).rule_engine,
            r is Ok ==> ({
                let i = rule_index(old(self).rules_v(), rule_id@)->0;
                let o = old(self).rules_v()[i];
                &&& final(self).rules_v().len() == old(self).rules_v().len()
                &&& forall|j: int| 0 <= j < old(self).rules_v().len() && j != i ==> final(self).rules_v()[j] == old(self).rules_v()[j]
                &&& as_rolled_back(final(self).rules_v()[i], o, o.versions[version_index(o.versions, target_version)->0])
                &&& final(self).engine_current()
            }),
            final(self).groups == old(self).groups,
            final(self).alerts == old(self).alerts,
            final(self).rule_stats == old(self).rule_stats,
    {
        let i = match self.find_rule(rule_id) {
            Some(i) => i,
            None => {
                return Err(String::from_str("规则不存在"));
            },
        };
        let ghost before = self.rules_v();
        let ghost o = before[i as int];
        let ghost vs = o.versions;
        let mut t: usize = 0;
        let n = self.rules[i].versions.len();
        while t < n
            invariant
                t <= n,
                i < self.rules@.len(),
                n == self.rules@[i as int].versions@.len(),
                vs == versions_view(self.rules@[i as int].versions@),
                forall|j: int| 0 <= j < t ==> (#[trigger] vs[j]).version != target_version,
            ensures
                t <= n,
                forall|j: int| 0 <= j < t ==> (#[trigger] vs[j]).version != target_version,
                t < n ==> vs[t as int].version == target_version,
            decreases n - t,
        {
            assert(vs[t as int] == self.rules@[i as int].versions@[t as int]@);
            if self.rules[i].versions[t].version == target_version {
                break;
            }
            t = t + 1;
        }
        if t == n {
            return Err(String::from_str("目标版本不存在"));
        }
        proof {
            let k = choose|k: int| 0 <= k < vs.len() && (#[trigger] vs[k]).version == target_version && forall|j: int| 0 <= j < k ==> vs[j].version != target_version;
            assert(k == t) by {
                if k < t {
                    assert(vs[k].version != target_version);
                } else if k > t {
                    assert(vs[t as int].version != target_version);
                }
            }
        }
        let target = self.rules[i].versions[t].duplicate();
        let snapshot = Self::create_version_snapshot(&self.rules[i]);
        let ghost snap = snapshot@;
        let mut rule = self.rules[i].duplicate();
        let ghost vb = rule.versions@;
        rule.versions.push(snapshot);
        assert(versions_view(rule.versions@) =~= versions_view(vb).push(snap));
        trim_versions(&mut rule.versions);
        rule.current_version = rule.current_version + 1;
        rule.condition = target.condition;
        rule.expression = target.expression;
        rule.actions = target.actions;
        rule.updated_at = SlidingWindowCounter::current_timestamp_secs();
        assert(as_rolled_back(rule@, o, vs[t as int])) by {
            let now = choose|now: u64| is_snapshot(snap, o, now);
            assert(is_snapshot(snap, o, now));
        }
        let ghost nv = rule@;
        self.rules.set(i, rule);
        assert(self.rules_v() =~= before.update(i as int, nv));
        self.refresh_engine();
        Ok(())
    }

    /// The conflicts of a rule with the enabled rules of other ids.
    pub fn check_conflicts(&self, rule: &DetectionRule) -> (r: Vec<RuleConflict>)
        ensures
            r@.len() == conflicts_with(self.rules_v(), rule@).len(),
            forall|k: int| 0 <= k < r@.len() ==> {
                let (e, text) = #[trigger] conflicts_with(self.rules_v(), rule@)[k];
                &&& r@[k].rule_a_id == e.id
                &&& r@[k].rule_b_id == rule.id
                &&& r@[k].action_conflict@ == text
            },
    {
        let ghost rs = self.rules_v();
        let mut out: Vec<RuleConflict> = Vec::new();
        let mut i: usize = 0;
        assert(rs.take(0) =~= Seq::<RuleV>::empty());
        while i < self.rules.len()
            invariant
                i <= self.rules@.len(),
                rs == rules_view(self.rules@),
                out@.len() == conflicts_with(rs.take(i as int), rule@).len(),
                forall|k: int| 0 <= k < out@.len() ==> {
                    let (e, text) = #[trigger] conflicts_with(rs.take(i as int), rule@)[k];
                    &&& out@[k].rule_a_id == e.id
                    &&& out@[k].rule_b_id == rule.id
                    &&& out@[k].action_conflict@ == text
                },
            decreases self.rules.len() - i,
        {
            let ghost t = rs.take(i as int + 1);
            assert(t.drop_last() =~= rs.take(i as int));
            assert(t.last() == self.rules@[i as int]@);
            let existing = &self.rules[i];
            if existing.enabled && !crate::text::same_text(existing.id.as_str(), rule.id.as_str()) {
                match crate::rule::conflict::check_conflict(existing, rule) {
                    Some(c) => {
                        out.push(c);
                    },
                    None => {},
                }
            }
            i = i + 1;
        }
        assert(rs.take(i as int) =~= rs);
        out
    }

    /// Adds a group, refused when its id is taken.
    pub fn add_group(&mut self, group: RuleGroup) -> (r: Result<(), String>)
        ensures
            r is Ok <==> !has_group(old(self).groups@, group.id@),
            r matches Err(m) ==> m@ == "分组ID已存在"@ && final(self).groups == old(self).groups,
            r is Ok ==> final(self).groups@ == old(self).groups@.push(group),
            final(self).shared_stats == old(self).shared_stats,
            final(self).app_data_dir == old(self).app_data_dir,
            final(self).rules == old(self).rules,
            final(self).rule_engine == old(self).rule_engine,
            final(self).rule_stats == old(self).rule_stats,
            final(self).alerts == old(self).alerts,
            final(self).response_executor == old(self).response_executor,
    {
        let mut i: usize = 0;
        while i < self.groups.len()
            invariant
                i <= self.groups@.len(),
                forall|j: int| 0 <= j < i ==> (#[trigger] self.groups@[j]).id@ != group.id@,
            decreases self.groups.len() - i,
        {
            if crate::text::same_text(self.groups[i].id.as_str(), group.id.as_str()) {
                return Err(String::from_str("分组ID已存在"));
            }
            i = i + 1;
        }
        self.groups.push(group);
        Ok(())
    }

    /// Replaces the group with the same id, refused when there is none.
    pub fn update_group(&mut self, group: RuleGroup) -> (r: Result<(), String>)
        ensures
            r is Ok <==> has_group(old(self).groups@, group.id@),
            r matches Err(m) ==> m@ == "分组不存在"@ && final(self).groups == old(self).groups,
            r is Ok ==> exists|i: int|
                0 <= i < old(self).groups@.len() && (#[trigger] old(self).groups@[i]).id@ == group.id@ && (forall|j: int|
                    0 <= j < i ==> old(self).groups@[j].id@ != group.id@) && final(self).groups@ == old(self).groups@.update(i, group),
            final(self).rules == old(self).rules,
            final(self).rule_engine == old(self).rule_engine,
            final(self).rule_stats == old(self).rule_stats,
            final(self).alerts == old(self).alerts,
            final(self).response_executor == old(self).response_executor,
    {
        let mut i: usize = 0;
        while i < self.groups.len()
            invariant
                i <= self.groups@.len(),
                *self == *old(self),
                forall|j: int| 0 <= j < i ==> (#[trigger] self.groups@[j]).id@ != group.id@,
            decreases self.groups.len() - i,
        {
            if crate::text::same_text(self.groups[i].id.as_str(), group.id.as_str()) {
                let ghost gv = group;
                self.groups.set(i, group);
                assert(self.groups@ == old(self).groups@.update(i as int, gv));
                return Ok(());
            }
            i = i + 1;
        }
        Err(String::from_str("分组不存在"))
    }

    /// Deletes the group; its rules lose their group.
    pub fn delete_group(&mut self, group_id: &str)
        requires
            old(self).wf(),
        ensures
            final(self).wf(),
            final(self).engine_current(),
            forall|j: int| 0 <= j < final(self).groups@.len() ==> (#[trigger] final(self).groups@[j]).id@ != group_id@,
            forall|j: int| 0 <= j < old(self).groups@.len() && (#[trigger] old(self).groups@[j]).id@ != group_id@ ==> final(self).groups@.contains(old(self).groups@[j]),
            final(self).rules_v().len() == old(self).rules_v().len(),
            forall|j: int| 0 <= j < old(self).rules_v().len() ==> #[trigger] final(self).rules_v()[j] == if crate::protocol::parser::opt_chars(old(self).rules_v()[j].group) == Some(group_id@) {
                RuleV { group: None, ..old(self).rules_v()[j] }
            } else {
                old(self).rules_v()[j]
            },
            final(self).alerts == old(self).alerts,
            final(self).rule_stats == old(self).rule_stats,
    {
        let mut kept: Vec<RuleGroup> = Vec::new();
        let mut i: usize = 0;
        while i < self.groups.len()
            invariant
                i <= self.groups@.len(),
                self.groups == old(self).groups,
                forall|j: int| 0 <= j < kept@.len() ==> (#[trigger] kept@[j]).id@ != group_id@,
                forall|j: int| 0 <= j < i && (#[trigger] self.groups@[j]).id@ != group_id@ ==> kept@.contains(self.groups@[j]),
            decreases self.groups.len() - i,
        {
            if !crate::text::same_text(self.groups[i].id.as_str(), group_id) {
                let ghost kb = kept@;
                kept.push(self.groups[i].clone());
                proof {
                    assert forall|j: int| 0 <= j < i + 1 && (#[trigger] self.groups@[j]).id@ != group_id@ implies kept@.contains(self.groups@[j]) by {
                        if j < i {
                            let a = choose|a: int| 0 <= a < kb.len() && kb[a] == self.groups@[j];
                            assert(kept@[a] == kb[a]);
                        } else {
                            assert(kept@[kb.len() as int] == self.groups@[j]);
                        }
                    }
                }
            }
            i = i + 1;
        }
        self.groups = kept;
        let ghost o = self.rules_v();
        let mut out: Vec<DetectionRule> = Vec::new();
        let mut k: usize = 0;
        while k < self.rules.len()
            invariant
                k <= self.rules@.len(),
                o == rules_view(self.rules@),
                out@.len() == k,
                forall|j: int| 0 <= j < k ==> #[trigger] rules_view(out@)[j] == if crate::protocol::parser::opt_chars(o[j].group) == Some(group_id@) {
                    RuleV { group: None, ..o[j] }
                } else {
                    o[j]
                },
            decreases self.rules.len() - k,
        {
            let mut r = self.rules[k].duplicate();
            assert(o[k as int] == r@);
            let clear = match &r.group {
                Some(g) => crate::text::same_text(g.as_str(), group_id),
                None => false,
            };
            if clear {
                r.group = None;
            }
            let ghost ob = out@;
            out.push(r);
            proof {
                assert forall|j: int| 0 <= j < k + 1 implies #[trigger] rules_view(out@)[j] == if crate::protocol::parser::opt_chars(o[j].group) == Some(group_id@) {
                    RuleV { group: None, ..o[j] }
                } else {
                    o[j]
                } by {
                    if j < k {
                        assert(out@[j] == ob[j]);
                        assert(rules_view(ob)[j] == rules_view(out@)[j]);
                    }
                }
            }
            k = k + 1;
        }
        proof {
        }
        self.rules = out;
        self.refresh_engine();
    }
}

/// The rules whose ids are listed, in order.
pub open spec fn with_ids(rs: Seq<RuleV>, ids: Seq<Seq<char>>) -> Seq<RuleV>
    decreases rs.len(),
{
    if rs.len() == 0 {
        Seq::empty()
    } else {
        let r = with_ids(rs.drop_last(), ids);
        if ids.contains(rs.last().id@) {
            r.push(rs.last())
        } else {
            r
        }
    }
}

/// Whether some rule of `rs` is in the group.
pub open spec fn group_used(rs: Seq<RuleV>, gid: Seq<char>) -> bool {
    exists|i: int| 0 <= i < rs.len() && crate::protocol::parser::opt_chars((#[trigger] rs[i]).group) == Some(gid)
}

/// The groups some rule of `rs` is in, in order.
pub open spec fn used_groups(gs: Seq<RuleGroup>, rs: Seq<RuleV>) -> Seq<RuleGroup>
    decreases gs.len(),
{
    if gs.len() == 0 {
        Seq::empty()
    } else {
        let r = used_groups(gs.drop_last(), rs);
        if group_used(rs, gs.last().id@) {
            r.push(gs.last())
        } else {
            r
        }
    }
}

/// The rules an import adds: in order, those whose id is new, until the rule
/// set is full.
pub open spec fn imported(present: Seq<RuleV>, incoming: Seq<RuleV>) -> Seq<RuleV>
    decreases incoming.len(),
{
    if incoming.len() == 0 {
        Seq::empty()
    } else {
        let before = imported(present, incoming.drop_last());
        let r = incoming.last();
        if present.len() + before.len() >= MAX_RULES {
            before
        } else if rule_index(present + before, r.id@) is None {
            before.push(r)
        } else {
            before
        }
    }
}

fn contains_text(list: &Vec<String>, s: &str) -> (b: bool)
    ensures
        b == texts(list@).contains(s@),
{
    let mut k: usize = 0;
    while k < list.len()
        invariant
            k <= list@.len(),
            forall|a: int| 0 <= a < k ==> texts(list@)[a] != s@,
        decreases list.len() - k,
    {
        assert(texts(list@)[k as int] == list@[k as int]@);
        if crate::text::same_text(list[k].as_str(), s) {
            return true;
        }
        k = k + 1;
    }
    false
}

fn rules_used_group(rules: &Vec<DetectionRule>, gid: &str) -> (b: bool)
    ensures
        b == group_used(rules_view(rules@), gid@),
{
    let mut i: usize = 0;
    while i < rules.len()
        invariant
            i <= rules@.len(),
            forall|j: int| 0 <= j < i ==> crate::protocol::parser::opt_chars((#[trigger] rules_view(rules@)[j]).group) != Some(gid@),
        decreases rules.len() - i,
    {
        assert(rules_view(rules@)[i as int] == rules@[i as int]@);
        match &rules[i].group {
            Some(g) => {
                if crate::text::same_text(g.as_str(), gid) {
                    return true;
                }
            },
            None => {},
        }
        i = i + 1;
    }
    false
}

impl RuleManager {
    /// Moves the listed rules into the group (or out of any group), marking
    /// them updated; refused when the group does not exist.
    pub fn batch_move_to_group(&mut self, rule_ids: &Vec<String>, group_id: Option<&str>) -> (r: Result<(), String>)
        requires
            old(self).wf(),
        ensures
            final(self).wf(),
            r is Err <==> (group_id matches Some(g) && !has_group(old(self).groups@, g@)),
            r matches Err(m) ==> m@ == "目标分组不存在"@ && final(self).rules == old(self).rules,
            r is Ok ==> {
                &&& final(self).rules_v().len() == old(self).rules_v().len()
                &&& forall|j: int| 0 <= j < old(self).rules_v().len() ==> {
                    let o = old(self).rules_v()[j];
                    let n = #[trigger] final(self).rules_v()[j];
                    if texts(rule_ids@).contains(o.id@) {
                        crate::protocol::parser::opt_chars(n.group) == (match group_id {
                            Some(g) => Some(g@),
                            None => None,
                        }) && n == RuleV { group: n.group, updated_at: n.updated_at, ..o }
                    } else {
                        n == o
                    }
                }
            },
            final(self).groups == old(self).groups,
            final(self).rule_engine == old(self).rule_engine,
            final(self).alerts == old(self).alerts,
            final(self).rule_stats == old(self).rule_stats,
    {
        match group_id {
            Some(g) => {
                let mut i: usize = 0;
                let mut found = false;
                while i < self.groups.len()
                    invariant
                        i <= self.groups@.len(),
                        found == exists|j: int| 0 <= j < i && (#[trigger] self.groups@[j]).id@ == g@,
                    decreases self.groups.len() - i,
                {
                    if crate::text::same_text(self.groups[i].id.as_str(), g) {
                        found = true;
                    }
                    i = i + 1;
                }
                if !found {
                    return Err(String::from_str("目标分组不存在"));
                }
            },
            None => {},
        }
        let ghost ids = texts(rule_ids@);
        let ghost o = self.rules_v();
        let mut out: Vec<DetectionRule> = Vec::new();
        let mut i: usize = 0;
        while i < self.rules.len()
            invariant
                i <= self.rules@.len(),
                o == rules_view(self.rules@),
                ids == texts(rule_ids@),
                out@.len() == i,
                forall|j: int| 0 <= j < i ==> {
                    let oj = o[j];
                    let n = #[trigger] rules_view(out@)[j];
                    if ids.contains(oj.id@) {
                        crate::protocol::parser::opt_chars(n.group) == (match group_id {
                            Some(g) => Some(g@),
                            None => None,
                        }) && n == RuleV { group: n.group, updated_at: n.updated_at, ..oj }
                    } else {
                        n == oj
                    }
                },
            decreases self.rules.len() - i,
        {
            let mut r = self.rules[i].duplicate();
            assert(o[i as int] == r@);
            if contains_text(rule_ids, self.rules[i].id.as_str()) {
                r.group = match group_id {
                    Some(g) => Some(String::from_str(g)),
                    None => None,
                };
                r.updated_at = SlidingWindowCounter::current_timestamp_secs();
            }
            let ghost ob = out@;
            out.push(r);
            proof {
                assert forall|j: int| 0 <= j < i + 1 implies ({
                    let oj = o[j];
                    let n = #[trigger] rules_view(out@)[j];
                    if ids.contains(oj.id@) {
                        crate::protocol::parser::opt_chars(n.group) == (match group_id {
                            Some(g) => Some(g@),
                            None => None,
                        }) && n == RuleV { group: n.group, updated_at: n.updated_at, ..oj }
                    } else {
                        n == oj
                    }
                }) by {
                    if j < i {
                        assert(out@[j] == ob[j]);
                        assert(rules_view(ob)[j] == rules_view(out@)[j]);
                    }
                }
            }
            i = i + 1;
        }
        proof {
        }
        self.rules = out;
        Ok(())
    }

    /// The rules (all, or those listed) with the groups they use, as a file
    /// of version "1.0" without statistics.
    pub fn export_rules(&self, rule_ids: Option<&Vec<String>>) -> (f: RulesFile)
        ensures
            f.version@ == "1.0"@,
            f.rule_stats@.len() == 0,
            match rule_ids {
                None => rules_view(f.rules@) == self.rules_v() && f.groups@ == self.groups@,
                Some(ids) => rules_view(f.rules@) == with_ids(self.rules_v(), texts(ids@)) && f.groups@ == used_groups(
                    self.groups@,
                    with_ids(self.rules_v(), texts(ids@)),
                ),
            },
    {
        match rule_ids {
            None => RulesFile {
                version: String::from_str("1.0"),
                groups: self.get_groups(),
                rules: self.get_rules(),
                rule_stats: Vec::new(),
            },
            Some(ids) => {
                let ghost rs = self.rules_v();
                let mut rules: Vec<DetectionRule> = Vec::new();
                let mut i: usize = 0;
                assert(rs.take(0) =~= Seq::<RuleV>::empty());
                assert(rules_view(rules@) =~= Seq::<RuleV>::empty());
                while i < self.rules.len()
                    invariant
                        i <= self.rules@.len(),
                        rs == rules_view(self.rules@),
                        rules_view(rules@) == with_ids(rs.take(i as int), texts(ids@)),
                    decreases self.rules.len() - i,
                {
                    let ghost t = rs.take(i as int + 1);
                    assert(t.drop_last() =~= rs.take(i as int));
                    assert(t.last() == self.rules@[i as int]@);
                    if contains_text(ids, self.rules[i].id.as_str()) {
                        let ghost rb = rules@;
                        rules.push(self.rules[i].duplicate());
                        assert(rules_view(rules@) =~= rules_view(rb).push(t.last()));
                    }
                    i = i + 1;
                }
                assert(rs.take(i as int) =~= rs);
                let mut groups: Vec<RuleGroup> = Vec::new();
                let mut k: usize = 0;
                let ghost gs = self.groups@;
                let ghost sel = rules_view(rules@);
                assert(gs.take(0) =~= Seq::<RuleGroup>::empty());
                while k < self.groups.len()
                    invariant
                        k <= self.groups@.len(),
                        gs == self.groups@,
                        sel == rules_view(rules@),
                        groups@ == used_groups(gs.take(k as int), sel),
                    decreases self.groups.len() - k,
                {
                    let ghost t = gs.take(k as int + 1);
                    assert(t.drop_last() =~= gs.take(k as int));
                    if rules_used_group(&rules, self.groups[k].id.as_str()) {
                        groups.push(self.groups[k].clone());
                    }
                    k = k + 1;
                }
                assert(gs.take(k as int) =~= gs);
                RulesFile { version: String::from_str("1.0"), groups, rules, rule_stats: Vec::new() }
            },
        }
    }
}

impl RuleManager {
    /// Imports a file: its groups of new ids, then its rules of new ids (with
    /// fresh statistics) until the rule set is full; gives how many rules came
    /// in.
    pub fn import_rules(&mut self, import_data: &RulesFile) -> (n: usize)
        requires
            old(self).wf(),
        ensures
            final(self).wf(),
            final(self).engine_current(),
            final(self).rules_v() == old(self).rules_v() + imported(old(self).rules_v(), rules_view(import_data.rules@)),
            n == imported(old(self).rules_v(), rules_view(import_data.rules@)).len(),
            final(self).groups@.len() >= old(self).groups@.len(),
            final(self).groups@.subrange(0, old(self).groups@.len() as int) == old(self).groups@,
            forall|j: int| 0 <= j < import_data.groups@.len() ==> has_group(final(self).groups@, (#[trigger] import_data.groups@[j]).id@),
            final(self).alerts == old(self).alerts,
    {
        let mut g: usize = 0;
        while g < import_data.groups.len()
            invariant
                g <= import_data.groups@.len(),
                self.groups@.len() >= old(self).groups@.len(),
                self.groups@.subrange(0, old(self).groups@.len() as int) == old(self).groups@,
                forall|j: int| 0 <= j < g ==> has_group(self.groups@, (#[trigger] import_data.groups@[j]).id@),
                self.rules == old(self).rules,
                self.rule_stats == old(self).rule_stats,
                self.rule_engine == old(self).rule_engine,
                self.response_executor == old(self).response_executor,
                self.alerts == old(self).alerts,
                self.shared_stats == old(self).shared_stats,
                self.app_data_dir == old(self).app_data_dir,
            decreases import_data.groups.len() - g,
        {
            let ghost before = self.groups@;
            let group = import_data.groups[g].clone();
            match self.add_group(group) {
                Ok(()) => {
                    assert(self.groups@.subrange(0, old(self).groups@.len() as int) =~= before.subrange(0, old(self).groups@.len() as int));
                    assert(self.groups@[before.len() as int].id@ == import_data.groups@[g as int].id@);
                },
                Err(_) => {},
            }
            proof {
                assert forall|j: int| 0 <= j < g + 1 implies has_group(self.groups@, (#[trigger] import_data.groups@[j]).id@) by {
                    if j < g {
                        let a = choose|a: int| 0 <= a < before.len() && (#[trigger] before[a]).id@ == import_data.groups@[j].id@;
                        assert(self.groups@[a] == before[a]);
                    }
                }
            }
            g = g + 1;
        }
        let ghost present = self.rules_v();
        let ghost incoming = rules_view(import_data.rules@);
        let mut count: usize = 0;
        let mut i: usize = 0;
        assert(incoming.take(0) =~= Seq::<RuleV>::empty());
        assert(present + imported(present, incoming.take(0)) =~= present);
        while i < import_data.rules.len()
            invariant
                i <= import_data.rules@.len(),
                incoming == rules_view(import_data.rules@),
                self.wf(),
                self.rules_v() == present + imported(present, incoming.take(i as int)),
                count == imported(present, incoming.take(i as int)).len(),
                self.alerts == old(self).alerts,
                self.groups@.len() >= old(self).groups@.len(),
                self.groups@.subrange(0, old(self).groups@.len() as int) == old(self).groups@,
                forall|j: int| 0 <= j < import_data.groups@.len() ==> has_group(self.groups@, (#[trigger] import_data.groups@[j]).id@),
            decreases import_data.rules.len() - i,
        {
            let ghost t = incoming.take(i as int + 1);
            assert(t.drop_last() =~= incoming.take(i as int));
            assert(t.last() == import_data.rules@[i as int]@);
            if self.rules.len() >= MAX_RULES {
                assert(self.rules_v().len() == self.rules@.len());
                assert(imported(present, t) == imported(present, incoming.take(i as int)));
            } else {
                let rule = &import_data.rules[i];
                match self.find_rule(rule.id.as_str()) {
                    Some(_) => {},
                    None => {
                        let id = rule.id.clone();
                        self.reset_stats(&id);
                        let ghost before = self.rules_v();
                        self.rules.push(rule.duplicate());
                        assert(self.rules_v() =~= before.push(rule@));
                        assert(imported(present, t) == imported(present, incoming.take(i as int)).push(rule@));
                        assert(present + imported(present, t) =~= before.push(rule@));
                        count = count + 1;
                    },
                }
            }
            i = i + 1;
        }
        assert(incoming.take(i as int) =~= incoming);
        self.refresh_engine();
        count
    }

    /// Takes in newly raised alerts (dropping the oldest at the cap) and gives
    /// them back.
    pub fn drain_new_alerts(&mut self, received: Vec<AlertRecord>) -> (r: Vec<AlertRecord>)
        requires
            old(self).wf(),
        ensures
            final(self).wf(),
            r@ == received@,
            final(self).alerts@.len() == if old(self).alerts@.len() + received@.len() > MAX_ALERTS {
                MAX_ALERTS as int
            } else {
                (old(self).alerts@.len() + received@.len()) as int
            },
            final(self).alerts@ == (old(self).alerts@ + received@).skip(
                old(self).alerts@.len() + received@.len() - final(self).alerts@.len(),
            ),
            final(self).rules == old(self).rules,
            final(self).rule_engine == old(self).rule_engine,
    {
        let ghost all = self.alerts@ + received@;
        let mut i: usize = 0;
        let ghost mut dropped: int = 0;
        while i < received.len()
            invariant
                i <= received@.len(),
                all == old(self).alerts@ + received@,
                self.alerts@.len() <= MAX_ALERTS,
                0 <= dropped,
                dropped + self.alerts@.len() == old(self).alerts@.len() + i,
                self.alerts@ == all.subrange(dropped, old(self).alerts@.len() + i),
                dropped > 0 ==> self.alerts@.len() == MAX_ALERTS,
                self.rules == old(self).rules,
                self.rule_engine == old(self).rule_engine,
                self.rule_stats == old(self).rule_stats,
                self.groups == old(self).groups,
                self.response_executor == old(self).response_executor,
                self.shared_stats == old(self).shared_stats,
                self.app_data_dir == old(self).app_data_dir,
            decreases received.len() - i,
        {
            if self.alerts.len() >= MAX_ALERTS {
                self.alerts.remove(0);
                proof {
                    dropped = dropped + 1;
                }
            }
            self.alerts.push(received[i].clone());
            i = i + 1;
            assert(self.alerts@ =~= all.subrange(dropped, old(self).alerts@.len() + i));
        }
        assert(all.subrange(dropped, all.len() as int) =~= all.skip(dropped));
        received
    }

    /// Forgets all alerts.
    pub fn clear_alerts(&mut self)
        requires
            old(self).wf(),
        ensures
            final(self).wf(),
            final(self).alerts@.len() == 0,
            final(self).rules == old(self).rules,
            final(self).rule_engine == old(self).rule_engine,
    {
        self.alerts.clear();
    }

    /// Forgets all rate counts of the engine.
    pub fn clear_rate_counters(&mut self)
        requires
            old(self).wf(),
        ensures
            final(self).wf(),
            final(self).rule_engine.counters_v().len() == 0,
            final(self).rule_engine.rules_v() == old(self).rule_engine.rules_v(),
            final(self).rules == old(self).rules,
    {
        self.rule_engine.clear_rate_counters();
    }
}

impl RuleManager {
    /// The ids of the rules, in order.
    fn rule_ids(&self) -> (r: Vec<String>)
        ensures
            texts(r@) == self.rules_v().map_values(|x: RuleV| x.id@),
    {
        let mut r: Vec<String> = Vec::new();
        let mut i: usize = 0;
        while i < self.rules.len()
            invariant
                i <= self.rules@.len(),
                texts(r@) == self.rules_v().map_values(|x: RuleV| x.id@).take(i as int),
            decreases self.rules.len() - i,
        {
            let ghost before = r@;
            let c = self.rules[i].id.clone();
            assert(self.rules_v()[i as int].id@ == c@);
            r.push(c);
            assert(texts(r@) =~= texts(before).push(c@));
            i = i + 1;
            assert(texts(r@) =~= self.rules_v().map_values(|x: RuleV| x.id@).take(i as int));
        }
        assert(self.rules_v().map_values(|x: RuleV| x.id@).take(i as int) =~= self.rules_v().map_values(
            |x: RuleV| x.id@,
        ));
        r
    }

    /// The statistics of all rules: the local counts with the worker's
    /// counts merged in and a fresh entry for every rule without one.
    pub fn get_all_stats(&self) -> (r: Vec<RuleStats>)
        ensures
            rows(r@) == all_stats(
                rows(self.rule_stats@),
                rows(self.shared_stats@),
                self.rules_v().map_values(|x: RuleV| x.id@),
            ),
    {
        let ids = self.rule_ids();
        merge_stats(&self.rule_stats, &self.shared_stats, &ids)
    }

    /// Counts a trigger of the rule at `now` in the local statistics.
    pub fn increment_rule_stat_at(&mut self, rule_id: &str, now: u64)
        requires
            first_row(rows(old(self).rule_stats@), rule_id@) >= 0 ==> has_headroom(
                rows(old(self).rule_stats@)[first_row(rows(old(self).rule_stats@), rule_id@)],
            ),
        ensures
            rows(final(self).rule_stats@) == counted_rows(rows(old(self).rule_stats@), rule_id@, now),
            final(self).rules == old(self).rules,
            final(self).groups == old(self).groups,
            final(self).alerts == old(self).alerts,
            final(self).shared_stats == old(self).shared_stats,
            final(self).rule_engine == old(self).rule_engine,
            final(self).response_executor == old(self).response_executor,
            final(self).app_data_dir == old(self).app_data_dir,
    {
        count_in_table(&mut self.rule_stats, rule_id, now);
    }

    /// Counts a trigger of the rule now in the local statistics.
    pub fn increment_rule_stat(&mut self, rule_id: &str)
        requires
            first_row(rows(old(self).rule_stats@), rule_id@) >= 0 ==> has_headroom(
                rows(old(self).rule_stats@)[first_row(rows(old(self).rule_stats@), rule_id@)],
            ),
        ensures
            exists|now: u64|
                rows(final(self).rule_stats@) == #[trigger] counted_rows(rows(old(self).rule_stats@), rule_id@, now),
            final(self).rules == old(self).rules,
            final(self).shared_stats == old(self).shared_stats,
    {
        let now = SlidingWindowCounter::current_timestamp_secs();
        self.increment_rule_stat_at(rule_id, now);
    }

    /// Takes the rules, groups and statistics read from the rule file; the
    /// statistics are keyed by rule and every rule without any gets fresh
    /// ones. The engine gets the enabled rules.
    pub fn load_rules_file(&mut self, file: RulesFile)
        requires
            old(self).wf(),
        ensures
            final(self).wf(),
            final(self).engine_current(),
            final(self).rules_v() == rules_view(file.rules@),
            final(self).groups@ == file.groups@,
            rows(final(self).rule_stats@) == add_missing(
                keyed_rows(rows(file.rule_stats@)),
                rules_view(file.rules@).map_values(|x: RuleV| x.id@),
            ),
            final(self).shared_stats == old(self).shared_stats,
            final(self).alerts == old(self).alerts,
            final(self).response_executor == old(self).response_executor,
    {
        self.groups = file.groups;
        self.rules = file.rules;
        let ids = self.rule_ids();
        self.rule_stats = loaded_stats(&file.rule_stats, &ids);
        self.refresh_engine();
    }

    /// The rule file to write: version 1.0, the groups and rules, and the
    /// local statistics with the worker's counts merged in.
    pub fn rules_file_for_saving(&self) -> (f: RulesFile)
        ensures
            f.version@ == "1.0"@,
            f.groups@ == self.groups@,
            rules_view(f.rules@) == self.rules_v(),
            rows(f.rule_stats@) == merge_rows(rows(self.rule_stats@), rows(self.shared_stats@)),
    {
        proof {
            reveal_strlit("1.0");
        }
        RulesFile {
            version: String::from_str("1.0"),
            groups: self.get_groups(),
            rules: self.get_rules(),
            rule_stats: merge_tables(&self.rule_stats, &self.shared_stats),
        }
    }

    /// The most rules.
    pub fn max_rules(&self) -> (n: usize)
        ensures
            n == MAX_RULES,
    {
        crate::rule::persistence::max_rules()
    }

    /// The most alerts kept.
    pub fn max_alerts(&self) -> (n: usize)
        ensures
            n == MAX_ALERTS,
    {
        crate::rule::persistence::max_alerts()
    }

    /// The response log, newest first.
    pub fn get_response_logs(&self) -> (r: Vec<ResponseLogEntry>)
        ensures
            r@ == self.response_executor.logs@.reverse(),
    {
        self.response_executor.get_logs()
    }

    /// The response log entries that pass the filter, newest first.
    pub fn get_response_logs_filtered(&self, rule_name: &str, time_from: Option<u64>, time_to: Option<u64>) -> (r: Vec<
        ResponseLogEntry,
    >)
        ensures
            r@ == select_logs(self.response_executor.logs@.reverse(), rule_name@, time_from, time_to),
    {
        self.response_executor.filter_logs(rule_name, time_from, time_to)
    }

    /// Empties the response log.
    pub fn clear_response_logs(&mut self)
        requires
            old(self).wf(),
        ensures
            final(self).wf(),
            final(self).response_executor.logs@.len() == 0,
            final(self).response_executor.ban_list == old(self).response_executor.ban_list,
            final(self).rules == old(self).rules,
    {
        self.response_executor.clear_logs();
    }

    /// The ban list.
    pub fn get_ban_entries(&self) -> (r: Vec<BanEntry>)
        ensures
            r@ == self.response_executor.ban_list.entries@,
    {
        self.response_executor.ban_list.get_all_entries()
    }

    /// Lifts the ban of the address.
    pub fn unban_ip(&mut self, ip: &str)
        requires
            old(self).wf(),
        ensures
            final(self).wf(),
            final(self).response_executor.ban_list.entries@ == without(
                old(self).response_executor.ban_list.entries@,
                ip@,
            ),
            final(self).response_executor.ban_list.file_path == old(self).response_executor.ban_list.file_path,
            final(self).rules == old(self).rules,
    {
        self.response_executor.ban_list.unban(ip);
    }

    /// Drops the bans expired at `now`; returns how many went.
    pub fn cleanup_expired_bans_at(&mut self, now: u64) -> (removed: usize)
        requires
            old(self).wf(),
        ensures
            final(self).wf(),
            final(self).response_executor.ban_list.entries@ == unexpired(
                old(self).response_executor.ban_list.entries@,
                now,
            ),
            removed == old(self).response_executor.ban_list.entries@.len()
                - final(self).response_executor.ban_list.entries@.len(),
            final(self).rules == old(self).rules,
    {
        self.response_executor.ban_list.cleanup_expired_at(now)
    }

    /// Drops the bans expired now; returns how many went.
    pub fn cleanup_expired_bans(&mut self) -> (removed: usize)
        requires
            old(self).wf(),
        ensures
            final(self).wf(),
            exists|now: u64|
                final(self).response_executor.ban_list.entries@ == #[trigger] unexpired(
                    old(self).response_executor.ban_list.entries@,
                    now,
                ),
            removed == old(self).response_executor.ban_list.entries@.len()
                - final(self).response_executor.ban_list.entries@.len(),
            final(self).rules == old(self).rules,
    {
        let now = SlidingWindowCounter::current_timestamp_secs();
        self.cleanup_expired_bans_at(now)
    }

    /// Lifts all bans.
    pub fn clear_all_bans(&mut self)
        requires
            old(self).wf(),
        ensures
            final(self).wf(),
            final(self).response_executor.ban_list.entries@.len() == 0,
            final(self).rules == old(self).rules,
    {
        self.response_executor.ban_list.clear_all();
    }

    /// Whether the address is banned at `now`.
    pub fn is_ip_banned_at(&self, addr: &str, now: u64) -> (b: bool)
        requires
            self.wf(),
        ensures
            b == banned_at(self.response_executor.ban_list.entries@, addr@, now),
    {
        self.response_executor.ban_list.is_banned_at(addr, now)
    }

    /// Whether the address is banned now.
    pub fn is_ip_banned(&self, addr: &str) -> (b: bool)
        requires
            self.wf(),
        ensures
            exists|now: u64| b == #[trigger] banned_at(self.response_executor.ban_list.entries@, addr@, now),
    {
        let now = SlidingWindowCounter::current_timestamp_secs();
        self.is_ip_banned_at(addr, now)
    }

    /// Whether either address is banned now.
    pub fn check_ban_match(&self, src_addr: &str, dst_addr: &str) -> (b: bool)
        requires
            self.wf(),
        ensures
            exists|now: u64|
                b == (#[trigger] banned_at(self.response_executor.ban_list.entries@, src_addr@, now)
                    || banned_at(self.response_executor.ban_list.entries@, dst_addr@, now)),
    {
        let now = SlidingWindowCounter::current_timestamp_secs();
        self.response_executor.ban_list.check_ip_match_at(src_addr, dst_addr, now)
    }

    /// The response settings.
    pub fn get_response_config(&self) -> (c: ResponseConfig)
        ensures
            c.same_as(&self.response_executor.response_config),
    {
        self.response_executor.response_config.duplicate()
    }

    /// Replaces the response settings.
    pub fn save_response_config(&mut self, config: ResponseConfig)
        requires
            old(self).wf(),
        ensures
            final(self).wf(),
            final(self).response_executor.response_config == config,
            final(self).response_executor.ban_list == old(self).response_executor.ban_list,
            final(self).response_executor.logs == old(self).response_executor.logs,
            final(self).rules == old(self).rules,
    {
        self.response_executor.response_config = config;
    }
}

impl Default for RuleManager {
    fn default() -> (m: Self)
        ensures
            m.wf(),
            m.engine_current(),
            m.rules@.len() == 0,
            m.groups@.len() == 0,
            m.alerts@.len() == 0,
            m.rule_stats@.len() == 0,
            m.app_data_dir is None,
    {
        RuleManager::new()
    }
}

} // verus!
