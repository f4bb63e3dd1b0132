//! Detection rules, their conditions, and the records that rule evaluation produces.
use vstd::prelude::*;
use crate::models::{PacketDetail, PacketMetadata};

verus! {

/// The priority of a detection rule.
#[derive(Debug, Clone, Copy, PartialEq, Eq, Hash, Structural)]
pub enum Priority {
    High,
    Medium,
    Low,
}

impl Priority {
    pub open spec fn name_of(self) -> Seq<char> {
        match self {
            Priority::High => "high"@,
            Priority::Medium => "medium"@,
            Priority::Low => "low"@,
        }
    }

    /// The evaluation rank: high before medium before low.
    pub open spec fn rank(self) -> u8 {
        match self {
            Priority::High => 0,
            Priority::Medium => 1,
            Priority::Low => 2,
        }
    }

    pub fn as_str(&self) -> (s: &'static str)
        ensures
            s@ == self.name_of(),
    {
        match self {
            Priority::High => "high",
            Priority::Medium => "medium",
            Priority::Low => "low",
        }
    }

    pub fn order(&self) -> (o: u8)
        ensures
            o == self.rank(),
    {
        match self {
            Priority::High => 0,
            Priority::Medium => 1,
            Priority::Low => 2,
        }
    }
}

/// A condition of a detection rule: a boolean combination of packet tests.
#[derive(Debug)]
pub enum ConditionNode {
    And { children: Vec<ConditionNode> },
    Or { children: Vec<ConditionNode> },
    Not { child: Box<ConditionNode> },
    ProtocolMatch { protocol: String },
    IpMatch { field: IpField, cidr: String },
    PortRange { field: PortField, min: u16, max: u16 },
    PacketLength { operator: LengthOperator, value: u32 },
    TcpFlags { flags: Vec<TcpFlag>, mode: FlagMatchMode },
    PayloadKeyword { pattern: String },
    RateLimit { window_secs: u32, threshold: u32, src_ip: bool },
    DnsBlacklist { domains: Vec<String> },
}

/// The mathematical value of a condition: strings as character sequences,
/// child lists as sequences.
pub enum Cond {
    And(Seq<Cond>),
    Or(Seq<Cond>),
    Not(Box<Cond>),
    ProtocolMatch(Seq<char>),
    IpMatch(IpField, Seq<char>),
    PortRange(PortField, u16, u16),
    PacketLength(LengthOperator, u32),
    TcpFlags(Seq<TcpFlag>, FlagMatchMode),
    PayloadKeyword(Seq<char>),
    RateLimit(u32, u32, bool),
    DnsBlacklist(Seq<Seq<char>>),
}

/// The character sequences of a list of strings.
pub open spec fn texts(v: Seq<String>) -> Seq<Seq<char>> {
    v.map_values(|s: String| s@)
}

/// The value of a condition.
pub open spec fn cond_of(n: ConditionNode) -> Cond
    decreases n,
{
    match n {
        ConditionNode::And { children } => Cond::And(conds_of(children@)),
        ConditionNode::Or { children } => Cond::Or(conds_of(children@)),
        ConditionNode::Not { child } => Cond::Not(Box::new(cond_of(*child))),
        ConditionNode::ProtocolMatch { protocol } => Cond::ProtocolMatch(protocol@),
        ConditionNode::IpMatch { field, cidr } => Cond::IpMatch(field, cidr@),
        ConditionNode::PortRange { field, min, max } => Cond::PortRange(field, min, max),
        ConditionNode::PacketLength { operator, value } => Cond::PacketLength(operator, value),
        ConditionNode::TcpFlags { flags, mode } => Cond::TcpFlags(flags@, mode),
        ConditionNode::PayloadKeyword { pattern } => Cond::PayloadKeyword(pattern@),
        ConditionNode::RateLimit { window_secs, threshold, src_ip } => Cond::RateLimit(
            window_secs,
            threshold,
            src_ip,
        ),
        ConditionNode::DnsBlacklist { domains } => Cond::DnsBlacklist(texts(domains@)),
    }
}

/// The values of a list of conditions.
pub open spec fn conds_of(s: Seq<ConditionNode>) -> Seq<Cond>
    decreases s,
{
    if s.len() == 0 {
        Seq::empty()
    } else {
        proof {
            vstd::seq::axiom_seq_len_decreases(s, s.drop_last());
        }
        conds_of(s.drop_last()).push(cond_of(s.last()))
    }
}

pub proof fn lemma_conds_of(s: Seq<ConditionNode>)
    ensures
        conds_of(s).len() == s.len(),
        forall|i: int| 0 <= i < s.len() ==> #[trigger] conds_of(s)[i] == cond_of(s[i]),
    decreases s.len(),
{
    if s.len() > 0 {
        lemma_conds_of(s.drop_last());
        assert forall|i: int| 0 <= i < s.len() implies #[trigger] conds_of(s)[i] == cond_of(s[i]) by {
            if i < s.len() - 1 {
                assert(s.drop_last()[i] == s[i]);
            }
        }
    }
}

pub proof fn lemma_conds_of_push(s: Seq<ConditionNode>, n: ConditionNode)
    ensures
        conds_of(s.push(n)) == conds_of(s).push(cond_of(n)),
{
    assert(s.push(n).drop_last() =~= s);
}

impl View for ConditionNode {
    type V = Cond;

    open spec fn view(&self) -> Cond {
        cond_of(*self)
    }
}

impl ConditionNode {
    /// A copy of the condition.
    pub fn duplicate(&self) -> (r: ConditionNode)
        ensures
            r@ == self@,
        decreases self,
    {
        match self {
            ConditionNode::And { children } => ConditionNode::And {
                children: duplicate_all(children),
            },
            ConditionNode::Or { children } => ConditionNode::Or {
                children: duplicate_all(children),
            },
            ConditionNode::Not { child } => ConditionNode::Not {
                child: Box::new((**child).duplicate()),
            },
            ConditionNode::ProtocolMatch { protocol } => ConditionNode::ProtocolMatch {
                protocol: protocol.clone(),
            },
            ConditionNode::IpMatch { field, cidr } => ConditionNode::IpMatch {
                field: *field,
                cidr: cidr.clone(),
            },
            ConditionNode::PortRange { field, min, max } => ConditionNode::PortRange {
                field: *field,
                min: *min,
                max: *max,
            },
            ConditionNode::PacketLength { operator, value } => ConditionNode::PacketLength {
                operator: *operator,
                value: *value,
            },
            ConditionNode::TcpFlags { flags, mode } => ConditionNode::TcpFlags {
                flags: copy_flags(flags),
                mode: *mode,
            },
            ConditionNode::PayloadKeyword { pattern } => ConditionNode::PayloadKeyword {
                pattern: pattern.clone(),
            },
            ConditionNode::RateLimit { window_secs, threshold, src_ip } => ConditionNode::RateLimit {
                window_secs: *window_secs,
                threshold: *threshold,
                src_ip: *src_ip,
            },
            ConditionNode::DnsBlacklist { domains } => {
                let d = crate::text::copy_strings(domains);
                proof {
                    assert(texts(d@) =~= texts(domains@));
                }
                ConditionNode::DnsBlacklist { domains: d }
            },
        }
    }
}

impl ConditionNode {
    /// Whether two conditions are the same, test for test.
    pub fn same_as(&self, other: &ConditionNode) -> (r: bool)
        ensures
            r == (self@ == other@),
        decreases self,
    {
        match (self, other) {
            (ConditionNode::And { children: a }, ConditionNode::And { children: b }) => same_all(a, b),
            (ConditionNode::Or { children: a }, ConditionNode::Or { children: b }) => same_all(a, b),
            (ConditionNode::Not { child: a }, ConditionNode::Not { child: b }) => {
                let r = (**a).same_as(&**b);
                proof {
                    if !r {
                        assert(cond_of(*self) != cond_of(*other)) by {
                            if cond_of(*self) == cond_of(*other) {
                                assert(cond_of(**a) == cond_of(**b));
                            }
                        }
                    }
                }
                r
            },
            (ConditionNode::ProtocolMatch { protocol: a }, ConditionNode::ProtocolMatch { protocol: b }) => {
                crate::text::same_text(a.as_str(), b.as_str())
            },
            (ConditionNode::IpMatch { field: fa, cidr: ca }, ConditionNode::IpMatch { field: fb, cidr: cb }) => {
                *fa == *fb && crate::text::same_text(ca.as_str(), cb.as_str())
            },
            (
                ConditionNode::PortRange { field: fa, min: ma, max: xa },
                ConditionNode::PortRange { field: fb, min: mb, max: xb },
            ) => *fa == *fb && *ma == *mb && *xa == *xb,
            (
                ConditionNode::PacketLength { operator: oa, value: va },
                ConditionNode::PacketLength { operator: ob, value: vb },
            ) => *oa == *ob && *va == *vb,
            (ConditionNode::TcpFlags { flags: fa, mode: ma }, ConditionNode::TcpFlags { flags: fb, mode: mb }) => {
                same_flags(fa, fb) && *ma == *mb
            },
            (ConditionNode::PayloadKeyword { pattern: pa }, ConditionNode::PayloadKeyword { pattern: pb }) => {
                crate::text::same_text(pa.as_str(), pb.as_str())
            },
            (
                ConditionNode::RateLimit { window_secs: wa, threshold: ta, src_ip: sa },
                ConditionNode::RateLimit { window_secs: wb, threshold: tb, src_ip: sb },
            ) => *wa == *wb && *ta == *tb && *sa == *sb,
            (ConditionNode::DnsBlacklist { domains: a }, ConditionNode::DnsBlacklist { domains: b }) => {
                same_texts(a, b)
            },
            _ => false,
        }
    }
}

fn same_flags(a: &Vec<TcpFlag>, b: &Vec<TcpFlag>) -> (r: bool)
    ensures
        r == (a@ == b@),
{
    if a.len() != b.len() {
        return false;
    }
    let mut i: usize = 0;
    while i < a.len()
        invariant
            i <= a@.len(),
            a@.len() == b@.len(),
            forall|j: int| 0 <= j < i ==> a@[j] == b@[j],
        decreases a.len() - i,
    {
        if a[i] != b[i] {
            return false;
        }
        i = i + 1;
    }
    assert(a@ =~= b@);
    true
}

fn same_texts(a: &Vec<String>, b: &Vec<String>) -> (r: bool)
    ensures
        r == (texts(a@) == texts(b@)),
{
    if a.len() != b.len() {
        return false;
    }
    let mut i: usize = 0;
    while i < a.len()
        invariant
            i <= a@.len(),
            a@.len() == b@.len(),
            forall|j: int| 0 <= j < i ==> a@[j]@ == b@[j]@,
        decreases a.len() - i,
    {
        if !crate::text::same_text(a[i].as_str(), b[i].as_str()) {
            assert(texts(a@)[i as int] != texts(b@)[i as int]);
            return false;
        }
        i = i + 1;
    }
    assert(texts(a@) =~= texts(b@));
    true
}

/// Whether two lists of conditions are the same, in order.
fn same_all(a: &Vec<ConditionNode>, b: &Vec<ConditionNode>) -> (r: bool)
    ensures
        r == (conds_of(a@) == conds_of(b@)),
    decreases a,
{
    proof {
        lemma_conds_of(a@);
        lemma_conds_of(b@);
    }
    if a.len() != b.len() {
        return false;
    }
    let mut i: usize = 0;
    while i < a.len()
        invariant
            i <= a@.len(),
            a@.len() == b@.len(),
            conds_of(a@).len() == a@.len(),
            conds_of(b@).len() == b@.len(),
            forall|j: int| 0 <= j < a@.len() ==> #[trigger] conds_of(a@)[j] == cond_of(a@[j]),
            forall|j: int| 0 <= j < b@.len() ==> #[trigger] conds_of(b@)[j] == cond_of(b@[j]),
            forall|j: int| 0 <= j < i ==> conds_of(a@)[j] == conds_of(b@)[j],
        decreases a.len() - i,
    {
        proof {
            vstd::std_specs::vec::axiom_vec_index_decreases(*a, i as int);
        }
        if !a[i].same_as(&b[i]) {
            assert(conds_of(a@)[i as int] != conds_of(b@)[i as int]);
            return false;
        }
        i = i + 1;
    }
    assert(conds_of(a@) =~= conds_of(b@));
    true
}

/// Copies of a list of conditions.
pub fn duplicate_all(v: &Vec<ConditionNode>) -> (r: Vec<ConditionNode>)
    ensures
        conds_of(r@) == conds_of(v@),
    decreases v,
{
    let mut r: Vec<ConditionNode> = Vec::new();
    let mut i: usize = 0;
    while i < v.len()
        invariant
            i <= v.len(),
            conds_of(r@) == conds_of(v@.subrange(0, i as int)),
        decreases v.len() - i,
    {
        proof {
            vstd::std_specs::vec::axiom_vec_index_decreases(*v, i as int);
        }
        let c = v[i].duplicate();
        proof {
            lemma_conds_of_push(r@, c);
            lemma_conds_of_push(v@.subrange(0, i as int), v@[i as int]);
            assert(v@.subrange(0, i as int).push(v@[i as int]) =~= v@.subrange(0, i + 1));
        }
        r.push(c);
        i = i + 1;
    }
    assert(v@.subrange(0, v@.len() as int) =~= v@);
    r
}

/// A copy of a list of TCP flags.
pub fn copy_flags(v: &Vec<TcpFlag>) -> (r: Vec<TcpFlag>)
    ensures
        r@ == v@,
{
    let mut r: Vec<TcpFlag> = Vec::new();
    let mut i: usize = 0;
    while i < v.len()
        invariant
            i <= v.len(),
            r@ == v@.subrange(0, i as int),
        decreases v.len() - i,
    {
        r.push(v[i]);
        i = i + 1;
    }
    assert(r@ =~= v@);
    r
}

#[derive(Debug, Clone, Copy, PartialEq, Eq, Structural)]
pub enum IpField {
    Src,
    Dst,
    Either,
}

#[derive(Debug, Clone, Copy, PartialEq, Eq, Structural)]
pub enum PortField {
    Src,
    Dst,
    Either,
}

#[derive(Debug, Clone, Copy, PartialEq, Eq, Structural)]
pub enum LengthOperator {
    GreaterThan,
    LessThan,
    Equal,
}

#[derive(Debug, Clone, Copy, PartialEq, Eq, Hash, Structural)]
pub enum TcpFlag {
    SYN,
    ACK,
    FIN,
    RST,
    PSH,
    URG,
}

#[derive(Debug, Clone, Copy, PartialEq, Eq, Structural)]
pub enum FlagMatchMode {
    All,
    Any,
    Exact,
    NoneOf,
}

/// What the capture side does when a rule matches.
#[derive(Debug)]
pub struct AlertActions {
    pub system_notification: bool,
    pub sound: bool,
    pub auto_mark: bool,
    pub mark_level: Option<String>,
    pub auto_export: bool,
    pub export_path: Option<String>,
}

impl AlertActions {
    /// A copy of the actions.
    pub fn duplicate(&self) -> (r: AlertActions)
        ensures
            r == *self,
    {
        AlertActions {
            system_notification: self.system_notification,
            sound: self.sound,
            auto_mark: self.auto_mark,
            mark_level: crate::text::copy_opt_string(&self.mark_level),
            auto_export: self.auto_export,
            export_path: crate::text::copy_opt_string(&self.export_path),
        }
    }
}

impl Default for AlertActions {
    fn default() -> (r: Self)
        ensures
            !r.system_notification && !r.sound && !r.auto_mark && r.mark_level is None
                && !r.auto_export && r.export_path is None,
    {
        AlertActions {
            system_notification: false,
            sound: false,
            auto_mark: false,
            mark_level: None,
            auto_export: false,
            export_path: None,
        }
    }
}

/// Which address an IP ban applies to.
#[derive(Debug, Clone, Copy, PartialEq, Eq, Structural)]
pub enum BanTarget {
    Src,
    Dst,
    Either,
}

/// An automated response to a rule match.
#[derive(Debug)]
pub enum ResponseAction {
    Webhook { url: String, headers: Vec<(String, String)>, timeout_secs: u64 },
    IpBan { target: BanTarget, expire_minutes: u64 },
    ScriptExec { path: String, args_template: String, timeout_secs: u64 },
}

/// The outcome of one response action.
#[derive(Debug, Clone, Copy, PartialEq, Eq, Structural)]
pub enum ResponseResult {
    Success,
    Failed,
    Timeout,
    CooldownSkipped,
}

/// A record of one executed (or skipped) response action.
#[derive(Debug)]
pub struct ResponseLogEntry {
    pub id: String,
    pub trigger_time: u64,
    pub rule_id: String,
    pub rule_name: String,
    pub action_type: String,
    pub result: ResponseResult,
    pub duration_ms: u64,
    pub detail: Option<String>,
}

impl Clone for ResponseLogEntry {
    fn clone(&self) -> (r: Self)
        ensures
            r == *self,
    {
        ResponseLogEntry {
            id: self.id.clone(),
            trigger_time: self.trigger_time,
            rule_id: self.rule_id.clone(),
            rule_name: self.rule_name.clone(),
            action_type: self.action_type.clone(),
            result: self.result,
            duration_ms: self.duration_ms,
            detail: crate::text::copy_opt_string(&self.detail),
        }
    }
}

/// Settings of the automated responses.
#[derive(Debug)]
pub struct ResponseConfig {
    pub default_cooldown_secs: u64,
    pub webhook_default_timeout_secs: u64,
    pub script_whitelist_dirs: Vec<String>,
    pub ban_list_path: String,
}

/// An address banned by a rule.
#[derive(Debug)]
pub struct BanEntry {
    pub ip: String,
    pub ban_time: u64,
    pub rule_id: String,
    pub rule_name: String,
    pub expire_minutes: u64,
}

impl Clone for BanEntry {
    fn clone(&self) -> (r: Self)
        ensures
            r == *self,
    {
        BanEntry {
            ip: self.ip.clone(),
            ban_time: self.ban_time,
            rule_id: self.rule_id.clone(),
            rule_name: self.rule_name.clone(),
            expire_minutes: self.expire_minutes,
        }
    }
}

impl BanEntry {
    /// A ban with a positive lifetime expires `expire_minutes` minutes after it
    /// was made; one with a zero lifetime never expires.
    pub open spec fn expired_at(self, now: u64) -> bool {
        self.expire_minutes > 0 && now as int >= self.ban_time as int + self.expire_minutes * 60
    }

    pub fn is_expired(&self, now: u64) -> (b: bool)
        ensures
            b == self.expired_at(now),
    {
        if self.expire_minutes == 0 {
            return false;
        }
        if self.expire_minutes > (u64::MAX - self.ban_time) / 60 {
            return false;
        }
        now >= self.ban_time + self.expire_minutes * 60
    }
}

/// Trigger statistics of one rule.
#[derive(Debug)]
pub struct RuleStats {
    pub rule_id: String,
    pub total_triggers: u64,
    pub triggers_last_24h: u64,
    pub last_24h_triggers: u64,
    pub first_trigger_time: Option<u64>,
    pub last_trigger_time: Option<u64>,
    pub last_24h_window_start: u64,
    pub recent_triggers: Vec<u64>,
}

/// A saved earlier state of a rule.
#[derive(Debug)]
pub struct RuleVersion {
    pub version: u32,
    pub condition: ConditionNode,
    pub expression: String,
    pub actions: AlertActions,
    pub saved_at: u64,
    pub summary: String,
}

/// A pair of rules whose conditions overlap while their actions disagree.
#[derive(Debug)]
pub struct RuleConflict {
    pub rule_a_id: String,
    pub rule_a_name: String,
    pub rule_b_id: String,
    pub rule_b_name: String,
    pub intersection_desc: String,
    pub action_conflict: String,
}

/// A detection rule.
#[derive(Debug)]
pub struct DetectionRule {
    pub id: String,
    pub name: String,
    pub priority: Priority,
    pub enabled: bool,
    pub condition: ConditionNode,
    pub expression: String,
    pub actions: AlertActions,
    pub group: Option<String>,
    pub description: Option<String>,
    pub created_at: u64,
    pub updated_at: u64,
    pub response_actions: Vec<ResponseAction>,
    pub cooldown_secs: u64,
    pub current_version: u32,
    pub versions: Vec<RuleVersion>,
}

/// A raised alert.
#[derive(Debug)]
pub struct AlertRecord {
    pub id: String,
    pub rule_id: String,
    pub rule_name: String,
    pub priority: Priority,
    pub packet_no: u64,
    pub timestamp_secs: u64,
    pub timestamp_micros: u32,
    pub match_summary: String,
    pub src_addr: String,
    pub dst_addr: String,
    pub protocol: String,
}

/// A named group of rules.
#[derive(Debug)]
pub struct RuleGroup {
    pub id: String,
    pub name: String,
    pub order: i32,
}

impl Clone for RuleGroup {
    fn clone(&self) -> (r: Self)
        ensures
            r == *self,
    {
        RuleGroup { id: self.id.clone(), name: self.name.clone(), order: self.order }
    }
}

/// The stored set of rules and groups.
#[derive(Debug)]
pub struct RulesFile {
    pub version: String,
    pub groups: Vec<RuleGroup>,
    pub rules: Vec<DetectionRule>,
    pub rule_stats: Vec<RuleStats>,
}

impl Default for RulesFile {
    fn default() -> (r: Self)
        ensures
            r.version@ == "1.0"@,
            r.groups@.len() == 0,
            r.rules@.len() == 0,
            r.rule_stats@.len() == 0,
    {
        RulesFile {
            version: String::from_str("1.0"),
            groups: Vec::new(),
            rules: Vec::new(),
            rule_stats: Vec::new(),
        }
    }
}

/// What a condition is evaluated against.
#[derive(Debug)]
pub struct EvalContext<'a> {
    pub packet_meta: &'a PacketMetadata,
    pub raw_data: &'a [u8],
    pub parsed_layers: Option<&'a PacketDetail>,
}

/// A failure to parse a rule expression.
#[derive(Debug)]
pub struct ParseError {
    pub message: String,
    pub position: Option<usize>,
}

impl ParseError {
    /// The message and, where there is one, the position of the failure.
    pub open spec fn value(self) -> (Seq<char>, Option<int>) {
        (
            self.message@,
            match self.position {
                Some(p) => Some(p as int),
                None => None,
            },
        )
    }

    /// The text of the failure: the message, then ` at position ` and the
    /// position where there is one.
    pub fn to_text(&self) -> (s: String)
        ensures
            s@ == match self.position {
                Some(p) => self.message@ + " at position "@ + crate::text::dec_digits(p as nat),
                None => self.message@,
            },
    {
        let mut s = self.message.clone();
        match self.position {
            Some(p) => {
                s.append(" at position ");
                crate::text::push_decimal(&mut s, p as u64);
            },
            None => {},
        }
        s
    }
}

// ---------------------------------------------------------------------------
// Values of rules, and copies

/// The value of a response action.
pub enum ActionV {
    Webhook(String, Seq<(String, String)>, u64),
    IpBan(BanTarget, u64),
    ScriptExec(String, String, u64),
}

impl View for ResponseAction {
    type V = ActionV;

    open spec fn view(&self) -> ActionV {
        match *self {
            ResponseAction::Webhook { url, headers, timeout_secs } => ActionV::Webhook(url, headers@, timeout_secs),
            ResponseAction::IpBan { target, expire_minutes } => ActionV::IpBan(target, expire_minutes),
            ResponseAction::ScriptExec { path, args_template, timeout_secs } => ActionV::ScriptExec(
                path,
                args_template,
                timeout_secs,
            ),
        }
    }
}

pub fn copy_pairs(v: &Vec<(String, String)>) -> (r: Vec<(String, String)>)
    ensures
        r@ == v@,
{
    let mut r: Vec<(String, String)> = Vec::new();
    let mut i: usize = 0;
    while i < v.len()
        invariant
            i <= v@.len(),
            r@ == v@.take(i as int),
        decreases v.len() - i,
    {
        r.push((v[i].0.clone(), v[i].1.clone()));
        i = i + 1;
        assert(r@ =~= v@.take(i as int));
    }
    assert(v@.take(i as int) =~= v@);
    r
}

impl ResponseAction {
    /// A copy of the action.
    pub fn duplicate(&self) -> (r: ResponseAction)
        ensures
            r@ == self@,
    {
        match self {
            ResponseAction::Webhook { url, headers, timeout_secs } => ResponseAction::Webhook {
                url: url.clone(),
                headers: copy_pairs(headers),
                timeout_secs: *timeout_secs,
            },
            ResponseAction::IpBan { target, expire_minutes } => ResponseAction::IpBan {
                target: *target,
                expire_minutes: *expire_minutes,
            },
            ResponseAction::ScriptExec { path, args_template, timeout_secs } => ResponseAction::ScriptExec {
                path: path.clone(),
                args_template: args_template.clone(),
                timeout_secs: *timeout_secs,
            },
        }
    }
}

pub open spec fn actions_view(v: Seq<ResponseAction>) -> Seq<ActionV> {
    v.map_values(|a: ResponseAction| a@)
}

/// Copies of a list of response actions.
pub fn duplicate_actions(v: &Vec<ResponseAction>) -> (r: Vec<ResponseAction>)
    ensures
        actions_view(r@) == actions_view(v@),
{
    let mut r: Vec<ResponseAction> = Vec::new();
    let mut i: usize = 0;
    while i < v.len()
        invariant
            i <= v@.len(),
            r@.len() == i,
            actions_view(r@) == actions_view(v@.take(i as int)),
        decreases v.len() - i,
    {
        let ghost before = r@;
        let d = v[i].duplicate();
        r.push(d);
        proof {
            assert forall|j: int| 0 <= j < i + 1 implies #[trigger] actions_view(r@)[j] == actions_view(v@.take(i + 1))[j] by {
                if j < i {
                    assert(r@[j] == before[j]);
                    assert(actions_view(before)[j] == actions_view(v@.take(i as int))[j]);
                }
            }
            assert(actions_view(r@) =~= actions_view(v@.take(i + 1)));
        }
        i = i + 1;
    }
    assert(v@.take(i as int) =~= v@);
    r
}

/// The value of a saved version of a rule.
pub struct VersionV {
    pub version: u32,
    pub condition: Cond,
    pub expression: String,
    pub actions: AlertActions,
    pub saved_at: u64,
    pub summary: String,
}

impl View for RuleVersion {
    type V = VersionV;

    open spec fn view(&self) -> VersionV {
        VersionV {
            version: self.version,
            condition: self.condition@,
            expression: self.expression,
            actions: self.actions,
            saved_at: self.saved_at,
            summary: self.summary,
        }
    }
}

impl RuleVersion {
    /// A copy of the version.
    pub fn duplicate(&self) -> (r: RuleVersion)
        ensures
            r@ == self@,
    {
        RuleVersion {
            version: self.version,
            condition: self.condition.duplicate(),
            expression: self.expression.clone(),
            actions: self.actions.duplicate(),
            saved_at: self.saved_at,
            summary: self.summary.clone(),
        }
    }
}

pub open spec fn versions_view(v: Seq<RuleVersion>) -> Seq<VersionV> {
    v.map_values(|x: RuleVersion| x@)
}

/// Copies of a list of versions.
pub fn duplicate_versions(v: &Vec<RuleVersion>) -> (r: Vec<RuleVersion>)
    ensures
        versions_view(r@) == versions_view(v@),
{
    let mut r: Vec<RuleVersion> = Vec::new();
    let mut i: usize = 0;
    while i < v.len()
        invariant
            i <= v@.len(),
            r@.len() == i,
            versions_view(r@) == versions_view(v@.take(i as int)),
        decreases v.len() - i,
    {
        let ghost before = r@;
        let d = v[i].duplicate();
        r.push(d);
        proof {
            assert forall|j: int| 0 <= j < i + 1 implies #[trigger] versions_view(r@)[j] == versions_view(v@.take(i + 1))[j] by {
                if j < i {
                    assert(r@[j] == before[j]);
                    assert(versions_view(before)[j] == versions_view(v@.take(i as int))[j]);
                }
            }
            assert(versions_view(r@) =~= versions_view(v@.take(i + 1)));
        }
        i = i + 1;
    }
    assert(v@.take(i as int) =~= v@);
    r
}

/// The value of a detection rule.
pub struct RuleV {
    pub id: String,
    pub name: String,
    pub priority: Priority,
    pub enabled: bool,
    pub condition: Cond,
    pub expression: String,
    pub actions: AlertActions,
    pub group: Option<String>,
    pub description: Option<String>,
    pub created_at: u64,
    pub updated_at: u64,
    pub response_actions: Seq<ActionV>,
    pub cooldown_secs: u64,
    pub current_version: u32,
    pub versions: Seq<VersionV>,
}

impl View for DetectionRule {
    type V = RuleV;

    open spec fn view(&self) -> RuleV {
        RuleV {
            id: self.id,
            name: self.name,
            priority: self.priority,
            enabled: self.enabled,
            condition: self.condition@,
            expression: self.expression,
            actions: self.actions,
            group: self.group,
            description: self.description,
            created_at: self.created_at,
            updated_at: self.updated_at,
            response_actions: actions_view(self.response_actions@),
            cooldown_secs: self.cooldown_secs,
            current_version: self.current_version,
            versions: versions_view(self.versions@),
        }
    }
}

impl DetectionRule {
    /// A copy of the rule.
    pub fn duplicate(&self) -> (r: DetectionRule)
        ensures
            r@ == self@,
    {
        DetectionRule {
            id: self.id.clone(),
            name: self.name.clone(),
            priority: self.priority,
            enabled: self.enabled,
            condition: self.condition.duplicate(),
            expression: self.expression.clone(),
            actions: self.actions.duplicate(),
            group: crate::text::copy_opt_string(&self.group),
            description: crate::text::copy_opt_string(&self.description),
            created_at: self.created_at,
            updated_at: self.updated_at,
            response_actions: duplicate_actions(&self.response_actions),
            cooldown_secs: self.cooldown_secs,
            current_version: self.current_version,
            versions: duplicate_versions(&self.versions),
        }
    }
}

pub open spec fn rules_view(v: Seq<DetectionRule>) -> Seq<RuleV> {
    v.map_values(|r: DetectionRule| r@)
}

/// Copies of a list of rules.
pub fn duplicate_rules(v: &Vec<DetectionRule>) -> (r: Vec<DetectionRule>)
    ensures
        rules_view(r@) == rules_view(v@),
{
    let mut r: Vec<DetectionRule> = Vec::new();
    let mut i: usize = 0;
    while i < v.len()
        invariant
            i <= v@.len(),
            r@.len() == i,
            rules_view(r@) == rules_view(v@.take(i as int)),
        decreases v.len() - i,
    {
        let ghost before = r@;
        let d = v[i].duplicate();
        r.push(d);
        proof {
            assert forall|j: int| 0 <= j < i + 1 implies #[trigger] rules_view(r@)[j] == rules_view(v@.take(i + 1))[j] by {
                if j < i {
                    assert(r@[j] == before[j]);
                    assert(rules_view(before)[j] == rules_view(v@.take(i as int))[j]);
                }
            }
            assert(rules_view(r@) =~= rules_view(v@.take(i + 1)));
        }
        i = i + 1;
    }
    assert(v@.take(i as int) =~= v@);
    r
}

/// The value of a rule's statistics.
pub struct StatsV {
    pub rule_id: String,
    pub total_triggers: u64,
    pub triggers_last_24h: u64,
    pub last_24h_triggers: u64,
    pub first_trigger_time: Option<u64>,
    pub last_trigger_time: Option<u64>,
    pub last_24h_window_start: u64,
    pub recent_triggers: Seq<u64>,
}

impl View for RuleStats {
    type V = StatsV;

    open spec fn view(&self) -> StatsV {
        StatsV {
            rule_id: self.rule_id,
            total_triggers: self.total_triggers,
            triggers_last_24h: self.triggers_last_24h,
            last_24h_triggers: self.last_24h_triggers,
            first_trigger_time: self.first_trigger_time,
            last_trigger_time: self.last_trigger_time,
            last_24h_window_start: self.last_24h_window_start,
            recent_triggers: self.recent_triggers@,
        }
    }
}

impl RuleStats {
    /// Empty statistics of a rule.
    pub fn for_rule(rule_id: String) -> (s: RuleStats)
        ensures
            s.rule_id == rule_id,
            s.total_triggers == 0,
            s.triggers_last_24h == 0,
            s.last_24h_triggers == 0,
            s.first_trigger_time is None,
            s.last_trigger_time is None,
            s.last_24h_window_start == 0,
            s.recent_triggers@.len() == 0,
    {
        RuleStats {
            rule_id,
            total_triggers: 0,
            triggers_last_24h: 0,
            last_24h_triggers: 0,
            first_trigger_time: None,
            last_trigger_time: None,
            last_24h_window_start: 0,
            recent_triggers: Vec::new(),
        }
    }

    /// A copy of the statistics.
    pub fn duplicate(&self) -> (r: RuleStats)
        ensures
            r@ == self@,
    {
        let mut recent: Vec<u64> = Vec::new();
        let mut i: usize = 0;
        while i < self.recent_triggers.len()
            invariant
                i <= self.recent_triggers@.len(),
                recent@ == self.recent_triggers@.take(i as int),
            decreases self.recent_triggers.len() - i,
        {
            recent.push(self.recent_triggers[i]);
            i = i + 1;
            assert(recent@ =~= self.recent_triggers@.take(i as int));
        }
        assert(self.recent_triggers@.take(i as int) =~= self.recent_triggers@);
        RuleStats {
            rule_id: self.rule_id.clone(),
            total_triggers: self.total_triggers,
            triggers_last_24h: self.triggers_last_24h,
            last_24h_triggers: self.last_24h_triggers,
            first_trigger_time: self.first_trigger_time,
            last_trigger_time: self.last_trigger_time,
            last_24h_window_start: self.last_24h_window_start,
            recent_triggers: recent,
        }
    }
}

impl Clone for AlertRecord {
    fn clone(&self) -> (r: Self)
        ensures
            r == *self,
    {
        AlertRecord {
            id: self.id.clone(),
            rule_id: self.rule_id.clone(),
            rule_name: self.rule_name.clone(),
            priority: self.priority,
            packet_no: self.packet_no,
            timestamp_secs: self.timestamp_secs,
            timestamp_micros: self.timestamp_micros,
            match_summary: self.match_summary.clone(),
            src_addr: self.src_addr.clone(),
            dst_addr: self.dst_addr.clone(),
            protocol: self.protocol.clone(),
        }
    }
}

impl Default for ResponseConfig {
    fn default() -> (c: Self)
        ensures
            c.default_cooldown_secs == 60,
            c.webhook_default_timeout_secs == 10,
            c.script_whitelist_dirs@.len() == 0,
            c.ban_list_path@ == "ban_list.json"@,
    {
        ResponseConfig {
            default_cooldown_secs: 60,
            webhook_default_timeout_secs: 10,
            script_whitelist_dirs: Vec::new(),
            ban_list_path: String::from_str("ban_list.json"),
        }
    }
}

impl ResponseConfig {
    /// The settings as plain values.
    pub open spec fn same_as(&self, o: &ResponseConfig) -> bool {
        &&& self.default_cooldown_secs == o.default_cooldown_secs
        &&& self.webhook_default_timeout_secs == o.webhook_default_timeout_secs
        &&& texts(self.script_whitelist_dirs@) == texts(o.script_whitelist_dirs@)
        &&& self.ban_list_path@ == o.ban_list_path@
    }

    /// A copy of the settings.
    pub fn duplicate(&self) -> (c: ResponseConfig)
        ensures
            c.same_as(self),
    {
        let mut dirs: Vec<String> = Vec::new();
        let mut i: usize = 0;
        while i < self.script_whitelist_dirs.len()
            invariant
                i <= self.script_whitelist_dirs@.len(),
                texts(dirs@) == texts(self.script_whitelist_dirs@).take(i as int),
            decreases self.script_whitelist_dirs.len() - i,
        {
            let ghost before = dirs@;
            let c = self.script_whitelist_dirs[i].clone();
            dirs.push(c);
            assert(texts(dirs@) =~= texts(before).push(c@));
            i = i + 1;
            assert(texts(dirs@) =~= texts(self.script_whitelist_dirs@).take(i as int));
        }
        assert(texts(self.script_whitelist_dirs@).take(i as int) =~= texts(self.script_whitelist_dirs@));
        ResponseConfig {
            default_cooldown_secs: self.default_cooldown_secs,
            webhook_default_timeout_secs: self.webhook_default_timeout_secs,
            script_whitelist_dirs: dirs,
            ban_list_path: self.ban_list_path.clone(),
        }
    }
}

} // verus!
