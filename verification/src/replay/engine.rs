//! Replaying packets against the rules, and summing up replays.
use vstd::prelude::*;
use crate::replay::models::{ReplayBatchSummary, ReplaySessionResult, RuleMatchRecord};
use crate::models::PacketMetadata;
use crate::rule::engine::{RateV, RuleEngine, enabled_rate_limits, matched_rules};
use crate::rule::manager::dec;
use crate::rule::models::{ActionV, BanTarget, DetectionRule, ResponseAction, ResponseLogEntry, ResponseResult, RuleV, rules_view};
use crate::text::push_decimal;

verus! {

/// Sum over sessions of packets, matched rules and response actions.
pub open spec fn sum_packets(rs: Seq<ReplaySessionResult>) -> int
    decreases rs.len(),
{
    if rs.len() == 0 {
        0
    } else {
        sum_packets(rs.drop_last()) + rs.last().total_packets
    }
}

pub open spec fn sum_matched(rs: Seq<ReplaySessionResult>) -> int
    decreases rs.len(),
{
    if rs.len() == 0 {
        0
    } else {
        sum_matched(rs.drop_last()) + rs.last().matched_rules@.len()
    }
}

pub open spec fn sum_actions(rs: Seq<ReplaySessionResult>) -> int
    decreases rs.len(),
{
    if rs.len() == 0 {
        0
    } else {
        sum_actions(rs.drop_last()) + rs.last().response_logs@.len()
    }
}

/// The ids of the sessions with at least one matched rule (`hits`) or none.
pub open spec fn session_ids(rs: Seq<ReplaySessionResult>, hits: bool) -> Seq<Seq<char>>
    decreases rs.len(),
{
    if rs.len() == 0 {
        Seq::empty()
    } else if (rs.last().matched_rules@.len() > 0) == hits {
        session_ids(rs.drop_last(), hits).push(rs.last().session_id@)
    } else {
        session_ids(rs.drop_last(), hits)
    }
}

proof fn lemma_sums_monotone(rs: Seq<ReplaySessionResult>, i: int)
    requires
        0 <= i <= rs.len(),
    ensures
        sum_packets(rs.take(i)) <= sum_packets(rs),
        sum_matched(rs.take(i)) <= sum_matched(rs),
        sum_actions(rs.take(i)) <= sum_actions(rs),
        0 <= sum_packets(rs.take(i)),
        0 <= sum_matched(rs.take(i)),
        0 <= sum_actions(rs.take(i)),
    decreases rs.len() - i,
{
    if i < rs.len() {
        lemma_sums_monotone(rs, i + 1);
        lemma_sums_nonneg(rs.take(i));
        let t = rs.take(i + 1);
        assert(t.drop_last() =~= rs.take(i));
        assert(t.last() == rs[i]);
        assert(sum_matched(t) == sum_matched(rs.take(i)) + rs[i].matched_rules@.len());
        assert(sum_actions(t) == sum_actions(rs.take(i)) + rs[i].response_logs@.len());
    } else {
        assert(rs.take(i) =~= rs);
        lemma_sums_nonneg(rs);
    }
}

proof fn lemma_sums_nonneg(rs: Seq<ReplaySessionResult>)
    ensures
        0 <= sum_packets(rs),
        0 <= sum_matched(rs),
        0 <= sum_actions(rs),
    decreases rs.len(),
{
    if rs.len() > 0 {
        lemma_sums_nonneg(rs.drop_last());
    }
}

/// Totals over the results of several session replays, the ids of the
/// sessions with and without a matched rule, and the results themselves.
pub fn build_batch_summary(results: Vec<ReplaySessionResult>) -> (s: ReplayBatchSummary)
    requires
        sum_packets(results@) <= u64::MAX,
        sum_matched(results@) <= u64::MAX,
        sum_actions(results@) <= u64::MAX,
    ensures
        s.session_count == results@.len(),
        s.total_packets == sum_packets(results@),
        s.total_matched_rules == sum_matched(results@),
        s.total_response_actions == sum_actions(results@),
        s.sessions_with_hits@.map_values(|x: String| x@) == session_ids(results@, true),
        s.sessions_without_hits@.map_values(|x: String| x@) == session_ids(results@, false),
        s.per_session_results == results,
{
    let mut total_packets: u64 = 0;
    let mut total_matched_rules: u64 = 0;
    let mut total_response_actions: u64 = 0;
    let mut sessions_with_hits: Vec<String> = Vec::new();
    let mut sessions_without_hits: Vec<String> = Vec::new();
    let mut i: usize = 0;
    assert(results@.take(0) =~= Seq::<ReplaySessionResult>::empty());
    while i < results.len()
        invariant
            i <= results@.len(),
            sum_packets(results@) <= u64::MAX,
            sum_matched(results@) <= u64::MAX,
            sum_actions(results@) <= u64::MAX,
            total_packets == sum_packets(results@.take(i as int)),
            total_matched_rules == sum_matched(results@.take(i as int)),
            total_response_actions == sum_actions(results@.take(i as int)),
            sessions_with_hits@.map_values(|x: String| x@) == session_ids(results@.take(i as int), true),
            sessions_without_hits@.map_values(|x: String| x@) == session_ids(
                results@.take(i as int),
                false,
            ),
        decreases results.len() - i,
    {
        let r = &results[i];
        proof {
            assert(results@.take(i + 1).drop_last() =~= results@.take(i as int));
            lemma_sums_monotone(results@, i + 1);
        }
        total_packets = total_packets + r.total_packets;
        total_matched_rules = total_matched_rules + r.matched_rules.len() as u64;
        total_response_actions = total_response_actions + r.response_logs.len() as u64;
        if r.matched_rules.len() == 0 {
            let ghost before = sessions_without_hits@;
            sessions_without_hits.push(r.session_id.clone());
            assert(sessions_without_hits@.map_values(|x: String| x@) =~= before.map_values(
                |x: String| x@,
            ).push(r.session_id@));
        } else {
            let ghost before = sessions_with_hits@;
            sessions_with_hits.push(r.session_id.clone());
            assert(sessions_with_hits@.map_values(|x: String| x@) =~= before.map_values(
                |x: String| x@,
            ).push(r.session_id@));
        }
        i = i + 1;
    }
    assert(results@.take(i as int) =~= results@);
    ReplayBatchSummary {
        session_count: results.len() as u64,
        total_packets,
        total_matched_rules,
        total_response_actions,
        sessions_with_hits,
        sessions_without_hits,
        per_session_results: results,
    }
}

// ---------------------------------------------------------------------------
// Injecting packets

/// The name of the kind of a response action.
pub open spec fn action_kind(a: ActionV) -> Seq<char> {
    match a {
        ActionV::Webhook(..) => "webhook"@,
        ActionV::IpBan(..) => "ip_ban"@,
        ActionV::ScriptExec(..) => "script_exec"@,
    }
}

/// What a simulated response says it did.
pub open spec fn simulated_detail(a: ActionV, m: PacketMetadata) -> Seq<char> {
    match a {
        ActionV::Webhook(url, _, _) => "Simulated webhook to "@ + url@,
        ActionV::IpBan(target, mins) => "Simulated ban of "@ + (if target == BanTarget::Dst {
            m.dst_addr@
        } else {
            m.src_addr@
        }) + " for "@ + dec(mins as int) + " minutes"@,
        ActionV::ScriptExec(path, _, _) => "Simulated script execution: "@ + path@,
    }
}

/// The log entry of a response of the rule to the packet, simulated: it
/// succeeds at once.
pub open spec fn is_simulated_log(e: ResponseLogEntry, r: RuleV, a: ActionV, m: PacketMetadata) -> bool {
    &&& e.id@ == "sim_"@ + r.id@ + "_"@ + dec(m.no as int)
    &&& e.trigger_time == m.timestamp_secs
    &&& e.rule_id@ == r.id@
    &&& e.rule_name@ == r.name@
    &&& e.action_type@ == action_kind(a)
    &&& e.result == ResponseResult::Success
    &&& e.duration_ms == 0
    &&& e.detail matches Some(d) && d@ == simulated_detail(a, m)
}

/// The simulated log entry of a response of the rule to the packet.
pub fn generate_simulated_response_log(rule: &DetectionRule, action: &ResponseAction, meta: &PacketMetadata) -> (e:
    ResponseLogEntry)
    ensures
        is_simulated_log(e, rule@, action@, *meta),
{
    proof {
        reveal_strlit("webhook");
        reveal_strlit("ip_ban");
        reveal_strlit("script_exec");
        reveal_strlit("Simulated webhook to ");
        reveal_strlit("Simulated ban of ");
        reveal_strlit(" for ");
        reveal_strlit(" minutes");
        reveal_strlit("Simulated script execution: ");
        reveal_strlit("sim_");
        reveal_strlit("_");
    }
    let action_type = match action {
        ResponseAction::Webhook { .. } => String::from_str("webhook"),
        ResponseAction::IpBan { .. } => String::from_str("ip_ban"),
        ResponseAction::ScriptExec { .. } => String::from_str("script_exec"),
    };
    let detail = match action {
        ResponseAction::Webhook { url, .. } => {
            let mut d = String::from_str("Simulated webhook to ");
            d.append(url.as_str());
            d
        },
        ResponseAction::IpBan { target, expire_minutes } => {
            let ip = match target {
                BanTarget::Dst => &meta.dst_addr,
                _ => &meta.src_addr,
            };
            let mut d = String::from_str("Simulated ban of ");
            d.append(ip.as_str());
            d.append(" for ");
            push_decimal(&mut d, *expire_minutes);
            d.append(" minutes");
            d
        },
        ResponseAction::ScriptExec { path, .. } => {
            let mut d = String::from_str("Simulated script execution: ");
            d.append(path.as_str());
            d
        },
    };
    let mut id = String::from_str("sim_");
    id.append(rule.id.as_str());
    id.append("_");
    push_decimal(&mut id, meta.no);
    ResponseLogEntry {
        id,
        trigger_time: meta.timestamp_secs,
        rule_id: rule.id.clone(),
        rule_name: rule.name.clone(),
        action_type,
        result: ResponseResult::Success,
        duration_ms: 0,
        detail: Some(detail),
    }
}

/// The bytes of the packet at `i`, empty when none were given.
pub open spec fn raw_at(raws: Seq<Vec<u8>>, i: int) -> Seq<u8> {
    if 0 <= i < raws.len() {
        raws[i]@
    } else {
        Seq::empty()
    }
}

/// The rules matched by the packets in turn, each with its packet, and the
/// rate counters after them.
pub open spec fn hits_of(rs: Seq<RuleV>, ms: Seq<PacketMetadata>, raws: Seq<Vec<u8>>, v: RateV) -> (
    Seq<(PacketMetadata, RuleV)>,
    RateV,
)
    decreases ms.len(),
{
    if ms.len() == 0 {
        (Seq::empty(), v)
    } else {
        let before = hits_of(rs, ms.drop_last(), raws, v);
        let m = ms.last();
        let e = matched_rules(rs, m, raw_at(raws, ms.len() - 1), None, before.1);
        (before.0 + e.0.map_values(|r: RuleV| (m, r)), e.1)
    }
}

pub open spec fn hits_view(h: Seq<(PacketMetadata, DetectionRule)>) -> Seq<(PacketMetadata, RuleV)> {
    h.map_values(|p: (PacketMetadata, DetectionRule)| (p.0, p.1@))
}

/// A match record as plain values.
pub struct RecV {
    pub rule_id: Seq<char>,
    pub rule_name: Seq<char>,
    pub trigger_count: int,
    pub first_packet_no: u64,
    pub first_timestamp_secs: u64,
    pub first_timestamp_micros: u32,
}

pub open spec fn rec_view(r: RuleMatchRecord) -> RecV {
    RecV {
        rule_id: r.rule_id@,
        rule_name: r.rule_name@,
        trigger_count: r.trigger_count as int,
        first_packet_no: r.first_packet_no,
        first_timestamp_secs: r.first_timestamp_secs,
        first_timestamp_micros: r.first_timestamp_micros,
    }
}

pub open spec fn recs_view(v: Seq<RuleMatchRecord>) -> Seq<RecV> {
    v.map_values(|r: RuleMatchRecord| rec_view(r))
}

/// The index of the record of the rule, or -1.
pub open spec fn first_rec(v: Seq<RecV>, id: Seq<char>) -> int
    decreases v.len(),
{
    if v.len() == 0 {
        -1
    } else {
        let k = first_rec(v.drop_last(), id);
        if k >= 0 {
            k
        } else if v.last().rule_id == id {
            v.len() - 1
        } else {
            -1
        }
    }
}

proof fn lemma_first_rec(v: Seq<RecV>, id: Seq<char>)
    ensures
        -1 <= first_rec(v, id) < v.len(),
        first_rec(v, id) >= 0 ==> v[first_rec(v, id)].rule_id == id,
    decreases v.len(),
{
    if v.len() > 0 {
        lemma_first_rec(v.drop_last(), id);
    }
}

proof fn lemma_first_rec_prefix(v: Seq<RecV>, id: Seq<char>, i: int, j: int)
    requires
        0 <= i <= j <= v.len(),
        first_rec(v.take(i), id) >= 0,
    ensures
        first_rec(v.take(j), id) == first_rec(v.take(i), id),
    decreases j - i,
{
    if j > i {
        lemma_first_rec_prefix(v, id, i, j - 1);
        assert(v.take(j).drop_last() =~= v.take(j - 1));
    }
}

/// The match records of the hits: one per rule, in the order first hit,
/// counting its hits, with the packet of its first hit.
pub open spec fn records_of(h: Seq<(PacketMetadata, RuleV)>) -> Seq<RecV>
    decreases h.len(),
{
    if h.len() == 0 {
        Seq::empty()
    } else {
        let v = records_of(h.drop_last());
        let m = h.last().0;
        let r = h.last().1;
        let i = first_rec(v, r.id@);
        if i >= 0 {
            v.update(i, RecV { trigger_count: v[i].trigger_count + 1, ..v[i] })
        } else {
            v.push(
                RecV {
                    rule_id: r.id@,
                    rule_name: r.name@,
                    trigger_count: 1,
                    first_packet_no: m.no,
                    first_timestamp_secs: m.timestamp_secs,
                    first_timestamp_micros: m.timestamp_micros,
                },
            )
        }
    }
}

proof fn lemma_records_counts(h: Seq<(PacketMetadata, RuleV)>)
    ensures
        forall|j: int| 0 <= j < records_of(h).len() ==> 1 <= #[trigger] records_of(h)[j].trigger_count <= h.len(),
    decreases h.len(),
{
    if h.len() > 0 {
        lemma_records_counts(h.drop_last());
        lemma_first_rec(records_of(h.drop_last()), h.last().1.id@);
    }
}

/// The index of the record of the rule, or the length when there is none.
fn find_rec(v: &Vec<RuleMatchRecord>, id: &str) -> (i: usize)
    ensures
        i <= v@.len(),
        i == v@.len() <==> first_rec(recs_view(v@), id@) == -1,
        i < v@.len() ==> first_rec(recs_view(v@), id@) == i,
{
    let ghost w = recs_view(v@);
    let mut i: usize = 0;
    assert(w.take(0) =~= Seq::<RecV>::empty());
    while i < v.len()
        invariant
            i <= v@.len(),
            w == recs_view(v@),
            first_rec(w.take(i as int), id@) == -1,
        ensures
            i <= v@.len(),
            first_rec(w.take(i as int), id@) == -1,
            i < v@.len() ==> w[i as int].rule_id == id@,
        decreases v.len() - i,
    {
        if crate::text::same_text(v[i].rule_id.as_str(), id) {
            break;
        }
        assert(w.take(i + 1).drop_last() =~= w.take(i as int));
        i = i + 1;
    }
    proof {
        if i < v.len() {
            assert(w.take(i + 1).drop_last() =~= w.take(i as int));
            lemma_first_rec_prefix(w, id@, i + 1, w.len() as int);
        }
        assert(w.take(w.len() as int) =~= w);
    }
    i
}

/// The match records of the hits (see `records_of`).
pub fn match_records(hits: &Vec<(PacketMetadata, DetectionRule)>) -> (r: Vec<RuleMatchRecord>)
    ensures
        recs_view(r@) == records_of(hits_view(hits@)),
{
    let ghost h = hits_view(hits@);
    let mut recs: Vec<RuleMatchRecord> = Vec::new();
    let mut i: usize = 0;
    assert(h.take(0) =~= Seq::<(PacketMetadata, RuleV)>::empty());
    assert(recs_view(recs@) =~= Seq::<RecV>::empty());
    while i < hits.len()
        invariant
            i <= hits@.len(),
            h == hits_view(hits@),
            recs_view(recs@) == records_of(h.take(i as int)),
        decreases hits.len() - i,
    {
        let ghost t = h.take(i + 1);
        assert(t.drop_last() =~= h.take(i as int));
        assert(t.last() == h[i as int]);
        proof {
            lemma_records_counts(h.take(i as int));
        }
        let ghost before = recs_view(recs@);
        let (meta, rule) = (&hits[i].0, &hits[i].1);
        let k = find_rec(&recs, rule.id.as_str());
        if k < recs.len() {
            assert(before[k as int].trigger_count <= i);
            let old_rec = &recs[k];
            let updated = RuleMatchRecord {
                rule_id: old_rec.rule_id.clone(),
                rule_name: old_rec.rule_name.clone(),
                trigger_count: old_rec.trigger_count + 1,
                first_packet_no: old_rec.first_packet_no,
                first_timestamp_secs: old_rec.first_timestamp_secs,
                first_timestamp_micros: old_rec.first_timestamp_micros,
            };
            recs.set(k, updated);
            assert(recs_view(recs@) =~= before.update(
                k as int,
                RecV { trigger_count: before[k as int].trigger_count + 1, ..before[k as int] },
            ));
        } else {
            recs.push(
                RuleMatchRecord {
                    rule_id: rule.id.clone(),
                    rule_name: rule.name.clone(),
                    trigger_count: 1,
                    first_packet_no: meta.no,
                    first_timestamp_secs: meta.timestamp_secs,
                    first_timestamp_micros: meta.timestamp_micros,
                },
            );
            assert(recs_view(recs@) =~= before.push(
                RecV {
                    rule_id: rule.id@,
                    rule_name: rule.name@,
                    trigger_count: 1,
                    first_packet_no: meta.no,
                    first_timestamp_secs: meta.timestamp_secs,
                    first_timestamp_micros: meta.timestamp_micros,
                },
            ));
        }
        i = i + 1;
    }
    assert(h.take(i as int) =~= h);
    recs
}

/// The responses the hits call for, in order: each action of each hit rule.
pub open spec fn log_sources(h: Seq<(PacketMetadata, RuleV)>) -> Seq<(PacketMetadata, RuleV, ActionV)>
    decreases h.len(),
{
    if h.len() == 0 {
        Seq::empty()
    } else {
        log_sources(h.drop_last()) + action_sources(h.last().0, h.last().1)
    }
}

/// The responses one hit calls for: each action of the rule, with the packet.
pub open spec fn action_sources(m: PacketMetadata, r: RuleV) -> Seq<(PacketMetadata, RuleV, ActionV)> {
    r.response_actions.map_values(|a: ActionV| (m, r, a))
}

/// The simulated log entries of the responses the hits call for.
pub fn simulated_logs(hits: &Vec<(PacketMetadata, DetectionRule)>) -> (logs: Vec<ResponseLogEntry>)
    ensures
        logs@.len() == log_sources(hits_view(hits@)).len(),
        forall|j: int| 0 <= j < logs@.len() ==> {
            let src = #[trigger] log_sources(hits_view(hits@))[j];
            is_simulated_log(logs@[j], src.1, src.2, src.0)
        },
{
    let ghost h = hits_view(hits@);
    let mut logs: Vec<ResponseLogEntry> = Vec::new();
    let mut i: usize = 0;
    assert(h.take(0) =~= Seq::<(PacketMetadata, RuleV)>::empty());
    while i < hits.len()
        invariant
            i <= hits@.len(),
            h == hits_view(hits@),
            logs@.len() == log_sources(h.take(i as int)).len(),
            forall|j: int| 0 <= j < logs@.len() ==> {
                let src = #[trigger] log_sources(h.take(i as int))[j];
                is_simulated_log(logs@[j], src.1, src.2, src.0)
            },
        decreases hits.len() - i,
    {
        let ghost t = h.take(i + 1);
        assert(t.drop_last() =~= h.take(i as int));
        assert(t.last() == h[i as int]);
        let ghost prev = log_sources(h.take(i as int));
        let ghost base = logs@.len();
        let meta = &hits[i].0;
        let rule = &hits[i].1;
        let ghost acts = rule@.response_actions;
        let ghost target = prev + action_sources(*meta, rule@);
        assert(log_sources(t) == target);
        let mut k: usize = 0;
        while k < rule.response_actions.len()
            invariant
                k <= rule.response_actions@.len(),
                acts == rule@.response_actions,
                acts.len() == rule.response_actions@.len(),
                base == prev.len(),
                logs@.len() == base + k,
                target == prev + action_sources(*meta, rule@),
                forall|j: int| 0 <= j < logs@.len() ==> {
                    let src = #[trigger] target[j];
                    is_simulated_log(logs@[j], src.1, src.2, src.0)
                },
            decreases rule.response_actions.len() - k,
        {
            let e = generate_simulated_response_log(rule, &rule.response_actions[k], meta);
            assert(acts[k as int] == rule.response_actions@[k as int]@);
            logs.push(e);
            k = k + 1;
        }
        i = i + 1;
    }
    assert(h.take(i as int) =~= h);
    logs
}

/// Evaluates the packets against the engine in turn and collects every
/// rule each one matched, with the packet.
fn collect_hits(packets: &Vec<PacketMetadata>, raw_data: &Vec<Vec<u8>>, rule_engine: &mut RuleEngine) -> (h: Vec<
    (PacketMetadata, DetectionRule),
>)
    requires
        old(rule_engine).wf(),
        2 * enabled_rate_limits(old(rule_engine).rules_v()) * packets@.len() <= u32::MAX,
        forall|n: int| #[trigger] old(rule_engine).has_room(n),
    ensures
        final(rule_engine).wf(),
        final(rule_engine).rules_v() == old(rule_engine).rules_v(),
        (hits_view(h@), final(rule_engine).counters_v()) == hits_of(
            old(rule_engine).rules_v(),
            packets@,
            raw_data@,
            old(rule_engine).counters_v(),
        ),
{
    let ghost rs = rule_engine.rules_v();
    let ghost k: int = 2 * enabled_rate_limits(rs) as int;
    let ghost n: int = packets@.len() as int;
    let empty: Vec<u8> = Vec::new();
    let mut hits: Vec<(PacketMetadata, DetectionRule)> = Vec::new();
    let mut i: usize = 0;
    assert(packets@.take(0) =~= Seq::<PacketMetadata>::empty());
    assert(hits_view(hits@) =~= Seq::<(PacketMetadata, RuleV)>::empty());
    while i < packets.len()
        invariant
            i <= packets@.len(),
            n == packets@.len(),
            rs == rule_engine.rules_v(),
            k == 2 * enabled_rate_limits(rs),
            k * n <= u32::MAX,
            rule_engine.wf(),
            rule_engine.has_room(k * (n - i)),
            empty@.len() == 0,
            (hits_view(hits@), rule_engine.counters_v()) == hits_of(
                rs,
                packets@.take(i as int),
                raw_data@,
                old(rule_engine).counters_v(),
            ),
        decreases packets.len() - i,
    {
        proof {
            assert(k * (n - i) >= k) by (nonlinear_arith)
                requires
                    k >= 0,
                    n - i >= 1,
            ;
            assert(k * (n - i) <= k * n) by (nonlinear_arith)
                requires
                    k >= 0,
                    0 <= i,
            ;
            assert(k <= u32::MAX) by (nonlinear_arith)
                requires
                    k >= 0,
                    n >= 1,
                    k * n <= u32::MAX,
            ;
            assert(packets@.take(i + 1).drop_last() =~= packets@.take(i as int));
            assert(packets@.take(i + 1).last() == packets@[i as int]);
            rule_engine.lemma_has_room_weaken(k * (n - i), k);
        }
        let meta = &packets[i];
        let raw: &Vec<u8> = if i < raw_data.len() {
            &raw_data[i]
        } else {
            &empty
        };
        assert(raw@ == raw_at(raw_data@, i as int)) by {
            if i >= raw_data.len() {
                assert(raw@ =~= Seq::<u8>::empty());
            }
        }
        let ghost before = hits_view(hits@);
        let ghost eng_before = *rule_engine;
        let matched = rule_engine.evaluate_packet(meta, raw.as_slice(), None);
        proof {
            assert(rule_engine.has_room(k * (n - i) - k));
            assert(k * (n - i) - k == k * (n - (i + 1))) by (nonlinear_arith);
        }
        let ghost mv = rules_view(matched@);
        let mut j: usize = 0;
        while j < matched.len()
            invariant
                j <= matched@.len(),
                mv == rules_view(matched@),
                hits_view(hits@) == before + mv.take(j as int).map_values(|r: RuleV| (*meta, r)),
            decreases matched.len() - j,
        {
            let ghost hb = hits_view(hits@);
            hits.push((meta.clone(), matched[j].duplicate()));
            assert(hits_view(hits@) =~= hb.push((*meta, mv[j as int])));
            j = j + 1;
            assert(mv.take(j as int).map_values(|r: RuleV| (*meta, r)) =~= mv.take(j - 1).map_values(
                |r: RuleV| (*meta, r),
            ).push((*meta, mv[j - 1])));
        }
        assert(mv.take(j as int) =~= mv);
        i = i + 1;
    }
    assert(packets@.take(i as int) =~= packets@);
    hits
}

/// Replays packets against the engine from fresh rate counters: the match
/// record of each rule the packets matched, and the simulated log entry of
/// each response the matches call for.
pub fn inject_packets_to_engine(
    packets: Vec<PacketMetadata>,
    raw_data: Vec<Vec<u8>>,
    rule_engine: &mut RuleEngine,
) -> (r: (Vec<RuleMatchRecord>, Vec<ResponseLogEntry>))
    requires
        old(rule_engine).wf(),
        2 * enabled_rate_limits(old(rule_engine).rules_v()) * packets@.len() <= u32::MAX,
    ensures
        final(rule_engine).wf(),
        final(rule_engine).rules_v() == old(rule_engine).rules_v(),
        ({
            let h = hits_of(old(rule_engine).rules_v(), packets@, raw_data@, Seq::<((u32, bool), crate::rule::rate_counter::CounterView)>::empty()).0;
            &&& recs_view(r.0@) == records_of(h)
            &&& r.1@.len() == log_sources(h).len()
            &&& forall|j: int| 0 <= j < r.1@.len() ==> {
                let src = #[trigger] log_sources(h)[j];
                is_simulated_log(r.1@[j], src.1, src.2, src.0)
            }
        }),
{
    rule_engine.clear_rate_counters();
    let ghost fresh: RateV = Seq::empty();
    assert(rule_engine.counters_v() =~= fresh);
    let hits = collect_hits(&packets, &raw_data, rule_engine);
    let records = match_records(&hits);
    let logs = simulated_logs(&hits);
    (records, logs)
}

/// The results of a session replay, from the replayed packets' matches.
pub open spec fn replay_result_ok(
    r: ReplaySessionResult,
    session_id: Seq<char>,
    session_label: Seq<char>,
    rs: Seq<RuleV>,
    packets: Seq<PacketMetadata>,
    raws: Seq<Vec<u8>>,
) -> bool {
    let h = hits_of(rs, packets, raws, Seq::<((u32, bool), crate::rule::rate_counter::CounterView)>::empty()).0;
    &&& r.session_id@ == session_id
    &&& r.session_label@ == session_label
    &&& r.total_packets == packets.len()
    &&& r.processed_packets == packets.len()
    &&& recs_view(r.matched_rules@) == records_of(h)
    &&& r.response_logs@.len() == log_sources(h).len()
    &&& forall|j: int| 0 <= j < r.response_logs@.len() ==> {
        let src = #[trigger] log_sources(h)[j];
        is_simulated_log(r.response_logs@[j], src.1, src.2, src.0)
    }
}

/// Replays the packets of a session against the engine (see
/// `inject_packets_to_engine`), with the times it started and finished.
pub fn replay_session_packets(
    session_id: &str,
    session_label: &str,
    packets: Vec<PacketMetadata>,
    raw_data: Vec<Vec<u8>>,
    rule_engine: &mut RuleEngine,
) -> (r: ReplaySessionResult)
    requires
        old(rule_engine).wf(),
        2 * enabled_rate_limits(old(rule_engine).rules_v()) * packets@.len() <= u32::MAX,
    ensures
        final(rule_engine).wf(),
        final(rule_engine).rules_v() == old(rule_engine).rules_v(),
        replay_result_ok(r, session_id@, session_label@, old(rule_engine).rules_v(), packets@, raw_data@),
{
    let started_at = crate::rule::rate_counter::SlidingWindowCounter::current_timestamp_secs();
    let total = packets.len() as u64;
    let ghost ps = packets@;
    let ghost raws = raw_data@;
    let (matched_rules, response_logs) = inject_packets_to_engine(packets, raw_data, rule_engine);
    let finished_at = crate::rule::rate_counter::SlidingWindowCounter::current_timestamp_secs();
    ReplaySessionResult {
        session_id: String::from_str(session_id),
        session_label: String::from_str(session_label),
        total_packets: total,
        processed_packets: total,
        matched_rules,
        response_logs,
        started_at,
        finished_at,
    }
}

/// A replay paced by the caller: the packets are fed one at a time, and
/// the matches gathered.
pub struct ReplayRun {
    pub hits: Vec<(PacketMetadata, DetectionRule)>,
    pub fed: Vec<PacketMetadata>,
    pub raws: Vec<Vec<u8>>,
}

impl ReplayRun {
    /// Starts a replay from fresh rate counters.
    pub fn start(rule_engine: &mut RuleEngine) -> (r: ReplayRun)
        requires
            old(rule_engine).wf(),
        ensures
            final(rule_engine).wf(),
            final(rule_engine).rules_v() == old(rule_engine).rules_v(),
            final(rule_engine).counters_v().len() == 0,
            forall|n: int| #[trigger] final(rule_engine).has_room(n),
            r.hits@.len() == 0,
            r.fed@.len() == 0,
            r.raws@.len() == 0,
    {
        rule_engine.clear_rate_counters();
        ReplayRun { hits: Vec::new(), fed: Vec::new(), raws: Vec::new() }
    }

    /// Evaluates the next packet and gathers the rules it matched.
    pub fn feed(&mut self, rule_engine: &mut RuleEngine, meta: &PacketMetadata, raw: &Vec<u8>)
        requires
            old(rule_engine).wf(),
            2 * enabled_rate_limits(old(rule_engine).rules_v()) <= u32::MAX,
            old(rule_engine).has_room(2 * enabled_rate_limits(old(rule_engine).rules_v()) as int),
        ensures
            final(rule_engine).wf(),
            final(rule_engine).rules_v() == old(rule_engine).rules_v(),
            final(self).fed@ == old(self).fed@.push(*meta),
            final(self).raws@.len() == old(self).raws@.len() + 1,
            final(self).raws@.last()@ == raw@,
            final(self).raws@.drop_last() == old(self).raws@,
            ({
                let e = matched_rules(
                    old(rule_engine).rules_v(),
                    *meta,
                    raw@,
                    None,
                    old(rule_engine).counters_v(),
                );
                &&& hits_view(final(self).hits@) == hits_view(old(self).hits@) + e.0.map_values(|r: RuleV| (*meta, r))
                &&& final(rule_engine).counters_v() == e.1
            }),
            forall|n: int|
                2 * enabled_rate_limits(old(rule_engine).rules_v()) <= n <= u32::MAX && #[trigger] old(rule_engine).has_room(n)
                    ==> final(rule_engine).has_room(n - 2 * enabled_rate_limits(old(rule_engine).rules_v())),
    {
        let matched = rule_engine.evaluate_packet(meta, raw.as_slice(), None);
        let ghost mv = rules_view(matched@);
        let ghost before = hits_view(self.hits@);
        let mut j: usize = 0;
        while j < matched.len()
            invariant
                j <= matched@.len(),
                mv == rules_view(matched@),
                hits_view(self.hits@) == before + mv.take(j as int).map_values(|r: RuleV| (*meta, r)),
                self.fed == old(self).fed,
                self.raws == old(self).raws,
            decreases matched.len() - j,
        {
            let ghost hb = hits_view(self.hits@);
            self.hits.push((meta.clone(), matched[j].duplicate()));
            assert(hits_view(self.hits@) =~= hb.push((*meta, mv[j as int])));
            j = j + 1;
            assert(mv.take(j as int).map_values(|r: RuleV| (*meta, r)) =~= mv.take(j - 1).map_values(
                |r: RuleV| (*meta, r),
            ).push((*meta, mv[j - 1])));
        }
        assert(mv.take(j as int) =~= mv);
        self.fed.push(meta.clone());
        let mut copy: Vec<u8> = Vec::new();
        let mut k: usize = 0;
        while k < raw.len()
            invariant
                k <= raw@.len(),
                copy@ == raw@.take(k as int),
            decreases raw.len() - k,
        {
            copy.push(raw[k]);
            k = k + 1;
            assert(copy@ =~= raw@.take(k as int));
        }
        assert(raw@.take(k as int) =~= raw@);
        let ghost rb = self.raws@;
        self.raws.push(copy);
        assert(self.raws@.drop_last() =~= rb);
    }

    /// The match records and simulated response log of the replay so far.
    pub fn finish(&self) -> (r: (Vec<RuleMatchRecord>, Vec<ResponseLogEntry>))
        ensures
            recs_view(r.0@) == records_of(hits_view(self.hits@)),
            r.1@.len() == log_sources(hits_view(self.hits@)).len(),
            forall|j: int| 0 <= j < r.1@.len() ==> {
                let src = #[trigger] log_sources(hits_view(self.hits@))[j];
                is_simulated_log(r.1@[j], src.1, src.2, src.0)
            },
    {
        (match_records(&self.hits), simulated_logs(&self.hits))
    }
}

/// A replay fed packet by packet gathers what injecting them all at once
/// gathers.
pub proof fn lemma_replay_run_matches_inject(
    rs: Seq<RuleV>,
    ms: Seq<PacketMetadata>,
    raws: Seq<Vec<u8>>,
    v: RateV,
    i: int,
)
    requires
        0 <= i < ms.len(),
    ensures
        hits_of(rs, ms.take(i + 1), raws, v) == ({
            let before = hits_of(rs, ms.take(i), raws, v);
            let e = matched_rules(rs, ms[i], raw_at(raws, i), None, before.1);
            (before.0 + e.0.map_values(|r: RuleV| (ms[i], r)), e.1)
        }),
{
    assert(ms.take(i + 1).drop_last() =~= ms.take(i));
    assert(ms.take(i + 1).last() == ms[i]);
}

/// Every replayed session is either one with hits or one without.
pub proof fn lemma_sessions_partition(rs: Seq<ReplaySessionResult>)
    ensures
        session_ids(rs, true).len() + session_ids(rs, false).len() == rs.len(),
    decreases rs.len(),
{
    if rs.len() > 0 {
        lemma_sessions_partition(rs.drop_last());
    }
}

/// The sum of the trigger counts of match records.
pub open spec fn total_count(v: Seq<RecV>) -> int
    decreases v.len(),
{
    if v.len() == 0 {
        0
    } else {
        total_count(v.drop_last()) + v.last().trigger_count
    }
}

proof fn lemma_total_update(v: Seq<RecV>, i: int, x: RecV)
    requires
        0 <= i < v.len(),
    ensures
        total_count(v.update(i, x)) == total_count(v) - v[i].trigger_count + x.trigger_count,
    decreases v.len(),
{
    let w = v.update(i, x);
    if i < v.len() - 1 {
        assert(w.drop_last() =~= v.drop_last().update(i, x));
        lemma_total_update(v.drop_last(), i, x);
    } else {
        assert(w.drop_last() =~= v.drop_last());
    }
}

/// The match records count every hit once: their trigger counts add up to
/// the number of hits.
pub proof fn lemma_records_total(h: Seq<(PacketMetadata, RuleV)>)
    ensures
        total_count(records_of(h)) == h.len(),
    decreases h.len(),
{
    if h.len() > 0 {
        lemma_records_total(h.drop_last());
        let v = records_of(h.drop_last());
        let r = h.last().1;
        lemma_first_rec(v, r.id@);
        let i = first_rec(v, r.id@);
        if i >= 0 {
            lemma_total_update(v, i, RecV { trigger_count: v[i].trigger_count + 1, ..v[i] });
        } else {
            let n = RecV {
                rule_id: r.id@,
                rule_name: r.name@,
                trigger_count: 1,
                first_packet_no: h.last().0.no,
                first_timestamp_secs: h.last().0.timestamp_secs,
                first_timestamp_micros: h.last().0.timestamp_micros,
            };
            assert(v.push(n).drop_last() =~= v);
        }
    }
}

/// The time of a packet in microseconds.
pub open spec fn packet_micros(m: PacketMetadata) -> int {
    m.timestamp_secs * 1_000_000 + m.timestamp_micros
}

/// The pause owed before a replayed packet, in microseconds of capture time
/// (before the replay speed divides it): the time since the previous packet,
/// or 0 for the first packet or one stamped no later; with the packet's own
/// time, which the next packet is measured from.
pub fn replay_gap(prev: Option<u64>, meta: &PacketMetadata) -> (r: (u64, u64))
    requires
        packet_micros(*meta) <= u64::MAX,
    ensures
        r.1 == packet_micros(*meta),
        r.0 == match prev {
            Some(p) => if r.1 > p {
                r.1 - p
            } else {
                0
            },
            None => 0,
        },
{
    let curr = meta.timestamp_secs * 1_000_000 + meta.timestamp_micros as u64;
    let gap = match prev {
        Some(p) => if curr > p {
            curr - p
        } else {
            0
        },
        None => 0,
    };
    (gap, curr)
}

} // verus!
