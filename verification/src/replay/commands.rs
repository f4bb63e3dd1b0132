//! Progress events of replays and reports, as sent to the interface.
use vstd::prelude::*;
use crate::capture::engine::{CaptureEngine, first_meta};
use crate::models::{PacketMetadata, SessionInfo};
use crate::replay::models::{AttackCategory, AttackPattern, RuleEffectivenessItem, RuleMatchRecord};
use crate::rule::manager::dec;
use crate::rule::models::{ResponseLogEntry, RuleV, texts};
use crate::rule::rate_counter::CounterView;
use crate::session::tracker::{SessionTracker, has_key, key_index};
use crate::replay::engine::{hits_of, inject_packets_to_engine, is_simulated_log, log_sources, records_of, recs_view};
use crate::replay::generator::{GeneratedTraffic, generate_traffic, traffic_ok, target_spec};
use crate::replay::patterns::{AttackPatternManager, first_with_id};
use crate::rule::engine::{RuleEngine, enabled_rate_limits};
use crate::text::{lowercase, push_decimal, same_text, to_lowercase};

verus! {

/// Progress of a session replay.
#[derive(Debug)]
pub struct ReplayProgressEvent {
    pub session_index: u32,
    pub total_sessions: u32,
    pub current_packet: u32,
    pub total_packets: u32,
    pub session_id: String,
    pub session_label: String,
}

/// Progress of an effectiveness report.
#[derive(Debug)]
pub struct EffectivenessReportProgressEvent {
    pub current_pattern: u32,
    pub total_patterns: u32,
    pub pattern_id: String,
    pub pattern_name: String,
}

/// The category a lower-case filter name stands for; unknown names stand
/// for the custom category.
pub open spec fn category_named(l: Seq<char>) -> AttackCategory {
    if l == "port_scan"@ || l == "portscan"@ {
        AttackCategory::PortScan
    } else if l == "syn_flood"@ || l == "synflood"@ {
        AttackCategory::SynFlood
    } else if l == "dns_amplification"@ || l == "dnsamp"@ {
        AttackCategory::DnsAmplification
    } else if l == "brute_force"@ || l == "bruteforce"@ {
        AttackCategory::BruteForce
    } else if l == "arp_spoof"@ || l == "arpspoof"@ {
        AttackCategory::ArpSpoof
    } else if l == "http_flood"@ || l == "httpflood"@ {
        AttackCategory::HttpFlood
    } else if l == "udp_flood"@ || l == "udpflood"@ {
        AttackCategory::UdpFlood
    } else if l == "icmp_flood"@ || l == "icmpflood"@ {
        AttackCategory::IcmpFlood
    } else if l == "slow_loris"@ || l == "slowloris"@ {
        AttackCategory::SlowLoris
    } else {
        AttackCategory::Custom
    }
}

/// The category of a filter name already in lower case.
pub fn category_from_lowercase(l: &str) -> (c: AttackCategory)
    ensures
        c == category_named(l@),
{
    proof {
        reveal_strlit("port_scan");
        reveal_strlit("portscan");
        reveal_strlit("syn_flood");
        reveal_strlit("synflood");
        reveal_strlit("dns_amplification");
        reveal_strlit("dnsamp");
        reveal_strlit("brute_force");
        reveal_strlit("bruteforce");
        reveal_strlit("arp_spoof");
        reveal_strlit("arpspoof");
        reveal_strlit("http_flood");
        reveal_strlit("httpflood");
        reveal_strlit("udp_flood");
        reveal_strlit("udpflood");
        reveal_strlit("icmp_flood");
        reveal_strlit("icmpflood");
        reveal_strlit("slow_loris");
        reveal_strlit("slowloris");
    }
    if same_text(l, "port_scan") || same_text(l, "portscan") {
        AttackCategory::PortScan
    } else if same_text(l, "syn_flood") || same_text(l, "synflood") {
        AttackCategory::SynFlood
    } else if same_text(l, "dns_amplification") || same_text(l, "dnsamp") {
        AttackCategory::DnsAmplification
    } else if same_text(l, "brute_force") || same_text(l, "bruteforce") {
        AttackCategory::BruteForce
    } else if same_text(l, "arp_spoof") || same_text(l, "arpspoof") {
        AttackCategory::ArpSpoof
    } else if same_text(l, "http_flood") || same_text(l, "httpflood") {
        AttackCategory::HttpFlood
    } else if same_text(l, "udp_flood") || same_text(l, "udpflood") {
        AttackCategory::UdpFlood
    } else if same_text(l, "icmp_flood") || same_text(l, "icmpflood") {
        AttackCategory::IcmpFlood
    } else if same_text(l, "slow_loris") || same_text(l, "slowloris") {
        AttackCategory::SlowLoris
    } else {
        AttackCategory::Custom
    }
}

/// The category of a filter name, case aside.
pub fn category_filter(name: &str) -> (c: AttackCategory)
    ensures
        c == category_named(lowercase(name@)),
{
    let l = to_lowercase(name);
    category_from_lowercase(l.as_str())
}

/// The label of a simulated attack: the pattern's name and its category.
pub open spec fn pattern_label_text(p: AttackPattern) -> Seq<char> {
    p.name@ + " ("@ + p.category.label() + ")"@
}

pub fn pattern_label(pattern: &AttackPattern) -> (s: String)
    ensures
        s@ == pattern_label_text(*pattern),
{
    let mut s = pattern.name.clone();
    s.append(" (");
    s.append(pattern.category.as_str());
    s.append(")");
    proof {
        reveal_strlit(" (");
        reveal_strlit(")");
    }
    s
}

/// The label of a replayed session: its endpoints, or its id when the
/// session is not known.
pub open spec fn session_label_text(info: Option<SessionInfo>, sid: Seq<char>) -> Seq<char> {
    match info {
        Some(s) => s.src_addr@ + ":"@ + dec(s.src_port as int) + " -> "@ + s.dst_addr@ + ":"@ + dec(
            s.dst_port as int,
        ),
        None => sid,
    }
}

pub fn session_label(info: Option<&SessionInfo>, sid: &str) -> (s: String)
    ensures
        s@ == session_label_text(match info { Some(i) => Some(*i), None => None }, sid@),
{
    proof {
        reveal_strlit(":");
        reveal_strlit(" -> ");
    }
    match info {
        Some(i) => {
            let mut s = i.src_addr.clone();
            s.append(":");
            push_decimal(&mut s, i.src_port as u64);
            s.append(" -> ");
            s.append(i.dst_addr.as_str());
            s.append(":");
            push_decimal(&mut s, i.dst_port as u64);
            s
        },
        None => String::from_str(sid),
    }
}

/// The packets of a session that are still kept, with their bytes, in
/// the session's order.
pub open spec fn kept_packets(
    nos: Seq<u64>,
    buf: Seq<PacketMetadata>,
    raw: Map<u64, Vec<u8>>,
) -> (Seq<PacketMetadata>, Seq<Seq<u8>>)
    decreases nos.len(),
{
    if nos.len() == 0 {
        (Seq::empty(), Seq::empty())
    } else {
        let before = kept_packets(nos.drop_last(), buf, raw);
        let no = nos.last();
        match first_meta(buf, no) {
            Some(m) => if raw.contains_key(no) {
                (before.0.push(m), before.1.push(raw[no]@))
            } else {
                before
            },
            None => before,
        }
    }
}

/// The kept packets of a session and their bytes; refused for an unknown
/// session.
pub fn get_session_packets_for_replay(
    tracker: &SessionTracker,
    engine: &CaptureEngine,
    session_id: &str,
) -> (r: Result<(Vec<PacketMetadata>, Vec<Vec<u8>>), String>)
    requires
        tracker.wf(),
    ensures
        r is Err <==> !has_key(tracker.sessions@, session_id@),
        r matches Err(m) ==> m@ == "Session '"@ + session_id@ + "' not found"@,
        r matches Ok((ps, raws)) ==> {
            let k = kept_packets(
                tracker.sessions@[key_index(tracker.sessions@, session_id@)].packet_nos@,
                engine.metadata_buffer@,
                engine.raw_data_store@,
            );
            ps@ == k.0 && raws@.map_values(|v: Vec<u8>| v@) == k.1
        },
{
    let nos = match tracker.get_session_packet_nos(session_id) {
        Some(v) => v,
        None => {
            let mut m = String::from_str("Session '");
            m.append(session_id);
            m.append("' not found");
            proof {
                reveal_strlit("Session '");
                reveal_strlit("' not found");
            }
            return Err(m);
        },
    };
    let mut packets: Vec<PacketMetadata> = Vec::new();
    let mut raw_data: Vec<Vec<u8>> = Vec::new();
    let mut i: usize = 0;
    assert(nos@.take(0) =~= Seq::<u64>::empty());
    while i < nos.len()
        invariant
            i <= nos@.len(),
            ({
                let k = kept_packets(nos@.take(i as int), engine.metadata_buffer@, engine.raw_data_store@);
                packets@ == k.0 && raw_data@.map_values(|v: Vec<u8>| v@) == k.1
            }),
        decreases nos.len() - i,
    {
        let no = nos[i];
        assert(nos@.take(i + 1).drop_last() =~= nos@.take(i as int));
        assert(nos@.take(i + 1).last() == no);
        match engine.get_metadata(no) {
            Some(meta) => {
                match engine.get_raw_data(no) {
                    Some(raw) => {
                        let ghost rb = raw_data@;
                        packets.push(meta);
                        raw_data.push(raw);
                        assert(raw_data@.map_values(|v: Vec<u8>| v@) =~= rb.map_values(|v: Vec<u8>| v@).push(raw@));
                    },
                    None => {},
                }
            },
            None => {},
        }
        i = i + 1;
    }
    assert(nos@.take(i as int) =~= nos@);
    Ok((packets, raw_data))
}

/// How a pattern fared: detected when a rule matched; the names of the
/// rules that matched and the kinds of the responses called for.
pub open spec fn effectiveness_ok(
    it: RuleEffectivenessItem,
    p: AttackPattern,
    total_packets: u64,
    recs: Seq<RuleMatchRecord>,
    logs: Seq<ResponseLogEntry>,
) -> bool {
    &&& it.pattern_id@ == p.id@
    &&& it.pattern_name@ == p.name@
    &&& it.pattern_category@ == p.category.label()
    &&& it.is_detected == (recs.len() > 0)
    &&& texts(it.matched_rule_names@) == recs.map_values(|r: RuleMatchRecord| r.rule_name@)
    &&& it.response_triggered == (logs.len() > 0)
    &&& texts(it.response_actions@) == logs.map_values(|l: ResponseLogEntry| l.action_type@)
    &&& it.total_packets == total_packets
}

/// The report line of a pattern from the matches of its traffic.
pub fn effectiveness_item(
    pattern: &AttackPattern,
    total_packets: u64,
    records: &Vec<RuleMatchRecord>,
    logs: &Vec<ResponseLogEntry>,
) -> (it: RuleEffectivenessItem)
    ensures
        effectiveness_ok(it, *pattern, total_packets, records@, logs@),
{
    let mut names: Vec<String> = Vec::new();
    let mut i: usize = 0;
    while i < records.len()
        invariant
            i <= records@.len(),
            texts(names@) == records@.map_values(|r: RuleMatchRecord| r.rule_name@).take(i as int),
        decreases records.len() - i,
    {
        let ghost nb = names@;
        let c = records[i].rule_name.clone();
        names.push(c);
        assert(texts(names@) =~= texts(nb).push(c@));
        i = i + 1;
        assert(texts(names@) =~= records@.map_values(|r: RuleMatchRecord| r.rule_name@).take(i as int));
    }
    assert(records@.map_values(|r: RuleMatchRecord| r.rule_name@).take(i as int) =~= records@.map_values(
        |r: RuleMatchRecord| r.rule_name@,
    ));
    let mut kinds: Vec<String> = Vec::new();
    let mut j: usize = 0;
    while j < logs.len()
        invariant
            j <= logs@.len(),
            texts(kinds@) == logs@.map_values(|l: ResponseLogEntry| l.action_type@).take(j as int),
        decreases logs.len() - j,
    {
        let ghost kb = kinds@;
        let c = logs[j].action_type.clone();
        kinds.push(c);
        assert(texts(kinds@) =~= texts(kb).push(c@));
        j = j + 1;
        assert(texts(kinds@) =~= logs@.map_values(|l: ResponseLogEntry| l.action_type@).take(j as int));
    }
    assert(logs@.map_values(|l: ResponseLogEntry| l.action_type@).take(j as int) =~= logs@.map_values(
        |l: ResponseLogEntry| l.action_type@,
    ));
    RuleEffectivenessItem {
        pattern_id: pattern.id.clone(),
        pattern_name: pattern.name.clone(),
        pattern_category: String::from_str(pattern.category.as_str()),
        is_detected: records.len() > 0,
        matched_rule_names: names,
        response_triggered: logs.len() > 0,
        response_actions: kinds,
        total_packets,
    }
}

/// The number of detected items and of undetected ones.
pub open spec fn detected_count(items: Seq<RuleEffectivenessItem>) -> nat
    decreases items.len(),
{
    if items.len() == 0 {
        0
    } else {
        detected_count(items.drop_last()) + if items.last().is_detected {
            1nat
        } else {
            0nat
        }
    }
}

proof fn lemma_detected_le(items: Seq<RuleEffectivenessItem>)
    ensures
        detected_count(items) <= items.len(),
    decreases items.len(),
{
    if items.len() > 0 {
        lemma_detected_le(items.drop_last());
    }
}

/// The detected and undetected counts of a report.
pub fn tally_detection(items: &Vec<RuleEffectivenessItem>) -> (r: (u64, u64))
    ensures
        r.0 == detected_count(items@),
        r.0 + r.1 == items@.len(),
{
    let mut detected: u64 = 0;
    let mut undetected: u64 = 0;
    let mut i: usize = 0;
    assert(items@.take(0) =~= Seq::<RuleEffectivenessItem>::empty());
    while i < items.len()
        invariant
            i <= items@.len(),
            detected == detected_count(items@.take(i as int)),
            detected + undetected == i,
        decreases items.len() - i,
    {
        assert(items@.take(i + 1).drop_last() =~= items@.take(i as int));
        proof {
            lemma_detected_le(items@.take(i as int));
        }
        if items[i].is_detected {
            detected = detected + 1;
        } else {
            undetected = undetected + 1;
        }
        i = i + 1;
    }
    assert(items@.take(i as int) =~= items@);
    (detected, undetected)
}

/// The ids of the list that name a pattern, in order.
pub open spec fn known_ids(all: Seq<AttackPattern>, ids: Seq<Seq<char>>) -> Seq<Seq<char>>
    decreases ids.len(),
{
    if ids.len() == 0 {
        Seq::empty()
    } else {
        let r = known_ids(all, ids.drop_last());
        if first_with_id(all, ids.last()) is Some {
            r.push(ids.last())
        } else {
            r
        }
    }
}

/// The pattern ids of the report lines.
pub open spec fn item_ids(items: Seq<RuleEffectivenessItem>) -> Seq<Seq<char>> {
    items.map_values(|it: RuleEffectivenessItem| it.pattern_id@)
}

/// The matches and simulated responses that running the traffic through
/// the rules with fresh rate counters gives.
pub open spec fn drawn(
    rules: Seq<RuleV>,
    t: GeneratedTraffic,
    recs: Seq<RuleMatchRecord>,
    logs: Seq<ResponseLogEntry>,
) -> bool {
    let h = hits_of(rules, t.packets@, t.raw_data@, Seq::<((u32, bool), CounterView)>::empty()).0;
    &&& recs_view(recs) == records_of(h)
    &&& logs.len() == log_sources(h).len()
    &&& forall|j: int|
        0 <= j < logs.len() ==> {
            let src = #[trigger] log_sources(h)[j];
            is_simulated_log(logs[j], src.1, src.2, src.0)
        }
}

/// The line is the report of the pattern with its id on some traffic that
/// the pattern generates toward `target`: its matches and responses are
/// those the rules draw from that traffic with fresh rate counters.
pub open spec fn reported(
    it: RuleEffectivenessItem,
    all: Seq<AttackPattern>,
    rules: Seq<RuleV>,
    target: Option<String>,
) -> bool {
    first_with_id(all, it.pattern_id@) matches Some(q) && exists|
        p: AttackPattern,
        t: GeneratedTraffic,
        now_secs: u64,
        now_micros: u32,
        base_src: Seq<char>,
        recs: Seq<RuleMatchRecord>,
        logs: Seq<ResponseLogEntry>,
    |
        #![trigger traffic_ok(p, target_spec(target, p.params), t, now_secs, now_micros, base_src), effectiveness_ok(it, p, q.params.packet_count as u64, recs, logs)]
        p.same(q) && traffic_ok(p, target_spec(target, p.params), t, now_secs, now_micros, base_src)
            && drawn(rules, t, recs, logs) && effectiveness_ok(
            it,
            p,
            q.params.packet_count as u64,
            recs,
            logs,
        )
}

proof fn lemma_first_with_id(s: Seq<AttackPattern>, id: Seq<char>)
    ensures
        first_with_id(s, id) matches Some(q) ==> q.id@ == id,
    decreases s.len(),
{
    if s.len() > 0 && s[0].id@ != id {
        lemma_first_with_id(s.drop_first(), id);
    }
}

/// The report lines of the patterns named in the list, in order, skipping
/// ids of no pattern: each pattern's traffic is generated and run through
/// the rules with fresh rate counters.
pub fn effectiveness_items(
    patterns: &AttackPatternManager,
    pattern_ids: &Vec<String>,
    target_ip: &Option<String>,
    engine: &mut RuleEngine,
) -> (items: Vec<RuleEffectivenessItem>)
    requires
        old(engine).wf(),
        forall|j: int|
            0 <= j < pattern_ids@.len() ==> (first_with_id(patterns.all(), #[trigger] pattern_ids@[j]@) matches Some(q)
                ==> 2 * enabled_rate_limits(old(engine).rules_v()) * q.params.packet_count <= u32::MAX),
    ensures
        final(engine).wf(),
        final(engine).rules_v() == old(engine).rules_v(),
        item_ids(items@) == known_ids(patterns.all(), texts(pattern_ids@)),
        forall|i: int|
            0 <= i < items@.len() ==> reported(
                #[trigger] items@[i],
                patterns.all(),
                old(engine).rules_v(),
                *target_ip,
            ),
{
    let ghost all = patterns.all();
    let ghost ids = texts(pattern_ids@);
    let mut items: Vec<RuleEffectivenessItem> = Vec::new();
    let mut i: usize = 0;
    assert(ids.take(0) =~= Seq::<Seq<char>>::empty());
    assert(item_ids(items@) =~= Seq::<Seq<char>>::empty());
    while i < pattern_ids.len()
        invariant
            i <= pattern_ids@.len(),
            all == patterns.all(),
            ids == texts(pattern_ids@),
            ids.len() == pattern_ids@.len(),
            engine.wf(),
            engine.rules_v() == old(engine).rules_v(),
            item_ids(items@) == known_ids(all, ids.take(i as int)),
            forall|k: int|
                0 <= k < items@.len() ==> reported(#[trigger] items@[k], all, old(engine).rules_v(), *target_ip),
            forall|j: int|
                0 <= j < pattern_ids@.len() ==> (first_with_id(all, #[trigger] pattern_ids@[j]@) matches Some(q)
                    ==> 2 * enabled_rate_limits(old(engine).rules_v()) * q.params.packet_count <= u32::MAX),
        decreases pattern_ids.len() - i,
    {
        let ghost id = pattern_ids@[i as int]@;
        assert(ids.take(i + 1).drop_last() =~= ids.take(i as int));
        assert(ids.take(i + 1).last() == id);
        match patterns.get_pattern(pattern_ids[i].as_str()) {
            None => {},
            Some(p) => {
                let ghost q = first_with_id(all, id)->0;
                proof {
                    lemma_first_with_id(all, id);
                }
                let over: Option<String> = match target_ip {
                    Some(s) => Some(s.clone()),
                    None => None,
                };
                let ghost over_g = over;
                assert(over_g == *target_ip);
                let traffic = generate_traffic(&p, over);
                let ghost tg = traffic;
                let ghost (ns, nm, bs) = choose|now_secs: u64, now_micros: u32, base_src: Seq<char>|
                    #[trigger] traffic_ok(
                        p,
                        target_spec(over_g, p.params),
                        traffic,
                        now_secs,
                        now_micros,
                        base_src,
                    );
                let total = traffic.packets.len() as u64;
                let (records, logs) = inject_packets_to_engine(traffic.packets, traffic.raw_data, engine);
                let it = effectiveness_item(&p, total, &records, &logs);
                let ghost before = items@;
                items.push(it);
                proof {
                    assert(item_ids(items@) =~= item_ids(before).push(id));
                    assert(effectiveness_ok(it, p, q.params.packet_count as u64, records@, logs@));
                    assert(drawn(old(engine).rules_v(), tg, records@, logs@));
                    assert(traffic_ok(p, target_spec(*target_ip, p.params), tg, ns, nm, bs));
                    assert(reported(it, all, old(engine).rules_v(), *target_ip));
                    assert forall|k: int| 0 <= k < items@.len() implies reported(
                        #[trigger] items@[k],
                        all,
                        old(engine).rules_v(),
                        *target_ip,
                    ) by {
                        if k < before.len() {
                            assert(items@[k] == before[k]);
                        }
                    }
                }
            },
        }
        i = i + 1;
    }
    assert(ids.take(i as int) =~= ids);
    items
}

} // verus!
