use netscope::models::{PacketMetadata, ProtocolType, RawPacket};
use netscope::replay::commands::effectiveness_items;
use netscope::replay::engine::replay_gap;
use netscope::replay::models::{AttackCategory, AttackPattern, AttackPatternParams};
use netscope::replay::patterns::AttackPatternManager;
use netscope::rule::conflict::check_conflict;
use netscope::rule::engine::RuleEngine;
use netscope::rule::manager::RuleManager;
use netscope::rule::models::{AlertActions, ConditionNode, DetectionRule, IpField, Priority};
use netscope::rule::rate_counter::SlidingWindowCounter;
use netscope::rule::response::{path_under, script_allowed};
use netscope::session::tracker::SessionTracker;
use netscope::stats::collector::StatsCollector;

fn packet(no: u64, secs: u64, src: &str, sport: u16, dst: &str, dport: u16, protocol: ProtocolType, len: u32) -> PacketMetadata {
    PacketMetadata {
        no,
        timestamp_secs: secs,
        timestamp_micros: 0,
        src_addr: src.to_string(),
        src_port: Some(sport),
        dst_addr: dst.to_string(),
        dst_port: Some(dport),
        protocol,
        length: len,
        summary: String::new(),
        ttl: None,
        window_size: None,
        tcp_flags: None,
        ip_id: None,
        fragment_offset: None,
    }
}

fn raw(secs: u64) -> RawPacket {
    RawPacket { timestamp_secs: secs, timestamp_micros: 0, data: vec![] }
}

fn pattern(id: &str, name: &str, count: u32) -> AttackPattern {
    let mut params = AttackPatternParams::default();
    params.packet_count = count;
    AttackPattern {
        id: id.to_string(),
        name: name.to_string(),
        category: AttackCategory::Custom,
        description: String::new(),
        params,
        is_builtin: true,
        created_at: 1,
        updated_at: 2,
    }
}

fn marking_rule(id: &str, cidr: &str, mark: &str) -> DetectionRule {
    DetectionRule {
        id: id.to_string(),
        name: id.to_uppercase(),
        priority: Priority::Medium,
        enabled: true,
        condition: ConditionNode::IpMatch { field: IpField::Src, cidr: cidr.to_string() },
        expression: String::new(),
        actions: AlertActions {
            system_notification: false,
            sound: false,
            auto_mark: true,
            mark_level: Some(mark.to_string()),
            auto_export: false,
            export_path: None,
        },
        group: None,
        description: None,
        created_at: 0,
        updated_at: 0,
        response_actions: vec![],
        cooldown_secs: 0,
        current_version: 0,
        versions: vec![],
    }
}

#[test]
fn added_patterns_are_stamped_and_duplicates_refused() {
    let mut m = AttackPatternManager::new();
    let before = m.get_all_patterns().len();
    assert!(m.add_custom_pattern(pattern("mine", "Mine", 5)).is_ok());
    let all = m.get_all_patterns();
    assert_eq!(all.len(), before + 1);
    let added = all.last().unwrap();
    assert_eq!(added.id, "mine");
    assert_eq!(added.name, "Mine");
    assert!(!added.is_builtin);
    assert_eq!(added.created_at, added.updated_at);
    assert!(added.created_at > 2);
    assert_eq!(m.add_custom_pattern(pattern("mine", "Other", 5)), Err("特征ID已存在".to_string()));
    assert_eq!(m.add_custom_pattern(pattern("builtin_port_scan", "Other", 5)), Err("特征ID已存在".to_string()));
    assert_eq!(m.get_all_patterns().len(), before + 1);
    assert_eq!(m.get_all_patterns().last().unwrap().name, "Mine");
}

#[test]
fn updated_patterns_keep_their_creation_time() {
    let mut m = AttackPatternManager::new();
    m.add_custom_pattern_at(pattern("mine", "Mine", 5), 100).unwrap();
    m.update_custom_pattern_at(pattern("mine", "Renamed", 7), 200).unwrap();
    let p = m.get_pattern("mine").unwrap();
    assert_eq!(p.name, "Renamed");
    assert_eq!(p.params.packet_count, 7);
    assert_eq!(p.created_at, 100);
    assert_eq!(p.updated_at, 200);
    assert!(!p.is_builtin);
    assert!(m.update_custom_pattern(pattern("mine", "Again", 7)).is_ok());
    assert_eq!(m.get_pattern("mine").unwrap().name, "Again");
    assert_eq!(m.get_pattern("mine").unwrap().created_at, 100);
    assert_eq!(m.update_custom_pattern(pattern("absent", "X", 1)), Err("自定义特征不存在".to_string()));
    assert_eq!(m.update_custom_pattern(pattern("builtin_port_scan", "X", 1)), Err("自定义特征不存在".to_string()));
}

#[test]
fn conflicts_do_not_depend_on_the_order_of_the_rules() {
    let a = marking_rule("a", "10.0.0.0/8", "warning");
    let b = marking_rule("b", "10.1.0.0/16", "starred");
    let c = marking_rule("c", "192.168.0.0/16", "starred");
    let ab = check_conflict(&a, &b).unwrap();
    let ba = check_conflict(&b, &a).unwrap();
    assert_eq!((ab.rule_a_id.as_str(), ab.rule_b_id.as_str()), ("a", "b"));
    assert_eq!((ba.rule_a_id.as_str(), ba.rule_b_id.as_str()), ("b", "a"));
    assert!(check_conflict(&a, &c).is_none());
    assert!(check_conflict(&c, &a).is_none());
}

#[test]
fn window_counts_what_was_recorded_inside_it() {
    let mut c = SlidingWindowCounter::new(10);
    c.record(Some("1.1.1.1"), 100);
    c.record(Some("2.2.2.2"), 103);
    c.record(None, 105);
    c.record(Some("1.1.1.1"), 105);
    c.record(Some("1.1.1.1"), 112);
    assert_eq!(c.count(None, 112), 4);
    assert_eq!(c.count(Some("1.1.1.1"), 112), 2);
    assert_eq!(c.count(Some("2.2.2.2"), 112), 1);
    assert_eq!(c.count(Some("2.2.2.2"), 113), 0);
    assert_eq!(c.count(Some("3.3.3.3"), 112), 0);
    assert!(c.has_room(1));
}

#[test]
fn a_packet_and_its_reply_make_one_session() {
    let mut t = SessionTracker::new();
    let p1 = packet(7, 10, "10.0.0.1", 40000, "10.0.0.2", 80, ProtocolType::TCP, 60);
    let p2 = packet(8, 11, "10.0.0.2", 80, "10.0.0.1", 40000, ProtocolType::TCP, 1500);
    assert!(t.can_record(&p1));
    t.process_packet(&p1, &raw(10));
    assert!(t.can_record(&p2));
    t.process_packet(&p2, &raw(11));
    let sessions = t.get_sessions();
    assert_eq!(sessions.len(), 1);
    let s = &sessions[0];
    assert_eq!(s.id, "10.0.0.1:40000->10.0.0.2:80:TCP");
    assert_eq!(s.packet_count, 2);
    assert_eq!(s.byte_count, 1560);
    assert_eq!(s.first_packet_no, 7);
    assert_eq!(s.last_packet_no, 8);
    assert_eq!(t.get_session_packet_nos(&s.id), Some(vec![7, 8]));
    assert_eq!(
        t.get_session_client_info(&s.id),
        Some(("10.0.0.1".to_string(), 40000, "10.0.0.2".to_string(), 80))
    );
}

#[test]
fn statistics_of_a_run_add_up() {
    let mut c = StatsCollector::new();
    let run = vec![
        packet(1, 5, "a", 1, "b", 2, ProtocolType::TCP, 100),
        packet(2, 5, "a", 1, "b", 2, ProtocolType::UDP, 40),
        packet(3, 6, "b", 2, "a", 1, ProtocolType::TCP, 60),
    ];
    for m in &run {
        c.record_packet(m);
    }
    assert_eq!(c.total_packets, 3);
    assert_eq!(c.total_bytes, 200);
    let s = c.get_snapshot();
    assert_eq!(s.protocol_counts.iter().map(|x| x.1).sum::<u64>(), 3);
    assert_eq!(s.protocol_bytes.iter().map(|x| x.1).sum::<u64>(), 200);
    assert_eq!(s.pps_timeline, vec![(5, 2), (6, 1)]);
    assert_eq!(s.bps_timeline, vec![(5, 140), (6, 60)]);
    assert_eq!(s.tcp_states.iter().map(|x| x.1).sum::<u64>(), 2);
}

#[test]
fn replay_gaps_measure_from_the_previous_packet() {
    let mut m = packet(1, 3, "a", 1, "b", 2, ProtocolType::UDP, 10);
    m.timestamp_micros = 250;
    assert_eq!(replay_gap(None, &m), (0, 3_000_250));
    assert_eq!(replay_gap(Some(3_000_000), &m), (250, 3_000_250));
    assert_eq!(replay_gap(Some(4_000_000), &m), (0, 3_000_250));
}

#[test]
fn effectiveness_lines_follow_the_known_ids_in_order() {
    let patterns = AttackPatternManager::new();
    let mut engine = RuleEngine::new();
    assert_eq!(engine.rate_limit_budget(), 0);
    assert!(engine.can_evaluate());
    let ids = vec![
        "builtin_syn_flood".to_string(),
        "unknown".to_string(),
        "builtin_port_scan".to_string(),
    ];
    let items = effectiveness_items(&patterns, &ids, &None, &mut engine);
    assert_eq!(items.len(), 2);
    assert_eq!(items[0].pattern_id, "builtin_syn_flood");
    assert_eq!(items[1].pattern_id, "builtin_port_scan");
    for it in &items {
        let p = patterns.get_pattern(&it.pattern_id).unwrap();
        assert_eq!(it.total_packets, p.params.packet_count as u64);
        assert!(!it.is_detected);
    }
}

#[test]
fn a_fresh_manager_can_process_packets() {
    let mut m = RuleManager::new();
    assert!(m.can_process());
    let p = packet(1, 10, "10.0.0.1", 1000, "10.0.0.2", 80, ProtocolType::TCP, 60);
    let verdict = m.process_packet(&p, &[]);
    assert!(verdict.matched.is_empty());
    assert!(m.can_process());
}

#[test]
fn session_times_past_the_signed_range_follow_the_latest_packet() {
    let mut t = SessionTracker::new();
    let base: u64 = 10_000_000_000_000_000;
    let p1 = packet(1, base, "10.0.0.1", 5000, "10.0.0.2", 53, ProtocolType::UDP, 80);
    let p2 = packet(2, base + 5, "10.0.0.2", 53, "10.0.0.1", 5000, ProtocolType::UDP, 90);
    let p3 = packet(3, base + 3, "10.0.0.1", 5000, "10.0.0.2", 53, ProtocolType::UDP, 70);
    for p in [&p1, &p2, &p3] {
        assert!(t.can_record(p));
        t.process_packet(p, &raw(p.timestamp_secs));
    }
    let s = &t.get_sessions()[0];
    assert_eq!(s.packet_count, 3);
    assert_eq!(s.duration_ms, (base + 3) * 1000);
    let late = packet(4, u64::MAX / 1000 + 1, "10.0.0.1", 5000, "10.0.0.2", 53, ProtocolType::UDP, 70);
    assert!(!t.can_record(&late));
}

fn parts(p: &str) -> Vec<Vec<u8>> {
    p.split('/').map(|c| c.as_bytes().to_vec()).collect()
}

#[test]
fn scripts_run_only_under_allowed_directories() {
    assert!(path_under(&parts("/opt/scripts/ban.sh"), &parts("/opt/scripts")));
    assert!(!path_under(&parts("/opt/scripts2/ban.sh"), &parts("/opt/scripts")));
    assert!(!path_under(&parts("/opt"), &parts("/opt/scripts")));
    let dirs = vec![None, Some(parts("/usr/local")), Some(parts("/opt/scripts"))];
    assert!(script_allowed(&parts("/opt/scripts/x/run.sh"), &dirs));
    assert!(!script_allowed(&parts("/tmp/run.sh"), &dirs));
    assert!(!script_allowed(&parts("/opt/scripts/run.sh"), &vec![None]));
}
