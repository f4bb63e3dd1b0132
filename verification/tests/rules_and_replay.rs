use netscope::capture::engine::CaptureEngine;
use netscope::models::{MarkLevel, PacketMetadata, ProtocolType, RawPacket, SessionInfo, SessionState};
use netscope::replay::commands::{category_filter, effectiveness_item, session_label, tally_detection};
use netscope::replay::engine::{generate_simulated_response_log, inject_packets_to_engine, ReplayRun};
use netscope::replay::models::{AttackCategory, RuleEffectivenessItem, RuleMatchRecord};
use netscope::rule::actions::{parse_mark_level, pcap_global_header, pcap_record, AlertActionExecutor};
use netscope::rule::engine::RuleEngine;
use netscope::rule::manager::RuleManager;
use netscope::rule::models::{
    AlertActions, BanTarget, ConditionNode, DetectionRule, LengthOperator, Priority, ResponseAction,
    ResponseLogEntry, ResponseResult, RuleGroup, RuleStats, RulesFile,
};
use netscope::rule::persistence;
use netscope::rule::stats::{merge_stats, record_trigger};
use netscope::templates::{delete_capture_template, import_templates, save_capture_template, MAX_TEMPLATES};
use netscope::models::CaptureTemplate;

fn meta(no: u64, secs: u64, len: u32) -> PacketMetadata {
    PacketMetadata {
        no,
        timestamp_secs: secs,
        timestamp_micros: 3,
        src_addr: "10.0.0.1".to_string(),
        src_port: Some(1234),
        dst_addr: "10.0.0.2".to_string(),
        dst_port: Some(80),
        protocol: ProtocolType::TCP,
        length: len,
        summary: String::new(),
        ttl: None,
        window_size: None,
        tcp_flags: None,
        ip_id: None,
        fragment_offset: None,
    }
}

fn no_actions() -> AlertActions {
    AlertActions {
        system_notification: false,
        sound: false,
        auto_mark: false,
        mark_level: None,
        auto_export: false,
        export_path: None,
    }
}

fn long_packet_rule(id: &str, min_len: u32) -> DetectionRule {
    DetectionRule {
        id: id.to_string(),
        name: format!("Rule {}", id),
        priority: Priority::High,
        enabled: true,
        condition: ConditionNode::PacketLength { operator: LengthOperator::GreaterThan, value: min_len },
        expression: String::new(),
        actions: no_actions(),
        group: None,
        description: None,
        created_at: 0,
        updated_at: 0,
        response_actions: vec![ResponseAction::Webhook { url: "http://hook".to_string(), headers: vec![], timeout_secs: 5 }],
        cooldown_secs: 0,
        current_version: 0,
        versions: vec![],
    }
}

#[test]
fn mark_levels_parse_case_aside() {
    assert_eq!(parse_mark_level("WARN"), Ok(MarkLevel::Warning));
    assert_eq!(parse_mark_level("Star"), Ok(MarkLevel::Starred));
    assert_eq!(parse_mark_level("critical"), Ok(MarkLevel::Important));
    assert_eq!(parse_mark_level("bogus"), Err("Invalid mark level: bogus".to_string()));
}

#[test]
fn mark_level_names_round_trip() {
    for l in [MarkLevel::Starred, MarkLevel::Warning, MarkLevel::Important] {
        assert_eq!(MarkLevel::from_str(l.as_str()), Some(l));
    }
    assert_eq!(MarkLevel::from_str("Starred"), None);
}

#[test]
fn export_header_puts_snapshot_length_before_link_type() {
    assert_eq!(
        pcap_global_header(),
        vec![0xd4, 0xc3, 0xb2, 0xa1, 2, 0, 4, 0, 0, 0, 0, 0, 0, 0, 0, 0, 0xff, 0xff, 0, 0, 1, 0, 0, 0]
    );
}

#[test]
fn export_record_holds_times_lengths_and_bytes() {
    let p = RawPacket { timestamp_secs: 0x1_0000_0001, timestamp_micros: 2, data: vec![9, 8] };
    assert_eq!(pcap_record(&p), vec![1, 0, 0, 0, 2, 0, 0, 0, 2, 0, 0, 0, 2, 0, 0, 0, 9, 8]);
}

#[test]
fn alert_actions_mark_and_export() {
    let mut rule = long_packet_rule("r1", 0);
    rule.actions = AlertActions {
        system_notification: true,
        sound: false,
        auto_mark: true,
        mark_level: Some("Star".to_string()),
        auto_export: true,
        export_path: Some("/tmp/out.pcap".to_string()),
    };
    let mut engine = CaptureEngine::new();
    let raw = RawPacket { timestamp_secs: 1, timestamp_micros: 0, data: vec![5] };
    let ex = AlertActionExecutor::new();
    let out = ex.execute_actions(&rule, 4, Some(&raw), Some(&mut engine));
    assert_eq!(out.executed, vec!["system_notification", "auto_mark", "auto_export"]);
    let (path, bytes) = out.export.unwrap();
    assert_eq!(path, "/tmp/out.pcap");
    assert_eq!(bytes, pcap_record(&raw));
    let m = engine.get_mark(4).unwrap();
    assert_eq!(m.level, MarkLevel::Starred);
    assert_eq!(m.comment, "规则触发: Rule r1");
    let none = ex.execute_actions(&rule, 4, None, None);
    assert_eq!(none.executed, vec!["system_notification"]);
    assert!(none.export.is_none());
}

#[test]
fn day_window_moves_with_packet_time() {
    let mut s = RuleStats::for_rule("r".to_string());
    record_trigger(&mut s, 100_000);
    assert_eq!(s.total_triggers, 1);
    assert_eq!(s.triggers_last_24h, 1);
    assert_eq!(s.last_24h_window_start, 13_600);
    assert_eq!(s.first_trigger_time, Some(100_000));
    record_trigger(&mut s, 100_100);
    assert_eq!(s.triggers_last_24h, 2);
    assert_eq!(s.last_24h_window_start, 13_700);
    assert_eq!(s.recent_triggers, vec![100_000, 100_100]);
    record_trigger(&mut s, 200_000);
    assert_eq!(s.total_triggers, 3);
    assert_eq!(s.triggers_last_24h, 1);
    assert_eq!(s.recent_triggers, vec![200_000]);
    assert_eq!(s.first_trigger_time, Some(100_000));
    assert_eq!(s.last_trigger_time, Some(200_000));
}

#[test]
fn recent_triggers_drop_the_oldest_thousand_past_ten_thousand() {
    let mut s = RuleStats::for_rule("r".to_string());
    for _ in 0..10_001 {
        record_trigger(&mut s, 5);
    }
    assert_eq!(s.recent_triggers.len(), 9_001);
    assert_eq!(s.total_triggers, 10_001);
}

#[test]
fn stats_merge_worker_counts_and_add_missing_rules() {
    let mut a = RuleStats::for_rule("A".to_string());
    a.total_triggers = 5;
    a.last_trigger_time = Some(10);
    let mut a2 = RuleStats::for_rule("A".to_string());
    a2.total_triggers = 7;
    a2.triggers_last_24h = 3;
    let mut b = RuleStats::for_rule("B".to_string());
    b.total_triggers = 1;
    b.triggers_last_24h = 1;
    let ids = vec!["A".to_string(), "B".to_string(), "C".to_string()];
    let all = merge_stats(&vec![a], &vec![a2, b], &ids);
    assert_eq!(all.len(), 3);
    assert_eq!(all[0].rule_id, "A");
    assert_eq!(all[0].total_triggers, 7);
    assert_eq!(all[0].triggers_last_24h, 3);
    assert_eq!(all[0].last_24h_triggers, 3);
    assert_eq!(all[0].last_trigger_time, Some(10));
    assert_eq!(all[1].rule_id, "B");
    assert_eq!(all[1].last_24h_triggers, 1);
    assert_eq!(all[2].rule_id, "C");
    assert_eq!(all[2].total_triggers, 0);
}

#[test]
fn rule_file_paths_join_the_file_name() {
    assert_eq!(persistence::get_rules_path("/data"), "/data/detection_rules.json");
    assert_eq!(persistence::get_rules_path("/data/"), "/data/detection_rules.json");
    assert_eq!(persistence::get_rules_path(""), "detection_rules.json");
    assert_eq!(persistence::max_rules(), 200);
    assert_eq!(persistence::max_alerts(), 50_000);
}

#[test]
fn rule_file_edits() {
    let mut f = RulesFile::default();
    assert!(persistence::add_rule(&mut f, long_packet_rule("a", 1)).is_ok());
    assert_eq!(persistence::add_rule(&mut f, long_packet_rule("a", 2)), Err("规则ID已存在".to_string()));
    assert!(persistence::update_rule(&mut f, long_packet_rule("a", 9)).is_ok());
    assert_eq!(persistence::update_rule(&mut f, long_packet_rule("zz", 9)), Err("规则不存在".to_string()));
    assert!(persistence::add_group(&mut f, RuleGroup { id: "g".to_string(), name: "G".to_string(), order: 0 }).is_ok());
    assert_eq!(
        persistence::add_group(&mut f, RuleGroup { id: "g".to_string(), name: "H".to_string(), order: 1 }),
        Err("分组ID已存在".to_string())
    );
    assert!(persistence::update_group(&mut f, RuleGroup { id: "g".to_string(), name: "H".to_string(), order: 1 }).is_ok());
    assert_eq!(f.groups[0].name, "H");
    assert_eq!(
        persistence::update_group(&mut f, RuleGroup { id: "x".to_string(), name: "H".to_string(), order: 1 }),
        Err("分组不存在".to_string())
    );
    f.rules[0].group = Some("g".to_string());
    persistence::delete_group(&mut f, "g");
    assert!(f.groups.is_empty());
    assert_eq!(f.rules[0].group, None);
    persistence::delete_rule(&mut f, "a");
    assert!(f.rules.is_empty());
}

#[test]
fn rule_file_refuses_the_two_hundred_and_first_rule() {
    let mut f = RulesFile::default();
    for i in 0..200 {
        persistence::add_rule(&mut f, long_packet_rule(&format!("r{}", i), 1)).unwrap();
    }
    assert_eq!(
        persistence::add_rule(&mut f, long_packet_rule("extra", 1)),
        Err("规则数量已达上限(200)，请删除旧规则".to_string())
    );
}

fn template(name: &str) -> CaptureTemplate {
    CaptureTemplate {
        name: name.to_string(),
        interface_name: "eth0".to_string(),
        bpf_filter: "tcp".to_string(),
        promiscuous: false,
        description: None,
        created_at: 1,
        updated_at: 1,
    }
}

#[test]
fn templates_save_update_and_limit() {
    let mut t: Vec<CaptureTemplate> = Vec::new();
    save_capture_template(&mut t, "a".into(), "eth0".into(), "tcp".into(), true, None, 10).unwrap();
    save_capture_template(&mut t, "a".into(), "eth1".into(), "udp".into(), false, Some("d".into()), 20).unwrap();
    assert_eq!(t.len(), 1);
    assert_eq!(t[0].interface_name, "eth1");
    assert_eq!(t[0].created_at, 10);
    assert_eq!(t[0].updated_at, 20);
    assert_eq!(t[0].description, Some("d".to_string()));
    for i in 1..MAX_TEMPLATES {
        save_capture_template(&mut t, format!("t{}", i), "e".into(), "".into(), false, None, 0).unwrap();
    }
    assert_eq!(
        save_capture_template(&mut t, "one more".into(), "e".into(), "".into(), false, None, 0),
        Err("模板数量已达上限，请删除旧模板".to_string())
    );
    assert!(save_capture_template(&mut t, "a".into(), "e".into(), "".into(), false, None, 0).is_ok());
}

#[test]
fn templates_delete_and_import() {
    let t = vec![template("a"), template("b"), template("a")];
    let kept = delete_capture_template(t, "a");
    assert_eq!(kept.len(), 1);
    assert_eq!(kept[0].name, "b");
    let mut existing = kept;
    let n = import_templates(&mut existing, vec![template("b"), template("c"), template("c")]);
    assert_eq!(n, 1);
    assert_eq!(existing.len(), 2);
    assert_eq!(existing[1].name, "c");
}

#[test]
fn simulated_ban_log_names_the_target_address() {
    let rule = long_packet_rule("r1", 0);
    let action = ResponseAction::IpBan { target: BanTarget::Dst, expire_minutes: 30 };
    let e = generate_simulated_response_log(&rule, &action, &meta(7, 100, 60));
    assert_eq!(e.id, "sim_r1_7");
    assert_eq!(e.action_type, "ip_ban");
    assert_eq!(e.trigger_time, 100);
    assert_eq!(e.result, ResponseResult::Success);
    assert_eq!(e.duration_ms, 0);
    assert_eq!(e.detail, Some("Simulated ban of 10.0.0.2 for 30 minutes".to_string()));
    let s = ResponseAction::ScriptExec { path: "/bin/x".to_string(), args_template: String::new(), timeout_secs: 1 };
    assert_eq!(
        generate_simulated_response_log(&rule, &s, &meta(7, 100, 60)).detail,
        Some("Simulated script execution: /bin/x".to_string())
    );
}

#[test]
fn injected_packets_count_matches_per_rule() {
    let mut engine = RuleEngine::new();
    engine.set_rules(vec![long_packet_rule("r1", 100)]);
    let packets = vec![meta(1, 10, 50), meta(2, 11, 150), meta(3, 12, 200)];
    let (records, logs) = inject_packets_to_engine(packets, vec![], &mut engine);
    assert_eq!(records.len(), 1);
    assert_eq!(records[0].rule_id, "r1");
    assert_eq!(records[0].trigger_count, 2);
    assert_eq!(records[0].first_packet_no, 2);
    assert_eq!(records[0].first_timestamp_secs, 11);
    assert_eq!(logs.len(), 2);
    assert_eq!(logs[0].id, "sim_r1_2");
    assert_eq!(logs[1].detail, Some("Simulated webhook to http://hook".to_string()));
}

#[test]
fn fed_replay_gathers_what_injection_gathers() {
    let mut engine = RuleEngine::new();
    engine.set_rules(vec![long_packet_rule("r1", 100)]);
    let packets = vec![meta(1, 10, 50), meta(2, 11, 150), meta(3, 12, 200)];
    let mut run = ReplayRun::start(&mut engine);
    for p in &packets {
        run.feed(&mut engine, p, &vec![]);
    }
    let (records, logs) = run.finish();
    let (r2, l2) = inject_packets_to_engine(packets, vec![], &mut engine);
    assert_eq!(records.len(), r2.len());
    assert_eq!(records[0].trigger_count, r2[0].trigger_count);
    assert_eq!(logs.len(), l2.len());
}

#[test]
fn worker_raises_alerts_and_counts_triggers() {
    let mut m = RuleManager::new();
    m.add_rule(long_packet_rule("r1", 100)).unwrap();
    let v = m.process_packet(&meta(5, 1000, 300), &[]);
    assert_eq!(v.matched.len(), 1);
    assert_eq!(v.alerts.len(), 1);
    let a = &v.alerts[0];
    assert!(a.id.starts_with("alert_"));
    assert_eq!(a.rule_id, "r1");
    assert_eq!(a.packet_no, 5);
    assert_eq!(a.match_summary, "包长> 100");
    assert_eq!(a.protocol, "TCP");
    let none = m.process_packet(&meta(6, 1000, 10), &[]);
    assert!(none.alerts.is_empty());
    let stats = m.get_all_stats();
    let s = stats.iter().find(|s| s.rule_id == "r1").unwrap();
    assert_eq!(s.total_triggers, 1);
    assert_eq!(s.last_24h_triggers, 1);
    assert_eq!(s.last_trigger_time, Some(1000));
}

#[test]
fn local_trigger_counts_use_the_given_time() {
    let mut m = RuleManager::new();
    m.add_rule(long_packet_rule("r1", 100)).unwrap();
    m.increment_rule_stat_at("r1", 77);
    m.increment_rule_stat_at("r1", 78);
    m.increment_rule_stat_at("other", 5);
    let stats = m.get_all_stats();
    let s = stats.iter().find(|s| s.rule_id == "r1").unwrap();
    assert_eq!(s.total_triggers, 2);
    assert_eq!(s.first_trigger_time, Some(77));
    assert_eq!(s.last_trigger_time, Some(78));
    assert!(stats.iter().any(|s| s.rule_id == "other"));
}

#[test]
fn saved_rule_file_round_trips_through_loading() {
    let mut m = RuleManager::new();
    m.add_rule(long_packet_rule("r1", 100)).unwrap();
    m.add_rule(long_packet_rule("r2", 100)).unwrap();
    m.increment_rule_stat_at("r1", 5);
    let f = m.rules_file_for_saving();
    assert_eq!(f.version, "1.0");
    assert_eq!(f.rules.len(), 2);
    let mut n = RuleManager::new();
    n.load_rules_file(f);
    assert_eq!(n.get_rules().len(), 2);
    let stats = n.get_all_stats();
    assert_eq!(stats.iter().find(|s| s.rule_id == "r1").unwrap().total_triggers, 1);
    assert_eq!(stats.len(), 2);
}

#[test]
fn session_labels_name_the_endpoints() {
    let info = SessionInfo {
        id: "s".to_string(),
        src_addr: "10.0.0.1".to_string(),
        src_port: 1234,
        dst_addr: "10.0.0.2".to_string(),
        dst_port: 80,
        protocol: ProtocolType::TCP,
        packet_count: 1,
        byte_count: 1,
        duration_ms: 0,
        state: SessionState::Active,
        first_packet_no: 0,
        last_packet_no: 0,
    };
    assert_eq!(session_label(Some(&info), "s"), "10.0.0.1:1234 -> 10.0.0.2:80");
    assert_eq!(session_label(None, "s7"), "s7");
}

#[test]
fn category_filters_ignore_case_and_default_to_custom() {
    assert_eq!(category_filter("Port_Scan"), AttackCategory::PortScan);
    assert_eq!(category_filter("ICMPFLOOD"), AttackCategory::IcmpFlood);
    assert_eq!(category_filter("whatever"), AttackCategory::Custom);
}

#[test]
fn effectiveness_items_and_tally() {
    let rec = RuleMatchRecord {
        rule_id: "r".to_string(),
        rule_name: "R".to_string(),
        trigger_count: 1,
        first_packet_no: 0,
        first_timestamp_secs: 0,
        first_timestamp_micros: 0,
    };
    let log = ResponseLogEntry {
        id: "x".to_string(),
        trigger_time: 0,
        rule_id: "r".to_string(),
        rule_name: "R".to_string(),
        action_type: "webhook".to_string(),
        result: ResponseResult::Success,
        duration_ms: 0,
        detail: None,
    };
    let p = netscope::replay::patterns::builtin_patterns_at(0).remove(0);
    let it = effectiveness_item(&p, 12, &vec![rec], &vec![log]);
    assert!(it.is_detected);
    assert!(it.response_triggered);
    assert_eq!(it.matched_rule_names, vec!["R".to_string()]);
    assert_eq!(it.response_actions, vec!["webhook".to_string()]);
    assert_eq!(it.total_packets, 12);
    let miss = effectiveness_item(&p, 3, &vec![], &vec![]);
    assert!(!miss.is_detected);
    let items: Vec<RuleEffectivenessItem> = vec![it, miss];
    assert_eq!(tally_detection(&items), (1, 1));
}

#[test]
fn rule_files_with_repeated_ids_load_as_written() {
    let mut f = RulesFile::default();
    f.rules.push(long_packet_rule("same", 100));
    f.rules.push(long_packet_rule("same", 200));
    let mut m = RuleManager::new();
    m.load_rules_file(f);
    assert_eq!(m.get_rules().len(), 2);
    assert_eq!(m.get_all_stats().len(), 1);
}

#[test]
fn marking_actions_set_the_rule_mark_and_touch_nothing_else() {
    let mut rule = long_packet_rule("m", 10);
    rule.actions.auto_mark = true;
    rule.actions.mark_level = Some("Important".to_string());
    let mut eng = CaptureEngine::new();
    let before_counter = eng.packet_counter;
    let out = AlertActionExecutor::new().execute_actions(&rule, 9, None, Some(&mut eng));
    assert_eq!(out.executed, vec!["auto_mark".to_string()]);
    let mark = eng.get_mark(9).unwrap();
    assert_eq!(mark.level, MarkLevel::Important);
    assert_eq!(mark.comment, "规则触发: Rule m");
    assert_eq!(eng.mark_count(), 1);
    assert_eq!(eng.packet_counter, before_counter);
    rule.actions.mark_level = Some("bogus".to_string());
    let out = AlertActionExecutor::new().execute_actions(&rule, 10, None, Some(&mut eng));
    assert!(out.executed.is_empty());
    assert_eq!(eng.mark_count(), 1);
    assert!(eng.get_mark(10).is_none());
}
