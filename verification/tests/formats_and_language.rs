use netscope::filter::display::filter_packets;
use netscope::models::{PacketMetadata, ProtocolType, RawPacket};
use netscope::pcap_io::export::PcapWriter;
use netscope::pcap_io::import::PcapReader;
use netscope::protocol::parser::{format_cipher_suite, format_mac, parse_packet_metadata_checked};
use netscope::replay::engine::build_batch_summary;
use netscope::replay::models::{ReplaySessionResult, RuleMatchRecord};
use netscope::rule::ban_list::BanListManager;
use netscope::rule::conflict::check_conflict;
use netscope::rule::engine::validate_rule_regex;
use netscope::rule::models::{
    AlertActions, BanEntry, ConditionNode, DetectionRule, IpField, LengthOperator, Priority, ResponseConfig,
};
use netscope::rule::parser::{escape_string, node_to_expression, parse_expression, validate_cidr};
use netscope::rule::response::{generate_response_id, resolve_template_vars, ResponseExecutor};
use netscope::tls::decryptor::TlsDecryptor;

fn meta(no: u64, protocol: ProtocolType, src: &str, dport: u16) -> PacketMetadata {
    PacketMetadata {
        no,
        timestamp_secs: 0,
        timestamp_micros: 0,
        src_addr: src.to_string(),
        src_port: Some(40000),
        dst_addr: "10.9.9.9".to_string(),
        dst_port: Some(dport),
        protocol,
        length: 60,
        summary: String::new(),
        ttl: None,
        window_size: None,
        tcp_flags: None,
        ip_id: None,
        fragment_offset: None,
    }
}

fn actions(mark: Option<&str>) -> AlertActions {
    AlertActions {
        system_notification: true,
        sound: false,
        auto_mark: mark.is_some(),
        mark_level: mark.map(|s| s.to_string()),
        auto_export: false,
        export_path: None,
    }
}

fn rule(id: &str, condition: ConditionNode, mark: Option<&str>) -> DetectionRule {
    DetectionRule {
        id: id.to_string(),
        name: id.to_uppercase(),
        priority: Priority::Medium,
        enabled: true,
        condition,
        expression: String::new(),
        actions: actions(mark),
        group: None,
        description: None,
        created_at: 0,
        updated_at: 0,
        response_actions: vec![],
        cooldown_secs: 0,
        current_version: 0,
        versions: vec![],
    }
}

#[test]
fn expressions_print_back_as_written() {
    let text = "protocol == \"TCP\" AND length > 100";
    let node = parse_expression(text).unwrap();
    match &node {
        ConditionNode::And { children } => assert_eq!(children.len(), 2),
        _ => panic!("expected a conjunction"),
    }
    assert_eq!(node_to_expression(&node), text);
}

#[test]
fn conjunctions_flatten_and_or_operands_get_parentheses() {
    let node = parse_expression("(length > 1 AND length < 9) AND length == 3").unwrap();
    match &node {
        ConditionNode::And { children } => assert_eq!(children.len(), 3),
        _ => panic!("expected a conjunction"),
    }
    let or = parse_expression("length > 1 AND length < 9 OR length == 5").unwrap();
    assert_eq!(node_to_expression(&or), "(length > 1 AND length < 9) OR length == 5");
    let and = parse_expression("(length > 1 OR length < 9) AND length == 5").unwrap();
    assert_eq!(node_to_expression(&and), "(length > 1 OR length < 9) AND length == 5");
}

#[test]
fn malformed_expressions_are_refused() {
    assert!(parse_expression("length >").is_err());
    assert!(parse_expression("protocol == \"TCP\" AND").is_err());
}

#[test]
fn same_conditions_compare_equal() {
    let a = parse_expression("src_ip == \"10.0.0.0/8\" AND NOT length < 5").unwrap();
    let b = parse_expression("src_ip == \"10.0.0.0/8\" AND NOT length < 5").unwrap();
    let c = parse_expression("src_ip == \"10.0.0.0/8\" AND NOT length < 6").unwrap();
    assert!(a.same_as(&b));
    assert!(!a.same_as(&c));
}

#[test]
fn strings_escape_quotes_and_backslashes() {
    assert_eq!(escape_string("a\"b\\c"), "a\\\"b\\\\c");
    assert_eq!(escape_string("plain"), "plain");
}

#[test]
fn networks_and_patterns_are_checked() {
    assert!(validate_cidr("10.0.0.0/8"));
    assert!(validate_cidr("2001:db8::/32"));
    assert!(!validate_cidr("garbage"));
    assert_eq!(validate_rule_regex("a+b"), Ok(true));
    assert!(validate_rule_regex("(").is_err());
}

#[test]
fn display_filters_select_packets() {
    let packets = vec![
        meta(0, ProtocolType::TCP, "10.0.0.1", 80),
        meta(1, ProtocolType::UDP, "10.0.0.2", 53),
        meta(2, ProtocolType::DNS, "10.0.0.1", 53),
    ];
    let tcp = filter_packets(&packets, "tcp").unwrap();
    assert_eq!(tcp.iter().map(|m| m.no).collect::<Vec<_>>(), vec![0]);
    let all = filter_packets(&packets, "   ").unwrap();
    assert_eq!(all.len(), 3);
    let not_tcp = filter_packets(&packets, "not tcp").unwrap();
    assert_eq!(not_tcp.len(), 2);
    let from = filter_packets(&packets, "ip.src==10.0.0.1").unwrap();
    assert_eq!(from.iter().map(|m| m.no).collect::<Vec<_>>(), vec![0, 2]);
}

#[test]
fn mac_addresses_and_cipher_suites_are_named() {
    assert_eq!(format_mac(&[0x00, 0x11, 0x22, 0x33, 0x44, 0x55]), "00:11:22:33:44:55");
    assert_eq!(format_cipher_suite(0x1301), "TLS_AES_128_GCM_SHA256");
    assert_eq!(format_cipher_suite(0xC02F), "TLS_ECDHE_RSA_WITH_AES_128_GCM_SHA256");
    assert_eq!(format_cipher_suite(0x1234), "0x1234");
}

#[test]
fn tcp_frames_parse_to_metadata() {
    let mut f = vec![0x00, 0x11, 0x22, 0x33, 0x44, 0x55, 0x66, 0x77, 0x88, 0x99, 0xaa, 0xbb, 0x08, 0x00];
    f.extend_from_slice(&[0x45, 0x00, 0x00, 40, 0x00, 0x07, 0x40, 0x00, 64, 6, 0, 0, 192, 168, 1, 2, 192, 168, 1, 3]);
    f.extend_from_slice(&[0x30, 0x39, 0x01, 0xbb, 0, 0, 0, 1, 0, 0, 0, 0, 0x50, 0x02, 0x04, 0x00, 0, 0, 0, 0]);
    let raw = RawPacket { timestamp_secs: 5, timestamp_micros: 6, data: f };
    let m = parse_packet_metadata_checked(9, &raw).unwrap();
    assert_eq!(m.no, 9);
    assert_eq!(m.src_addr, "192.168.1.2");
    assert_eq!(m.dst_addr, "192.168.1.3");
    assert_eq!(m.src_port, Some(12345));
    assert_eq!(m.dst_port, Some(443));
    assert_eq!(m.protocol, ProtocolType::TCP);
    assert_eq!(m.ttl, Some(64));
    assert_eq!(m.length, 54);
}

#[test]
fn pcap_files_read_back_what_was_written() {
    let packets = vec![
        RawPacket { timestamp_secs: 1, timestamp_micros: 2, data: vec![1, 2, 3] },
        RawPacket { timestamp_secs: 7, timestamp_micros: 8, data: vec![] },
    ];
    let mut w = PcapWriter::new(Vec::new());
    w.write_packets(&packets);
    let bytes = w.into_inner();
    assert_eq!(bytes.len(), 24 + 16 + 3 + 16);
    let mut r = PcapReader::new(bytes).unwrap();
    let back = r.read_all_packets().unwrap();
    assert_eq!(back.len(), 2);
    assert_eq!(back[0].timestamp_secs, 1);
    assert_eq!(back[0].timestamp_micros, 2);
    assert_eq!(back[0].data, vec![1, 2, 3]);
    assert_eq!(back[1].timestamp_secs, 7);
    assert!(PcapReader::new(vec![0; 10]).is_err());
}

#[test]
fn key_logs_hold_client_randoms() {
    let mut d = TlsDecryptor::new();
    let log = "# comment\nCLIENT_RANDOM abcd 0a0b0c\nOTHER x y\n\nRSA ef01 ff\n";
    assert!(d.load_sslkeylog(log).is_ok());
    assert_eq!(d.key_count(), 2);
    assert_eq!(d.get_key("abcd"), Some(&vec![0x0a, 0x0b, 0x0c]));
    assert!(d.is_loaded());
    let mut bad = TlsDecryptor::new();
    assert!(bad.load_sslkeylog("CLIENT_RANDOM abcd zz").is_err());
}

#[test]
fn bans_expire_and_can_be_lifted() {
    let mut b = BanListManager::new();
    b.add_entry(BanEntry {
        ip: "1.2.3.4".to_string(),
        ban_time: 1000,
        rule_id: "r".to_string(),
        rule_name: "R".to_string(),
        expire_minutes: 10,
    });
    assert!(b.is_banned_at("1.2.3.4", 1000));
    assert!(b.is_banned_at("1.2.3.4", 1599));
    assert!(!b.is_banned_at("1.2.3.4", 1601));
    assert!(!b.is_banned_at("5.6.7.8", 1000));
    assert!(b.check_ip_match_at("9.9.9.9", "1.2.3.4", 1000));
    b.unban("1.2.3.4");
    assert!(!b.is_banned_at("1.2.3.4", 1000));
}

#[test]
fn template_variables_are_filled_in() {
    assert_eq!(
        resolve_template_vars("$SRC_IP->$DST_IP $PROTOCOL $RULE_NAME $TIMESTAMP", "1.1.1.1", "2.2.2.2", "TCP", "R", 42),
        "1.1.1.1->2.2.2.2 TCP R 42"
    );
    assert!(generate_response_id().starts_with("resp_"));
}

#[test]
fn a_second_match_within_the_cooldown_is_skipped() {
    let mut ex = ResponseExecutor::new(BanListManager::new(), ResponseConfig::default());
    let mut r = rule("r", ConditionNode::PacketLength { operator: LengthOperator::GreaterThan, value: 0 }, None);
    r.response_actions = vec![netscope::rule::models::ResponseAction::IpBan {
        target: netscope::rule::models::BanTarget::Src,
        expire_minutes: 1,
    }];
    let (first, go) = ex.start_response_chain(&r, 100);
    assert!(go);
    assert!(first.is_empty());
    let (second, go2) = ex.start_response_chain(&r, 130);
    assert!(!go2);
    assert_eq!(second.len(), 1);
    assert_eq!(second[0].action_type, "chain");
    assert_eq!(second[0].detail, Some("冷却中(60s)".to_string()));
    let (_, go3) = ex.start_response_chain(&r, 161);
    assert!(go3);
}

#[test]
fn overlapping_rules_that_mark_differently_conflict() {
    let a = rule("a", ConditionNode::IpMatch { field: IpField::Src, cidr: "10.0.0.0/8".to_string() }, Some("warning"));
    let b = rule("b", ConditionNode::IpMatch { field: IpField::Src, cidr: "10.1.0.0/16".to_string() }, Some("starred"));
    let c = rule("c", ConditionNode::IpMatch { field: IpField::Src, cidr: "192.168.0.0/16".to_string() }, Some("starred"));
    let conflict = check_conflict(&a, &b).unwrap();
    assert_eq!(conflict.rule_a_id, "a");
    assert_eq!(conflict.rule_b_id, "b");
    assert_eq!(conflict.action_conflict, "标记级别冲突: 规则A标记为\"warning\", 规则B标记为\"starred\"");
    assert!(check_conflict(&a, &c).is_none());
    let same = rule("d", ConditionNode::IpMatch { field: IpField::Src, cidr: "10.0.0.0/8".to_string() }, Some("warning"));
    assert!(check_conflict(&a, &same).is_none());
}

fn session_result(id: &str, packets: u64, hits: usize) -> ReplaySessionResult {
    ReplaySessionResult {
        session_id: id.to_string(),
        session_label: id.to_string(),
        total_packets: packets,
        processed_packets: packets,
        matched_rules: (0..hits)
            .map(|i| RuleMatchRecord {
                rule_id: format!("r{}", i),
                rule_name: String::new(),
                trigger_count: 1,
                first_packet_no: 0,
                first_timestamp_secs: 0,
                first_timestamp_micros: 0,
            })
            .collect(),
        response_logs: vec![],
        started_at: 0,
        finished_at: 0,
    }
}

#[test]
fn batch_summaries_add_up_and_split_sessions() {
    let s = build_batch_summary(vec![session_result("a", 10, 2), session_result("b", 5, 0), session_result("c", 1, 1)]);
    assert_eq!(s.session_count, 3);
    assert_eq!(s.total_packets, 16);
    assert_eq!(s.total_matched_rules, 3);
    assert_eq!(s.total_response_actions, 0);
    assert_eq!(s.sessions_with_hits, vec!["a".to_string(), "c".to_string()]);
    assert_eq!(s.sessions_without_hits, vec!["b".to_string()]);
    assert_eq!(s.sessions_with_hits.len() + s.sessions_without_hits.len(), 3);
}
