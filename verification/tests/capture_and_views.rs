use netscope::capture::engine::{CaptureEngine, CaptureEvent, MAX_MARK_COUNT};
use netscope::models::{MarkLevel, PacketMetadata, ProtocolType, RawPacket, TcpFlags};
use netscope::protocol::parser::parse_packet_metadata_checked;
use netscope::session::tracker::SessionTracker;
use netscope::views::{format_hex_dump, get_tcp_timeline, select_timeline_nos};

fn meta(no: u64, secs: u64, src: &str, dst: &str, len: u32) -> PacketMetadata {
    PacketMetadata {
        no,
        timestamp_secs: secs,
        timestamp_micros: 0,
        src_addr: src.to_string(),
        src_port: Some(1234),
        dst_addr: dst.to_string(),
        dst_port: Some(80),
        protocol: ProtocolType::TCP,
        length: len,
        summary: String::new(),
        ttl: None,
        window_size: None,
        tcp_flags: None,
        ip_id: None,
        fragment_offset: None,
    }
}

/// An Ethernet II / IPv4 / TCP frame from 10.0.0.1:1234 to 10.0.0.2:80.
fn tcp_frame(flags: u8, seq: u32, payload: &[u8], reverse: bool) -> Vec<u8> {
    let mut f = vec![0x00, 0x11, 0x22, 0x33, 0x44, 0x55, 0x66, 0x77, 0x88, 0x99, 0xaa, 0xbb, 0x08, 0x00];
    let total = (20 + 20 + payload.len()) as u16;
    let (src, dst) = if reverse { ([10, 0, 0, 2], [10, 0, 0, 1]) } else { ([10, 0, 0, 1], [10, 0, 0, 2]) };
    f.extend_from_slice(&[0x45, 0x00]);
    f.extend_from_slice(&total.to_be_bytes());
    f.extend_from_slice(&[0x00, 0x01, 0x40, 0x00, 64, 6, 0x00, 0x00]);
    f.extend_from_slice(&src);
    f.extend_from_slice(&dst);
    let (sp, dp): (u16, u16) = if reverse { (80, 1234) } else { (1234, 80) };
    f.extend_from_slice(&sp.to_be_bytes());
    f.extend_from_slice(&dp.to_be_bytes());
    f.extend_from_slice(&seq.to_be_bytes());
    f.extend_from_slice(&0u32.to_be_bytes());
    f.extend_from_slice(&[0x50, flags]);
    f.extend_from_slice(&1024u16.to_be_bytes());
    f.extend_from_slice(&[0, 0, 0, 0]);
    f.extend_from_slice(payload);
    f
}

#[test]
fn begin_capture_refuses_while_capturing() {
    let mut e = CaptureEngine::new();
    assert!(e.begin_capture("eth0").is_ok());
    assert_eq!(e.begin_capture("eth1"), Err("Already capturing".to_string()));
    let st = e.get_status();
    assert!(st.is_capturing);
    assert_eq!(st.interface_name, Some("eth0".to_string()));
    assert_eq!(st.packet_count, 0);
}

#[test]
fn stop_capture_refuses_when_idle() {
    let mut e = CaptureEngine::new();
    assert_eq!(e.stop_capture(), Err("Not capturing".to_string()));
    e.begin_capture("eth0").unwrap();
    assert_eq!(e.stop_capture(), Ok(()));
    assert!(!e.get_status().is_capturing);
}

#[test]
fn packet_numbers_count_up_and_wrap() {
    let mut e = CaptureEngine::new();
    assert_eq!(e.next_packet_no(), 0);
    assert_eq!(e.next_packet_no(), 1);
    e.packet_counter = u64::MAX;
    assert_eq!(e.next_packet_no(), u64::MAX);
    assert_eq!(e.next_packet_no(), 0);
}

#[test]
fn status_keeps_low_bits_of_dropped_count() {
    let mut e = CaptureEngine::new();
    e.dropped_count = (1u64 << 32) + 7;
    assert_eq!(e.get_status().dropped_count, 7);
}

#[test]
fn drain_stores_new_packets_and_skips_errors() {
    let mut e = CaptureEngine::new();
    let events = vec![
        CaptureEvent::NewPacket(meta(0, 10, "a", "b", 60), vec![1, 2, 3]),
        CaptureEvent::Error("device gone".to_string()),
        CaptureEvent::NewPacket(meta(1, 11, "a", "b", 70), vec![4]),
    ];
    let got = e.drain_new_packets(events);
    assert_eq!(got.len(), 2);
    assert_eq!(got[0].no, 0);
    assert_eq!(got[1].no, 1);
    assert_eq!(e.get_raw_data(0), Some(vec![1, 2, 3]));
    assert_eq!(e.get_raw_data(1), Some(vec![4]));
    assert_eq!(e.get_raw_data(2), None);
    assert_eq!(e.get_metadata(1).map(|m| m.length), Some(70));
    assert!(e.get_metadata(5).is_none());
    assert_eq!(e.get_all_metadata().len(), 2);
}

#[test]
fn marks_keep_the_first_two_hundred_characters() {
    let mut e = CaptureEngine::new();
    let long: String = "x".repeat(250);
    assert!(e.set_mark(3, MarkLevel::Warning, long).is_ok());
    let m = e.get_mark(3).unwrap();
    assert_eq!(m.comment.chars().count(), 200);
    assert_eq!(m.level, MarkLevel::Warning);
    assert_eq!(m.packet_no, 3);
    assert_eq!(e.mark_count(), 1);
    assert!(e.remove_mark(3).is_ok());
    assert!(e.get_mark(3).is_none());
    assert_eq!(e.mark_count(), 0);
}

#[test]
fn marks_are_refused_when_full_but_replaced_when_present() {
    let mut e = CaptureEngine::new();
    for i in 0..(MAX_MARK_COUNT as u64) {
        e.set_mark_at(i, MarkLevel::Starred, String::new(), 5).unwrap();
    }
    assert_eq!(
        e.set_mark_at(999_999, MarkLevel::Starred, String::new(), 5),
        Err("标记数量已达上限，请清理旧标记".to_string())
    );
    assert!(e.set_mark_at(7, MarkLevel::Important, "again".to_string(), 9).is_ok());
    let m = e.get_mark(7).unwrap();
    assert_eq!(m.level, MarkLevel::Important);
    assert_eq!(m.created_at, 9);
    assert_eq!(e.get_all_marks().len(), MAX_MARK_COUNT);
}

#[test]
fn marked_packets_are_those_of_the_buffer_with_a_mark() {
    let mut e = CaptureEngine::new();
    let events = vec![
        CaptureEvent::NewPacket(meta(0, 1, "a", "b", 60), vec![]),
        CaptureEvent::NewPacket(meta(1, 1, "a", "b", 60), vec![]),
        CaptureEvent::NewPacket(meta(2, 1, "a", "b", 60), vec![]),
    ];
    e.drain_new_packets(events);
    e.set_mark(2, MarkLevel::Starred, "c".to_string()).unwrap();
    e.set_mark(0, MarkLevel::Starred, "a".to_string()).unwrap();
    e.set_mark(42, MarkLevel::Starred, "absent".to_string()).unwrap();
    let marked: Vec<u64> = e.get_marked_packets().iter().map(|m| m.no).collect();
    assert_eq!(marked, vec![0, 2]);
}

#[test]
fn imported_packets_are_kept_with_their_bytes() {
    let mut e = CaptureEngine::new();
    let raw = RawPacket { timestamp_secs: 1, timestamp_micros: 2, data: vec![7, 7] };
    e.store_imported_packet(meta(9, 1, "a", "b", 2), raw);
    assert_eq!(e.get_raw_data(9), Some(vec![7, 7]));
    e.store_raw_packet(10, RawPacket { timestamp_secs: 1, timestamp_micros: 2, data: vec![1] });
    assert_eq!(e.get_raw_data(10), Some(vec![1]));
    assert_eq!(e.get_all_metadata().len(), 1);
}

#[test]
fn hex_dump_of_seventeen_bytes_has_two_lines() {
    let mut data = vec![0x41u8; 16];
    data.push(0x00);
    let lines = format_hex_dump(&data);
    assert_eq!(lines.len(), 2);
    assert_eq!(lines[0].offset, "0000");
    assert_eq!(lines[0].hex.len(), 16);
    assert_eq!(lines[0].hex[0], "41");
    assert_eq!(lines[0].ascii, "AAAAAAAAAAAAAAAA");
    assert_eq!(lines[1].offset, "0010");
    assert_eq!(lines[1].hex, vec!["00".to_string()]);
    assert_eq!(lines[1].ascii, ".");
}

#[test]
fn hex_dump_of_nothing_is_empty() {
    assert!(format_hex_dump(&[]).is_empty());
}

#[test]
fn hex_dump_shows_printable_bytes_and_pads_offsets() {
    let data: Vec<u8> = (0u8..=0xff).collect();
    let lines = format_hex_dump(&data);
    assert_eq!(lines.len(), 16);
    assert_eq!(lines[15].offset, "00f0");
    assert_eq!(lines[2].ascii, " !\"#$%&'()*+,-./");
    assert_eq!(lines[7].hex[15], "7f");
    assert_eq!(lines[7].ascii, "pqrstuvwxyz{|}~.");
}

#[test]
fn long_timelines_show_both_ends() {
    let nos: Vec<u64> = (0..6000).collect();
    let sel = select_timeline_nos(&nos);
    assert_eq!(sel.len(), 200);
    assert_eq!(sel[0], 0);
    assert_eq!(sel[99], 99);
    assert_eq!(sel[100], 5900);
    assert_eq!(sel[199], 5999);
    let short: Vec<u64> = (0..5000).collect();
    assert_eq!(select_timeline_nos(&short), short);
}

#[test]
fn tcp_flags_text_names_set_flags_in_order() {
    assert_eq!(TcpFlags::from_bits(0x12).to_string_flags(), "SYN, ACK");
    assert_eq!(TcpFlags::from_bits(0x3f).to_string_flags(), "FIN, SYN, RST, PSH, ACK, URG");
    assert_eq!(TcpFlags::from_bits(0).to_string_flags(), "");
}

#[test]
fn time_of_day_has_microseconds() {
    let mut m = meta(0, 3661, "a", "b", 0);
    m.timestamp_micros = 5;
    assert_eq!(m.timestamp_str(), "01:01:01.000005");
    let mut n = meta(0, 1431648000 + 86399, "a", "b", 0);
    n.timestamp_micros = 999_999;
    assert_eq!(n.timestamp_str(), "23:59:59.999999");
}

#[test]
fn tcp_timeline_of_a_session() {
    let mut engine = CaptureEngine::new();
    let mut tracker = SessionTracker::new();
    let frames = vec![
        tcp_frame(0x02, 100, &[], false),
        tcp_frame(0x12, 500, &[], true),
        tcp_frame(0x18, 101, b"hello", false),
    ];
    for (i, f) in frames.into_iter().enumerate() {
        let raw = RawPacket { timestamp_secs: 1000 + i as u64, timestamp_micros: 0, data: f };
        let m = parse_packet_metadata_checked(i as u64, &raw).expect("frame parses");
        tracker.process_packet(&m, &raw);
        engine.store_imported_packet(m, raw);
    }
    let sessions = tracker.get_sessions();
    assert_eq!(sessions.len(), 1);
    let t = get_tcp_timeline(&tracker, &engine, sessions[0].id.clone()).unwrap();
    assert_eq!(t.total_packets, 3);
    assert!(!t.is_truncated);
    assert_eq!(t.entries.len(), 3);
    assert_eq!(t.entries[0].flags, "SYN");
    assert_eq!(t.entries[1].flags, "SYN, ACK");
    assert_eq!(t.entries[2].payload_size, 5);
    assert_eq!(t.entries[2].seq_num, 101);
    assert_eq!(t.entries[0].window_size, 1024);
    assert_eq!(t.entries[1].timestamp_secs, 1001);
    assert!(t.entries[0].direction != t.entries[1].direction);
    assert!(get_tcp_timeline(&tracker, &engine, "nope".to_string()).is_err());
}

