//! The alert actions of a matched rule: notification and sound are reported,
//! the packet is marked in the capture, and its record is prepared for the
//! rule's export file. Notifying and writing the file are the caller's.
use vstd::prelude::*;
use crate::capture::engine::CaptureEngine;
use crate::models::{MarkLevel, RawPacket};
use crate::pcap_io::export::{PcapWriter, append_bytes, le16_bytes, le32_bytes, le_i32_bytes, le_u16_bytes, le_u32_bytes, record_bytes};
use crate::rule::models::DetectionRule;
use crate::text::{lowercase, same_text, to_lowercase};

verus! {

/// The mark level a lower-case name stands for.
pub open spec fn mark_level_named(l: Seq<char>) -> Option<MarkLevel> {
    if l == "starred"@ || l == "star"@ {
        Some(MarkLevel::Starred)
    } else if l == "warning"@ || l == "warn"@ {
        Some(MarkLevel::Warning)
    } else if l == "important"@ || l == "critical"@ {
        Some(MarkLevel::Important)
    } else {
        None
    }
}

/// The mark level of a name already in lower case; `given` is the name as
/// written, for the error.
pub fn mark_level_from_lowercase(lower: &str, given: &str) -> (r: Result<MarkLevel, String>)
    ensures
        match mark_level_named(lower@) {
            Some(l) => r == Ok::<MarkLevel, String>(l),
            None => r matches Err(m) && m@ == "Invalid mark level: "@ + given@,
        },
{
    proof {
        reveal_strlit("starred");
        reveal_strlit("star");
        reveal_strlit("warning");
        reveal_strlit("warn");
        reveal_strlit("important");
        reveal_strlit("critical");
    }
    if same_text(lower, "starred") || same_text(lower, "star") {
        Ok(MarkLevel::Starred)
    } else if same_text(lower, "warning") || same_text(lower, "warn") {
        Ok(MarkLevel::Warning)
    } else if same_text(lower, "important") || same_text(lower, "critical") {
        Ok(MarkLevel::Important)
    } else {
        let mut m = String::from_str("Invalid mark level: ");
        m.append(given);
        proof {
            reveal_strlit("Invalid mark level: ");
        }
        Err(m)
    }
}

/// The mark level of a name, case aside.
pub fn parse_mark_level(s: &str) -> (r: Result<MarkLevel, String>)
    ensures
        match mark_level_named(lowercase(s@)) {
            Some(l) => r == Ok::<MarkLevel, String>(l),
            None => r matches Err(m) && m@ == "Invalid mark level: "@ + s@,
        },
{
    let lower = to_lowercase(s);
    mark_level_from_lowercase(lower.as_str(), s)
}

/// The header of a new export file: magic number, version 2.4, time-zone
/// offset and accuracy 0, snapshot length 65535, link type Ethernet.
pub open spec fn export_header_bytes() -> Seq<u8> {
    le32_bytes(0xa1b2c3d4) + le16_bytes(2) + le16_bytes(4) + le32_bytes(0) + le32_bytes(0) + le32_bytes(65535)
        + le32_bytes(1)
}

/// The header of a new export file.
pub fn pcap_global_header() -> (h: Vec<u8>)
    ensures
        h@ == export_header_bytes(),
{
    let mut h: Vec<u8> = Vec::new();
    append_bytes(&mut h, &le_u32_bytes(0xa1b2c3d4));
    append_bytes(&mut h, &le_u16_bytes(2));
    append_bytes(&mut h, &le_u16_bytes(4));
    append_bytes(&mut h, &le_i32_bytes(0));
    append_bytes(&mut h, &le_u32_bytes(0));
    append_bytes(&mut h, &le_u32_bytes(65535));
    append_bytes(&mut h, &le_u32_bytes(1));
    assert(h@ =~= export_header_bytes());
    h
}

/// The PCAP record of a packet.
pub fn pcap_record(packet: &RawPacket) -> (r: Vec<u8>)
    ensures
        r@ == record_bytes(*packet),
{
    let mut w = PcapWriter { writer: Vec::new() };
    w.write_packet(packet);
    let r = w.into_inner();
    assert(r@ =~= record_bytes(*packet));
    r
}

/// Whether the rule marks packets: auto-mark is on and its level is known.
pub open spec fn marks_with(r: crate::rule::models::RuleV) -> Option<MarkLevel> {
    if r.actions.auto_mark {
        match r.actions.mark_level {
            Some(l) => mark_level_named(lowercase(l@)),
            None => None,
        }
    } else {
        None
    }
}

/// The names of the actions carried out, in order.
pub open spec fn executed_names(r: crate::rule::models::RuleV, can_mark: bool, has_raw: bool) -> Seq<Seq<char>> {
    let a = r.actions;
    (if a.system_notification {
        seq!["system_notification"@]
    } else {
        Seq::empty()
    }) + (if a.sound {
        seq!["sound"@]
    } else {
        Seq::empty()
    }) + (if can_mark && marks_with(r) is Some {
        seq!["auto_mark"@]
    } else {
        Seq::empty()
    }) + (if a.auto_export && a.export_path is Some && has_raw {
        seq!["auto_export"@]
    } else {
        Seq::empty()
    })
}

/// The comment of a mark set by a rule.
pub open spec fn rule_mark_comment(name: Seq<char>) -> Seq<char> {
    "规则触发: "@ + name
}

/// What the actions of a matched rule came to: the names of those carried
/// out, and the export file with the record to append to it, if any.
pub struct ActionOutcome {
    pub executed: Vec<String>,
    pub export: Option<(String, Vec<u8>)>,
}

/// Carries out the alert actions of matched rules.
pub struct AlertActionExecutor {
    pub export_paths: Vec<(String, String)>,
}

fn push_name(v: &mut Vec<String>, name: &str)
    ensures
        crate::rule::models::texts(final(v)@) == crate::rule::models::texts(old(v)@).push(name@),
{
    let ghost before = v@;
    v.push(String::from_str(name));
    assert(crate::rule::models::texts(v@) =~= crate::rule::models::texts(before).push(name@));
}

impl AlertActionExecutor {
    pub fn new() -> (e: Self)
        ensures
            e.export_paths@.len() == 0,
    {
        AlertActionExecutor { export_paths: Vec::new() }
    }

    /// Carries out the actions of a rule that matched the packet of the
    /// number: marks the packet in the capture when one is at hand, and
    /// hands back the record for the export file when the packet's bytes
    /// are at hand.
    pub fn execute_actions(
        &self,
        rule: &DetectionRule,
        packet_no: u64,
        raw_packet: Option<&RawPacket>,
        capture: Option<&mut CaptureEngine>,
    ) -> (r: ActionOutcome)
        ensures
            crate::rule::models::texts(r.executed@) == executed_names(rule@, capture is Some, raw_packet is Some),
            match r.export {
                Some((path, bytes)) => {
                    &&& rule.actions.auto_export
                    &&& rule.actions.export_path matches Some(p) && path@ == p@
                    &&& raw_packet matches Some(raw) && bytes@ == record_bytes(*raw)
                },
                None => !(rule.actions.auto_export && rule.actions.export_path is Some && raw_packet is Some),
            },
            match capture {
                Some(e) => match marks_with(rule@) {
                    Some(level) => CaptureEngine::mark_set(
                        *e,
                        *final(e),
                        packet_no,
                        level,
                        rule_mark_comment(rule.name@),
                    ),
                    None => *final(e) == *e,
                },
                None => true,
            },
    {
        let mut executed: Vec<String> = Vec::new();
        proof {
            reveal_strlit("system_notification");
            reveal_strlit("sound");
            reveal_strlit("auto_mark");
            reveal_strlit("auto_export");
        }
        let ghost start = crate::rule::models::texts(executed@);
        assert(start =~= Seq::<Seq<char>>::empty());
        if rule.actions.system_notification {
            push_name(&mut executed, "system_notification");
        }
        if rule.actions.sound {
            push_name(&mut executed, "sound");
        }
        let ghost after_sound = crate::rule::models::texts(executed@);
        if rule.actions.auto_mark {
            match capture {
                Some(engine) => {
                    match &rule.actions.mark_level {
                        Some(level_str) => {
                            match parse_mark_level(level_str.as_str()) {
                                Ok(level) => {
                                    let mut comment = String::from_str("规则触发: ");
                                    comment.append(rule.name.as_str());
                                    proof {
                                        reveal_strlit("规则触发: ");
                                    }
                                    let _ = engine.set_mark(packet_no, level, comment);
                                    push_name(&mut executed, "auto_mark");
                                },
                                Err(_) => {},
                            }
                        },
                        None => {},
                    }
                },
                None => {},
            }
        }
        let mut export: Option<(String, Vec<u8>)> = None;
        if rule.actions.auto_export {
            match &rule.actions.export_path {
                Some(path) => {
                    match raw_packet {
                        Some(raw) => {
                            export = Some((path.clone(), pcap_record(raw)));
                            push_name(&mut executed, "auto_export");
                        },
                        None => {},
                    }
                },
                None => {},
            }
        }
        assert(crate::rule::models::texts(executed@) =~= executed_names(rule@, capture is Some, raw_packet is Some));
        ActionOutcome { executed, export }
    }
}

impl Default for AlertActionExecutor {
    fn default() -> (e: Self)
        ensures
            e.export_paths@.len() == 0,
    {
        AlertActionExecutor::new()
    }
}

} // verus!
