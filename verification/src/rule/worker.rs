//! What the rule worker does with each captured packet: evaluate the rules,
//! raise an alert for each rule that matched, and count the trigger in the
//! worker's statistics. Carrying out the alert actions and the automated
//! responses is left to the caller, which gets the matched rules back.
use vstd::prelude::*;
use crate::models::{PacketDetail, PacketMetadata};
use crate::rule::engine::{enabled_rate_limits, matched_rules, opt_detail};
use crate::rule::manager::{RuleManager, generate_match_summary, match_summary};
use crate::rule::models::{AlertRecord, DetectionRule, RuleV, rules_view};
use crate::rule::response::{current_nanos, dec128, push_decimal_u128};
use crate::rule::stats::{all_room, lemma_windowed_rows_room, record_in_table, rows, rows_have_room, windowed_all};

verus! {

/// An alert identifier: `alert_` and the time in nanoseconds.
pub fn generate_alert_id() -> (s: String)
    ensures
        exists|n: nat| s@ == "alert_"@ + #[trigger] dec128(n),
{
    let n = current_nanos();
    let mut s = String::from_str("alert_");
    push_decimal_u128(&mut s, n);
    s
}

/// The alert raised for a rule that matched a packet, but for its id.
pub open spec fn alert_for(a: AlertRecord, r: RuleV, m: PacketMetadata) -> bool {
    &&& a.rule_id@ == r.id@
    &&& a.rule_name@ == r.name@
    &&& a.priority == r.priority
    &&& a.packet_no == m.no
    &&& a.timestamp_secs == m.timestamp_secs
    &&& a.timestamp_micros == m.timestamp_micros
    &&& a.match_summary@ == match_summary(r.condition)
    &&& a.src_addr@ == m.src_addr@
    &&& a.dst_addr@ == m.dst_addr@
    &&& a.protocol@ == m.protocol.name_of()
    &&& exists|n: nat| a.id@ == "alert_"@ + #[trigger] dec128(n)
}

/// The rules that matched a packet, and the alerts raised for them, in
/// the same order.
pub struct PacketVerdict {
    pub matched: Vec<DetectionRule>,
    pub alerts: Vec<AlertRecord>,
}

proof fn lemma_matched_len(
    rs: Seq<RuleV>,
    m: PacketMetadata,
    raw: Seq<u8>,
    d: Option<PacketDetail>,
    v: crate::rule::engine::RateV,
)
    ensures
        matched_rules(rs, m, raw, d, v).0.len() <= rs.len(),
    decreases rs.len(),
{
    if rs.len() > 0 {
        lemma_matched_len(rs.drop_last(), m, raw, d, v);
    }
}

impl RuleManager {
    /// Whether `process_packet` can take a packet: the rate limits of the
    /// enabled rules fit the counters' room, and every row of the worker's
    /// statistics has room for one trigger of each rule.
    pub fn can_process(&self) -> (b: bool)
        ensures
            b == (2 * enabled_rate_limits(self.rule_engine.rules_v()) <= u32::MAX
                && self.rule_engine.has_room(2 * enabled_rate_limits(self.rule_engine.rules_v()) as int)
                && all_room(rows(self.shared_stats@), self.rule_engine.rules_v().len() as int)),
    {
        if !self.rule_engine.can_evaluate() {
            return false;
        }
        let k = self.rule_engine.rule_count();
        rows_have_room(&self.shared_stats, k as u64)
    }

    /// Evaluates the rules on a packet; for each rule that matched, raises
    /// an alert and counts the trigger at the packet's time in the worker's
    /// statistics.
    pub fn process_packet(&mut self, meta: &PacketMetadata, raw_data: &[u8]) -> (r: PacketVerdict)
        requires
            old(self).wf(),
            2 * enabled_rate_limits(old(self).rule_engine.rules_v()) <= u32::MAX,
            old(self).rule_engine.has_room(2 * enabled_rate_limits(old(self).rule_engine.rules_v()) as int),
            all_room(rows(old(self).shared_stats@), old(self).rule_engine.rules_v().len() as int),
        ensures
            final(self).wf(),
            (rules_view(r.matched@), final(self).rule_engine.counters_v()) == matched_rules(
                old(self).rule_engine.rules_v(),
                *meta,
                raw_data@,
                opt_detail(None),
                old(self).rule_engine.counters_v(),
            ),
            final(self).rule_engine.rules_v() == old(self).rule_engine.rules_v(),
            r.alerts@.len() == r.matched@.len(),
            forall|i: int| 0 <= i < r.alerts@.len() ==> alert_for(#[trigger] r.alerts@[i], r.matched@[i]@, *meta),
            rows(final(self).shared_stats@) == windowed_all(
                rows(old(self).shared_stats@),
                rules_view(r.matched@).map_values(|x: RuleV| x.id@),
                meta.timestamp_secs,
            ),
            final(self).rules == old(self).rules,
            final(self).groups == old(self).groups,
            final(self).alerts == old(self).alerts,
            final(self).rule_stats == old(self).rule_stats,
            final(self).response_executor == old(self).response_executor,
            final(self).app_data_dir == old(self).app_data_dir,
    {
        let ghost n: int = self.rule_engine.rules_v().len() as int;
        let matched = self.rule_engine.evaluate_packet(meta, raw_data, None);
        proof {
            lemma_matched_len(
                old(self).rule_engine.rules_v(),
                *meta,
                raw_data@,
                opt_detail(None),
                old(self).rule_engine.counters_v(),
            );
        }
        let ghost ids = rules_view(matched@).map_values(|x: RuleV| x.id@);
        let ghost start = rows(self.shared_stats@);
        let ghost mlen: int = matched@.len() as int;
        let ghost after_eval = *self;
        assert(all_room(start, mlen)) by {
            assert forall|j: int| 0 <= j < start.len() implies crate::rule::stats::room_for(#[trigger] start[j], mlen) by {
                assert(crate::rule::stats::room_for(start[j], n));
            }
        }
        let mut alerts: Vec<AlertRecord> = Vec::new();
        let mut i: usize = 0;
        assert(ids.take(0) =~= Seq::<Seq<char>>::empty());
        while i < matched.len()
            invariant
                i <= matched@.len(),
                mlen == matched@.len(),
                self.rules == after_eval.rules,
                self.groups == after_eval.groups,
                self.alerts == after_eval.alerts,
                self.rule_stats == after_eval.rule_stats,
                self.rule_engine == after_eval.rule_engine,
                self.response_executor == after_eval.response_executor,
                self.app_data_dir == after_eval.app_data_dir,
                ids == rules_view(matched@).map_values(|x: RuleV| x.id@),
                alerts@.len() == i,
                forall|j: int| 0 <= j < i ==> alert_for(#[trigger] alerts@[j], matched@[j]@, *meta),
                rows(self.shared_stats@) == windowed_all(start, ids.take(i as int), meta.timestamp_secs),
                all_room(rows(self.shared_stats@), mlen - i),
            decreases matched.len() - i,
        {
            let rule = &matched[i];
            let alert = AlertRecord {
                id: generate_alert_id(),
                rule_id: rule.id.clone(),
                rule_name: rule.name.clone(),
                priority: rule.priority,
                packet_no: meta.no,
                timestamp_secs: meta.timestamp_secs,
                timestamp_micros: meta.timestamp_micros,
                match_summary: generate_match_summary(&rule.condition),
                src_addr: meta.src_addr.clone(),
                dst_addr: meta.dst_addr.clone(),
                protocol: String::from_str(meta.protocol.as_str()),
            };
            alerts.push(alert);
            proof {
                assert(ids.take(i + 1).drop_last() =~= ids.take(i as int));
                assert(ids[i as int] == rule.id@);
                lemma_windowed_rows_room(rows(self.shared_stats@), rule.id@, meta.timestamp_secs, mlen - i - 1);
                crate::rule::stats::lemma_first_row(rows(self.shared_stats@), rule.id@);
            }
            record_in_table(&mut self.shared_stats, rule.id.as_str(), meta.timestamp_secs);
            i = i + 1;
        }
        assert(ids.take(i as int) =~= ids);
        PacketVerdict { matched, alerts }
    }
}

} // verus!
