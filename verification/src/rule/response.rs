//! Automated responses to rule matches: cooldowns, the response log, IP bans,
//! and the log entries of webhook and script actions.
use vstd::prelude::*;
use crate::rule::ban_list::{BanListManager, put};
use crate::rule::models::{
    BanEntry, BanTarget, DetectionRule, ResponseConfig, ResponseLogEntry, ResponseResult, texts,
};
use crate::text::{
    chars_of, contains_str, dec_digits, join, lowercase, matches_at, occurs_in, push_decimal,
    same_text, string_of, to_lowercase,
};

verus! {

/// The most response-log entries kept.
pub const MAX_RESPONSE_LOGS: usize = 5000;

// ---------------------------------------------------------------------------
// Identifiers

/// Calls `SystemTime::now` and returns the nanoseconds since the Unix epoch
/// (0 if the clock is before it). Nothing is stated of the value: it is the
/// time.
#[verifier::external_body]
pub(crate) fn current_nanos() -> u128 {
    match std::time::SystemTime::now().duration_since(std::time::UNIX_EPOCH) {
        Ok(d) => d.as_nanos(),
        Err(_) => 0,
    }
}

pub open spec fn dec128(n: nat) -> Seq<char>
    decreases n,
{
    if n >= 10 {
        dec128(n / 10).push(crate::text::hex_char(n % 10))
    } else {
        seq![crate::text::hex_char(n)]
    }
}

pub(crate) fn push_decimal_u128(out: &mut String, n: u128)
    ensures
        final(out)@ == old(out)@ + dec128(n as nat),
    decreases n,
{
    if n >= 10 {
        push_decimal_u128(out, n / 10);
    }
    let d = (n % 10) as u64;
    let mut digit = String::new();
    push_decimal(&mut digit, d);
    proof {
        reveal_strlit("");
        assert(dec_digits(d as nat) =~= seq![crate::text::hex_char(d as nat)]);
    }
    out.append(digit.as_str());
    proof {
        assert(final(out)@ =~= old(out)@ + dec128(n as nat));
    }
}

/// An identifier of a response-log entry: `resp_` and the time in
/// nanoseconds.
pub fn generate_response_id() -> (s: String)
    ensures
        exists|n: nat| s@ == "resp_"@ + #[trigger] dec128(n),
{
    let n = current_nanos();
    let mut s = String::from_str("resp_");
    push_decimal_u128(&mut s, n);
    s
}

// ---------------------------------------------------------------------------
// Cooldowns and the log

/// Last trigger times by rule id.
pub type Times = Seq<(Seq<char>, u64)>;

pub open spec fn times_view(c: Seq<(String, u64)>) -> Times {
    c.map_values(|e: (String, u64)| (e.0@, e.1))
}

/// The position of the first entry for a rule.
pub open spec fn first_match(v: Times, id: Seq<char>) -> Option<int>
    decreases v.len(),
{
    if v.len() == 0 {
        None
    } else if v[0].0 == id {
        Some(0)
    } else {
        match first_match(v.drop_first(), id) {
            Some(j) => Some(j + 1),
            None => None,
        }
    }
}

/// The last trigger time recorded for a rule.
pub open spec fn time_of(v: Times, id: Seq<char>) -> Option<u64>
    decreases v.len(),
{
    if v.len() == 0 {
        None
    } else if v[0].0 == id {
        Some(v[0].1)
    } else {
        time_of(v.drop_first(), id)
    }
}

/// The times after the rule fires at `now`.
pub open spec fn put_time(v: Times, id: Seq<char>, now: u64) -> Times {
    match first_match(v, id) {
        Some(j) => v.update(j, (id, now)),
        None => v.push((id, now)),
    }
}

proof fn lemma_first_match_at(v: Times, id: Seq<char>, k: int)
    requires
        0 <= k <= v.len(),
        forall|m: int| 0 <= m < k ==> (#[trigger] v[m]).0 != id,
    ensures
        k < v.len() && v[k].0 == id ==> first_match(v, id) == Some(k),
        k == v.len() ==> first_match(v, id) is None,
    decreases k,
{
    if k > 0 {
        let d = v.drop_first();
        assert forall|m: int| 0 <= m < k - 1 implies (#[trigger] d[m]).0 != id by {
            assert(d[m] == v[m + 1]);
        }
        lemma_first_match_at(d, id, k - 1);
    }
}

/// After a rule fires at `now`, its last trigger time is `now`, and no other
/// rule's time changes.
pub proof fn lemma_put_time(v: Times, id: Seq<char>, now: u64, k: Seq<char>)
    ensures
        time_of(put_time(v, id, now), k) == if k == id {
            Some(now)
        } else {
            time_of(v, k)
        },
    decreases v.len(),
{
    let p = put_time(v, id, now);
    if v.len() == 0 {
        assert(first_match(v, id) is None);
        assert(p =~= seq![(id, now)]);
        assert(p[0] == (id, now));
        assert(p.drop_first() =~= Seq::<(Seq<char>, u64)>::empty());
        assert(time_of(p.drop_first(), k) is None);
    } else if v[0].0 == id {
        assert(first_match(v, id) == Some(0int));
        assert(p =~= v.update(0, (id, now)));
        assert(p[0] == (id, now));
        assert(p.drop_first() =~= v.drop_first());
    } else {
        let t = v.drop_first();
        lemma_put_time(t, id, now, k);
        lemma_first_match_bound(t, id);
        match first_match(t, id) {
            Some(j) => {
                assert(p =~= v.update(j + 1, (id, now)));
                assert(p.drop_first() =~= t.update(j, (id, now)));
            },
            None => {
                assert(p =~= v.push((id, now)));
                assert(p.drop_first() =~= t.push((id, now)));
            },
        }
        assert(p[0] == v[0]);
        assert(p.drop_first() =~= put_time(t, id, now));
    }
}

proof fn lemma_first_match_bound(v: Times, id: Seq<char>)
    ensures
        first_match(v, id) matches Some(j) ==> 0 <= j < v.len() && v[j].0 == id,
    decreases v.len(),
{
    if v.len() > 0 && v[0].0 != id {
        lemma_first_match_bound(v.drop_first(), id);
    }
}

/// Whether fewer than `cooldown` seconds passed since the rule last fired (a
/// time before the last firing counts as none passed).
pub open spec fn in_cooldown(v: Times, id: Seq<char>, now: u64, cooldown: u64) -> bool {
    match time_of(v, id) {
        Some(t) => (if now >= t {
            now - t
        } else {
            0
        }) < cooldown,
        None => false,
    }
}

/// The log after one more entry: at the cap the 100 oldest go first.
pub open spec fn logged(logs: Seq<ResponseLogEntry>, e: ResponseLogEntry) -> Seq<ResponseLogEntry> {
    if logs.len() >= MAX_RESPONSE_LOGS {
        logs.skip(100).push(e)
    } else {
        logs.push(e)
    }
}

/// Runs the responses of matched rules and keeps their log.
pub struct ResponseExecutor {
    pub logs: Vec<ResponseLogEntry>,
    pub ban_list: BanListManager,
    pub response_config: ResponseConfig,
    pub cooldown_map: Vec<(String, u64)>,
}

impl ResponseExecutor {
    pub open spec fn wf(&self) -> bool {
        &&& self.ban_list.wf()
        &&& self.logs@.len() <= MAX_RESPONSE_LOGS
    }

    pub fn new(ban_list: BanListManager, config: ResponseConfig) -> (r: Self)
        requires
            ban_list.wf(),
        ensures
            r.wf(),
            r.logs@.len() == 0,
            r.ban_list == ban_list,
            r.response_config == config,
            r.cooldown_map@.len() == 0,
    {
        ResponseExecutor { logs: Vec::new(), ban_list, response_config: config, cooldown_map: Vec::new() }
    }

    fn find_rule(&self, rule_id: &str) -> (r: Option<usize>)
        ensures
            match r {
                Some(j) => first_match(times_view(self.cooldown_map@), rule_id@) == Some(j as int) && j < self.cooldown_map@.len(),
                None => first_match(times_view(self.cooldown_map@), rule_id@) is None,
            },
    {
        let ghost v = times_view(self.cooldown_map@);
        let mut i: usize = 0;
        while i < self.cooldown_map.len()
            invariant
                i <= self.cooldown_map@.len(),
                v == times_view(self.cooldown_map@),
                forall|m: int| 0 <= m < i ==> (#[trigger] v[m]).0 != rule_id@,
            decreases self.cooldown_map.len() - i,
        {
            assert(v[i as int] == (self.cooldown_map@[i as int].0@, self.cooldown_map@[i as int].1));
            if same_text(self.cooldown_map[i].0.as_str(), rule_id) {
                proof {
                    lemma_first_match_at(v, rule_id@, i as int);
                }
                return Some(i);
            }
            i = i + 1;
        }
        proof {
            lemma_first_match_at(v, rule_id@, i as int);
        }
        None
    }

    /// Whether the rule fired less than `cooldown_secs` ago.
    pub fn check_cooldown(&self, rule_id: &str, now: u64, cooldown_secs: u64) -> (r: bool)
        ensures
            r == in_cooldown(times_view(self.cooldown_map@), rule_id@, now, cooldown_secs),
    {
        let ghost v = times_view(self.cooldown_map@);
        let mut i: usize = 0;
        assert(v.skip(0) =~= v);
        while i < self.cooldown_map.len()
            invariant
                i <= self.cooldown_map@.len(),
                v == times_view(self.cooldown_map@),
                time_of(v, rule_id@) == time_of(v.skip(i as int), rule_id@),
            decreases self.cooldown_map.len() - i,
        {
            let ghost s = v.skip(i as int);
            assert(s.drop_first() =~= v.skip(i as int + 1));
            assert(s[0] == (self.cooldown_map@[i as int].0@, self.cooldown_map@[i as int].1));
            if same_text(self.cooldown_map[i].0.as_str(), rule_id) {
                let last = self.cooldown_map[i].1;
                return now.saturating_sub(last) < cooldown_secs;
            }
            i = i + 1;
        }
        assert(v.skip(i as int) =~= Seq::<(Seq<char>, u64)>::empty());
        false
    }

    /// Records that the rule fired at `now`.
    pub fn update_cooldown(&mut self, rule_id: &str, now: u64)
        requires
            old(self).wf(),
        ensures
            final(self).wf(),
            times_view(final(self).cooldown_map@) == put_time(times_view(old(self).cooldown_map@), rule_id@, now),
            final(self).logs == old(self).logs,
            final(self).ban_list == old(self).ban_list,
            final(self).response_config == old(self).response_config,
    {
        let entry = (String::from_str(rule_id), now);
        match self.find_rule(rule_id) {
            Some(j) => {
                self.cooldown_map.set(j, entry);
            },
            None => {
                self.cooldown_map.push(entry);
            },
        }
        assert(times_view(self.cooldown_map@) =~= put_time(times_view(old(self).cooldown_map@), rule_id@, now));
    }

    /// Adds an entry to the log; at the cap the 100 oldest entries go first.
    pub fn add_log(&mut self, entry: ResponseLogEntry)
        requires
            old(self).wf(),
        ensures
            final(self).wf(),
            final(self).logs@ == logged(old(self).logs@, entry),
            final(self).cooldown_map == old(self).cooldown_map,
            final(self).ban_list == old(self).ban_list,
            final(self).response_config == old(self).response_config,
    {
        if self.logs.len() >= MAX_RESPONSE_LOGS {
            let mut kept: Vec<ResponseLogEntry> = Vec::new();
            let mut i: usize = 100;
            while i < self.logs.len()
                invariant
                    100 <= i <= self.logs@.len(),
                    kept@ == self.logs@.subrange(100, i as int),
                decreases self.logs.len() - i,
            {
                kept.push(self.logs[i].clone());
                i = i + 1;
            }
            assert(kept@ =~= self.logs@.skip(100));
            self.logs = kept;
        }
        self.logs.push(entry);
    }

    /// The log, newest first.
    pub fn get_logs(&self) -> (r: Vec<ResponseLogEntry>)
        ensures
            r@ == self.logs@.reverse(),
    {
        let mut r: Vec<ResponseLogEntry> = Vec::new();
        let n = self.logs.len();
        let mut i: usize = n;
        while i > 0
            invariant
                i <= n,
                n == self.logs@.len(),
                r@ == self.logs@.subrange(i as int, n as int).reverse(),
            decreases i,
        {
            i = i - 1;
            r.push(self.logs[i].clone());
            assert(r@ =~= self.logs@.subrange(i as int, n as int).reverse());
        }
        assert(self.logs@.subrange(0, n as int) =~= self.logs@);
        r
    }

    /// Empties the log.
    pub fn clear_logs(&mut self)
        requires
            old(self).wf(),
        ensures
            final(self).wf(),
            final(self).logs@.len() == 0,
            final(self).cooldown_map == old(self).cooldown_map,
            final(self).ban_list == old(self).ban_list,
            final(self).response_config == old(self).response_config,
    {
        self.logs.clear();
    }
}

// ---------------------------------------------------------------------------
// Filtering the log

/// Whether an entry passes the filter: the rule name contains the given text
/// (case aside; an empty text passes all), and the trigger time lies within
/// the given bounds.
pub open spec fn log_selected(e: ResponseLogEntry, name: Seq<char>, from: Option<u64>, to: Option<u64>) -> bool {
    &&& (name.len() == 0 || occurs_in(lowercase(e.rule_name@), lowercase(name)))
    &&& (from matches Some(f) ==> e.trigger_time >= f)
    &&& (to matches Some(t) ==> e.trigger_time <= t)
}

pub open spec fn select_logs(s: Seq<ResponseLogEntry>, name: Seq<char>, from: Option<u64>, to: Option<u64>) -> Seq<
    ResponseLogEntry,
>
    decreases s.len(),
{
    if s.len() == 0 {
        Seq::empty()
    } else {
        let r = select_logs(s.drop_last(), name, from, to);
        if log_selected(s.last(), name, from, to) {
            r.push(s.last())
        } else {
            r
        }
    }
}

impl ResponseExecutor {
    /// The entries that pass the filter, newest first.
    pub fn filter_logs(&self, rule_name: &str, time_from: Option<u64>, time_to: Option<u64>) -> (r: Vec<
        ResponseLogEntry,
    >)
        ensures
            r@ == select_logs(self.logs@.reverse(), rule_name@, time_from, time_to),
    {
        let all = self.get_logs();
        let needle = to_lowercase(rule_name);
        let mut r: Vec<ResponseLogEntry> = Vec::new();
        let mut i: usize = 0;
        assert(all@.take(0) =~= Seq::<ResponseLogEntry>::empty());
        while i < all.len()
            invariant
                i <= all@.len(),
                needle@ == lowercase(rule_name@),
                r@ == select_logs(all@.take(i as int), rule_name@, time_from, time_to),
            decreases all.len() - i,
        {
            let log = &all[i];
            let ghost t = all@.take(i as int + 1);
            assert(t.drop_last() =~= all@.take(i as int));
            assert(t.last() == *log);
            let mut keep = true;
            if rule_name.unicode_len() != 0 {
                let name = to_lowercase(log.rule_name.as_str());
                if !contains_str(name.as_str(), needle.as_str()) {
                    keep = false;
                }
            }
            match time_from {
                Some(from) => {
                    if log.trigger_time < from {
                        keep = false;
                    }
                },
                None => {},
            }
            match time_to {
                Some(to) => {
                    if log.trigger_time > to {
                        keep = false;
                    }
                },
                None => {},
            }
            if keep {
                r.push(log.clone());
            }
            i = i + 1;
        }
        assert(all@.take(i as int) =~= all@);
        r
    }
}

// ---------------------------------------------------------------------------
// Script arguments

/// `str::replace`: every occurrence of the (non-empty) pattern, from the left
/// and not overlapping, replaced.
pub open spec fn replace_all(s: Seq<char>, p: Seq<char>, r: Seq<char>) -> Seq<char>
    decreases s.len(),
{
    if s.len() == 0 {
        Seq::empty()
    } else if p.len() > 0 && p.len() <= s.len() && s.subrange(0, p.len() as int) == p {
        r + replace_all(s.skip(p.len() as int), p, r)
    } else {
        seq![s[0]] + replace_all(s.drop_first(), p, r)
    }
}

fn replace_text(s: &str, p: &str, r: &str) -> (out: String)
    requires
        p@.len() > 0,
    ensures
        out@ == replace_all(s@, p@, r@),
{
    let cs = chars_of(s);
    let ps = chars_of(p);
    let mut out = String::new();
    let mut i: usize = 0;
    proof {
        reveal_strlit("");
        assert(cs@.skip(0) =~= cs@);
    }
    while i < cs.len()
        invariant
            i <= cs@.len(),
            ps@ == p@,
            ps@.len() > 0,
            cs@ == s@,
            out@ + replace_all(cs@.skip(i as int), ps@, r@) == replace_all(s@, p@, r@),
        decreases cs.len() - i,
    {
        let ghost rest = cs@.skip(i as int);
        if matches_at(&cs, &ps, i) {
            assert(rest.subrange(0, ps@.len() as int) =~= cs@.subrange(i as int, i + ps@.len()));
            assert(rest.skip(ps@.len() as int) =~= cs@.skip(i + ps@.len()));
            let ghost before = out@;
            out.append(r);
            assert(before + replace_all(rest, ps@, r@) =~= out@ + replace_all(cs@.skip(i + ps@.len()), ps@, r@));
            i = i + ps.len();
        } else {
            assert(!(ps@.len() <= rest.len() && rest.subrange(0, ps@.len() as int) == ps@)) by {
                if ps@.len() <= rest.len() && rest.subrange(0, ps@.len() as int) == ps@ {
                    assert(cs@.subrange(i as int, i + ps@.len()) =~= rest.subrange(0, ps@.len() as int));
                }
            }
            assert(rest.drop_first() =~= cs@.skip(i + 1));
            let ghost before = out@;
            crate::text::push_char(&mut out, cs[i]);
            assert(before + replace_all(rest, ps@, r@) =~= out@ + replace_all(cs@.skip(i + 1), ps@, r@));
            i = i + 1;
        }
    }
    assert(cs@.skip(i as int) =~= Seq::<char>::empty());
    assert(out@ + Seq::<char>::empty() =~= out@);
    out
}

/// The script arguments with `$SRC_IP`, `$DST_IP`, `$PROTOCOL`, `$RULE_NAME`
/// and `$TIMESTAMP` filled in, in that order.
pub open spec fn template_text(
    t: Seq<char>,
    src: Seq<char>,
    dst: Seq<char>,
    protocol: Seq<char>,
    rule_name: Seq<char>,
    ts: u64,
) -> Seq<char> {
    replace_all(
        replace_all(
            replace_all(replace_all(replace_all(t, "$SRC_IP"@, src), "$DST_IP"@, dst), "$PROTOCOL"@, protocol),
            "$RULE_NAME"@,
            rule_name,
        ),
        "$TIMESTAMP"@,
        dec_digits(ts as nat),
    )
}

pub fn resolve_template_vars(
    template: &str,
    src_ip: &str,
    dst_ip: &str,
    protocol: &str,
    rule_name: &str,
    timestamp: u64,
) -> (s: String)
    ensures
        s@ == template_text(template@, src_ip@, dst_ip@, protocol@, rule_name@, timestamp),
{
    proof {
        reveal_strlit("$SRC_IP");
        reveal_strlit("$DST_IP");
        reveal_strlit("$PROTOCOL");
        reveal_strlit("$RULE_NAME");
        reveal_strlit("$TIMESTAMP");
        reveal_strlit("");
    }
    let a = replace_text(template, "$SRC_IP", src_ip);
    let b = replace_text(a.as_str(), "$DST_IP", dst_ip);
    let c = replace_text(b.as_str(), "$PROTOCOL", protocol);
    let d = replace_text(c.as_str(), "$RULE_NAME", rule_name);
    let mut ts = String::new();
    push_decimal(&mut ts, timestamp);
    replace_text(d.as_str(), "$TIMESTAMP", ts.as_str())
}

// ---------------------------------------------------------------------------
// Running a chain of responses

/// A log entry of an action of the rule.
pub open spec fn entry_of(
    e: ResponseLogEntry,
    rule: DetectionRule,
    ts: u64,
    action: Seq<char>,
    result: ResponseResult,
    duration_ms: u64,
    detail: Option<Seq<char>>,
) -> bool {
    &&& e.trigger_time == ts
    &&& e.rule_id == rule.id
    &&& e.rule_name == rule.name
    &&& e.action_type@ == action
    &&& e.result == result
    &&& e.duration_ms == duration_ms
    &&& crate::protocol::parser::opt_chars(e.detail) == detail
    &&& exists|n: nat| e.id@ == "resp_"@ + #[trigger] dec128(n)
}

fn make_entry(
    rule: &DetectionRule,
    ts: u64,
    action: &str,
    result: ResponseResult,
    duration_ms: u64,
    detail: Option<String>,
) -> (e: ResponseLogEntry)
    ensures
        entry_of(e, *rule, ts, action@, result, duration_ms, crate::protocol::parser::opt_chars(detail)),
{
    ResponseLogEntry {
        id: generate_response_id(),
        trigger_time: ts,
        rule_id: rule.id.clone(),
        rule_name: rule.name.clone(),
        action_type: String::from_str(action),
        result,
        duration_ms,
        detail,
    }
}

/// The cooldown of a rule: its own, or the configured default where it has
/// none.
pub open spec fn cooldown_for(rule: DetectionRule, cfg: ResponseConfig) -> u64 {
    if rule.cooldown_secs > 0 {
        rule.cooldown_secs
    } else {
        cfg.default_cooldown_secs
    }
}

impl ResponseExecutor {
    /// Starts the response chain of a matched rule at `timestamp_secs`: a rule
    /// without responses does nothing; a rule in its cooldown gets one
    /// skipped entry, logged; otherwise the cooldown restarts and the
    /// actions are to run (the returned flag).
    pub fn start_response_chain(&mut self, rule: &DetectionRule, timestamp_secs: u64) -> (r: (
        Vec<ResponseLogEntry>,
        bool,
    ))
        requires
            old(self).wf(),
        ensures
            final(self).wf(),
            final(self).ban_list == old(self).ban_list,
            final(self).response_config == old(self).response_config,
            rule.response_actions@.len() == 0 ==> r.0@.len() == 0 && !r.1 && final(self).logs == old(self).logs
                && final(self).cooldown_map == old(self).cooldown_map,
            rule.response_actions@.len() > 0 && in_cooldown(
                times_view(old(self).cooldown_map@),
                rule.id@,
                timestamp_secs,
                cooldown_for(*rule, old(self).response_config),
            ) ==> {
                &&& !r.1
                &&& r.0@.len() == 1
                &&& entry_of(
                    r.0@[0],
                    *rule,
                    timestamp_secs,
                    "chain"@,
                    ResponseResult::CooldownSkipped,
                    0,
                    Some("冷却中("@ + dec_digits(cooldown_for(*rule, old(self).response_config) as nat) + "s)"@),
                )
                &&& final(self).logs@ == logged(old(self).logs@, r.0@[0])
                &&& final(self).cooldown_map == old(self).cooldown_map
            },
            rule.response_actions@.len() > 0 && !in_cooldown(
                times_view(old(self).cooldown_map@),
                rule.id@,
                timestamp_secs,
                cooldown_for(*rule, old(self).response_config),
            ) ==> {
                &&& r.1
                &&& r.0@.len() == 0
                &&& final(self).logs == old(self).logs
                &&& times_view(final(self).cooldown_map@) == put_time(
                    times_view(old(self).cooldown_map@),
                    rule.id@,
                    timestamp_secs,
                )
            },
    {
        let mut entries: Vec<ResponseLogEntry> = Vec::new();
        if rule.response_actions.len() == 0 {
            return (entries, false);
        }
        let cooldown = if rule.cooldown_secs > 0 {
            rule.cooldown_secs
        } else {
            self.response_config.default_cooldown_secs
        };
        if self.check_cooldown(rule.id.as_str(), timestamp_secs, cooldown) {
            let mut detail = String::from_str("冷却中(");
            push_decimal(&mut detail, cooldown);
            detail.append("s)");
            let entry = make_entry(rule, timestamp_secs, "chain", ResponseResult::CooldownSkipped, 0, Some(detail));
            entries.push(entry.clone());
            self.add_log(entry);
            return (entries, false);
        }
        self.update_cooldown(rule.id.as_str(), timestamp_secs);
        (entries, true)
    }

    /// The timeout of a webhook: its own, or the configured default.
    pub fn webhook_timeout(&self, timeout_secs: u64) -> (t: u64)
        ensures
            t == if timeout_secs > 0 {
                timeout_secs
            } else {
                self.response_config.webhook_default_timeout_secs
            },
    {
        if timeout_secs > 0 {
            timeout_secs
        } else {
            self.response_config.webhook_default_timeout_secs
        }
    }
}

/// How a webhook request went.
pub enum WebhookOutcome {
    /// The server answered with this status.
    Status(u16),
    /// Sending failed; whether it timed out, and the error's text.
    SendError { timed_out: bool, message: String },
    /// The client could not be built; the error's text.
    ClientError(String),
}

/// The result and detail of a webhook: a 2xx status succeeds.
pub open spec fn webhook_result(o: WebhookOutcome) -> (ResponseResult, Seq<char>) {
    match o {
        WebhookOutcome::Status(s) => (
            if 200 <= s && s <= 299 {
                ResponseResult::Success
            } else {
                ResponseResult::Failed
            },
            "HTTP "@ + dec_digits(s as nat),
        ),
        WebhookOutcome::SendError { timed_out, message } => if timed_out {
            (ResponseResult::Timeout, "请求超时: "@ + message@)
        } else {
            (ResponseResult::Failed, "请求失败: "@ + message@)
        },
        WebhookOutcome::ClientError(m) => (ResponseResult::Failed, "创建HTTP客户端失败: "@ + m@),
    }
}

/// The log entry of a webhook action.
pub fn webhook_log_entry(rule: &DetectionRule, outcome: &WebhookOutcome, timestamp_secs: u64, duration_ms: u64) -> (e:
    ResponseLogEntry)
    ensures
        entry_of(
            e,
            *rule,
            timestamp_secs,
            "webhook"@,
            webhook_result(*outcome).0,
            duration_ms,
            Some(webhook_result(*outcome).1),
        ),
{
    let (result, detail) = match outcome {
        WebhookOutcome::Status(s) => {
            let mut d = String::from_str("HTTP ");
            push_decimal(&mut d, *s as u64);
            (if *s >= 200 && *s <= 299 {
                ResponseResult::Success
            } else {
                ResponseResult::Failed
            }, d)
        },
        WebhookOutcome::SendError { timed_out, message } => {
            if *timed_out {
                let mut d = String::from_str("请求超时: ");
                d.append(message.as_str());
                (ResponseResult::Timeout, d)
            } else {
                let mut d = String::from_str("请求失败: ");
                d.append(message.as_str());
                (ResponseResult::Failed, d)
            }
        },
        WebhookOutcome::ClientError(m) => {
            let mut d = String::from_str("创建HTTP客户端失败: ");
            d.append(m.as_str());
            (ResponseResult::Failed, d)
        },
    };
    make_entry(rule, timestamp_secs, "webhook", result, duration_ms, Some(detail))
}

/// The addresses an IP ban applies to: the source, the destination, or both
/// (each only if non-empty, the destination only if it differs).
pub open spec fn ban_targets_spec(target: BanTarget, src: Seq<char>, dst: Seq<char>) -> Seq<Seq<char>> {
    match target {
        BanTarget::Src => seq![src],
        BanTarget::Dst => seq![dst],
        BanTarget::Either => (if src.len() > 0 {
            seq![src]
        } else {
            Seq::empty()
        }) + (if dst.len() > 0 && dst != src {
            seq![dst]
        } else {
            Seq::empty()
        }),
    }
}

pub fn ban_targets(target: BanTarget, src_addr: &str, dst_addr: &str) -> (r: Vec<String>)
    ensures
        texts(r@) == ban_targets_spec(target, src_addr@, dst_addr@),
{
    let mut r: Vec<String> = Vec::new();
    match target {
        BanTarget::Src => r.push(String::from_str(src_addr)),
        BanTarget::Dst => r.push(String::from_str(dst_addr)),
        BanTarget::Either => {
            if src_addr.unicode_len() != 0 {
                r.push(String::from_str(src_addr));
            }
            if dst_addr.unicode_len() != 0 && !same_text(dst_addr, src_addr) {
                r.push(String::from_str(dst_addr));
            }
        },
    }
    assert(texts(r@) =~= ban_targets_spec(target, src_addr@, dst_addr@));
    r
}

impl ResponseExecutor {
    /// Bans one address for the rule, as of `timestamp_secs`.
    pub fn ban_address(&mut self, rule: &DetectionRule, ip: &str, expire_minutes: u64, timestamp_secs: u64) -> (e:
        BanEntry)
        requires
            old(self).wf(),
        ensures
            final(self).wf(),
            e.ip@ == ip@ && e.ban_time == timestamp_secs && e.rule_id == rule.id && e.rule_name == rule.name
                && e.expire_minutes == expire_minutes,
            final(self).ban_list.entries@ == put(old(self).ban_list.entries@, e),
            final(self).ban_list.file_path == old(self).ban_list.file_path,
            final(self).logs == old(self).logs,
            final(self).cooldown_map == old(self).cooldown_map,
            final(self).response_config == old(self).response_config,
    {
        let entry = BanEntry {
            ip: String::from_str(ip),
            ban_time: timestamp_secs,
            rule_id: rule.id.clone(),
            rule_name: rule.name.clone(),
            expire_minutes,
        };
        let copy = entry.clone();
        self.ban_list.add_entry(entry);
        copy
    }
}

/// The result and detail of an IP ban: success with the banned addresses, or
/// a partial failure with the errors.
pub open spec fn ban_result(banned: Seq<Seq<char>>, errors: Seq<Seq<char>>) -> (ResponseResult, Seq<char>) {
    if errors.len() == 0 {
        (ResponseResult::Success, "封禁IP: "@ + join(banned, ", "@))
    } else {
        (ResponseResult::Failed, "部分失败: "@ + join(errors, "; "@))
    }
}

/// The log entry of an IP-ban action.
pub fn ip_ban_log_entry(
    rule: &DetectionRule,
    banned: &Vec<String>,
    errors: &Vec<String>,
    timestamp_secs: u64,
    duration_ms: u64,
) -> (e: ResponseLogEntry)
    ensures
        entry_of(
            e,
            *rule,
            timestamp_secs,
            "ip_ban"@,
            ban_result(texts(banned@), texts(errors@)).0,
            duration_ms,
            Some(ban_result(texts(banned@), texts(errors@)).1),
        ),
{
    let (result, detail) = if errors.len() == 0 {
        let mut d = String::from_str("封禁IP: ");
        let j = crate::replay::generator::join_strings(banned, ", ");
        assert(texts(banned@) =~= crate::replay::generator::strings_view(banned@));
        d.append(j.as_str());
        (ResponseResult::Success, d)
    } else {
        let mut d = String::from_str("部分失败: ");
        let j = crate::replay::generator::join_strings(errors, "; ");
        assert(texts(errors@) =~= crate::replay::generator::strings_view(errors@));
        d.append(j.as_str());
        (ResponseResult::Failed, d)
    };
    make_entry(rule, timestamp_secs, "ip_ban", result, duration_ms, Some(detail))
}

/// How a script run went.
pub enum ScriptOutcome {
    /// The script ran: whether it exited successfully, its exit code if any,
    /// and its output streams as text.
    Exited { success: bool, code: Option<i32>, stdout: String, stderr: String },
    /// The script could not be run: whether the time limit had passed, and the
    /// error's text.
    NotRun { timed_out: bool, message: String },
}

/// At most the first 200 characters.
pub open spec fn first200(s: Seq<char>) -> Seq<char> {
    if s.len() <= 200 {
        s
    } else {
        s.take(200)
    }
}

pub open spec fn int_text(i: int) -> Seq<char> {
    if i < 0 {
        "-"@ + dec_digits((-i) as nat)
    } else {
        dec_digits(i as nat)
    }
}

/// The result and detail of a script action: its output on success, the exit
/// code (-1 where there is none) and error output on failure.
pub open spec fn script_result(o: ScriptOutcome) -> (ResponseResult, Seq<char>) {
    match o {
        ScriptOutcome::Exited { success, code, stdout, stderr } => if success {
            (ResponseResult::Success, first200(stdout@))
        } else {
            (
                ResponseResult::Failed,
                "退出码: "@ + int_text(
                    match code {
                        Some(c) => c as int,
                        None => -1,
                    },
                ) + ", stderr: "@ + first200(stderr@),
            )
        },
        ScriptOutcome::NotRun { timed_out, message } => (
            if timed_out {
                ResponseResult::Timeout
            } else {
                ResponseResult::Failed
            },
            "执行失败: "@ + message@,
        ),
    }
}

fn first_200(s: &String) -> (r: String)
    ensures
        r@ == first200(s@),
{
    let cs = chars_of(s.as_str());
    if cs.len() <= 200 {
        string_of(&cs)
    } else {
        let part = crate::text::copy_range(&cs, 0, 200);
        assert(part@ =~= s@.take(200));
        string_of(&part)
    }
}

fn push_int(out: &mut String, i: i32)
    ensures
        final(out)@ == old(out)@ + int_text(i as int),
{
    if i < 0 {
        out.append("-");
        let m: i64 = -(i as i64);
        push_decimal(out, m as u64);
        proof {
            reveal_strlit("-");
            assert(final(out)@ =~= old(out)@ + int_text(i as int));
        }
    } else {
        push_decimal(out, i as u64);
    }
}

/// The time limit of a script run: its own, or 30 seconds.
pub fn script_timeout_secs(timeout_secs: u64) -> (t: u64)
    ensures
        t == if timeout_secs > 0 {
            timeout_secs
        } else {
            30
        },
{
    if timeout_secs > 0 {
        timeout_secs
    } else {
        30
    }
}

/// The log entry of a script whose path lies outside the allowed directories.
pub fn script_denied_log_entry(rule: &DetectionRule, timestamp_secs: u64, duration_ms: u64) -> (e: ResponseLogEntry)
    ensures
        entry_of(
            e,
            *rule,
            timestamp_secs,
            "script_exec"@,
            ResponseResult::Failed,
            duration_ms,
            Some("脚本路径不在白名单目录内"@),
        ),
{
    make_entry(
        rule,
        timestamp_secs,
        "script_exec",
        ResponseResult::Failed,
        duration_ms,
        Some(String::from_str("脚本路径不在白名单目录内")),
    )
}

/// The log entry of a script action that ran or failed to run.
pub fn script_log_entry(rule: &DetectionRule, outcome: &ScriptOutcome, timestamp_secs: u64, duration_ms: u64) -> (e:
    ResponseLogEntry)
    ensures
        entry_of(
            e,
            *rule,
            timestamp_secs,
            "script_exec"@,
            script_result(*outcome).0,
            duration_ms,
            Some(script_result(*outcome).1),
        ),
{
    let (result, detail) = match outcome {
        ScriptOutcome::Exited { success, code, stdout, stderr } => {
            if *success {
                (ResponseResult::Success, first_200(stdout))
            } else {
                let mut d = String::from_str("退出码: ");
                let c: i32 = match code {
                    Some(c) => *c,
                    None => -1,
                };
                push_int(&mut d, c);
                d.append(", stderr: ");
                let e = first_200(stderr);
                d.append(e.as_str());
                (ResponseResult::Failed, d)
            }
        },
        ScriptOutcome::NotRun { timed_out, message } => {
            let mut d = String::from_str("执行失败: ");
            d.append(message.as_str());
            (if *timed_out {
                ResponseResult::Timeout
            } else {
                ResponseResult::Failed
            }, d)
        },
    };
    make_entry(rule, timestamp_secs, "script_exec", result, duration_ms, Some(detail))
}

// ---------------------------------------------------------------------------
// Script directories

/// The components of a path, each as its bytes.
pub open spec fn parts_view(v: Seq<Vec<u8>>) -> Seq<Seq<u8>> {
    v.map_values(|c: Vec<u8>| c@)
}

/// A path lies under a directory when the directory's components are the
/// first components of the path (as `Path::starts_with` compares them).
pub open spec fn under(path: Seq<Seq<u8>>, dir: Seq<Seq<u8>>) -> bool {
    dir.len() <= path.len() && path.take(dir.len() as int) == dir
}

fn same_bytes(a: &Vec<u8>, b: &Vec<u8>) -> (r: bool)
    ensures
        r == (a@ == b@),
{
    if a.len() != b.len() {
        return false;
    }
    let mut i: usize = 0;
    while i < a.len()
        invariant
            i <= a@.len(),
            a@.len() == b@.len(),
            forall|j: int| 0 <= j < i ==> a@[j] == b@[j],
        decreases a.len() - i,
    {
        if a[i] != b[i] {
            return false;
        }
        i = i + 1;
    }
    assert(a@ =~= b@);
    true
}

/// Whether the path lies under the directory, both given by their
/// components as the file system resolved them.
pub fn path_under(path: &Vec<Vec<u8>>, dir: &Vec<Vec<u8>>) -> (b: bool)
    ensures
        b == under(parts_view(path@), parts_view(dir@)),
{
    if dir.len() > path.len() {
        return false;
    }
    let mut i: usize = 0;
    while i < dir.len()
        invariant
            i <= dir@.len(),
            dir@.len() <= path@.len(),
            forall|j: int| 0 <= j < i ==> path@[j]@ == dir@[j]@,
        decreases dir.len() - i,
    {
        if !same_bytes(&path[i], &dir[i]) {
            assert(parts_view(path@).take(dir@.len() as int)[i as int] != parts_view(dir@)[i as int]);
            return false;
        }
        i = i + 1;
    }
    assert(parts_view(path@).take(dir@.len() as int) =~= parts_view(dir@));
    true
}

/// A resolved directory allows the paths under it; an unresolved one none.
pub open spec fn allows(dir: Option<Vec<Vec<u8>>>, path: Seq<Seq<u8>>) -> bool {
    match dir {
        Some(d) => under(path, parts_view(d@)),
        None => false,
    }
}

/// Whether the script path lies under one of the allowed directories; a
/// directory that could not be resolved is given as `None` and allows
/// nothing.
pub fn script_allowed(path: &Vec<Vec<u8>>, dirs: &Vec<Option<Vec<Vec<u8>>>>) -> (b: bool)
    ensures
        b == exists|j: int| 0 <= j < dirs@.len() && allows(#[trigger] dirs@[j], parts_view(path@)),
{
    let mut j: usize = 0;
    while j < dirs.len()
        invariant
            j <= dirs@.len(),
            forall|k: int| 0 <= k < j ==> !allows(#[trigger] dirs@[k], parts_view(path@)),
        decreases dirs.len() - j,
    {
        match &dirs[j] {
            Some(d) => {
                if path_under(path, d) {
                    assert(allows(dirs@[j as int], parts_view(path@)));
                    return true;
                }
            },
            None => {},
        }
        j = j + 1;
    }
    false
}

} // verus!
