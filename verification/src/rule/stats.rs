//! Trigger statistics of rules: counting triggers, the sliding day window
//! of the worker's counts, and merging the two tables for display.
use vstd::prelude::*;
use crate::rule::models::{RuleStats, StatsV};
use crate::text::same_text;

verus! {

/// The statistics of a rule as plain values.
pub struct StatRow {
    pub rule_id: Seq<char>,
    pub total_triggers: u64,
    pub triggers_last_24h: u64,
    pub last_24h_triggers: u64,
    pub first_trigger_time: Option<u64>,
    pub last_trigger_time: Option<u64>,
    pub last_24h_window_start: u64,
    pub recent_triggers: Seq<u64>,
}

pub open spec fn row(v: StatsV) -> StatRow {
    StatRow {
        rule_id: v.rule_id@,
        total_triggers: v.total_triggers,
        triggers_last_24h: v.triggers_last_24h,
        last_24h_triggers: v.last_24h_triggers,
        first_trigger_time: v.first_trigger_time,
        last_trigger_time: v.last_trigger_time,
        last_24h_window_start: v.last_24h_window_start,
        recent_triggers: v.recent_triggers,
    }
}

pub open spec fn rows(s: Seq<RuleStats>) -> Seq<StatRow> {
    s.map_values(|x: RuleStats| row(x@))
}

/// Empty statistics of a rule.
pub open spec fn fresh_row(id: Seq<char>) -> StatRow {
    StatRow {
        rule_id: id,
        total_triggers: 0,
        triggers_last_24h: 0,
        last_24h_triggers: 0,
        first_trigger_time: None,
        last_trigger_time: None,
        last_24h_window_start: 0,
        recent_triggers: Seq::empty(),
    }
}

/// The index of the first row of the rule, or -1.
pub open spec fn first_row(v: Seq<StatRow>, id: Seq<char>) -> int
    decreases v.len(),
{
    if v.len() == 0 {
        -1
    } else {
        let k = first_row(v.drop_last(), id);
        if k >= 0 {
            k
        } else if v.last().rule_id == id {
            v.len() - 1
        } else {
            -1
        }
    }
}

pub proof fn lemma_first_row(v: Seq<StatRow>, id: Seq<char>)
    ensures
        -1 <= first_row(v, id) < v.len(),
        first_row(v, id) >= 0 ==> v[first_row(v, id)].rule_id == id,
        forall|j: int| 0 <= j < v.len() && v[j].rule_id == id ==> first_row(v, id) >= 0 && first_row(v, id) <= j,
    decreases v.len(),
{
    if v.len() > 0 {
        lemma_first_row(v.drop_last(), id);
        assert forall|j: int| 0 <= j < v.len() && v[j].rule_id == id implies first_row(v, id) >= 0 && first_row(v, id) <= j by {
            if j < v.len() - 1 {
                assert(v.drop_last()[j] == v[j]);
            }
        }
    }
}

proof fn lemma_first_row_prefix(v: Seq<StatRow>, id: Seq<char>, i: int, j: int)
    requires
        0 <= i <= j <= v.len(),
        first_row(v.take(i), id) >= 0,
    ensures
        first_row(v.take(j), id) == first_row(v.take(i), id),
    decreases j - i,
{
    if j > i {
        lemma_first_row_prefix(v, id, i, j - 1);
        assert(v.take(j).drop_last() =~= v.take(j - 1));
    }
}

proof fn lemma_first_row_none(v: Seq<StatRow>, id: Seq<char>, i: int)
    requires
        0 <= i <= v.len(),
        first_row(v.take(i), id) == -1,
        forall|j: int| i <= j < v.len() ==> (#[trigger] v[j]).rule_id != id,
    ensures
        first_row(v, id) == -1,
    decreases v.len() - i,
{
    if i < v.len() {
        assert(v.take(i + 1).drop_last() =~= v.take(i));
        lemma_first_row_none(v, id, i + 1);
    } else {
        assert(v.take(i) =~= v);
    }
}

/// The index of the first entry of the rule, or the length when there is none.
fn find_row(stats: &Vec<RuleStats>, id: &str) -> (i: usize)
    ensures
        i <= stats@.len(),
        i == stats@.len() <==> first_row(rows(stats@), id@) == -1,
        i < stats@.len() ==> first_row(rows(stats@), id@) == i,
{
    let ghost v = rows(stats@);
    let mut i: usize = 0;
    assert(v.take(0) =~= Seq::<StatRow>::empty());
    while i < stats.len()
        invariant
            i <= stats@.len(),
            v == rows(stats@),
            first_row(v.take(i as int), id@) == -1,
        ensures
            i <= stats@.len(),
            first_row(v.take(i as int), id@) == -1,
            i < stats@.len() ==> v[i as int].rule_id == id@,
        decreases stats.len() - i,
    {
        assert(v[i as int].rule_id == stats@[i as int].rule_id@);
        if same_text(stats[i].rule_id.as_str(), id) {
            break;
        }
        assert(v.take(i + 1).drop_last() =~= v.take(i as int));
        i = i + 1;
    }
    if i < stats.len() {
        proof {
            assert(v.take(i + 1).drop_last() =~= v.take(i as int));
            lemma_first_row_prefix(v, id@, i + 1, v.len() as int);
            assert(v.take(v.len() as int) =~= v);
        }
    } else {
        assert(v.take(i as int) =~= v);
    }
    i
}

// ---------------------------------------------------------------------------
// Counting a trigger

/// The statistics after a trigger counted at `now`.
pub open spec fn counted(r: StatRow, now: u64) -> StatRow {
    StatRow {
        total_triggers: (r.total_triggers + 1) as u64,
        last_24h_triggers: (r.last_24h_triggers + 1) as u64,
        first_trigger_time: if r.first_trigger_time is None {
            Some(now)
        } else {
            r.first_trigger_time
        },
        last_trigger_time: Some(now),
        ..r
    }
}

/// The times at or after the cutoff, in order.
pub open spec fn since(s: Seq<u64>, cutoff: u64) -> Seq<u64>
    decreases s.len(),
{
    if s.len() == 0 {
        Seq::empty()
    } else if s.last() >= cutoff {
        since(s.drop_last(), cutoff).push(s.last())
    } else {
        since(s.drop_last(), cutoff)
    }
}

proof fn lemma_since_len(s: Seq<u64>, cutoff: u64)
    ensures
        since(s, cutoff).len() <= s.len(),
    decreases s.len(),
{
    if s.len() > 0 {
        lemma_since_len(s.drop_last(), cutoff);
    }
}

/// One day, in seconds.
pub const DAY_SECS: u64 = 86400;

/// The number of trigger times kept, and how many of the oldest go once
/// it is passed.
pub const RECENT_CAP: usize = 10000;
pub const RECENT_DROP: usize = 1000;

/// The start of the day window that ends at `ts`.
pub open spec fn day_cutoff(ts: u64) -> u64 {
    if ts >= DAY_SECS {
        (ts - DAY_SECS) as u64
    } else {
        0
    }
}

/// The statistics after a trigger at packet time `ts`, with the count of
/// the last day kept over a window that moves forward with the packets.
pub open spec fn windowed(r: StatRow, ts: u64) -> StatRow {
    let cutoff = day_cutoff(ts);
    let moved = r.last_24h_window_start < cutoff;
    let recent = if moved {
        since(r.recent_triggers, cutoff)
    } else {
        r.recent_triggers
    };
    let count: int = if moved {
        recent.len() as int
    } else {
        r.triggers_last_24h as int
    };
    let pushed = recent.push(ts);
    StatRow {
        total_triggers: (r.total_triggers + 1) as u64,
        first_trigger_time: if r.first_trigger_time is None {
            Some(ts)
        } else {
            r.first_trigger_time
        },
        last_trigger_time: Some(ts),
        triggers_last_24h: (count + 1) as u64,
        last_24h_window_start: if moved {
            cutoff
        } else {
            r.last_24h_window_start
        },
        recent_triggers: if pushed.len() > RECENT_CAP {
            pushed.skip(RECENT_DROP as int)
        } else {
            pushed
        },
        ..r
    }
}

/// The counts of a row can take one more trigger.
pub open spec fn has_headroom(r: StatRow) -> bool {
    &&& r.total_triggers < u64::MAX
    &&& r.last_24h_triggers < u64::MAX
    &&& r.triggers_last_24h < u64::MAX
    &&& r.recent_triggers.len() < u64::MAX
}

/// The counts of a row can take `k` more triggers with the day window.
pub open spec fn room_for(r: StatRow, k: int) -> bool {
    &&& r.total_triggers + k <= u64::MAX
    &&& r.triggers_last_24h + k <= u64::MAX
    &&& r.recent_triggers.len() + k <= u64::MAX
}

/// Every row can take `k` more triggers with the day window.
pub open spec fn all_room(v: Seq<StatRow>, k: int) -> bool {
    forall|j: int| 0 <= j < v.len() ==> room_for(#[trigger] v[j], k)
}

pub proof fn lemma_windowed_room(r: StatRow, ts: u64, k: int)
    requires
        0 <= k,
        room_for(r, k + 1),
    ensures
        room_for(windowed(r, ts), k),
{
    lemma_since_len(r.recent_triggers, day_cutoff(ts));
}

/// A trigger counted in one row leaves room for one trigger less.
pub proof fn lemma_windowed_rows_room(v: Seq<StatRow>, id: Seq<char>, ts: u64, k: int)
    requires
        0 <= k,
        k + 1 <= u64::MAX,
        all_room(v, k + 1),
    ensures
        all_room(windowed_rows(v, id, ts), k),
{
    lemma_first_row(v, id);
    let i = first_row(v, id);
    let w = windowed_rows(v, id, ts);
    if i >= 0 {
        lemma_windowed_room(v[i], ts, k);
        assert forall|j: int| 0 <= j < w.len() implies room_for(#[trigger] w[j], k) by {
            if j != i {
                assert(room_for(v[j], k + 1));
            }
        }
    } else {
        assert(fresh_row(id).recent_triggers.len() == 0);
        lemma_windowed_room(fresh_row(id), ts, k);
        assert forall|j: int| 0 <= j < w.len() implies room_for(#[trigger] w[j], k) by {
            if j < v.len() {
                assert(room_for(v[j], k + 1));
            }
        }
    }
}

/// The table after triggers of the rules `ids`, in order, at packet time `ts`.
pub open spec fn windowed_all(v: Seq<StatRow>, ids: Seq<Seq<char>>, ts: u64) -> Seq<StatRow>
    decreases ids.len(),
{
    if ids.len() == 0 {
        v
    } else {
        windowed_rows(windowed_all(v, ids.drop_last(), ts), ids.last(), ts)
    }
}

/// `v` with the row of the rule changed by `f`, or a fresh row changed by
/// `f` appended.
pub open spec fn bump_rows(v: Seq<StatRow>, id: Seq<char>, f: spec_fn(StatRow) -> StatRow) -> Seq<StatRow> {
    let i = first_row(v, id);
    if i >= 0 {
        v.update(i, f(v[i]))
    } else {
        v.push(f(fresh_row(id)))
    }
}

/// The table after a trigger of the rule counted at `now`.
pub open spec fn counted_rows(v: Seq<StatRow>, id: Seq<char>, now: u64) -> Seq<StatRow> {
    bump_rows(v, id, |r: StatRow| counted(r, now))
}

/// The table after a trigger of the rule at packet time `ts`, with the day
/// window.
pub open spec fn windowed_rows(v: Seq<StatRow>, id: Seq<char>, ts: u64) -> Seq<StatRow> {
    bump_rows(v, id, |r: StatRow| windowed(r, ts))
}

fn recent_since(s: &Vec<u64>, cutoff: u64) -> (r: Vec<u64>)
    ensures
        r@ == since(s@, cutoff),
{
    let mut r: Vec<u64> = Vec::new();
    let mut i: usize = 0;
    assert(s@.take(0) =~= Seq::<u64>::empty());
    while i < s.len()
        invariant
            i <= s@.len(),
            r@ == since(s@.take(i as int), cutoff),
        decreases s.len() - i,
    {
        assert(s@.take(i + 1).drop_last() =~= s@.take(i as int));
        if s[i] >= cutoff {
            r.push(s[i]);
        }
        i = i + 1;
    }
    assert(s@.take(i as int) =~= s@);
    r
}

fn drop_oldest(s: Vec<u64>) -> (r: Vec<u64>)
    requires
        s@.len() > RECENT_DROP,
    ensures
        r@ == s@.skip(RECENT_DROP as int),
{
    let mut r: Vec<u64> = Vec::new();
    let mut i: usize = RECENT_DROP;
    while i < s.len()
        invariant
            RECENT_DROP <= i <= s@.len(),
            r@ == s@.subrange(RECENT_DROP as int, i as int),
        decreases s.len() - i,
    {
        r.push(s[i]);
        i = i + 1;
        assert(r@ =~= s@.subrange(RECENT_DROP as int, i as int));
    }
    assert(s@.subrange(RECENT_DROP as int, i as int) =~= s@.skip(RECENT_DROP as int));
    r
}

/// Counts a trigger at packet time `ts` in the statistics, moving the day
/// window forward to the packet's time when it has fallen behind.
pub fn record_trigger(stat: &mut RuleStats, ts: u64)
    requires
        room_for(row(old(stat)@), 1),
    ensures
        row(final(stat)@) == windowed(row(old(stat)@), ts),
{
    stat.total_triggers = stat.total_triggers + 1;
    if stat.first_trigger_time.is_none() {
        stat.first_trigger_time = Some(ts);
    }
    stat.last_trigger_time = Some(ts);
    let cutoff: u64 = if ts >= DAY_SECS { ts - DAY_SECS } else { 0 };
    if stat.last_24h_window_start < cutoff {
        let kept = recent_since(&stat.recent_triggers, cutoff);
        proof {
            lemma_since_len(stat.recent_triggers@, cutoff);
        }
        stat.triggers_last_24h = kept.len() as u64;
        stat.last_24h_window_start = cutoff;
        stat.recent_triggers = kept;
    }
    stat.triggers_last_24h = stat.triggers_last_24h + 1;
    stat.recent_triggers.push(ts);
    if stat.recent_triggers.len() > RECENT_CAP {
        let mut all: Vec<u64> = Vec::new();
        std::mem::swap(&mut all, &mut stat.recent_triggers);
        stat.recent_triggers = drop_oldest(all);
    }
}

/// Counts a trigger at `now` in the statistics.
pub fn count_trigger(stat: &mut RuleStats, now: u64)
    requires
        has_headroom(row(old(stat)@)),
    ensures
        row(final(stat)@) == counted(row(old(stat)@), now),
{
    stat.total_triggers = stat.total_triggers + 1;
    stat.last_24h_triggers = stat.last_24h_triggers + 1;
    if stat.first_trigger_time.is_none() {
        stat.first_trigger_time = Some(now);
    }
    stat.last_trigger_time = Some(now);
}

/// Counts a trigger of the rule at `now` in the table, adding a row for
/// the rule when it has none.
pub fn count_in_table(stats: &mut Vec<RuleStats>, id: &str, now: u64)
    requires
        first_row(rows(old(stats)@), id@) >= 0 ==> has_headroom(
            rows(old(stats)@)[first_row(rows(old(stats)@), id@)],
        ),
    ensures
        rows(final(stats)@) == counted_rows(rows(old(stats)@), id@, now),
{
    let ghost v = rows(stats@);
    let i = find_row(stats, id);
    let n = stats.len();
    if i == n {
        let fresh = RuleStats::for_rule(String::from_str(id));
        assert(fresh.recent_triggers@ =~= Seq::<u64>::empty());
        assert(row(fresh@) == fresh_row(id@));
        stats.push(fresh);
        assert(rows(stats@) =~= v.push(fresh_row(id@)));
    }
    let mut st = stats[i].duplicate();
    count_trigger(&mut st, now);
    stats.set(i, st);
    if i < n {
        assert(rows(stats@) =~= v.update(i as int, counted(v[i as int], now)));
    } else {
        assert(rows(stats@) =~= v.push(counted(fresh_row(id@), now)));
    }
}

/// Counts a trigger of the rule at packet time `ts` in the table, with the
/// day window, adding a row for the rule when it has none.
pub fn record_in_table(stats: &mut Vec<RuleStats>, id: &str, ts: u64)
    requires
        first_row(rows(old(stats)@), id@) >= 0 ==> room_for(
            rows(old(stats)@)[first_row(rows(old(stats)@), id@)],
            1,
        ),
    ensures
        rows(final(stats)@) == windowed_rows(rows(old(stats)@), id@, ts),
{
    let ghost v = rows(stats@);
    let i = find_row(stats, id);
    let n = stats.len();
    if i == n {
        let fresh = RuleStats::for_rule(String::from_str(id));
        assert(fresh.recent_triggers@ =~= Seq::<u64>::empty());
        assert(row(fresh@) == fresh_row(id@));
        stats.push(fresh);
        assert(rows(stats@) =~= v.push(fresh_row(id@)));
    }
    let mut st = stats[i].duplicate();
    record_trigger(&mut st, ts);
    stats.set(i, st);
    if i < n {
        assert(rows(stats@) =~= v.update(i as int, windowed(v[i as int], ts)));
    } else {
        assert(rows(stats@) =~= v.push(windowed(fresh_row(id@), ts)));
    }
}

// ---------------------------------------------------------------------------
// Merging the tables

/// The local statistics of a rule with the worker's counts merged in.
pub open spec fn merged_row(l: StatRow, s: StatRow) -> StatRow {
    StatRow {
        total_triggers: if l.total_triggers >= s.total_triggers {
            l.total_triggers
        } else {
            s.total_triggers
        },
        triggers_last_24h: s.triggers_last_24h,
        last_trigger_time: if s.last_trigger_time is Some {
            s.last_trigger_time
        } else {
            l.last_trigger_time
        },
        ..l
    }
}

/// `v` with the row `s` merged into the first row of its rule, or appended.
pub open spec fn merge_row(v: Seq<StatRow>, s: StatRow) -> Seq<StatRow> {
    let i = first_row(v, s.rule_id);
    if i >= 0 {
        v.update(i, merged_row(v[i], s))
    } else {
        v.push(s)
    }
}

pub open spec fn merge_rows(v: Seq<StatRow>, shared: Seq<StatRow>) -> Seq<StatRow>
    decreases shared.len(),
{
    if shared.len() == 0 {
        v
    } else {
        merge_row(merge_rows(v, shared.drop_last()), shared.last())
    }
}

/// `v` with a fresh row appended for each rule id that has none, in order.
pub open spec fn add_missing(v: Seq<StatRow>, ids: Seq<Seq<char>>) -> Seq<StatRow>
    decreases ids.len(),
{
    if ids.len() == 0 {
        v
    } else {
        let a = add_missing(v, ids.drop_last());
        if first_row(a, ids.last()) >= 0 {
            a
        } else {
            a.push(fresh_row(ids.last()))
        }
    }
}

pub open spec fn with_day_count(r: StatRow) -> StatRow {
    StatRow { last_24h_triggers: r.triggers_last_24h, ..r }
}

/// The statistics shown for the rules: the local table with the worker's
/// counts merged in, a fresh row for each rule without one, and the count
/// of the last day taken from the worker's window.
pub open spec fn all_stats(local: Seq<StatRow>, shared: Seq<StatRow>, ids: Seq<Seq<char>>) -> Seq<StatRow> {
    add_missing(merge_rows(local, shared), ids).map_values(|r: StatRow| with_day_count(r))
}

fn copy_stats(v: &Vec<RuleStats>) -> (r: Vec<RuleStats>)
    ensures
        rows(r@) == rows(v@),
{
    let mut r: Vec<RuleStats> = Vec::new();
    let mut i: usize = 0;
    while i < v.len()
        invariant
            i <= v@.len(),
            rows(r@) == rows(v@).take(i as int),
        decreases v.len() - i,
    {
        let ghost before = r@;
        let d = v[i].duplicate();
        r.push(d);
        assert(r@ == before.push(d));
        assert(rows(r@) =~= rows(before).push(row(d@)));
        i = i + 1;
        assert(rows(r@) =~= rows(v@).take(i as int));
    }
    assert(rows(v@).take(i as int) =~= rows(v@));
    r
}

/// The local table with the worker's table merged in (see `merge_row`).
pub fn merge_tables(local: &Vec<RuleStats>, shared: &Vec<RuleStats>) -> (r: Vec<RuleStats>)
    ensures
        rows(r@) == merge_rows(rows(local@), rows(shared@)),
{
    let ghost sh = rows(shared@);
    let mut out = copy_stats(local);
    let mut i: usize = 0;
    assert(sh.take(0) =~= Seq::<StatRow>::empty());
    while i < shared.len()
        invariant
            i <= shared@.len(),
            sh == rows(shared@),
            rows(out@) == merge_rows(rows(local@), sh.take(i as int)),
        decreases shared.len() - i,
    {
        assert(sh.take(i + 1).drop_last() =~= sh.take(i as int));
        let ghost before = rows(out@);
        let s = &shared[i];
        assert(sh[i as int] == row(s@));
        let k = find_row(&out, s.rule_id.as_str());
        if k < out.len() {
            let mut l = out[k].duplicate();
            if l.total_triggers < s.total_triggers {
                l.total_triggers = s.total_triggers;
            }
            l.triggers_last_24h = s.triggers_last_24h;
            if s.last_trigger_time.is_some() {
                l.last_trigger_time = s.last_trigger_time;
            }
            out.set(k, l);
            assert(rows(out@) =~= before.update(k as int, merged_row(before[k as int], sh[i as int])));
        } else {
            out.push(s.duplicate());
            assert(rows(out@) =~= before.push(sh[i as int]));
        }
        i = i + 1;
    }
    assert(sh.take(i as int) =~= sh);
    out
}

/// `out` with a fresh row for each rule id that has none.
fn add_missing_rows(out: &mut Vec<RuleStats>, rule_ids: &Vec<String>)
    ensures
        rows(final(out)@) == add_missing(rows(old(out)@), crate::rule::models::texts(rule_ids@)),
{
    let ghost ids = crate::rule::models::texts(rule_ids@);
    let ghost start = rows(out@);
    let mut j: usize = 0;
    assert(ids.take(0) =~= Seq::<Seq<char>>::empty());
    while j < rule_ids.len()
        invariant
            j <= rule_ids@.len(),
            ids == crate::rule::models::texts(rule_ids@),
            rows(out@) == add_missing(start, ids.take(j as int)),
        decreases rule_ids.len() - j,
    {
        assert(ids.take(j + 1).drop_last() =~= ids.take(j as int));
        assert(ids[j as int] == rule_ids@[j as int]@);
        let ghost before = rows(out@);
        let k = find_row(out, rule_ids[j].as_str());
        if k == out.len() {
            let fresh = RuleStats::for_rule(rule_ids[j].clone());
            assert(fresh.recent_triggers@ =~= Seq::<u64>::empty());
            out.push(fresh);
            assert(rows(out@) =~= before.push(fresh_row(ids[j as int])));
        }
        j = j + 1;
    }
    assert(ids.take(j as int) =~= ids);
}

/// `v` with the row `s` in place of the first row of its rule, or appended.
pub open spec fn put_row(v: Seq<StatRow>, s: StatRow) -> Seq<StatRow> {
    let i = first_row(v, s.rule_id);
    if i >= 0 {
        v.update(i, s)
    } else {
        v.push(s)
    }
}

/// The rows keyed by rule: a later row of a rule replaces an earlier one.
pub open spec fn keyed_rows(v: Seq<StatRow>) -> Seq<StatRow>
    decreases v.len(),
{
    if v.len() == 0 {
        Seq::empty()
    } else {
        put_row(keyed_rows(v.drop_last()), v.last())
    }
}

/// The statistics read from a file, keyed by rule, with a fresh row for
/// each rule without one.
pub fn loaded_stats(stats: &Vec<RuleStats>, rule_ids: &Vec<String>) -> (r: Vec<RuleStats>)
    ensures
        rows(r@) == add_missing(keyed_rows(rows(stats@)), crate::rule::models::texts(rule_ids@)),
{
    let ghost v = rows(stats@);
    let mut out: Vec<RuleStats> = Vec::new();
    let mut i: usize = 0;
    assert(v.take(0) =~= Seq::<StatRow>::empty());
    assert(rows(out@) =~= Seq::<StatRow>::empty());
    while i < stats.len()
        invariant
            i <= stats@.len(),
            v == rows(stats@),
            rows(out@) == keyed_rows(v.take(i as int)),
        decreases stats.len() - i,
    {
        assert(v.take(i + 1).drop_last() =~= v.take(i as int));
        let s = &stats[i];
        assert(v[i as int] == row(s@));
        let ghost before = rows(out@);
        let k = find_row(&out, s.rule_id.as_str());
        if k < out.len() {
            out.set(k, s.duplicate());
            assert(rows(out@) =~= before.update(k as int, v[i as int]));
        } else {
            out.push(s.duplicate());
            assert(rows(out@) =~= before.push(v[i as int]));
        }
        i = i + 1;
    }
    assert(v.take(i as int) =~= v);
    add_missing_rows(&mut out, rule_ids);
    out
}

/// The statistics shown for the rules with the given ids (see `all_stats`).
pub fn merge_stats(local: &Vec<RuleStats>, shared: &Vec<RuleStats>, rule_ids: &Vec<String>) -> (r: Vec<RuleStats>)
    ensures
        rows(r@) == all_stats(rows(local@), rows(shared@), crate::rule::models::texts(rule_ids@)),
{
    let mut out = merge_tables(local, shared);
    add_missing_rows(&mut out, rule_ids);
    let ghost full = rows(out@);
    let mut m: usize = 0;
    while m < out.len()
        invariant
            m <= out@.len(),
            full.len() == out@.len(),
            forall|q: int| 0 <= q < m ==> #[trigger] rows(out@)[q] == with_day_count(full[q]),
            forall|q: int| m <= q < out@.len() ==> #[trigger] rows(out@)[q] == full[q],
        decreases out.len() - m,
    {
        let ghost before = out@;
        assert(rows(out@)[m as int] == full[m as int]);
        assert(rows(out@)[m as int] == row(out@[m as int]@));
        let mut st = out[m].duplicate();
        st.last_24h_triggers = st.triggers_last_24h;
        assert(row(st@) == with_day_count(full[m as int]));
        out.set(m, st);
        assert(out@ == before.update(m as int, st));
        assert(rows(out@) =~= rows(before).update(m as int, row(st@)));
        m = m + 1;
    }
    assert(rows(out@) =~= full.map_values(|r: StatRow| with_day_count(r)));
    out
}

/// Whether every row of the table can take `k` more triggers with the day
/// window.
pub fn rows_have_room(v: &Vec<RuleStats>, k: u64) -> (b: bool)
    ensures
        b == all_room(rows(v@), k as int),
{
    let mut i: usize = 0;
    while i < v.len()
        invariant
            i <= v@.len(),
            forall|j: int| 0 <= j < i ==> room_for(#[trigger] rows(v@)[j], k as int),
        decreases v.len() - i,
    {
        let r = &v[i];
        assert(rows(v@)[i as int] == row(v@[i as int]@));
        if r.total_triggers > u64::MAX - k || r.triggers_last_24h > u64::MAX - k || r.recent_triggers.len() as u64
            > u64::MAX - k {
            assert(!room_for(rows(v@)[i as int], k as int));
            return false;
        }
        i = i + 1;
    }
    true
}

} // verus!
