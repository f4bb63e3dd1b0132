//! Edits of the stored rule file. Reading and writing the file itself is
//! left to the caller, which hands the edits the file's contents.
use vstd::prelude::*;
use crate::rule::manager::{MAX_ALERTS, MAX_RULES, has_group, rule_index, rules_full_message};
use crate::rule::models::{DetectionRule, RuleGroup, RuleV, RulesFile, rules_view};
use crate::text::same_text;

verus! {

/// The name of the rule file in the application's data directory.
pub open spec fn rules_file_name() -> Seq<char> {
    "detection_rules.json"@
}

/// A file name joined to a directory, as a path: nothing is added after an
/// empty directory or one that ends with a separator.
pub open spec fn joined_path(dir: Seq<char>, name: Seq<char>) -> Seq<char> {
    if dir.len() == 0 {
        name
    } else if dir.last() == '/' {
        dir + name
    } else {
        dir + "/"@ + name
    }
}

/// The path of the rule file in the directory.
pub fn get_rules_path(app_data_dir: &str) -> (p: String)
    ensures
        p@ == joined_path(app_data_dir@, rules_file_name()),
{
    let name = "detection_rules.json";
    proof {
        reveal_strlit("detection_rules.json");
        reveal_strlit("/");
    }
    let n = app_data_dir.unicode_len();
    if n == 0 {
        return String::from_str(name);
    }
    let mut p = String::from_str(app_data_dir);
    if app_data_dir.get_char(n - 1) != '/' {
        p.append("/");
    }
    p.append(name);
    p
}

/// The most rules the file holds.
pub fn max_rules() -> (n: usize)
    ensures
        n == MAX_RULES,
{
    MAX_RULES
}

/// The most alerts kept.
pub fn max_alerts() -> (n: usize)
    ensures
        n == MAX_ALERTS,
{
    MAX_ALERTS
}

/// The rules without those of the id, in order.
pub open spec fn rules_without(rs: Seq<RuleV>, id: Seq<char>) -> Seq<RuleV>
    decreases rs.len(),
{
    if rs.len() == 0 {
        Seq::empty()
    } else if rs.last().id@ == id {
        rules_without(rs.drop_last(), id)
    } else {
        rules_without(rs.drop_last(), id).push(rs.last())
    }
}

/// The groups without those of the id, in order.
pub open spec fn groups_without(gs: Seq<RuleGroup>, id: Seq<char>) -> Seq<RuleGroup>
    decreases gs.len(),
{
    if gs.len() == 0 {
        Seq::empty()
    } else if gs.last().id@ == id {
        groups_without(gs.drop_last(), id)
    } else {
        groups_without(gs.drop_last(), id).push(gs.last())
    }
}

/// The rule with its group taken away when it is the group of the id.
pub open spec fn ungrouped(r: RuleV, id: Seq<char>) -> RuleV {
    if crate::protocol::parser::opt_chars(r.group) == Some(id) {
        RuleV { group: None, ..r }
    } else {
        r
    }
}

/// Adds a rule, refused when the file is full or holds a rule of the id.
pub fn add_rule(file: &mut RulesFile, rule: DetectionRule) -> (r: Result<(), String>)
    ensures
        r is Ok <==> old(file).rules@.len() < MAX_RULES && rule_index(rules_view(old(file).rules@), rule.id@) is None,
        old(file).rules@.len() >= MAX_RULES ==> (r matches Err(m) && m@ == rules_full_message()),
        old(file).rules@.len() < MAX_RULES && rule_index(rules_view(old(file).rules@), rule.id@) is Some ==> (r matches Err(
            m,
        ) && m@ == "规则ID已存在"@),
        r is Ok ==> rules_view(final(file).rules@) == rules_view(old(file).rules@).push(rule@),
        r is Err ==> final(file).rules == old(file).rules,
        final(file).groups == old(file).groups,
        final(file).version == old(file).version,
        final(file).rule_stats == old(file).rule_stats,
{
    if file.rules.len() >= MAX_RULES {
        let mut m = String::from_str("规则数量已达上限(");
        crate::text::push_decimal(&mut m, MAX_RULES as u64);
        m.append(")，请删除旧规则");
        proof {
            reveal_strlit("规则数量已达上限(");
            reveal_strlit(")，请删除旧规则");
            assert(m@ =~= rules_full_message());
        }
        return Err(m);
    }
    let ghost rs = rules_view(file.rules@);
    let mut i: usize = 0;
    while i < file.rules.len()
        invariant
            i <= file.rules@.len(),
            rs == rules_view(file.rules@),
            *file == *old(file),
            file.rules@.len() < MAX_RULES,
            forall|j: int| 0 <= j < i ==> (#[trigger] rs[j]).id@ != rule.id@,
        decreases file.rules.len() - i,
    {
        if same_text(file.rules[i].id.as_str(), rule.id.as_str()) {
            assert(rs[i as int].id@ == rule.id@);
            return Err(String::from_str("规则ID已存在"));
        }
        i = i + 1;
    }
    let ghost before = file.rules@;
    let ghost rv = rule@;
    file.rules.push(rule);
    assert(rules_view(file.rules@) =~= rules_view(before).push(rv));
    Ok(())
}

/// Replaces the first rule of the same id, refused when there is none.
pub fn update_rule(file: &mut RulesFile, rule: DetectionRule) -> (r: Result<(), String>)
    ensures
        r is Ok <==> rule_index(rules_view(old(file).rules@), rule.id@) is Some,
        r matches Err(m) ==> m@ == "规则不存在"@ && final(file).rules == old(file).rules,
        r is Ok ==> (rule_index(rules_view(old(file).rules@), rule.id@) matches Some(i) && rules_view(
            final(file).rules@,
        ) == rules_view(old(file).rules@).update(i, rule@)),
        final(file).groups == old(file).groups,
        final(file).version == old(file).version,
        final(file).rule_stats == old(file).rule_stats,
{
    let ghost rs = rules_view(file.rules@);
    let mut i: usize = 0;
    while i < file.rules.len()
        invariant
            i <= file.rules@.len(),
            rs == rules_view(file.rules@),
            *file == *old(file),
            forall|j: int| 0 <= j < i ==> (#[trigger] rs[j]).id@ != rule.id@,
        decreases file.rules.len() - i,
    {
        if same_text(file.rules[i].id.as_str(), rule.id.as_str()) {
            assert(rs[i as int].id@ == rule.id@);
            let ghost rv = rule@;
            let ghost before = file.rules@;
            file.rules.set(i, rule);
            assert(rules_view(file.rules@) =~= rules_view(before).update(i as int, rv));
            proof {
                let k = rule_index(rs, rv.id@).unwrap();
                assert(rule_index(rs, rv.id@) is Some);
                assert(k == i) by {
                    if k < i {
                        assert(rs[k].id@ != rv.id@);
                    }
                    if i < k {
                        assert(rs[i as int].id@ == rv.id@);
                    }
                }
            }
            return Ok(());
        }
        i = i + 1;
    }
    Err(String::from_str("规则不存在"))
}

/// Deletes the rules of the id.
pub fn delete_rule(file: &mut RulesFile, rule_id: &str)
    ensures
        rules_view(final(file).rules@) == rules_without(rules_view(old(file).rules@), rule_id@),
        final(file).groups == old(file).groups,
        final(file).version == old(file).version,
        final(file).rule_stats == old(file).rule_stats,
{
    let ghost rs = rules_view(file.rules@);
    let mut kept: Vec<DetectionRule> = Vec::new();
    let mut i: usize = 0;
    assert(rs.take(0) =~= Seq::<RuleV>::empty());
    assert(rules_view(kept@) =~= Seq::<RuleV>::empty());
    while i < file.rules.len()
        invariant
            i <= file.rules@.len(),
            rs == rules_view(file.rules@),
            *file == *old(file),
            rules_view(kept@) == rules_without(rs.take(i as int), rule_id@),
        decreases file.rules.len() - i,
    {
        assert(rs.take(i + 1).drop_last() =~= rs.take(i as int));
        assert(rs[i as int] == file.rules@[i as int]@);
        if !same_text(file.rules[i].id.as_str(), rule_id) {
            let ghost kb = kept@;
            let d = file.rules[i].duplicate();
            kept.push(d);
            assert(rules_view(kept@) =~= rules_view(kb).push(d@));
        }
        i = i + 1;
    }
    assert(rs.take(i as int) =~= rs);
    file.rules = kept;
}

/// Adds a group, refused when there is one of the id.
pub fn add_group(file: &mut RulesFile, group: RuleGroup) -> (r: Result<(), String>)
    ensures
        r is Ok <==> !has_group(old(file).groups@, group.id@),
        r matches Err(m) ==> m@ == "分组ID已存在"@ && final(file).groups == old(file).groups,
        r is Ok ==> final(file).groups@ == old(file).groups@.push(group),
        final(file).rules == old(file).rules,
        final(file).version == old(file).version,
        final(file).rule_stats == old(file).rule_stats,
{
    let mut i: usize = 0;
    while i < file.groups.len()
        invariant
            i <= file.groups@.len(),
            *file == *old(file),
            forall|j: int| 0 <= j < i ==> (#[trigger] file.groups@[j]).id@ != group.id@,
        decreases file.groups.len() - i,
    {
        if same_text(file.groups[i].id.as_str(), group.id.as_str()) {
            return Err(String::from_str("分组ID已存在"));
        }
        i = i + 1;
    }
    file.groups.push(group);
    Ok(())
}

/// Replaces the first group of the same id, refused when there is none.
pub fn update_group(file: &mut RulesFile, group: RuleGroup) -> (r: Result<(), String>)
    ensures
        r is Ok <==> has_group(old(file).groups@, group.id@),
        r matches Err(m) ==> m@ == "分组不存在"@ && final(file).groups == old(file).groups,
        r is Ok ==> exists|i: int|
            0 <= i < old(file).groups@.len() && (#[trigger] old(file).groups@[i]).id@ == group.id@ && (forall|j: int|
                0 <= j < i ==> old(file).groups@[j].id@ != group.id@) && final(file).groups@ == old(
                file,
            ).groups@.update(i, group),
        final(file).rules == old(file).rules,
        final(file).version == old(file).version,
        final(file).rule_stats == old(file).rule_stats,
{
    let mut i: usize = 0;
    while i < file.groups.len()
        invariant
            i <= file.groups@.len(),
            *file == *old(file),
            forall|j: int| 0 <= j < i ==> (#[trigger] file.groups@[j]).id@ != group.id@,
        decreases file.groups.len() - i,
    {
        if same_text(file.groups[i].id.as_str(), group.id.as_str()) {
            let ghost gv = group;
            file.groups.set(i, group);
            assert(file.groups@ == old(file).groups@.update(i as int, gv));
            return Ok(());
        }
        i = i + 1;
    }
    Err(String::from_str("分组不存在"))
}

/// Deletes the groups of the id; the rules of the group lose their group.
pub fn delete_group(file: &mut RulesFile, group_id: &str)
    ensures
        final(file).groups@ == groups_without(old(file).groups@, group_id@),
        rules_view(final(file).rules@) == rules_view(old(file).rules@).map_values(|r: RuleV| ungrouped(r, group_id@)),
        final(file).version == old(file).version,
        final(file).rule_stats == old(file).rule_stats,
{
    let ghost gs = file.groups@;
    let mut kept: Vec<RuleGroup> = Vec::new();
    let mut i: usize = 0;
    assert(gs.take(0) =~= Seq::<RuleGroup>::empty());
    while i < file.groups.len()
        invariant
            i <= file.groups@.len(),
            gs == file.groups@,
            *file == *old(file),
            kept@ == groups_without(gs.take(i as int), group_id@),
        decreases file.groups.len() - i,
    {
        assert(gs.take(i + 1).drop_last() =~= gs.take(i as int));
        if !same_text(file.groups[i].id.as_str(), group_id) {
            kept.push(file.groups[i].clone());
        }
        i = i + 1;
    }
    assert(gs.take(i as int) =~= gs);
    file.groups = kept;
    let ghost o = rules_view(file.rules@);
    let mut out: Vec<DetectionRule> = Vec::new();
    let mut k: usize = 0;
    while k < file.rules.len()
        invariant
            k <= file.rules@.len(),
            o == rules_view(file.rules@),
            rules_view(out@) == o.map_values(|r: RuleV| ungrouped(r, group_id@)).take(k as int),
        decreases file.rules.len() - k,
    {
        let mut r = file.rules[k].duplicate();
        assert(o[k as int] == r@);
        let clear = match &r.group {
            Some(g) => same_text(g.as_str(), group_id),
            None => false,
        };
        if clear {
            r.group = None;
        }
        let ghost ob = out@;
        let ghost rv = r@;
        out.push(r);
        assert(rv == ungrouped(o[k as int], group_id@));
        assert(rules_view(out@) =~= rules_view(ob).push(rv));
        k = k + 1;
        assert(rules_view(out@) =~= o.map_values(|r: RuleV| ungrouped(r, group_id@)).take(k as int));
    }
    assert(o.map_values(|r: RuleV| ungrouped(r, group_id@)).take(k as int) =~= o.map_values(
        |r: RuleV| ungrouped(r, group_id@),
    ));
    file.rules = out;
}

} // verus!
