//! Conflicts between detection rules: conditions that can hold for the same
//! packet while the rules' actions disagree.
use vstd::prelude::*;
use crate::rule::engine::cidr_parses;
use crate::rule::models::{
    AlertActions, Cond, ConditionNode, DetectionRule, FlagMatchMode, IpField, LengthOperator,
    PortField, RuleConflict, RuleV, TcpFlag, conds_of, lemma_conds_of, texts,
};
use crate::text::{join, lowercase, push_joined, same_text, to_lowercase};

verus! {

// ---------------------------------------------------------------------------
// Condition sets

/// What a condition admits, as far as conflicts go: the networks of an
/// address test are held as (first, last) address pairs.
pub enum ConditionSet {
    Any,
    Never,
    Protocols(Vec<String>),
    IpRanges { field: IpField, cidrs: Vec<(u128, u128)> },
    PortRanges { field: PortField, ranges: Vec<(u16, u16)> },
    PacketLengthGt(u32),
    PacketLengthLt(u32),
    PacketLengthEq(u32),
    TcpFlagsSet { flags: Vec<TcpFlag>, mode: FlagMatchMode },
    PayloadPattern(String),
    RateLimitCond { window_secs: u32, threshold: u32, src_ip: bool },
    DnsBlacklistSet(Vec<String>),
    And(Vec<ConditionSet>),
    Or(Vec<ConditionSet>),
    Not(Box<ConditionSet>),
}

/// The value of a condition set.
pub enum CSet {
    Any,
    Never,
    Protocols(Seq<Seq<char>>),
    IpRanges(IpField, Seq<(u128, u128)>),
    PortRanges(PortField, Seq<(u16, u16)>),
    LenGt(u32),
    LenLt(u32),
    LenEq(u32),
    TcpFlagsSet(Seq<TcpFlag>, FlagMatchMode),
    PayloadPattern(Seq<char>),
    RateLimitCond(u32, u32, bool),
    DnsBlacklistSet(Seq<Seq<char>>),
    And(Seq<CSet>),
    Or(Seq<CSet>),
    Not(Box<CSet>),
}

pub open spec fn cset_of(s: ConditionSet) -> CSet
    decreases s,
{
    match s {
        ConditionSet::Any => CSet::Any,
        ConditionSet::Never => CSet::Never,
        ConditionSet::Protocols(p) => CSet::Protocols(texts(p@)),
        ConditionSet::IpRanges { field, cidrs } => CSet::IpRanges(field, cidrs@),
        ConditionSet::PortRanges { field, ranges } => CSet::PortRanges(field, ranges@),
        ConditionSet::PacketLengthGt(v) => CSet::LenGt(v),
        ConditionSet::PacketLengthLt(v) => CSet::LenLt(v),
        ConditionSet::PacketLengthEq(v) => CSet::LenEq(v),
        ConditionSet::TcpFlagsSet { flags, mode } => CSet::TcpFlagsSet(flags@, mode),
        ConditionSet::PayloadPattern(p) => CSet::PayloadPattern(p@),
        ConditionSet::RateLimitCond { window_secs, threshold, src_ip } => CSet::RateLimitCond(
            window_secs,
            threshold,
            src_ip,
        ),
        ConditionSet::DnsBlacklistSet(d) => CSet::DnsBlacklistSet(texts(d@)),
        ConditionSet::And(cs) => CSet::And(csets_of(cs@)),
        ConditionSet::Or(cs) => CSet::Or(csets_of(cs@)),
        ConditionSet::Not(b) => CSet::Not(Box::new(cset_of(*b))),
    }
}

pub open spec fn csets_of(s: Seq<ConditionSet>) -> Seq<CSet>
    decreases s,
{
    if s.len() == 0 {
        Seq::empty()
    } else {
        proof {
            vstd::seq::axiom_seq_len_decreases(s, s.drop_last());
        }
        csets_of(s.drop_last()).push(cset_of(s.last()))
    }
}

proof fn lemma_csets_of(s: Seq<ConditionSet>)
    ensures
        csets_of(s).len() == s.len(),
        forall|i: int| 0 <= i < s.len() ==> #[trigger] csets_of(s)[i] == cset_of(s[i]),
    decreases s.len(),
{
    if s.len() > 0 {
        lemma_csets_of(s.drop_last());
        assert forall|i: int| 0 <= i < s.len() implies #[trigger] csets_of(s)[i] == cset_of(s[i]) by {
            if i < s.len() - 1 {
                assert(s.drop_last()[i] == s[i]);
            }
        }
    }
}

impl View for ConditionSet {
    type V = CSet;

    open spec fn view(&self) -> CSet {
        cset_of(*self)
    }
}

/// The first and last address of the network `cidr::IpCidr` parses from the
/// text, as integers (IPv4 addresses widened from 32 bits).
pub uninterp spec fn cidr_span(s: Seq<char>) -> Option<(u128, u128)>;

/// Parses the text as `cidr::IpCidr` and gives the first and last address of
/// the network as integers; none where it does not parse. The contract names
/// the pair `cidr_span` and ties its presence to the parse succeeding.
#[verifier::external_body]
pub(crate) fn cidr_bounds(s: &str) -> (r: Option<(u128, u128)>)
    ensures
        r == cidr_span(s@),
        r is Some <==> cidr_parses(s@),
{
    match s.parse::<cidr::IpCidr>() {
        Ok(cidr::IpCidr::V4(c)) => Some((u32::from(c.first_address()) as u128, u32::from(c.last_address()) as u128)),
        Ok(cidr::IpCidr::V6(c)) => Some((u128::from(c.first_address()), u128::from(c.last_address()))),
        Err(_) => None,
    }
}

/// The set a condition admits: protocol names in lower case, networks as
/// address spans (an address test whose network does not parse admits
/// anything).
pub open spec fn to_set(c: Cond) -> CSet
    decreases c,
{
    match c {
        Cond::And(cs) => CSet::And(to_sets(cs)),
        Cond::Or(cs) => CSet::Or(to_sets(cs)),
        Cond::Not(b) => CSet::Not(Box::new(to_set(*b))),
        Cond::ProtocolMatch(p) => CSet::Protocols(seq![lowercase(p)]),
        Cond::IpMatch(f, cidr) => match cidr_span(cidr) {
            Some(r) => CSet::IpRanges(f, seq![r]),
            None => CSet::Any,
        },
        Cond::PortRange(f, lo, hi) => CSet::PortRanges(f, seq![(lo, hi)]),
        Cond::PacketLength(op, v) => match op {
            LengthOperator::GreaterThan => CSet::LenGt(v),
            LengthOperator::LessThan => CSet::LenLt(v),
            LengthOperator::Equal => CSet::LenEq(v),
        },
        Cond::TcpFlags(fs, mode) => CSet::TcpFlagsSet(fs, mode),
        Cond::PayloadKeyword(p) => CSet::PayloadPattern(p),
        Cond::RateLimit(w, t, s) => CSet::RateLimitCond(w, t, s),
        Cond::DnsBlacklist(d) => CSet::DnsBlacklistSet(d),
    }
}

pub open spec fn to_sets(cs: Seq<Cond>) -> Seq<CSet>
    decreases cs,
{
    if cs.len() == 0 {
        Seq::empty()
    } else {
        proof {
            vstd::seq::axiom_seq_len_decreases(cs, cs.drop_last());
        }
        to_sets(cs.drop_last()).push(to_set(cs.last()))
    }
}

proof fn lemma_to_sets_push(cs: Seq<Cond>, c: Cond)
    ensures
        to_sets(cs.push(c)) == to_sets(cs).push(to_set(c)),
{
    assert(cs.push(c).drop_last() =~= cs);
}

/// The condition set of a condition.
pub fn to_condition_set(node: &ConditionNode) -> (s: ConditionSet)
    ensures
        s@ == to_set(node@),
    decreases node,
{
    match node {
        ConditionNode::And { children } => ConditionSet::And(to_condition_sets(children)),
        ConditionNode::Or { children } => ConditionSet::Or(to_condition_sets(children)),
        ConditionNode::Not { child } => ConditionSet::Not(Box::new(to_condition_set(child))),
        ConditionNode::ProtocolMatch { protocol } => {
            let v = vec![to_lowercase(protocol.as_str())];
            assert(texts(v@) =~= seq![lowercase(protocol@)]);
            ConditionSet::Protocols(v)
        },
        ConditionNode::IpMatch { field, cidr } => match cidr_bounds(cidr.as_str()) {
            Some(r) => {
                let v = vec![r];
                assert(v@ =~= seq![r]);
                ConditionSet::IpRanges { field: *field, cidrs: v }
            },
            None => ConditionSet::Any,
        },
        ConditionNode::PortRange { field, min, max } => {
            let v = vec![(*min, *max)];
            assert(v@ =~= seq![(*min, *max)]);
            ConditionSet::PortRanges { field: *field, ranges: v }
        },
        ConditionNode::PacketLength { operator, value } => match operator {
            LengthOperator::GreaterThan => ConditionSet::PacketLengthGt(*value),
            LengthOperator::LessThan => ConditionSet::PacketLengthLt(*value),
            LengthOperator::Equal => ConditionSet::PacketLengthEq(*value),
        },
        ConditionNode::TcpFlags { flags, mode } => ConditionSet::TcpFlagsSet {
            flags: crate::rule::models::copy_flags(flags),
            mode: *mode,
        },
        ConditionNode::PayloadKeyword { pattern } => ConditionSet::PayloadPattern(pattern.clone()),
        ConditionNode::RateLimit { window_secs, threshold, src_ip } => ConditionSet::RateLimitCond {
            window_secs: *window_secs,
            threshold: *threshold,
            src_ip: *src_ip,
        },
        ConditionNode::DnsBlacklist { domains } => {
            let d = crate::text::copy_strings(domains);
            assert(texts(d@) =~= texts(domains@));
            ConditionSet::DnsBlacklistSet(d)
        },
    }
}

fn to_condition_sets(v: &Vec<ConditionNode>) -> (r: Vec<ConditionSet>)
    ensures
        csets_of(r@) == to_sets(conds_of(v@)),
    decreases v,
{
    let mut r: Vec<ConditionSet> = Vec::new();
    let mut i: usize = 0;
    proof {
        lemma_conds_of(v@);
    }
    while i < v.len()
        invariant
            i <= v.len(),
            forall|k: int| 0 <= k < v@.len() ==> #[trigger] conds_of(v@)[k] == v@[k]@,
            conds_of(v@).len() == v@.len(),
            csets_of(r@) == to_sets(conds_of(v@).subrange(0, i as int)),
        decreases v.len() - i,
    {
        proof {
            vstd::std_specs::vec::axiom_vec_index_decreases(*v, i as int);
        }
        let s = to_condition_set(&v[i]);
        proof {
            assert(r@.push(s).drop_last() =~= r@);
            let pre = conds_of(v@).subrange(0, i as int);
            lemma_to_sets_push(pre, conds_of(v@)[i as int]);
            assert(pre.push(conds_of(v@)[i as int]) =~= conds_of(v@).subrange(0, i + 1));
        }
        r.push(s);
        i = i + 1;
    }
    assert(conds_of(v@).subrange(0, conds_of(v@).len() as int) =~= conds_of(v@));
    r
}

// ---------------------------------------------------------------------------
// Overlap of condition sets

pub open spec fn cset_size(s: CSet) -> nat
    decreases s,
{
    match s {
        CSet::And(cs) => 1 + csets_size(cs),
        CSet::Or(cs) => 1 + csets_size(cs),
        CSet::Not(b) => 1 + cset_size(*b),
        _ => 1,
    }
}

pub open spec fn csets_size(cs: Seq<CSet>) -> nat
    decreases cs,
{
    if cs.len() == 0 {
        0
    } else {
        cset_size(cs[0]) + csets_size(cs.subrange(1, cs.len() as int))
    }
}

pub proof fn lemma_cset_size_pos(s: CSet)
    ensures
        cset_size(s) >= 1,
{
}

pub open spec fn ip_fields_agree(a: IpField, b: IpField) -> bool {
    a == IpField::Either || b == IpField::Either || a == b
}

pub open spec fn port_fields_agree(a: PortField, b: PortField) -> bool {
    a == PortField::Either || b == PortField::Either || a == b
}

/// Two address spans overlap.
pub open spec fn spans_overlap(a: (u128, u128), b: (u128, u128)) -> bool {
    a.0 <= b.1 && b.0 <= a.1
}

/// Some network of each list overlaps, or a list is empty.
pub open spec fn spans_intersect(a: Seq<(u128, u128)>, b: Seq<(u128, u128)>) -> bool {
    a.len() == 0 || b.len() == 0 || exists|i: int, j: int|
        0 <= i < a.len() && 0 <= j < b.len() && #[trigger] spans_overlap(a[i], b[j])
}

pub open spec fn ranges_meet(a: (u16, u16), b: (u16, u16)) -> bool {
    a.0 <= b.1 && b.0 <= a.1
}

/// Some range of each list overlaps, or a list is empty.
pub open spec fn ranges_intersect(a: Seq<(u16, u16)>, b: Seq<(u16, u16)>) -> bool {
    a.len() == 0 || b.len() == 0 || exists|i: int, j: int|
        0 <= i < a.len() && 0 <= j < b.len() && #[trigger] ranges_meet(a[i], b[j])
}

/// Two lists of names share one.
pub open spec fn share_name(a: Seq<Seq<char>>, b: Seq<Seq<char>>) -> bool {
    exists|i: int, j: int| 0 <= i < a.len() && 0 <= j < b.len() && #[trigger] a[i] == #[trigger] b[j]
}

/// Whether two packet-length tests can hold together.
pub open spec fn lengths_meet(a: CSet, b: CSet) -> bool {
    match (a, b) {
        (CSet::LenGt(_), CSet::LenGt(_)) => true,
        (CSet::LenLt(_), CSet::LenLt(_)) => true,
        (CSet::LenGt(va), CSet::LenLt(vb)) => va < vb,
        (CSet::LenLt(va), CSet::LenGt(vb)) => vb < va,
        (CSet::LenEq(va), CSet::LenGt(vb)) => va > vb,
        (CSet::LenEq(va), CSet::LenLt(vb)) => va < vb,
        (CSet::LenGt(va), CSet::LenEq(vb)) => vb > va,
        (CSet::LenLt(va), CSet::LenEq(vb)) => vb < va,
        (CSet::LenEq(va), CSet::LenEq(vb)) => va == vb,
        _ => true,
    }
}

pub open spec fn is_length(s: CSet) -> bool {
    s is LenGt || s is LenLt || s is LenEq
}

/// Whether two condition sets may admit the same packet: sets of one kind
/// are compared (protocols, networks, ports, lengths, blacklists), `And` and
/// `Or` go through their children, anything else may overlap.
pub open spec fn intersects(a: CSet, b: CSet) -> bool
    decreases cset_size(a) + cset_size(b), 0nat,
{
    if a is Any || b is Any {
        true
    } else if a is Never || b is Never {
        false
    } else {
        match (a, b) {
            (CSet::Protocols(pa), CSet::Protocols(pb)) => share_name(pa, pb),
            (CSet::IpRanges(fa, ca), CSet::IpRanges(fb, cb)) => ip_fields_agree(fa, fb) && spans_intersect(
                ca,
                cb,
            ),
            (CSet::PortRanges(fa, ra), CSet::PortRanges(fb, rb)) => port_fields_agree(fa, fb)
                && ranges_intersect(ra, rb),
            (CSet::DnsBlacklistSet(da), CSet::DnsBlacklistSet(db)) => share_name(da, db),
            (CSet::And(ca), CSet::And(cb)) => all_any(ca, cb) || all_any_rev(cb, ca),
            (CSet::And(cs), _) => all_with(cs, b),
            (_, CSet::And(cs)) => all_with(cs, a),
            (CSet::Or(ca), CSet::Or(cb)) => any_any(ca, cb),
            (CSet::Or(cs), _) => any_with(cs, b),
            (_, CSet::Or(cs)) => any_with(cs, a),
            _ => if is_length(a) && is_length(b) {
                lengths_meet(a, b)
            } else {
                true
            },
        }
    }
}

/// Every set of `cs` may meet `o`.
pub open spec fn all_with(cs: Seq<CSet>, o: CSet) -> bool
    decreases csets_size(cs) + cset_size(o), 1nat,
{
    if cs.len() == 0 {
        true
    } else {
        proof {
            lemma_cset_size_pos(cs[0]);
        }
        intersects(cs[0], o) && all_with(cs.subrange(1, cs.len() as int), o)
    }
}

/// Some set of `cs` may meet `o`.
pub open spec fn any_with(cs: Seq<CSet>, o: CSet) -> bool
    decreases csets_size(cs) + cset_size(o), 1nat,
{
    if cs.len() == 0 {
        false
    } else {
        proof {
            lemma_cset_size_pos(cs[0]);
        }
        intersects(cs[0], o) || any_with(cs.subrange(1, cs.len() as int), o)
    }
}

/// `x` may meet some set of `ys` (`x` first).
pub open spec fn any_in(x: CSet, ys: Seq<CSet>) -> bool
    decreases cset_size(x) + csets_size(ys), 1nat,
{
    if ys.len() == 0 {
        false
    } else {
        proof {
            lemma_cset_size_pos(ys[0]);
        }
        intersects(x, ys[0]) || any_in(x, ys.subrange(1, ys.len() as int))
    }
}

/// Some set of `xs` may meet `y` (`y` second).
pub open spec fn any_in_rev(y: CSet, xs: Seq<CSet>) -> bool
    decreases cset_size(y) + csets_size(xs), 1nat,
{
    if xs.len() == 0 {
        false
    } else {
        proof {
            lemma_cset_size_pos(xs[0]);
        }
        intersects(xs[0], y) || any_in_rev(y, xs.subrange(1, xs.len() as int))
    }
}

/// Every set of `xs` may meet some set of `ys`.
pub open spec fn all_any(xs: Seq<CSet>, ys: Seq<CSet>) -> bool
    decreases csets_size(xs) + csets_size(ys), 2nat,
{
    if xs.len() == 0 {
        true
    } else {
        proof {
            lemma_cset_size_pos(xs[0]);
        }
        any_in(xs[0], ys) && all_any(xs.subrange(1, xs.len() as int), ys)
    }
}

/// Every set of `ys` is met by some set of `xs`.
pub open spec fn all_any_rev(ys: Seq<CSet>, xs: Seq<CSet>) -> bool
    decreases csets_size(ys) + csets_size(xs), 2nat,
{
    if ys.len() == 0 {
        true
    } else {
        proof {
            lemma_cset_size_pos(ys[0]);
        }
        any_in_rev(ys[0], xs) && all_any_rev(ys.subrange(1, ys.len() as int), xs)
    }
}

/// Some set of `xs` may meet some set of `ys`.
pub open spec fn any_any(xs: Seq<CSet>, ys: Seq<CSet>) -> bool
    decreases csets_size(xs) + csets_size(ys), 2nat,
{
    if xs.len() == 0 {
        false
    } else {
        proof {
            lemma_cset_size_pos(xs[0]);
        }
        any_in(xs[0], ys) || any_any(xs.subrange(1, xs.len() as int), ys)
    }
}

fn ip_fields_compatible(a: IpField, b: IpField) -> (r: bool)
    ensures
        r == ip_fields_agree(a, b),
{
    match (a, b) {
        (IpField::Src, IpField::Src) => true,
        (IpField::Dst, IpField::Dst) => true,
        (IpField::Either, _) | (_, IpField::Either) => true,
        _ => false,
    }
}

fn port_fields_compatible(a: PortField, b: PortField) -> (r: bool)
    ensures
        r == port_fields_agree(a, b),
{
    match (a, b) {
        (PortField::Src, PortField::Src) => true,
        (PortField::Dst, PortField::Dst) => true,
        (PortField::Either, _) | (_, PortField::Either) => true,
        _ => false,
    }
}

/// Whether two address spans overlap.
pub fn cidrs_overlap(a: &(u128, u128), b: &(u128, u128)) -> (r: bool)
    ensures
        r == spans_overlap(*a, *b),
{
    a.0 <= b.1 && b.0 <= a.1
}

fn cidr_intersection(a: &Vec<(u128, u128)>, b: &Vec<(u128, u128)>) -> (r: bool)
    ensures
        r == spans_intersect(a@, b@),
{
    if a.len() == 0 || b.len() == 0 {
        return true;
    }
    let mut i: usize = 0;
    while i < a.len()
        invariant
            i <= a@.len(),
            forall|x: int, y: int| 0 <= x < i && 0 <= y < b@.len() ==> !#[trigger] spans_overlap(a@[x], b@[y]),
        decreases a.len() - i,
    {
        let mut j: usize = 0;
        while j < b.len()
            invariant
                i < a@.len(),
                j <= b@.len(),
                forall|x: int, y: int| 0 <= x < i && 0 <= y < b@.len() ==> !#[trigger] spans_overlap(a@[x], b@[y]),
                forall|y: int| 0 <= y < j ==> !#[trigger] spans_overlap(a@[i as int], b@[y]),
            decreases b.len() - j,
        {
            if cidrs_overlap(&a[i], &b[j]) {
                return true;
            }
            j = j + 1;
        }
        i = i + 1;
    }
    false
}

fn port_ranges_intersect(a: &Vec<(u16, u16)>, b: &Vec<(u16, u16)>) -> (r: bool)
    ensures
        r == ranges_intersect(a@, b@),
{
    if a.len() == 0 || b.len() == 0 {
        return true;
    }
    let mut i: usize = 0;
    while i < a.len()
        invariant
            i <= a@.len(),
            forall|x: int, y: int| 0 <= x < i && 0 <= y < b@.len() ==> !#[trigger] ranges_meet(a@[x], b@[y]),
        decreases a.len() - i,
    {
        let mut j: usize = 0;
        while j < b.len()
            invariant
                i < a@.len(),
                j <= b@.len(),
                forall|x: int, y: int| 0 <= x < i && 0 <= y < b@.len() ==> !#[trigger] ranges_meet(a@[x], b@[y]),
                forall|y: int| 0 <= y < j ==> !#[trigger] ranges_meet(a@[i as int], b@[y]),
            decreases b.len() - j,
        {
            let (min_a, max_a) = a[i];
            let (min_b, max_b) = b[j];
            if min_a <= max_b && min_b <= max_a {
                assert(ranges_meet(a@[i as int], b@[j as int]));
                return true;
            }
            j = j + 1;
        }
        i = i + 1;
    }
    false
}

fn share_names(a: &Vec<String>, b: &Vec<String>) -> (r: bool)
    ensures
        r == share_name(texts(a@), texts(b@)),
{
    let ghost ta = texts(a@);
    let ghost tb = texts(b@);
    let mut i: usize = 0;
    while i < a.len()
        invariant
            i <= a@.len(),
            ta == texts(a@),
            tb == texts(b@),
            forall|x: int, y: int| 0 <= x < i && 0 <= y < b@.len() ==> #[trigger] ta[x] != #[trigger] tb[y],
        decreases a.len() - i,
    {
        let mut j: usize = 0;
        while j < b.len()
            invariant
                i < a@.len(),
                j <= b@.len(),
                ta == texts(a@),
                tb == texts(b@),
                forall|x: int, y: int| 0 <= x < i && 0 <= y < b@.len() ==> #[trigger] ta[x] != #[trigger] tb[y],
                forall|y: int| 0 <= y < j ==> ta[i as int] != #[trigger] tb[y],
            decreases b.len() - j,
        {
            assert(ta[i as int] == a@[i as int]@);
            assert(tb[j as int] == b@[j as int]@);
            if same_text(a[i].as_str(), b[j].as_str()) {
                return true;
            }
            j = j + 1;
        }
        i = i + 1;
    }
    false
}

fn lengths_compatible(a: &ConditionSet, b: &ConditionSet) -> (r: bool)
    ensures
        r == lengths_meet(a@, b@),
{
    match (a, b) {
        (ConditionSet::PacketLengthGt(_), ConditionSet::PacketLengthGt(_)) => true,
        (ConditionSet::PacketLengthLt(_), ConditionSet::PacketLengthLt(_)) => true,
        (ConditionSet::PacketLengthGt(va), ConditionSet::PacketLengthLt(vb)) => *va < *vb,
        (ConditionSet::PacketLengthLt(va), ConditionSet::PacketLengthGt(vb)) => *vb < *va,
        (ConditionSet::PacketLengthEq(va), ConditionSet::PacketLengthGt(vb)) => *va > *vb,
        (ConditionSet::PacketLengthEq(va), ConditionSet::PacketLengthLt(vb)) => *va < *vb,
        (ConditionSet::PacketLengthGt(va), ConditionSet::PacketLengthEq(vb)) => *vb > *va,
        (ConditionSet::PacketLengthLt(va), ConditionSet::PacketLengthEq(vb)) => *vb < *va,
        (ConditionSet::PacketLengthEq(va), ConditionSet::PacketLengthEq(vb)) => *va == *vb,
        _ => true,
    }
}

proof fn lemma_sub_step(cs: Seq<ConditionSet>, i: int)
    requires
        0 <= i < cs.len(),
    ensures
        csets_of(cs).len() == cs.len(),
        csets_of(cs).subrange(i, cs.len() as int)[0] == cs[i]@,
        csets_of(cs).subrange(i, cs.len() as int).subrange(1, cs.len() - i) =~= csets_of(cs).subrange(
            i + 1,
            cs.len() as int,
        ),
        csets_size(csets_of(cs).subrange(i, cs.len() as int)) == cset_size(cs[i]@) + csets_size(
            csets_of(cs).subrange(i + 1, cs.len() as int),
        ),
        cset_size(cs[i]@) >= 1,
{
    lemma_csets_of(cs);
    lemma_cset_size_pos(cs[i]@);
    let sub = csets_of(cs).subrange(i, cs.len() as int);
    assert(sub.subrange(1, sub.len() as int) =~= csets_of(cs).subrange(i + 1, cs.len() as int));
}

proof fn lemma_sub_whole(cs: Seq<ConditionSet>)
    ensures
        csets_of(cs).len() == cs.len(),
        csets_of(cs).subrange(0, cs.len() as int) =~= csets_of(cs),
{
    lemma_csets_of(cs);
}

proof fn lemma_sub_end(cs: Seq<ConditionSet>)
    ensures
        csets_of(cs).len() == cs.len(),
        csets_of(cs).subrange(cs.len() as int, cs.len() as int) =~= Seq::<CSet>::empty(),
{
    lemma_csets_of(cs);
}

/// Whether two condition sets may admit the same packet.
pub fn conditions_have_intersection(a: &ConditionSet, b: &ConditionSet) -> (r: bool)
    ensures
        r == intersects(a@, b@),
    decreases cset_size(a@) + cset_size(b@), 0nat,
{
    if matches!(a, ConditionSet::Any) || matches!(b, ConditionSet::Any) {
        return true;
    }
    if matches!(a, ConditionSet::Never) || matches!(b, ConditionSet::Never) {
        return false;
    }
    match (a, b) {
        (ConditionSet::Protocols(pa), ConditionSet::Protocols(pb)) => share_names(pa, pb),
        (ConditionSet::IpRanges { field: fa, cidrs: ca }, ConditionSet::IpRanges { field: fb, cidrs: cb }) => {
            ip_fields_compatible(*fa, *fb) && cidr_intersection(ca, cb)
        },
        (ConditionSet::PortRanges { field: fa, ranges: ra }, ConditionSet::PortRanges { field: fb, ranges: rb }) => {
            port_fields_compatible(*fa, *fb) && port_ranges_intersect(ra, rb)
        },
        (ConditionSet::DnsBlacklistSet(da), ConditionSet::DnsBlacklistSet(db)) => share_names(da, db),
        (ConditionSet::And(ca), ConditionSet::And(cb)) => {
            proof {
                lemma_sub_whole(ca@);
                lemma_sub_whole(cb@);
            }
            all_any_from(ca, 0, cb) || all_any_rev_from(cb, 0, ca)
        },
        (ConditionSet::And(cs), _) => {
            proof {
                lemma_sub_whole(cs@);
            }
            all_with_from(cs, 0, b)
        },
        (_, ConditionSet::And(cs)) => {
            proof {
                lemma_sub_whole(cs@);
            }
            all_with_from(cs, 0, a)
        },
        (ConditionSet::Or(ca), ConditionSet::Or(cb)) => {
            proof {
                lemma_sub_whole(ca@);
                lemma_sub_whole(cb@);
            }
            any_any_from(ca, 0, cb)
        },
        (ConditionSet::Or(cs), _) => {
            proof {
                lemma_sub_whole(cs@);
            }
            any_with_from(cs, 0, b)
        },
        (_, ConditionSet::Or(cs)) => {
            proof {
                lemma_sub_whole(cs@);
            }
            any_with_from(cs, 0, a)
        },
        _ => {
            let la = matches!(a, ConditionSet::PacketLengthGt(_)) || matches!(a, ConditionSet::PacketLengthLt(_))
                || matches!(a, ConditionSet::PacketLengthEq(_));
            let lb = matches!(b, ConditionSet::PacketLengthGt(_)) || matches!(b, ConditionSet::PacketLengthLt(_))
                || matches!(b, ConditionSet::PacketLengthEq(_));
            if la && lb {
                lengths_compatible(a, b)
            } else {
                true
            }
        },
    }
}

fn all_with_from(cs: &Vec<ConditionSet>, i: usize, o: &ConditionSet) -> (r: bool)
    requires
        i <= cs@.len(),
    ensures
        r == all_with(csets_of(cs@).subrange(i as int, cs@.len() as int), o@),
    decreases csets_size(csets_of(cs@).subrange(i as int, cs@.len() as int)) + cset_size(o@), 1nat,
{
    if i == cs.len() {
        proof {
            lemma_sub_end(cs@);
        }
        return true;
    }
    proof {
        lemma_sub_step(cs@, i as int);
    }
    conditions_have_intersection(&cs[i], o) && all_with_from(cs, i + 1, o)
}

fn any_with_from(cs: &Vec<ConditionSet>, i: usize, o: &ConditionSet) -> (r: bool)
    requires
        i <= cs@.len(),
    ensures
        r == any_with(csets_of(cs@).subrange(i as int, cs@.len() as int), o@),
    decreases csets_size(csets_of(cs@).subrange(i as int, cs@.len() as int)) + cset_size(o@), 1nat,
{
    if i == cs.len() {
        proof {
            lemma_sub_end(cs@);
        }
        return false;
    }
    proof {
        lemma_sub_step(cs@, i as int);
    }
    conditions_have_intersection(&cs[i], o) || any_with_from(cs, i + 1, o)
}

fn any_in_from(x: &ConditionSet, ys: &Vec<ConditionSet>, j: usize) -> (r: bool)
    requires
        j <= ys@.len(),
    ensures
        r == any_in(x@, csets_of(ys@).subrange(j as int, ys@.len() as int)),
    decreases cset_size(x@) + csets_size(csets_of(ys@).subrange(j as int, ys@.len() as int)), 1nat,
{
    if j == ys.len() {
        proof {
            lemma_sub_end(ys@);
        }
        return false;
    }
    proof {
        lemma_sub_step(ys@, j as int);
    }
    conditions_have_intersection(x, &ys[j]) || any_in_from(x, ys, j + 1)
}

fn any_in_rev_from(y: &ConditionSet, xs: &Vec<ConditionSet>, j: usize) -> (r: bool)
    requires
        j <= xs@.len(),
    ensures
        r == any_in_rev(y@, csets_of(xs@).subrange(j as int, xs@.len() as int)),
    decreases cset_size(y@) + csets_size(csets_of(xs@).subrange(j as int, xs@.len() as int)), 1nat,
{
    if j == xs.len() {
        proof {
            lemma_sub_end(xs@);
        }
        return false;
    }
    proof {
        lemma_sub_step(xs@, j as int);
    }
    conditions_have_intersection(&xs[j], y) || any_in_rev_from(y, xs, j + 1)
}

fn all_any_from(xs: &Vec<ConditionSet>, i: usize, ys: &Vec<ConditionSet>) -> (r: bool)
    requires
        i <= xs@.len(),
    ensures
        r == all_any(csets_of(xs@).subrange(i as int, xs@.len() as int), csets_of(ys@)),
    decreases csets_size(csets_of(xs@).subrange(i as int, xs@.len() as int)) + csets_size(csets_of(ys@)), 2nat,
{
    if i == xs.len() {
        proof {
            lemma_sub_end(xs@);
        }
        return true;
    }
    proof {
        lemma_sub_step(xs@, i as int);
        lemma_sub_whole(ys@);
    }
    any_in_from(&xs[i], ys, 0) && all_any_from(xs, i + 1, ys)
}

fn all_any_rev_from(ys: &Vec<ConditionSet>, i: usize, xs: &Vec<ConditionSet>) -> (r: bool)
    requires
        i <= ys@.len(),
    ensures
        r == all_any_rev(csets_of(ys@).subrange(i as int, ys@.len() as int), csets_of(xs@)),
    decreases csets_size(csets_of(ys@).subrange(i as int, ys@.len() as int)) + csets_size(csets_of(xs@)), 2nat,
{
    if i == ys.len() {
        proof {
            lemma_sub_end(ys@);
        }
        return true;
    }
    proof {
        lemma_sub_step(ys@, i as int);
        lemma_sub_whole(xs@);
    }
    any_in_rev_from(&ys[i], xs, 0) && all_any_rev_from(ys, i + 1, xs)
}

fn any_any_from(xs: &Vec<ConditionSet>, i: usize, ys: &Vec<ConditionSet>) -> (r: bool)
    requires
        i <= xs@.len(),
    ensures
        r == any_any(csets_of(xs@).subrange(i as int, xs@.len() as int), csets_of(ys@)),
    decreases csets_size(csets_of(xs@).subrange(i as int, xs@.len() as int)) + csets_size(csets_of(ys@)), 2nat,
{
    if i == xs.len() {
        proof {
            lemma_sub_end(xs@);
        }
        return false;
    }
    proof {
        lemma_sub_step(xs@, i as int);
        lemma_sub_whole(ys@);
    }
    any_in_from(&xs[i], ys, 0) || any_any_from(xs, i + 1, ys)
}

// ---------------------------------------------------------------------------
// Describing an overlap

/// The names of `pa` that `pb` holds too, in order.
pub open spec fn common_names(pa: Seq<Seq<char>>, pb: Seq<Seq<char>>) -> Seq<Seq<char>>
    decreases pa.len(),
{
    if pa.len() == 0 {
        Seq::empty()
    } else {
        let r = common_names(pa.drop_last(), pb);
        if pb.contains(pa.last()) {
            r.push(pa.last())
        } else {
            r
        }
    }
}

pub open spec fn ip_field_label(f: IpField) -> Seq<char> {
    match f {
        IpField::Src => "源IP"@,
        IpField::Dst => "目的IP"@,
        IpField::Either => "IP"@,
    }
}

pub open spec fn port_field_label(f: PortField) -> Seq<char> {
    match f {
        PortField::Src => "源端口"@,
        PortField::Dst => "目的端口"@,
        PortField::Either => "端口"@,
    }
}

/// The overlaps found between two condition sets, one line each: common
/// protocols, address or port ranges of compatible fields, gathered through
/// `And` and `Or` children.
pub open spec fn describe(a: CSet, b: CSet) -> Seq<Seq<char>>
    decreases cset_size(a) + cset_size(b), 0nat,
{
    match (a, b) {
        (CSet::Protocols(pa), CSet::Protocols(pb)) => {
            let c = common_names(pa, pb);
            if c.len() > 0 {
                seq!["共同协议: "@ + join(c, ","@)]
            } else {
                Seq::empty()
            }
        },
        (CSet::IpRanges(f, _), CSet::IpRanges(fb, _)) => if ip_fields_agree(f, fb) {
            seq![ip_field_label(f) + "范围存在交集"@]
        } else {
            Seq::empty()
        },
        (CSet::PortRanges(f, ra), CSet::PortRanges(fb, rb)) => if port_fields_agree(f, fb) && ranges_intersect(
            ra,
            rb,
        ) {
            seq![port_field_label(f) + "范围存在交集"@]
        } else {
            Seq::empty()
        },
        (CSet::And(ca), CSet::And(cb)) => desc_pairs(ca, cb),
        (CSet::And(cs), _) => desc_each(cs, b),
        (_, CSet::And(cs)) => desc_each(cs, a),
        (CSet::Or(ca), CSet::Or(cb)) => desc_pairs(ca, cb),
        (CSet::Or(cs), _) => desc_each(cs, b),
        (_, CSet::Or(cs)) => desc_each(cs, a),
        _ => Seq::empty(),
    }
}

pub open spec fn desc_each(cs: Seq<CSet>, o: CSet) -> Seq<Seq<char>>
    decreases csets_size(cs) + cset_size(o), 1nat,
{
    if cs.len() == 0 {
        Seq::empty()
    } else {
        proof {
            lemma_cset_size_pos(cs[0]);
        }
        describe(cs[0], o) + desc_each(cs.subrange(1, cs.len() as int), o)
    }
}

pub open spec fn desc_row(x: CSet, ys: Seq<CSet>) -> Seq<Seq<char>>
    decreases cset_size(x) + csets_size(ys), 1nat,
{
    if ys.len() == 0 {
        Seq::empty()
    } else {
        proof {
            lemma_cset_size_pos(ys[0]);
        }
        describe(x, ys[0]) + desc_row(x, ys.subrange(1, ys.len() as int))
    }
}

pub open spec fn desc_pairs(xs: Seq<CSet>, ys: Seq<CSet>) -> Seq<Seq<char>>
    decreases csets_size(xs) + csets_size(ys), 2nat,
{
    if xs.len() == 0 {
        Seq::empty()
    } else {
        proof {
            lemma_cset_size_pos(xs[0]);
        }
        desc_row(xs[0], ys) + desc_pairs(xs.subrange(1, xs.len() as int), ys)
    }
}

fn push_line(parts: &mut Vec<String>, s: String)
    ensures
        texts(final(parts)@) == texts(old(parts)@).push(s@),
{
    parts.push(s);
    assert(texts(final(parts)@) =~= texts(old(parts)@).push(s@));
}

fn contains_name(v: &Vec<String>, s: &String) -> (r: bool)
    ensures
        r == texts(v@).contains(s@),
{
    let mut i: usize = 0;
    while i < v.len()
        invariant
            i <= v@.len(),
            forall|k: int| 0 <= k < i ==> texts(v@)[k] != s@,
        decreases v.len() - i,
    {
        assert(texts(v@)[i as int] == v@[i as int]@);
        if same_text(v[i].as_str(), s.as_str()) {
            return true;
        }
        i = i + 1;
    }
    false
}

fn common_protocols(pa: &Vec<String>, pb: &Vec<String>) -> (r: Vec<String>)
    ensures
        texts(r@) == common_names(texts(pa@), texts(pb@)),
{
    let mut r: Vec<String> = Vec::new();
    let mut i: usize = 0;
    assert(texts(pa@).take(0) =~= Seq::<Seq<char>>::empty());
    assert(texts(r@) =~= Seq::<Seq<char>>::empty());
    while i < pa.len()
        invariant
            i <= pa@.len(),
            texts(r@) == common_names(texts(pa@).take(i as int), texts(pb@)),
        decreases pa.len() - i,
    {
        let ghost t = texts(pa@).take(i as int + 1);
        assert(t.drop_last() =~= texts(pa@).take(i as int));
        assert(t.last() == pa@[i as int]@);
        if contains_name(pb, &pa[i]) {
            push_line(&mut r, pa[i].clone());
        }
        i = i + 1;
    }
    assert(texts(pa@).take(i as int) =~= texts(pa@));
    r
}

/// Appends the overlaps found between two condition sets.
pub fn describe_intersection_recursive(a: &ConditionSet, b: &ConditionSet, parts: &mut Vec<String>)
    ensures
        texts(final(parts)@) == texts(old(parts)@) + describe(a@, b@),
    decreases cset_size(a@) + cset_size(b@), 0nat,
{
    let ghost start = texts(parts@);
    match (a, b) {
        (ConditionSet::Protocols(pa), ConditionSet::Protocols(pb)) => {
            let common = common_protocols(pa, pb);
            if common.len() > 0 {
                let mut line = String::from_str("共同协议: ");
                let joined = crate::replay::generator::join_strings(&common, ",");
                line.append(joined.as_str());
                proof {
                    assert(texts(common@) =~= crate::replay::generator::strings_view(common@));
                }
                push_line(parts, line);
            }
        },
        (ConditionSet::IpRanges { field, .. }, ConditionSet::IpRanges { field: fb, .. }) => {
            if ip_fields_compatible(*field, *fb) {
                let label = match field {
                    IpField::Src => "源IP",
                    IpField::Dst => "目的IP",
                    IpField::Either => "IP",
                };
                let mut line = String::from_str(label);
                line.append("范围存在交集");
                push_line(parts, line);
            }
        },
        (ConditionSet::PortRanges { field, ranges: ra }, ConditionSet::PortRanges { field: fb, ranges: rb }) => {
            if port_fields_compatible(*field, *fb) {
                let label = match field {
                    PortField::Src => "源端口",
                    PortField::Dst => "目的端口",
                    PortField::Either => "端口",
                };
                if port_ranges_intersect(ra, rb) {
                    let mut line = String::from_str(label);
                    line.append("范围存在交集");
                    push_line(parts, line);
                }
            }
        },
        (ConditionSet::And(ca), ConditionSet::And(cb)) => {
            proof {
                lemma_sub_whole(ca@);
                lemma_sub_whole(cb@);
            }
            desc_pairs_from(ca, 0, cb, parts);
        },
        (ConditionSet::And(cs), _) => {
            proof {
                lemma_sub_whole(cs@);
            }
            desc_each_from(cs, 0, b, parts);
        },
        (_, ConditionSet::And(cs)) => {
            proof {
                lemma_sub_whole(cs@);
            }
            desc_each_from(cs, 0, a, parts);
        },
        (ConditionSet::Or(ca), ConditionSet::Or(cb)) => {
            proof {
                lemma_sub_whole(ca@);
                lemma_sub_whole(cb@);
            }
            desc_pairs_from(ca, 0, cb, parts);
        },
        (ConditionSet::Or(cs), _) => {
            proof {
                lemma_sub_whole(cs@);
            }
            desc_each_from(cs, 0, b, parts);
        },
        (_, ConditionSet::Or(cs)) => {
            proof {
                lemma_sub_whole(cs@);
            }
            desc_each_from(cs, 0, a, parts);
        },
        _ => {
            assert(start + Seq::<Seq<char>>::empty() =~= start);
        },
    }
}

fn desc_each_from(cs: &Vec<ConditionSet>, i: usize, o: &ConditionSet, parts: &mut Vec<String>)
    requires
        i <= cs@.len(),
    ensures
        texts(final(parts)@) == texts(old(parts)@) + desc_each(csets_of(cs@).subrange(i as int, cs@.len() as int), o@),
    decreases csets_size(csets_of(cs@).subrange(i as int, cs@.len() as int)) + cset_size(o@), 1nat,
{
    if i == cs.len() {
        proof {
            lemma_sub_end(cs@);
            assert(texts(parts@) + Seq::<Seq<char>>::empty() =~= texts(parts@));
        }
        return;
    }
    proof {
        lemma_sub_step(cs@, i as int);
    }
    let ghost p0 = texts(parts@);
    describe_intersection_recursive(&cs[i], o, parts);
    desc_each_from(cs, i + 1, o, parts);
    proof {
        let sub = csets_of(cs@).subrange(i as int, cs@.len() as int);
        assert(p0 + desc_each(sub, o@) =~= p0 + describe(cs@[i as int]@, o@) + desc_each(
            csets_of(cs@).subrange(i + 1, cs@.len() as int),
            o@,
        ));
    }
}

fn desc_row_from(x: &ConditionSet, ys: &Vec<ConditionSet>, j: usize, parts: &mut Vec<String>)
    requires
        j <= ys@.len(),
    ensures
        texts(final(parts)@) == texts(old(parts)@) + desc_row(x@, csets_of(ys@).subrange(j as int, ys@.len() as int)),
    decreases cset_size(x@) + csets_size(csets_of(ys@).subrange(j as int, ys@.len() as int)), 1nat,
{
    if j == ys.len() {
        proof {
            lemma_sub_end(ys@);
            assert(texts(parts@) + Seq::<Seq<char>>::empty() =~= texts(parts@));
        }
        return;
    }
    proof {
        lemma_sub_step(ys@, j as int);
    }
    let ghost p0 = texts(parts@);
    describe_intersection_recursive(x, &ys[j], parts);
    desc_row_from(x, ys, j + 1, parts);
    proof {
        let sub = csets_of(ys@).subrange(j as int, ys@.len() as int);
        assert(p0 + desc_row(x@, sub) =~= p0 + describe(x@, ys@[j as int]@) + desc_row(
            x@,
            csets_of(ys@).subrange(j + 1, ys@.len() as int),
        ));
    }
}

fn desc_pairs_from(xs: &Vec<ConditionSet>, i: usize, ys: &Vec<ConditionSet>, parts: &mut Vec<String>)
    requires
        i <= xs@.len(),
    ensures
        texts(final(parts)@) == texts(old(parts)@) + desc_pairs(csets_of(xs@).subrange(i as int, xs@.len() as int), csets_of(ys@)),
    decreases csets_size(csets_of(xs@).subrange(i as int, xs@.len() as int)) + csets_size(csets_of(ys@)), 2nat,
{
    if i == xs.len() {
        proof {
            lemma_sub_end(xs@);
            assert(texts(parts@) + Seq::<Seq<char>>::empty() =~= texts(parts@));
        }
        return;
    }
    proof {
        lemma_sub_step(xs@, i as int);
        lemma_sub_whole(ys@);
    }
    let ghost p0 = texts(parts@);
    desc_row_from(&xs[i], ys, 0, parts);
    desc_pairs_from(xs, i + 1, ys, parts);
    proof {
        let sub = csets_of(xs@).subrange(i as int, xs@.len() as int);
        assert(p0 + desc_pairs(sub, csets_of(ys@)) =~= p0 + desc_row(xs@[i as int]@, csets_of(ys@)) + desc_pairs(
            csets_of(xs@).subrange(i + 1, xs@.len() as int),
            csets_of(ys@),
        ));
    }
}

// ---------------------------------------------------------------------------
// Conflicts

/// The text describing the overlap of two condition sets.
pub open spec fn intersection_text(a: CSet, b: CSet) -> Seq<char> {
    let p = describe(a, b);
    if p.len() == 0 {
        "条件存在交集"@
    } else {
        join(p, "; "@)
    }
}

/// Describes where the conditions of two rules overlap.
pub fn describe_intersection(a: &DetectionRule, b: &DetectionRule) -> (s: String)
    ensures
        s@ == intersection_text(to_set(a.condition@), to_set(b.condition@)),
{
    let set_a = to_condition_set(&a.condition);
    let set_b = to_condition_set(&b.condition);
    let mut parts: Vec<String> = Vec::new();
    assert(texts(parts@) =~= Seq::<Seq<char>>::empty());
    describe_intersection_recursive(&set_a, &set_b, &mut parts);
    assert(texts(parts@) =~= describe(set_a@, set_b@));
    if parts.len() == 0 {
        String::from_str("条件存在交集")
    } else {
        let joined = crate::replay::generator::join_strings(&parts, "; ");
        assert(texts(parts@) =~= crate::replay::generator::strings_view(parts@));
        joined
    }
}

pub open spec fn level_name(o: Option<Seq<char>>) -> Seq<char> {
    match o {
        Some(s) => s,
        None => "none"@,
    }
}

/// Two rules that both mark packets, with different mark levels, disagree;
/// the text names both levels.
pub open spec fn actions_clash(a: AlertActions, b: AlertActions) -> Option<Seq<char>> {
    let la = crate::protocol::parser::opt_chars(a.mark_level);
    let lb = crate::protocol::parser::opt_chars(b.mark_level);
    if a.auto_mark && b.auto_mark && la != lb {
        Some("标记级别冲突: 规则A标记为\""@ + level_name(la) + "\", 规则B标记为\""@ + level_name(lb) + "\""@)
    } else {
        None
    }
}

fn same_level(a: &Option<String>, b: &Option<String>) -> (r: bool)
    ensures
        r == (crate::protocol::parser::opt_chars(*a) == crate::protocol::parser::opt_chars(*b)),
{
    match (a, b) {
        (Some(x), Some(y)) => same_text(x.as_str(), y.as_str()),
        (None, None) => true,
        _ => false,
    }
}

fn level_text(o: &Option<String>) -> (s: &str)
    ensures
        s@ == level_name(crate::protocol::parser::opt_chars(*o)),
{
    match o {
        Some(x) => x.as_str(),
        None => "none",
    }
}

/// Whether the actions of two rules disagree, and how.
pub fn actions_conflict(a: &AlertActions, b: &AlertActions) -> (r: Option<String>)
    ensures
        crate::protocol::parser::opt_chars(r) == actions_clash(*a, *b),
{
    if a.auto_mark && b.auto_mark {
        if !same_level(&a.mark_level, &b.mark_level) {
            let mut s = String::from_str("标记级别冲突: 规则A标记为\"");
            s.append(level_text(&a.mark_level));
            s.append("\", 规则B标记为\"");
            s.append(level_text(&b.mark_level));
            s.append("\"");
            return Some(s);
        }
    }
    None
}

/// Whether two rules conflict: their conditions may hold for one packet while
/// their actions disagree.
pub open spec fn conflict_spec(a: RuleV, b: RuleV) -> Option<Seq<char>> {
    if intersects(to_set(a.condition), to_set(b.condition)) {
        actions_clash(a.actions, b.actions)
    } else {
        None
    }
}

/// The conflict between an existing rule and a new one, if they conflict.
pub fn check_conflict(existing: &DetectionRule, new_rule: &DetectionRule) -> (r: Option<RuleConflict>)
    ensures
        match r {
            None => conflict_spec(existing@, new_rule@) is None,
            Some(c) => conflict_spec(existing@, new_rule@) == Some(c.action_conflict@) && c.rule_a_id
                == existing.id && c.rule_a_name == existing.name && c.rule_b_id == new_rule.id
                && c.rule_b_name == new_rule.name && c.intersection_desc@ == intersection_text(
                to_set(existing.condition@),
                to_set(new_rule.condition@),
            ),
        },
{
    let set_a = to_condition_set(&existing.condition);
    let set_b = to_condition_set(&new_rule.condition);
    if !conditions_have_intersection(&set_a, &set_b) {
        return None;
    }
    match actions_conflict(&existing.actions, &new_rule.actions) {
        None => None,
        Some(action_conflict) => Some(
            RuleConflict {
                rule_a_id: existing.id.clone(),
                rule_a_name: existing.name.clone(),
                rule_b_id: new_rule.id.clone(),
                rule_b_name: new_rule.name.clone(),
                intersection_desc: describe_intersection(existing, new_rule),
                action_conflict,
            },
        ),
    }
}

// ---------------------------------------------------------------------------
// Symmetry of conflicts

proof fn lemma_member_size(cs: Seq<CSet>, i: int)
    requires
        0 <= i < cs.len(),
    ensures
        cset_size(cs[i]) <= csets_size(cs),
    decreases cs.len(),
{
    if i > 0 {
        let t = cs.subrange(1, cs.len() as int);
        lemma_member_size(t, i - 1);
        assert(t[i - 1] == cs[i]);
    }
}

proof fn lemma_any_in_exists(x: CSet, ys: Seq<CSet>)
    ensures
        any_in(x, ys) == exists|j: int| 0 <= j < ys.len() && #[trigger] intersects(x, ys[j]),
    decreases ys.len(),
{
    if ys.len() > 0 {
        let t = ys.subrange(1, ys.len() as int);
        lemma_any_in_exists(x, t);
        if any_in(x, ys) {
            if !intersects(x, ys[0]) {
                let j = choose|j: int| 0 <= j < t.len() && #[trigger] intersects(x, t[j]);
                assert(t[j] == ys[j + 1]);
            }
        } else {
            assert forall|j: int| 0 <= j < ys.len() implies !#[trigger] intersects(x, ys[j]) by {
                if j > 0 {
                    assert(t[j - 1] == ys[j]);
                }
            }
        }
    }
}

proof fn lemma_any_in_rev_exists(y: CSet, xs: Seq<CSet>)
    ensures
        any_in_rev(y, xs) == exists|i: int| 0 <= i < xs.len() && #[trigger] intersects(xs[i], y),
    decreases xs.len(),
{
    if xs.len() > 0 {
        let t = xs.subrange(1, xs.len() as int);
        lemma_any_in_rev_exists(y, t);
        if any_in_rev(y, xs) {
            if !intersects(xs[0], y) {
                let i = choose|i: int| 0 <= i < t.len() && #[trigger] intersects(t[i], y);
                assert(t[i] == xs[i + 1]);
            }
        } else {
            assert forall|i: int| 0 <= i < xs.len() implies !#[trigger] intersects(xs[i], y) by {
                if i > 0 {
                    assert(t[i - 1] == xs[i]);
                }
            }
        }
    }
}

proof fn lemma_all_any_forall(xs: Seq<CSet>, ys: Seq<CSet>)
    ensures
        all_any(xs, ys) == forall|i: int| 0 <= i < xs.len() ==> #[trigger] any_in(xs[i], ys),
    decreases xs.len(),
{
    if xs.len() > 0 {
        let t = xs.subrange(1, xs.len() as int);
        lemma_all_any_forall(t, ys);
        if all_any(xs, ys) {
            assert forall|i: int| 0 <= i < xs.len() implies #[trigger] any_in(xs[i], ys) by {
                if i > 0 {
                    assert(t[i - 1] == xs[i]);
                }
            }
        } else if any_in(xs[0], ys) {
            let i = choose|i: int| 0 <= i < t.len() && !#[trigger] any_in(t[i], ys);
            assert(t[i] == xs[i + 1]);
        }
    }
}

proof fn lemma_all_any_rev_forall(ys: Seq<CSet>, xs: Seq<CSet>)
    ensures
        all_any_rev(ys, xs) == forall|j: int| 0 <= j < ys.len() ==> #[trigger] any_in_rev(ys[j], xs),
    decreases ys.len(),
{
    if ys.len() > 0 {
        let t = ys.subrange(1, ys.len() as int);
        lemma_all_any_rev_forall(t, xs);
        if all_any_rev(ys, xs) {
            assert forall|j: int| 0 <= j < ys.len() implies #[trigger] any_in_rev(ys[j], xs) by {
                if j > 0 {
                    assert(t[j - 1] == ys[j]);
                }
            }
        } else if any_in_rev(ys[0], xs) {
            let j = choose|j: int| 0 <= j < t.len() && !#[trigger] any_in_rev(t[j], xs);
            assert(t[j] == ys[j + 1]);
        }
    }
}

proof fn lemma_any_any_exists(xs: Seq<CSet>, ys: Seq<CSet>)
    ensures
        any_any(xs, ys) == exists|i: int| 0 <= i < xs.len() && #[trigger] any_in(xs[i], ys),
    decreases xs.len(),
{
    if xs.len() > 0 {
        let t = xs.subrange(1, xs.len() as int);
        lemma_any_any_exists(t, ys);
        if any_any(xs, ys) {
            if !any_in(xs[0], ys) {
                let i = choose|i: int| 0 <= i < t.len() && #[trigger] any_in(t[i], ys);
                assert(t[i] == xs[i + 1]);
            }
        } else {
            assert forall|i: int| 0 <= i < xs.len() implies !#[trigger] any_in(xs[i], ys) by {
                if i > 0 {
                    assert(t[i - 1] == xs[i]);
                }
            }
        }
    }
}

/// Every set of `xs` meeting some set of `ys` is the same as every set of
/// `xs` being met by some set of `ys`, once meeting is symmetric on them.
proof fn lemma_all_any_swap(xs: Seq<CSet>, ys: Seq<CSet>)
    requires
        forall|i: int, j: int|
            0 <= i < xs.len() && 0 <= j < ys.len() ==> intersects(#[trigger] xs[i], #[trigger] ys[j])
                == intersects(ys[j], xs[i]),
    ensures
        all_any(xs, ys) == all_any_rev(xs, ys),
{
    lemma_all_any_forall(xs, ys);
    lemma_all_any_rev_forall(xs, ys);
    assert forall|i: int| 0 <= i < xs.len() implies #[trigger] any_in(xs[i], ys) == any_in_rev(xs[i], ys) by {
        lemma_any_in_exists(xs[i], ys);
        lemma_any_in_rev_exists(xs[i], ys);
        if any_in(xs[i], ys) {
            let j = choose|j: int| 0 <= j < ys.len() && #[trigger] intersects(xs[i], ys[j]);
            assert(intersects(ys[j], xs[i]));
        }
        if any_in_rev(xs[i], ys) {
            let j = choose|j: int| 0 <= j < ys.len() && #[trigger] intersects(ys[j], xs[i]);
            assert(intersects(xs[i], ys[j]));
        }
    }
    if all_any(xs, ys) {
        assert forall|i: int| 0 <= i < xs.len() implies #[trigger] any_in_rev(xs[i], ys) by {
            assert(any_in(xs[i], ys));
        }
    }
    if all_any_rev(xs, ys) {
        assert forall|i: int| 0 <= i < xs.len() implies #[trigger] any_in(xs[i], ys) by {
            assert(any_in_rev(xs[i], ys));
        }
    }
}

/// Whether two condition sets may meet does not depend on their order.
pub proof fn lemma_intersects_symmetric(a: CSet, b: CSet)
    ensures
        intersects(a, b) == intersects(b, a),
    decreases cset_size(a) + cset_size(b),
{
    if a is Any || b is Any || a is Never || b is Never {
    } else {
        match (a, b) {
            (CSet::And(ca), CSet::And(cb)) => {
                assert forall|i: int, j: int| 0 <= i < ca.len() && 0 <= j < cb.len() implies intersects(
                    #[trigger] ca[i],
                    #[trigger] cb[j],
                ) == intersects(cb[j], ca[i]) by {
                    lemma_member_size(ca, i);
                    lemma_member_size(cb, j);
                    lemma_intersects_symmetric(ca[i], cb[j]);
                }
                lemma_all_any_swap(ca, cb);
                lemma_all_any_swap(cb, ca);
            },
            (CSet::Or(ca), CSet::Or(cb)) => {
                lemma_any_any_exists(ca, cb);
                lemma_any_any_exists(cb, ca);
                if any_any(ca, cb) {
                    let i = choose|i: int| 0 <= i < ca.len() && #[trigger] any_in(ca[i], cb);
                    lemma_any_in_exists(ca[i], cb);
                    let j = choose|j: int| 0 <= j < cb.len() && #[trigger] intersects(ca[i], cb[j]);
                    lemma_member_size(ca, i);
                    lemma_member_size(cb, j);
                    lemma_intersects_symmetric(ca[i], cb[j]);
                    lemma_any_in_exists(cb[j], ca);
                    assert(any_in(cb[j], ca));
                }
                if any_any(cb, ca) {
                    let j = choose|j: int| 0 <= j < cb.len() && #[trigger] any_in(cb[j], ca);
                    lemma_any_in_exists(cb[j], ca);
                    let i = choose|i: int| 0 <= i < ca.len() && #[trigger] intersects(cb[j], ca[i]);
                    lemma_member_size(ca, i);
                    lemma_member_size(cb, j);
                    lemma_intersects_symmetric(ca[i], cb[j]);
                    lemma_any_in_exists(ca[i], cb);
                    assert(any_in(ca[i], cb));
                }
            },
            (CSet::Protocols(pa), CSet::Protocols(pb)) => {
                if share_name(pa, pb) {
                    let (i, j) = choose|i: int, j: int|
                        0 <= i < pa.len() && 0 <= j < pb.len() && #[trigger] pa[i] == #[trigger] pb[j];
                    assert(pb[j] == pa[i]);
                }
                if share_name(pb, pa) {
                    let (i, j) = choose|i: int, j: int|
                        0 <= i < pb.len() && 0 <= j < pa.len() && #[trigger] pb[i] == #[trigger] pa[j];
                    assert(pa[j] == pb[i]);
                }
            },
            (CSet::DnsBlacklistSet(pa), CSet::DnsBlacklistSet(pb)) => {
                if share_name(pa, pb) {
                    let (i, j) = choose|i: int, j: int|
                        0 <= i < pa.len() && 0 <= j < pb.len() && #[trigger] pa[i] == #[trigger] pb[j];
                    assert(pb[j] == pa[i]);
                }
                if share_name(pb, pa) {
                    let (i, j) = choose|i: int, j: int|
                        0 <= i < pb.len() && 0 <= j < pa.len() && #[trigger] pb[i] == #[trigger] pa[j];
                    assert(pa[j] == pb[i]);
                }
            },
            (CSet::IpRanges(fa, ca), CSet::IpRanges(fb, cb)) => {
                if spans_intersect(ca, cb) && ca.len() > 0 && cb.len() > 0 {
                    let (i, j) = choose|i: int, j: int|
                        0 <= i < ca.len() && 0 <= j < cb.len() && #[trigger] spans_overlap(ca[i], cb[j]);
                    assert(spans_overlap(cb[j], ca[i]));
                }
                if spans_intersect(cb, ca) && ca.len() > 0 && cb.len() > 0 {
                    let (i, j) = choose|i: int, j: int|
                        0 <= i < cb.len() && 0 <= j < ca.len() && #[trigger] spans_overlap(cb[i], ca[j]);
                    assert(spans_overlap(ca[j], cb[i]));
                }
            },
            (CSet::PortRanges(fa, ra), CSet::PortRanges(fb, rb)) => {
                if ranges_intersect(ra, rb) && ra.len() > 0 && rb.len() > 0 {
                    let (i, j) = choose|i: int, j: int|
                        0 <= i < ra.len() && 0 <= j < rb.len() && #[trigger] ranges_meet(ra[i], rb[j]);
                    assert(ranges_meet(rb[j], ra[i]));
                }
                if ranges_intersect(rb, ra) && ra.len() > 0 && rb.len() > 0 {
                    let (i, j) = choose|i: int, j: int|
                        0 <= i < rb.len() && 0 <= j < ra.len() && #[trigger] ranges_meet(rb[i], ra[j]);
                    assert(ranges_meet(ra[j], rb[i]));
                }
            },
            _ => {},
        }
    }
}

/// Whether two rules conflict does not depend on which of them is the
/// existing one, and a conflict needs both rules to mark packets, with
/// different mark levels.
pub proof fn lemma_conflict_symmetric(a: RuleV, b: RuleV)
    ensures
        (conflict_spec(a, b) is Some) == (conflict_spec(b, a) is Some),
        conflict_spec(a, b) is Some ==> a.actions.auto_mark && b.actions.auto_mark
            && crate::protocol::parser::opt_chars(a.actions.mark_level)
            != crate::protocol::parser::opt_chars(b.actions.mark_level),
{
    lemma_intersects_symmetric(to_set(a.condition), to_set(b.condition));
}

// ---------------------------------------------------------------------------
// Soundness of length overlap

/// Two packet-length conditions that some packet length satisfies both are
/// judged able to meet; so two rules whose conditions are such length tests
/// and whose actions clash are reported as conflicting.
pub proof fn lemma_lengths_meet_when_satisfiable(
    o1: LengthOperator,
    v1: u32,
    o2: LengthOperator,
    v2: u32,
    x: u32,
)
    requires
        crate::rule::engine::length_matches(x, o1, v1),
        crate::rule::engine::length_matches(x, o2, v2),
    ensures
        intersects(to_set(Cond::PacketLength(o1, v1)), to_set(Cond::PacketLength(o2, v2))),
        intersects(to_set(Cond::PacketLength(o2, v2)), to_set(Cond::PacketLength(o1, v1))),
{
}

/// Two rules testing packet lengths that one length passes both, whose
/// actions clash, conflict, in either order.
pub proof fn lemma_length_rules_conflict(a: RuleV, b: RuleV, x: u32)
    requires
        a.condition matches Cond::PacketLength(o1, v1) && crate::rule::engine::length_matches(x, o1, v1),
        b.condition matches Cond::PacketLength(o2, v2) && crate::rule::engine::length_matches(x, o2, v2),
        actions_clash(a.actions, b.actions) is Some,
    ensures
        conflict_spec(a, b) is Some,
        conflict_spec(b, a) is Some,
{
    match (a.condition, b.condition) {
        (Cond::PacketLength(o1, v1), Cond::PacketLength(o2, v2)) => {
            lemma_lengths_meet_when_satisfiable(o1, v1, o2, v2, x);
        },
        _ => {},
    }
    lemma_conflict_symmetric(a, b);
}

} // verus!
