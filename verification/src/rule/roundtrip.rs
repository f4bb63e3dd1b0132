//! Reading back printed conditions.
use vstd::prelude::*;
use crate::rule::grammar::{
    ascii_lower, expect_operator, ident_char, ident_end, kind_named, match_keyword, match_str,
    match_token, parse_and, parse_atom, parse_expression_from, parse_expression_spec,
    parse_identifier, parse_ip_match, parse_not, parse_or, parse_port_range, parse_primary,
    parse_protocol_match, parse_string, parse_string_or_identifier, quote_end, and_rest, or_rest,
    ws_end, first_index, split_on, digits_end, parse_comparison, parse_number, parse_packet_length,
    expect_token, parse_rate_limit, AtomKind,
};
use crate::rule::models::{Cond, IpField, LengthOperator, PortField};
use crate::rule::parser::{expr_text, ip_field_name, operator_text, port_field_name, quoted};
use crate::text::{
    all_ascii, all_digits, ascii_lowered, dec_digits, digits_value, is_digit, is_ws,
    lemma_dec_digits, lower_text, parse_u16_spec, parse_u64_digits_spec,
};

verus! {

/// A text that prints inside double quotes as it is: no quote and no
/// backslash in it.
pub open spec fn plain_text(t: Seq<char>) -> bool {
    forall|i: int| 0 <= i < t.len() ==> (#[trigger] t[i]) != '"' && t[i] != '\\'
}

proof fn lemma_ident_run(s: Seq<char>, i: int, e: int)
    requires
        0 <= i <= e <= s.len(),
        forall|j: int| i <= j < e ==> ident_char(#[trigger] s[j]),
        e == s.len() || !ident_char(s[e]),
    ensures
        ident_end(s, i) == e,
    decreases e - i,
{
    if i < e {
        lemma_ident_run(s, i + 1, e);
    }
}

proof fn lemma_quote_run(s: Seq<char>, i: int, e: int)
    requires
        0 <= i <= e < s.len(),
        forall|j: int| i <= j < e ==> (#[trigger] s[j]) != '"' && s[j] != '\\',
        s[e] == '"',
    ensures
        quote_end(s, i, '"') == e,
    decreases e - i,
{
    if i < e {
        lemma_quote_run(s, i + 1, e);
    }
}

/// An expression made of one condition, starting with a name that is not
/// `NOT`, reads back as that condition once the condition reads to the end.
proof fn lemma_lone_atom(s: Seq<char>, c: Cond)
    requires
        s.len() > 0,
        !is_ws(s[0]),
        s[0] != '!' && s[0] != '(',
        ascii_lower(s[0]) != 'n',
        parse_atom(s, 0) == Ok::<(Cond, int), (Seq<char>, Option<int>)>((c, s.len() as int)),
    ensures
        parse_expression_spec(s) == Ok::<Cond, (Seq<char>, Option<int>)>(c),
{
    let len = s.len() as int;
    assert(ws_end(s, 0) == 0);
    assert(ws_end(s, len) == len);
    reveal_strlit("NOT");
    reveal_strlit("AND");
    reveal_strlit("OR");
    assert(ascii_lower("NOT"@[0]) == 'n');
    assert(ascii_lower(s[0int + 0int]) != ascii_lower("NOT"@[0]));
    assert(match_keyword(s, 0, "NOT"@).0 == false);
    assert(match_token(s, 0, '!') == (false, 0int));
    assert(match_token(s, 0, '(') == (false, 0int));
    assert(parse_primary(s, 0) == parse_atom(s, 0));
    assert(parse_not(s, 0) == parse_atom(s, 0));
    assert(match_keyword(s, len, "AND"@) == (false, len));
    assert(match_token(s, len, '&') == (false, len));
    assert(and_rest(s, len, c) == Ok::<(Cond, int), (Seq<char>, Option<int>)>((c, len)));
    assert(parse_and(s, 0) == Ok::<(Cond, int), (Seq<char>, Option<int>)>((c, len)));
    assert(match_keyword(s, len, "OR"@) == (false, len));
    assert(match_token(s, len, '|') == (false, len));
    assert(or_rest(s, len, c) == Ok::<(Cond, int), (Seq<char>, Option<int>)>((c, len)));
    assert(parse_or(s, 0) == Ok::<(Cond, int), (Seq<char>, Option<int>)>((c, len)));
    assert(parse_expression_from(s, 0) == Ok::<Cond, (Seq<char>, Option<int>)>(c));
}

/// `name == "text"`, the name made of lower-case ASCII letters and `_`, is
/// read as the name followed by the quoted text, and the text ends the input.
proof fn lemma_named_quote(name: Seq<char>, t: Seq<char>)
    requires
        name.len() > 0,
        forall|i: int| 0 <= i < name.len() ==> ('a' <= #[trigger] name[i] <= 'z') || name[i] == '_',
        plain_text(t),
    ensures
        ({
            let s = name + " == "@ + quoted(t);
            let n = name.len() as int;
            &&& parse_identifier(s, 0) == Ok::<(Seq<char>, int), (Seq<char>, Option<int>)>((name, n))
            &&& lower_text(name) == name
            &&& expect_operator(s, n, "=="@) == Ok::<((), int), (Seq<char>, Option<int>)>(((), n + 3))
            &&& parse_string_or_identifier(s, n + 3) == Ok::<(Seq<char>, int), (Seq<char>, Option<int>)>(
                (t, s.len() as int),
            )
            &&& parse_string(s, n + 3) == Ok::<(Seq<char>, int), (Seq<char>, Option<int>)>((t, s.len() as int))
            &&& !is_ws(s[0]) && s[0] != '!' && s[0] != '('
        }),
{
    reveal_strlit(" == ");
    reveal_strlit("==");
    let s = name + " == "@ + quoted(t);
    let n = name.len() as int;
    let c = t.len() as int;
    assert(s.len() == n + 6 + c);
    assert forall|i: int| 0 <= i < n implies #[trigger] s[i] == name[i] by {}
    assert(s[n] == ' ');
    assert(s[n + 1] == '=');
    assert(s[n + 2] == '=');
    assert(s[n + 3] == ' ');
    assert(s[n + 4] == '"');
    assert forall|j: int| 0 <= j < c implies #[trigger] s[n + 5 + j] == t[j] by {}
    assert(s[n + 5 + c] == '"');
    // the name
    assert forall|j: int| 0 <= j < n implies ident_char(#[trigger] s[j]) by {
        assert(s[j] == name[j]);
    }
    assert(!ident_char(s[n]));
    lemma_ident_run(s, 0, n);
    assert(!is_ws(s[0]));
    assert(ws_end(s, 0) == 0);
    reveal(parse_identifier);
    assert(s.subrange(0, n) =~= name);
    assert(all_ascii(name));
    assert(ascii_lowered(name) =~= name);
    // the operator
    assert(ws_end(s, n + 1) == n + 1);
    assert(ws_end(s, n) == n + 1);
    assert(s.subrange(n + 1, n + 3) =~= "=="@);
    assert(match_str(s, n + 1, "=="@) == (true, n + 3));
    reveal(expect_operator);
    // the quoted text
    assert(ws_end(s, n + 4) == n + 4);
    assert(ws_end(s, n + 3) == n + 4);
    assert forall|j: int| n + 5 <= j < n + 5 + c implies (#[trigger] s[j]) != '"' && s[j] != '\\' by {
        assert(s[n + 5 + (j - n - 5)] == t[j - n - 5]);
    }
    lemma_quote_run(s, n + 5, n + 5 + c);
    reveal(parse_string);
    assert(s.subrange(n + 5, n + 5 + c) =~= t);
    reveal(parse_string_or_identifier);
}

/// The name printed for an address field selects that field.
proof fn lemma_ip_kind(f: IpField)
    ensures
        kind_named(ip_field_name(f)) == Some(
            match f {
                IpField::Src => AtomKind::SrcIp,
                IpField::Dst => AtomKind::DstIp,
                IpField::Either => AtomKind::AnyIp,
            },
        ),
        forall|i: int|
            0 <= i < ip_field_name(f).len() ==> ('a' <= #[trigger] ip_field_name(f)[i] <= 'z')
                || ip_field_name(f)[i] == '_',
        ip_field_name(f).len() > 0,
        ascii_lower(ip_field_name(f)[0]) != 'n',
{
    reveal_strlit("src_ip");
    reveal_strlit("dst_ip");
    reveal_strlit("ip");
    reveal_strlit("protocol");
    reveal_strlit("srcip");
    reveal_strlit("dstip");
    assert("src_ip"@.len() == 6);
    assert("dst_ip"@.len() == 6);
    assert("ip"@.len() == 2);
    assert("protocol"@.len() == 8);
    assert("srcip"@.len() == 5);
    assert("dstip"@.len() == 5);
    assert("src_ip"@[0] != "dst_ip"@[0]);
    assert("src_ip"@ != "protocol"@);
    assert("dst_ip"@ != "protocol"@);
    assert("dst_ip"@ != "src_ip"@);
    assert("dst_ip"@ != "srcip"@);
    assert("ip"@ != "protocol"@);
    assert("ip"@ != "src_ip"@);
    assert("ip"@ != "srcip"@);
    assert("ip"@ != "dst_ip"@);
    assert("ip"@ != "dstip"@);
}

/// A network condition prints as `src_ip|dst_ip|ip == "<cidr>"`, and parsing
/// that text gives back the same condition: the field named selects the
/// same address, and the network text comes back as it was.
pub proof fn lemma_ip_match_reads_back(f: IpField, cidr: Seq<char>)
    requires
        plain_text(cidr),
    ensures
        parse_expression_spec(expr_text(Cond::IpMatch(f, cidr))) == Ok::<Cond, (Seq<char>, Option<int>)>(
            Cond::IpMatch(f, cidr),
        ),
{
    reveal_strlit(" == ");
    let name = ip_field_name(f);
    let s = name + " == "@ + quoted(cidr);
    assert(expr_text(Cond::IpMatch(f, cidr)) == s);
    lemma_ip_kind(f);
    lemma_named_quote(name, cidr);
    let n = name.len() as int;
    let k = match f {
        IpField::Src => AtomKind::SrcIp,
        IpField::Dst => AtomKind::DstIp,
        IpField::Either => AtomKind::AnyIp,
    };
    assert(kind_named(name) == Some(k));
    reveal(parse_ip_match);
    assert(parse_ip_match(s, n, f) == Ok::<(Cond, int), (Seq<char>, Option<int>)>(
        (Cond::IpMatch(f, cidr), s.len() as int),
    ));
    reveal(parse_atom);
    assert(parse_atom(s, 0) == Ok::<(Cond, int), (Seq<char>, Option<int>)>(
        (Cond::IpMatch(f, cidr), s.len() as int),
    ));
    assert(s[0] == name[0]);
    lemma_lone_atom(s, Cond::IpMatch(f, cidr));
}

/// A protocol condition prints as `protocol == "<name>"`, and parsing that
/// text gives back the same condition.
pub proof fn lemma_protocol_match_reads_back(p: Seq<char>)
    requires
        plain_text(p),
    ensures
        parse_expression_spec(expr_text(Cond::ProtocolMatch(p))) == Ok::<Cond, (Seq<char>, Option<int>)>(
            Cond::ProtocolMatch(p),
        ),
{
    reveal_strlit("protocol");
    reveal_strlit("protocol == ");
    reveal_strlit(" == ");
    let name = "protocol"@;
    let s = name + " == "@ + quoted(p);
    assert("protocol == "@ =~= name + " == "@);
    assert(expr_text(Cond::ProtocolMatch(p)) =~= s);
    assert(name.len() == 8);
    lemma_named_quote(name, p);
    assert(kind_named(name) == Some(AtomKind::Protocol));
    reveal(parse_protocol_match);
    reveal(parse_atom);
    assert(s[0] == 'p');
    lemma_lone_atom(s, Cond::ProtocolMatch(p));
}

proof fn lemma_first_index_none(s: Seq<char>, c: char)
    requires
        forall|i: int| 0 <= i < s.len() ==> (#[trigger] s[i]) != c,
    ensures
        first_index(s, c) is None,
    decreases s.len(),
{
    if s.len() > 0 {
        assert forall|i: int| 0 <= i < s.drop_first().len() implies (#[trigger] s.drop_first()[i]) != c by {
            assert(s.drop_first()[i] == s[i + 1]);
        }
        lemma_first_index_none(s.drop_first(), c);
    }
}

proof fn lemma_first_index_at(x: Seq<char>, c: char, rest: Seq<char>)
    requires
        forall|i: int| 0 <= i < x.len() ==> (#[trigger] x[i]) != c,
    ensures
        first_index(x + seq![c] + rest, c) == Some(x.len() as int),
    decreases x.len(),
{
    let s = x + seq![c] + rest;
    if x.len() == 0 {
        assert(s[0] == c);
    } else {
        assert forall|i: int| 0 <= i < x.drop_first().len() implies (#[trigger] x.drop_first()[i]) != c by {
            assert(x.drop_first()[i] == x[i + 1]);
        }
        lemma_first_index_at(x.drop_first(), c, rest);
        assert(s.drop_first() =~= x.drop_first() + seq![c] + rest);
        assert(s[0] == x[0]);
    }
}

/// A port range prints as `<min>-<max>`, which splits back into the two
/// numbers.
proof fn lemma_range_text(min: u16, max: u16)
    ensures
        ({
            let t = dec_digits(min as nat) + "-"@ + dec_digits(max as nat);
            &&& plain_text(t)
            &&& split_on(t, '-') == seq![dec_digits(min as nat), dec_digits(max as nat)]
            &&& parse_u16_spec(dec_digits(min as nat)) == Some(min)
            &&& parse_u16_spec(dec_digits(max as nat)) == Some(max)
        }),
{
    reveal_strlit("-");
    let a = dec_digits(min as nat);
    let b = dec_digits(max as nat);
    lemma_dec_digits(min as nat);
    lemma_dec_digits(max as nat);
    let t = a + "-"@ + b;
    assert("-"@ =~= seq!['-']);
    assert forall|i: int| 0 <= i < a.len() implies (#[trigger] a[i]) != '-' by {
        assert(is_digit(a[i]));
    }
    assert forall|i: int| 0 <= i < b.len() implies (#[trigger] b[i]) != '-' by {
        assert(is_digit(b[i]));
    }
    assert forall|i: int| 0 <= i < t.len() implies (#[trigger] t[i]) != '"' && t[i] != '\\' by {
        if i < a.len() {
            assert(t[i] == a[i]);
            assert(is_digit(a[i]));
        } else if i > a.len() {
            assert(t[i] == b[i - a.len() - 1]);
            assert(is_digit(b[i - a.len() - 1]));
        }
    }
    lemma_first_index_at(a, '-', b);
    lemma_first_index_none(b, '-');
    assert(t.subrange(0, a.len() as int) =~= a);
    assert(t.subrange(a.len() as int + 1, t.len() as int) =~= b);
    assert(split_on(b, '-') == seq![b]);
    assert(split_on(t, '-') =~= seq![a, b]);
    assert(a[0] != '+');
    assert(b[0] != '+');
}

/// The name printed for a port field selects that field.
proof fn lemma_port_kind(f: PortField)
    ensures
        kind_named(port_field_name(f)) == Some(
            match f {
                PortField::Src => AtomKind::SrcPort,
                PortField::Dst => AtomKind::DstPort,
                PortField::Either => AtomKind::AnyPort,
            },
        ),
        forall|i: int|
            0 <= i < port_field_name(f).len() ==> ('a' <= #[trigger] port_field_name(f)[i] <= 'z')
                || port_field_name(f)[i] == '_',
        port_field_name(f).len() > 0,
        ascii_lower(port_field_name(f)[0]) != 'n',
{
    reveal_strlit("src_ip");
    reveal_strlit("dst_ip");
    reveal_strlit("ip");
    reveal_strlit("protocol");
    reveal_strlit("srcip");
    reveal_strlit("dstip");
    reveal_strlit("src_port");
    reveal_strlit("srcport");
    reveal_strlit("dst_port");
    reveal_strlit("dstport");
    reveal_strlit("port");
    assert("src_ip"@.len() == 6);
    assert("dst_ip"@.len() == 6);
    assert("ip"@.len() == 2);
    assert("protocol"@.len() == 8);
    assert("srcip"@.len() == 5);
    assert("dstip"@.len() == 5);
    assert("src_port"@.len() == 8);
    assert("srcport"@.len() == 7);
    assert("dst_port"@.len() == 8);
    assert("dstport"@.len() == 7);
    assert("port"@.len() == 4);
    assert("src_port"@[0] != "protocol"@[0]);
    assert("dst_port"@[0] != "protocol"@[0]);
    assert("dst_port"@[0] != "src_port"@[0]);
    assert("src_port"@ != "protocol"@);
    assert("dst_port"@ != "protocol"@);
    assert("dst_port"@ != "src_port"@);
    assert("src_port"@ != "src_ip"@);
    assert("dst_port"@ != "dst_ip"@);
    assert("src_port"@ != "dst_ip"@);
    assert("dst_port"@ != "src_ip"@);
    assert("port"@ != "protocol"@);
    assert("port"@ != "src_ip"@);
    assert("port"@ != "srcip"@);
    assert("port"@ != "dst_ip"@);
    assert("port"@ != "dstip"@);
    assert("port"@ != "ip"@);
    assert("port"@ != "src_port"@);
    assert("port"@ != "srcport"@);
    assert("port"@ != "dst_port"@);
    assert("port"@ != "dstport"@);
}

proof fn lemma_port_range_step(f: PortField, min: u16, max: u16)
    ensures
        ({
            let name = port_field_name(f);
            let t = dec_digits(min as nat) + "-"@ + dec_digits(max as nat);
            let s = name + " == "@ + quoted(t);
            parse_port_range(s, name.len() as int, f) == Ok::<(Cond, int), (Seq<char>, Option<int>)>(
                (Cond::PortRange(f, min, max), s.len() as int),
            )
        }),
{
    let name = port_field_name(f);
    let t = dec_digits(min as nat) + "-"@ + dec_digits(max as nat);
    lemma_port_kind(f);
    lemma_range_text(min, max);
    lemma_named_quote(name, t);
    reveal(parse_port_range);
}

proof fn lemma_port_range_atom(f: PortField, min: u16, max: u16)
    ensures
        ({
            let name = port_field_name(f);
            let t = dec_digits(min as nat) + "-"@ + dec_digits(max as nat);
            let s = name + " == "@ + quoted(t);
            &&& parse_atom(s, 0) == Ok::<(Cond, int), (Seq<char>, Option<int>)>(
                (Cond::PortRange(f, min, max), s.len() as int),
            )
            &&& !is_ws(s[0]) && s[0] != '!' && s[0] != '('
            &&& ascii_lower(s[0]) != 'n'
            &&& s.len() > 0
        }),
{
    let name = port_field_name(f);
    let t = dec_digits(min as nat) + "-"@ + dec_digits(max as nat);
    let s = name + " == "@ + quoted(t);
    lemma_port_kind(f);
    lemma_range_text(min, max);
    lemma_named_quote(name, t);
    lemma_port_range_step(f, min, max);
    reveal(parse_atom);
    assert(s[0] == name[0]);
}

/// A port-range condition prints as `src_port|dst_port|port == "<min>-<max>"`,
/// and parsing that text gives back the same condition: the field named
/// selects the same port, and both bounds come back.
pub proof fn lemma_port_range_reads_back(f: PortField, min: u16, max: u16)
    ensures
        parse_expression_spec(expr_text(Cond::PortRange(f, min, max))) == Ok::<Cond, (Seq<char>, Option<int>)>(
            Cond::PortRange(f, min, max),
        ),
{
    reveal_strlit(" == ");
    let name = port_field_name(f);
    let t = dec_digits(min as nat) + "-"@ + dec_digits(max as nat);
    let s = name + " == "@ + quoted(t);
    assert(expr_text(Cond::PortRange(f, min, max)) == s);
    lemma_port_range_atom(f, min, max);
    lemma_lone_atom(s, Cond::PortRange(f, min, max));
}

proof fn lemma_digit_run(s: Seq<char>, i: int, e: int)
    requires
        0 <= i <= e <= s.len(),
        forall|j: int| i <= j < e ==> is_digit(#[trigger] s[j]),
        e == s.len() || !is_digit(s[e]),
    ensures
        digits_end(s, i) == e,
    decreases e - i,
{
    if i < e {
        lemma_digit_run(s, i + 1, e);
    }
}

proof fn lemma_no_match_str(s: Seq<char>, q: int, lit: Seq<char>, k: int)
    requires
        0 <= q,
        ws_end(s, q) == q,
        0 <= k < lit.len(),
        q + k < s.len(),
        s[q + k] != lit[k],
    ensures
        match_str(s, q, lit) == (false, q),
{
    if q + lit.len() <= s.len() {
        assert(s.subrange(q, q + lit.len())[k] == s[q + k]);
    }
}

/// The comparison printed for a length test reads back as the same test,
/// when a space follows it.
proof fn lemma_comparison_reads_back(s: Seq<char>, p: int, q: int, o: LengthOperator)
    requires
        0 <= q,
        ws_end(s, p) == q,
        q + operator_text(o).len() < s.len(),
        s.subrange(q, q + operator_text(o).len()) == operator_text(o),
        s[q + operator_text(o).len()] == ' ',
    ensures
        parse_comparison(s, p) == Ok::<(LengthOperator, int), (Seq<char>, Option<int>)>(
            (o, q + operator_text(o).len()),
        ),
{
    reveal_strlit(">");
    reveal_strlit("<");
    reveal_strlit("==");
    reveal_strlit(">=");
    reveal_strlit("=>");
    reveal_strlit("<=");
    reveal_strlit("=<");
    reveal_strlit("=");
    let t = operator_text(o);
    assert(s[q] == s.subrange(q, q + t.len())[0]);
    assert(!is_ws(s[q]));
    assert(ws_end(s, q) == q);
    reveal(parse_comparison);
    match o {
        LengthOperator::GreaterThan => {
            assert(s[q] == '>');
            lemma_no_match_str(s, q, ">="@, 1);
            lemma_no_match_str(s, q, "=>"@, 0);
            lemma_no_match_str(s, q, "<="@, 0);
            lemma_no_match_str(s, q, "=<"@, 0);
            lemma_no_match_str(s, q, "=="@, 0);
            lemma_no_match_str(s, q, "="@, 0);
        },
        LengthOperator::LessThan => {
            assert(s[q] == '<');
            lemma_no_match_str(s, q, ">="@, 0);
            lemma_no_match_str(s, q, "=>"@, 0);
            lemma_no_match_str(s, q, "<="@, 1);
            lemma_no_match_str(s, q, "=<"@, 0);
            lemma_no_match_str(s, q, "=="@, 0);
            lemma_no_match_str(s, q, "="@, 0);
        },
        LengthOperator::Equal => {
            assert(s[q] == '=');
            assert(s[q + 1] == s.subrange(q, q + t.len())[1]);
            assert(s[q + 1] == '=');
            lemma_no_match_str(s, q, ">="@, 0);
            lemma_no_match_str(s, q, "=>"@, 1);
            lemma_no_match_str(s, q, "<="@, 0);
            lemma_no_match_str(s, q, "=<"@, 1);
        },
    }
}

/// The name `length` selects a length test.
proof fn lemma_length_kind()
    ensures
        kind_named("length"@) == Some(AtomKind::Length),
        "length"@.len() == 6,
        forall|i: int| 0 <= i < 6 ==> 'a' <= #[trigger] "length"@[i] <= 'z',
{
    reveal_strlit("src_ip");
    reveal_strlit("dst_ip");
    reveal_strlit("ip");
    reveal_strlit("protocol");
    reveal_strlit("srcip");
    reveal_strlit("dstip");
    reveal_strlit("src_port");
    reveal_strlit("srcport");
    reveal_strlit("dst_port");
    reveal_strlit("dstport");
    reveal_strlit("port");
    reveal_strlit("length");
    assert("length"@[0] != "src_ip"@[0]);
    assert("length"@[0] != "dst_ip"@[0]);
    assert("length"@[0] != "srcip"@[0]);
    assert("length"@[0] != "dstip"@[0]);
    assert("length"@[0] != "protocol"@[0]);
    assert("length"@[0] != "ip"@[0]);
    assert("length"@[0] != "src_port"@[0]);
    assert("length"@[0] != "srcport"@[0]);
    assert("length"@[0] != "dst_port"@[0]);
    assert("length"@[0] != "dstport"@[0]);
    assert("length"@[0] != "port"@[0]);
}

proof fn lemma_length_atom(o: LengthOperator, v: u32)
    ensures
        ({
            let s = expr_text(Cond::PacketLength(o, v));
            &&& parse_atom(s, 0) == Ok::<(Cond, int), (Seq<char>, Option<int>)>(
                (Cond::PacketLength(o, v), s.len() as int),
            )
            &&& s.len() > 0 && !is_ws(s[0]) && s[0] != '!' && s[0] != '('
            &&& crate::rule::grammar::ascii_lower(s[0]) != 'n'
        }),
{
    reveal_strlit("length ");
    reveal_strlit("length");
    reveal_strlit(" ");
    reveal_strlit(">");
    reveal_strlit("<");
    reveal_strlit("==");
    lemma_length_kind();
    let t = operator_text(o);
    let d = dec_digits(v as nat);
    lemma_dec_digits(v as nat);
    let s = "length "@ + t + " "@ + d;
    assert(expr_text(Cond::PacketLength(o, v)) == s);
    let n = 6int;
    let k = t.len() as int;
    assert(1 <= k <= 2);
    assert forall|i: int| 0 <= i < n implies #[trigger] s[i] == "length"@[i] by {}
    assert(s[n] == ' ');
    assert(s.subrange(7, 7 + k) =~= t);
    assert(s[7 + k] == ' ');
    assert forall|j: int| 0 <= j < d.len() implies #[trigger] s[8 + k + j] == d[j] by {}
    assert(s.len() == 8 + k + d.len());
    // the name
    assert forall|j: int| 0 <= j < n implies ident_char(#[trigger] s[j]) by {
        assert(s[j] == "length"@[j]);
    }
    lemma_ident_run(s, 0, n);
    assert(ws_end(s, 0) == 0);
    reveal(parse_identifier);
    assert(s.subrange(0, n) =~= "length"@);
    assert(all_ascii("length"@));
    assert(ascii_lowered("length"@) =~= "length"@);
    // the comparison
    assert(ws_end(s, 7) == 7) by {
        assert(s[7] == t[0]);
    }
    assert(ws_end(s, n) == 7);
    lemma_comparison_reads_back(s, n, 7, o);
    // the number
    assert(ws_end(s, 8 + k) == 8 + k) by {
        assert(s[8 + k] == d[0]);
        assert(is_digit(d[0]));
    }
    assert(ws_end(s, 7 + k) == 8 + k);
    assert forall|j: int| 8 + k <= j < s.len() implies is_digit(#[trigger] s[j]) by {
        assert(s[8 + k + (j - 8 - k)] == d[j - 8 - k]);
    }
    lemma_digit_run(s, 8 + k, s.len() as int);
    assert(s.subrange(8 + k, s.len() as int) =~= d);
    assert(parse_u64_digits_spec(d) == Some(v as u64));
    reveal(parse_number);
    reveal(parse_packet_length);
    reveal(parse_atom);
}

/// A length condition prints as `length <op> <value>`, and parsing that text
/// gives back the same comparison and value.
pub proof fn lemma_length_reads_back(o: LengthOperator, v: u32)
    ensures
        parse_expression_spec(expr_text(Cond::PacketLength(o, v))) == Ok::<Cond, (Seq<char>, Option<int>)>(
            Cond::PacketLength(o, v),
        ),
{
    lemma_length_atom(o, v);
    lemma_lone_atom(expr_text(Cond::PacketLength(o, v)), Cond::PacketLength(o, v));
}

/// The name `rate` selects a rate limit.
proof fn lemma_rate_kind()
    ensures
        kind_named("rate"@) == Some(AtomKind::Rate),
        "rate"@.len() == 4,
        forall|i: int| 0 <= i < 4 ==> 'a' <= #[trigger] "rate"@[i] <= 'z',
{
    reveal_strlit("src_ip");
    reveal_strlit("dst_ip");
    reveal_strlit("ip");
    reveal_strlit("protocol");
    reveal_strlit("srcip");
    reveal_strlit("dstip");
    reveal_strlit("src_port");
    reveal_strlit("srcport");
    reveal_strlit("dst_port");
    reveal_strlit("dstport");
    reveal_strlit("port");
    reveal_strlit("length");
    reveal_strlit("len");
    reveal_strlit("tcp_flags");
    reveal_strlit("flags");
    reveal_strlit("payload");
    reveal_strlit("content");
    reveal_strlit("rate");
    assert("rate"@[0] != "src_ip"@[0]);
    assert("rate"@[0] != "dst_ip"@[0]);
    assert("rate"@[0] != "srcip"@[0]);
    assert("rate"@[0] != "dstip"@[0]);
    assert("rate"@[0] != "protocol"@[0]);
    assert("rate"@[0] != "ip"@[0]);
    assert("rate"@[0] != "src_port"@[0]);
    assert("rate"@[0] != "srcport"@[0]);
    assert("rate"@[0] != "dst_port"@[0]);
    assert("rate"@[0] != "dstport"@[0]);
    assert("rate"@[0] != "port"@[0]);
    assert("rate"@[0] != "length"@[0]);
    assert("rate"@[0] != "len"@[0]);
    assert("rate"@[0] != "tcp_flags"@[0]);
    assert("rate"@[0] != "flags"@[0]);
    assert("rate"@[0] != "payload"@[0]);
    assert("rate"@[0] != "content"@[0]);
}

/// The text of a rate limit, character by character.
proof fn lemma_rate_layout(w: u32, t: u32, src: bool)
    ensures
        ({
            let s = expr_text(Cond::RateLimit(w, t, src));
            let dw = dec_digits(w as nat);
            let dt = dec_digits(t as nat);
            let a = dw.len() as int;
            let b = dt.len() as int;
            let word = if src { "src"@ } else { "dst"@ };
            &&& s.len() == 13 + a + b
            &&& forall|i: int| 0 <= i < 4 ==> #[trigger] s[i] == "rate"@[i]
            &&& s[4] == '('
            &&& forall|j: int| 0 <= j < a ==> #[trigger] s[5 + j] == dw[j]
            &&& s[5 + a] == ','
            &&& s[6 + a] == ' '
            &&& forall|j: int| 0 <= j < b ==> #[trigger] s[7 + a + j] == dt[j]
            &&& s[7 + a + b] == ','
            &&& s[8 + a + b] == ' '
            &&& forall|j: int| 0 <= j < 3 ==> #[trigger] s[9 + a + b + j] == word[j]
            &&& s.subrange(9 + a + b, 12 + a + b) == word
            &&& s[12 + a + b] == ')'
            &&& word.len() == 3
            &&& forall|j: int| 0 <= j < 3 ==> 'a' <= #[trigger] word[j] <= 'z'
        }),
{
    reveal_strlit("rate(");
    reveal_strlit("rate");
    reveal_strlit(", ");
    reveal_strlit("src");
    reveal_strlit("dst");
    reveal_strlit(")");
    let dw = dec_digits(w as nat);
    let dt = dec_digits(t as nat);
    let word = if src { "src"@ } else { "dst"@ };
    let s = "rate("@ + dw + ", "@ + dt + ", "@ + word + ")"@;
    assert(expr_text(Cond::RateLimit(w, t, src)) == s);
    let a = dw.len() as int;
    let b = dt.len() as int;
    assert(s.subrange(9 + a + b, 12 + a + b) =~= word);
}

#[verifier::rlimit(40)]
proof fn lemma_rate_numbers(w: u32, t: u32, src: bool)
    ensures
        ({
            let s = expr_text(Cond::RateLimit(w, t, src));
            let a = dec_digits(w as nat).len() as int;
            let b = dec_digits(t as nat).len() as int;
            &&& expect_token(s, 4, '(') == Ok::<((), int), (Seq<char>, Option<int>)>(((), 5))
            &&& parse_number(s, 5) == Ok::<(u64, int), (Seq<char>, Option<int>)>((w as u64, 5 + a))
            &&& expect_token(s, 5 + a, ',') == Ok::<((), int), (Seq<char>, Option<int>)>(((), 6 + a))
            &&& parse_number(s, 6 + a) == Ok::<(u64, int), (Seq<char>, Option<int>)>((t as u64, 7 + a + b))
            &&& expect_token(s, 7 + a + b, ',') == Ok::<((), int), (Seq<char>, Option<int>)>(((), 8 + a + b))
        }),
{
    lemma_rate_layout(w, t, src);
    lemma_dec_digits(w as nat);
    lemma_dec_digits(t as nat);
    let s = expr_text(Cond::RateLimit(w, t, src));
    let dw = dec_digits(w as nat);
    let dt = dec_digits(t as nat);
    let a = dw.len() as int;
    let b = dt.len() as int;
    assert(ws_end(s, 4) == 4);
    reveal(expect_token);
    assert(is_digit(s[5])) by {
        assert(s[5int + 0int] == dw[0]);
    }
    assert(ws_end(s, 5) == 5);
    assert forall|j: int| 5 <= j < 5 + a implies is_digit(#[trigger] s[j]) by {
        assert(s[5 + (j - 5)] == dw[j - 5]);
    }
    lemma_digit_run(s, 5, 5 + a);
    assert forall|j: int| 0 <= j < a implies #[trigger] s.subrange(5, 5 + a)[j] == dw[j] by {
        assert(s[5 + j] == dw[j]);
    }
    assert(s.subrange(5, 5 + a) =~= dw);
    reveal(parse_number);
    assert(ws_end(s, 5 + a) == 5 + a);
    assert(is_digit(s[7 + a])) by {
        assert(s[7 + a + 0int] == dt[0]);
    }
    assert(ws_end(s, 7 + a) == 7 + a);
    assert(ws_end(s, 6 + a) == 7 + a);
    assert forall|j: int| 7 + a <= j < 7 + a + b implies is_digit(#[trigger] s[j]) by {
        assert(s[7 + a + (j - 7 - a)] == dt[j - 7 - a]);
    }
    lemma_digit_run(s, 7 + a, 7 + a + b);
    assert forall|j: int| 0 <= j < b implies #[trigger] s.subrange(7 + a, 7 + a + b)[j] == dt[j] by {
        assert(s[7 + a + j] == dt[j]);
    }
    assert(s.subrange(7 + a, 7 + a + b) =~= dt);
    assert(ws_end(s, 7 + a + b) == 7 + a + b);
}

#[verifier::rlimit(40)]
proof fn lemma_rate_side(w: u32, t: u32, src: bool)
    ensures
        ({
            let s = expr_text(Cond::RateLimit(w, t, src));
            let a = dec_digits(w as nat).len() as int;
            let b = dec_digits(t as nat).len() as int;
            let word = if src { "src"@ } else { "dst"@ };
            &&& parse_identifier(s, 8 + a + b) == Ok::<(Seq<char>, int), (Seq<char>, Option<int>)>(
                (word, 12 + a + b),
            )
            &&& expect_token(s, 12 + a + b, ')') == Ok::<((), int), (Seq<char>, Option<int>)>(((), 13 + a + b))
            &&& (lower_text(word) == "src"@ || lower_text(word) == "true"@) == src
        }),
{
    lemma_rate_layout(w, t, src);
    let s = expr_text(Cond::RateLimit(w, t, src));
    let a = dec_digits(w as nat).len() as int;
    let b = dec_digits(t as nat).len() as int;
    let word = if src { "src"@ } else { "dst"@ };
    let q = 9 + a + b;
    assert(forall|j: int| 0 <= j < 3 ==> 'a' <= #[trigger] word[j] <= 'z') by {
        reveal_strlit("src");
        reveal_strlit("dst");
    }
    assert(ws_end(s, q) == q) by {
        assert(s[9 + a + b + 0int] == word[0int]);
        assert('a' <= word[0int] <= 'z');
    }
    assert(ws_end(s, 8 + a + b) == q);
    assert forall|j: int| q <= j < q + 3 implies ident_char(#[trigger] s[j]) by {
        assert(s[9 + a + b + (j - q)] == word[j - q]);
        assert('a' <= word[j - q] <= 'z');
    }
    lemma_ident_run(s, q, q + 3);
    reveal(parse_identifier);
    assert(s.subrange(q, q + 3) == word);
    assert(ws_end(s, q + 3) == q + 3);
    reveal(expect_token);
    lemma_side_word(src);
}

/// The side word of a rate limit reads as its side.
proof fn lemma_side_word(src: bool)
    ensures
        ({
            let word = if src { "src"@ } else { "dst"@ };
            (lower_text(word) == "src"@ || lower_text(word) == "true"@) == src
        }),
{
    reveal_strlit("src");
    reveal_strlit("dst");
    reveal_strlit("true");
    let word = if src { "src"@ } else { "dst"@ };
    assert(all_ascii(word));
    assert(ascii_lowered(word) =~= word);
    assert("dst"@[0] != "src"@[0]);
    assert("dst"@.len() != "true"@.len());
}

proof fn lemma_rate_step(w: u32, t: u32, src: bool)
    ensures
        ({
            let s = expr_text(Cond::RateLimit(w, t, src));
            parse_rate_limit(s, 4) == Ok::<(Cond, int), (Seq<char>, Option<int>)>(
                (Cond::RateLimit(w, t, src), s.len() as int),
            )
        }),
{
    lemma_rate_layout(w, t, src);
    lemma_rate_numbers(w, t, src);
    lemma_rate_side(w, t, src);
    reveal(parse_rate_limit);
}

proof fn lemma_rate_atom(w: u32, t: u32, src: bool)
    ensures
        ({
            let s = expr_text(Cond::RateLimit(w, t, src));
            &&& parse_atom(s, 0) == Ok::<(Cond, int), (Seq<char>, Option<int>)>(
                (Cond::RateLimit(w, t, src), s.len() as int),
            )
            &&& s.len() > 0 && !is_ws(s[0]) && s[0] != '!' && s[0] != '('
            &&& crate::rule::grammar::ascii_lower(s[0]) != 'n'
        }),
{
    reveal_strlit("rate");
    lemma_rate_layout(w, t, src);
    lemma_rate_kind();
    lemma_rate_step(w, t, src);
    let s = expr_text(Cond::RateLimit(w, t, src));
    assert forall|j: int| 0 <= j < 4 implies ident_char(#[trigger] s[j]) by {
        assert(s[j] == "rate"@[j]);
    }
    lemma_ident_run(s, 0, 4);
    assert(s[0] == 'r');
    assert(ws_end(s, 0) == 0);
    reveal(parse_identifier);
    assert(s.subrange(0, 4) =~= "rate"@);
    assert(all_ascii("rate"@));
    assert(ascii_lowered("rate"@) =~= "rate"@);
    reveal(parse_atom);
}

/// A rate limit prints as `rate(<window>, <threshold>, src|dst)`, and parsing
/// that text gives back the same window, threshold and side.
pub proof fn lemma_rate_limit_reads_back(w: u32, t: u32, src: bool)
    ensures
        parse_expression_spec(expr_text(Cond::RateLimit(w, t, src))) == Ok::<Cond, (Seq<char>, Option<int>)>(
            Cond::RateLimit(w, t, src),
        ),
{
    lemma_rate_atom(w, t, src);
    lemma_lone_atom(expr_text(Cond::RateLimit(w, t, src)), Cond::RateLimit(w, t, src));
}
} // verus!
