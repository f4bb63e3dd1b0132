//! The rule expression language, stated as a function on character sequences.
//!
//! Every function takes the whole input `s` and a position `p` and returns the
//! parsed value with the position after it, or the error message and position
//! that the parser reports. Whitespace is skipped before every token.
use vstd::prelude::*;
use crate::text::{
    alnum, is_digit, is_ws, lower_text, parse_u16_spec, parse_u64_digits_spec, trimmed,
    upper_text,
};
use super::models::{Cond, FlagMatchMode, IpField, LengthOperator, PortField, TcpFlag};

verus! {

/// A parse outcome: the value and the position after it, or the error message
/// and the error position.
pub type Parsed<T> = Result<(T, int), (Seq<char>, Option<int>)>;

/// The first position at or after `p` that does not hold whitespace.
pub open spec fn ws_end(s: Seq<char>, p: int) -> int
    decreases s.len() - p,
{
    if 0 <= p < s.len() && is_ws(s[p]) {
        ws_end(s, p + 1)
    } else {
        p
    }
}

/// ASCII lower-case mapping of one character.
pub open spec fn ascii_lower(c: char) -> char {
    if 'A' <= c <= 'Z' {
        ((c as u32) + 32) as char
    } else {
        c
    }
}

/// An identifier character: alphanumeric or `_`.
pub open spec fn ident_char(c: char) -> bool {
    alnum(c) || c == '_'
}

/// A keyword (case-insensitive, not followed by an identifier character).
pub open spec fn match_keyword(s: Seq<char>, p: int, kw: Seq<char>) -> (bool, int) {
    let q = ws_end(s, p);
    if q + kw.len() > s.len() {
        (false, q)
    } else if forall|i: int| 0 <= i < kw.len() ==> ascii_lower(#[trigger] s[q + i]) == ascii_lower(kw[i]) {
        if q + kw.len() < s.len() && ident_char(s[q + kw.len()]) {
            (false, q)
        } else {
            (true, q + kw.len())
        }
    } else {
        (false, q)
    }
}

/// A literal operator.
pub open spec fn match_str(s: Seq<char>, p: int, lit: Seq<char>) -> (bool, int) {
    let q = ws_end(s, p);
    if q + lit.len() > s.len() {
        (false, q)
    } else if s.subrange(q, q + lit.len()) == lit {
        (true, q + lit.len())
    } else {
        (false, q)
    }
}

/// A single character token.
pub open spec fn match_token(s: Seq<char>, p: int, c: char) -> (bool, int) {
    let q = ws_end(s, p);
    if 0 <= q < s.len() && s[q] == c {
        (true, q + 1)
    } else {
        (false, q)
    }
}

/// Whether the next non-whitespace character is `c` (nothing is consumed).
pub open spec fn peek_token(s: Seq<char>, p: int, c: char) -> bool {
    let q = ws_end(s, p);
    0 <= q < s.len() && s[q] == c
}

/// The end of the run of identifier characters starting at `q`.
pub open spec fn ident_end(s: Seq<char>, q: int) -> int
    decreases s.len() - q,
{
    if 0 <= q < s.len() && ident_char(s[q]) {
        ident_end(s, q + 1)
    } else {
        q
    }
}

/// The end of the run of decimal digits starting at `q`.
pub open spec fn digits_end(s: Seq<char>, q: int) -> int
    decreases s.len() - q,
{
    if 0 <= q < s.len() && is_digit(s[q]) {
        digits_end(s, q + 1)
    } else {
        q
    }
}

/// The position of the closing quote of a string whose content starts at `i`;
/// a backslash skips the character after it.
pub open spec fn quote_end(s: Seq<char>, i: int, quote: char) -> int
    decreases s.len() + 2 - i,
{
    if 0 <= i < s.len() && s[i] != quote {
        if s[i] == '\\' {
            quote_end(s, i + 2, quote)
        } else {
            quote_end(s, i + 1, quote)
        }
    } else {
        i
    }
}

pub open spec fn msg_unexpected(c: char) -> Seq<char> {
    "Unexpected character '"@ + seq![c] + "'"@
}

pub open spec fn msg_unknown(name: Seq<char>) -> Seq<char> {
    "Unknown condition: '"@ + name + "'"@
}

pub open spec fn msg_port_range(r: Seq<char>) -> Seq<char> {
    "Invalid port range: '"@ + r + "'"@
}

pub open spec fn msg_port_number(r: Seq<char>) -> Seq<char> {
    "Invalid port number: '"@ + r + "'"@
}

pub open spec fn msg_quote(c: char) -> Seq<char> {
    "Expected quote, found '"@ + seq![c] + "'"@
}

pub open spec fn msg_operator(op: Seq<char>) -> Seq<char> {
    "Expected operator '"@ + op + "'"@
}

pub open spec fn msg_token(c: char) -> Seq<char> {
    "Expected '"@ + seq![c] + "'"@
}

/// An identifier.
#[verifier::opaque]
pub open spec fn parse_identifier(s: Seq<char>, p: int) -> Parsed<Seq<char>> {
    let q = ws_end(s, p);
    let e = ident_end(s, q);
    if e == q {
        Err(("Expected identifier"@, Some(q)))
    } else {
        Ok((s.subrange(q, e), e))
    }
}

/// A decimal number that fits in 64 bits.
#[verifier::opaque]
pub open spec fn parse_number(s: Seq<char>, p: int) -> Parsed<u64> {
    let q = ws_end(s, p);
    let e = digits_end(s, q);
    if e == q {
        Err(("Expected number"@, Some(q)))
    } else {
        match parse_u64_digits_spec(s.subrange(q, e)) {
            Some(v) => Ok((v, e)),
            None => Err(("Invalid number"@, Some(q))),
        }
    }
}

/// A string in single or double quotes; its content is taken as written.
#[verifier::opaque]
pub open spec fn parse_string(s: Seq<char>, p: int) -> Parsed<Seq<char>> {
    let q = ws_end(s, p);
    if q >= s.len() {
        Err(("Expected string"@, Some(q)))
    } else if s[q] != '"' && s[q] != '\'' {
        Err((msg_quote(s[q]), Some(q)))
    } else {
        let e = quote_end(s, q + 1, s[q]);
        if e >= s.len() {
            Err(("Unterminated string"@, Some(q)))
        } else {
            Ok((s.subrange(q + 1, e), e + 1))
        }
    }
}

/// A quoted string, or else an identifier.
#[verifier::opaque]
pub open spec fn parse_string_or_identifier(s: Seq<char>, p: int) -> Parsed<Seq<char>> {
    let q = ws_end(s, p);
    if 0 <= q < s.len() && (s[q] == '"' || s[q] == '\'') {
        parse_string(s, q)
    } else {
        parse_identifier(s, q)
    }
}

/// A comparison operator of a length condition.
#[verifier::opaque]
pub open spec fn parse_comparison(s: Seq<char>, p: int) -> Parsed<LengthOperator> {
    let q = ws_end(s, p);
    let (m1, q1) = match_str(s, q, ">="@);
    if m1 {
        Ok((LengthOperator::GreaterThan, q1))
    } else {
        let (m2, q2) = match_str(s, q1, "=>"@);
        if m2 {
            Ok((LengthOperator::GreaterThan, q2))
        } else {
            let (m3, q3) = match_str(s, q2, "<="@);
            if m3 {
                Ok((LengthOperator::LessThan, q3))
            } else {
                let (m4, q4) = match_str(s, q3, "=<"@);
                if m4 {
                    Ok((LengthOperator::LessThan, q4))
                } else {
                    let (m5, q5) = match_str(s, q4, "=="@);
                    if m5 {
                        Ok((LengthOperator::Equal, q5))
                    } else {
                        let (m6, q6) = match_str(s, q5, "="@);
                        if m6 {
                            Ok((LengthOperator::Equal, q6))
                        } else {
                            let (m7, q7) = match_token(s, q6, '>');
                            if m7 {
                                Ok((LengthOperator::GreaterThan, q7))
                            } else {
                                let (m8, q8) = match_token(s, q7, '<');
                                if m8 {
                                    Ok((LengthOperator::LessThan, q8))
                                } else {
                                    Err(("Expected comparison operator"@, Some(q8)))
                                }
                            }
                        }
                    }
                }
            }
        }
    }
}

/// A required operator.
#[verifier::opaque]
pub open spec fn expect_operator(s: Seq<char>, p: int, op: Seq<char>) -> Parsed<()> {
    let q = ws_end(s, p);
    let (m, r) = match_str(s, q, op);
    if m {
        Ok(((), r))
    } else {
        Err((msg_operator(op), Some(r)))
    }
}

/// A required single-character token.
#[verifier::opaque]
pub open spec fn expect_token(s: Seq<char>, p: int, c: char) -> Parsed<()> {
    let q = ws_end(s, p);
    let (m, r) = match_token(s, q, c);
    if m {
        Ok(((), r))
    } else {
        Err((msg_token(c), Some(r)))
    }
}

/// The position of the first occurrence of `c` in `s`, if any.
pub open spec fn first_index(s: Seq<char>, c: char) -> Option<int>
    decreases s.len(),
{
    if s.len() == 0 {
        None
    } else if s[0] == c {
        Some(0)
    } else {
        match first_index(s.drop_first(), c) {
            Some(i) => Some(i + 1),
            None => None,
        }
    }
}

/// The pieces of `s` between the occurrences of `c` (`str::split`).
pub open spec fn split_on(s: Seq<char>, c: char) -> Seq<Seq<char>>
    decreases s.len(),
{
    match first_index(s, c) {
        Some(i) => {
            if 0 <= i < s.len() {
                seq![s.subrange(0, i)] + split_on(s.subrange(i + 1, s.len() as int), c)
            } else {
                seq![s]
            }
        },
        None => seq![s],
    }
}

/// The flag named by an upper-cased word.
pub open spec fn flag_named(upper: Seq<char>) -> Option<TcpFlag> {
    if upper == "SYN"@ {
        Some(TcpFlag::SYN)
    } else if upper == "ACK"@ {
        Some(TcpFlag::ACK)
    } else if upper == "FIN"@ {
        Some(TcpFlag::FIN)
    } else if upper == "RST"@ {
        Some(TcpFlag::RST)
    } else if upper == "PSH"@ {
        Some(TcpFlag::PSH)
    } else if upper == "URG"@ {
        Some(TcpFlag::URG)
    } else {
        None
    }
}

/// The flags named by a list of words; unknown words are dropped.
pub open spec fn flags_named(pieces: Seq<Seq<char>>) -> Seq<TcpFlag>
    decreases pieces.len(),
{
    if pieces.len() == 0 {
        Seq::empty()
    } else {
        let rest = flags_named(pieces.drop_last());
        match flag_named(upper_text(trimmed(pieces.last()))) {
            Some(f) => rest.push(f),
            None => rest,
        }
    }
}

/// The kind of test that a condition name selects.
#[derive(Debug, Clone, Copy, PartialEq, Eq, Structural)]
pub enum AtomKind {
    Protocol,
    SrcIp,
    DstIp,
    AnyIp,
    SrcPort,
    DstPort,
    AnyPort,
    Length,
    Flags,
    Payload,
    Rate,
    Blacklist,
}

/// The test selected by a lower-cased condition name.
pub open spec fn kind_named(lower: Seq<char>) -> Option<AtomKind> {
    if lower == "protocol"@ {
        Some(AtomKind::Protocol)
    } else if lower == "src_ip"@ || lower == "srcip"@ {
        Some(AtomKind::SrcIp)
    } else if lower == "dst_ip"@ || lower == "dstip"@ {
        Some(AtomKind::DstIp)
    } else if lower == "ip"@ {
        Some(AtomKind::AnyIp)
    } else if lower == "src_port"@ || lower == "srcport"@ {
        Some(AtomKind::SrcPort)
    } else if lower == "dst_port"@ || lower == "dstport"@ {
        Some(AtomKind::DstPort)
    } else if lower == "port"@ {
        Some(AtomKind::AnyPort)
    } else if lower == "length"@ || lower == "len"@ {
        Some(AtomKind::Length)
    } else if lower == "tcp_flags"@ || lower == "flags"@ {
        Some(AtomKind::Flags)
    } else if lower == "payload"@ || lower == "content"@ {
        Some(AtomKind::Payload)
    } else if lower == "rate"@ || lower == "rate_limit"@ {
        Some(AtomKind::Rate)
    } else if lower == "dns_blacklist"@ || lower == "dns_blocklist"@ {
        Some(AtomKind::Blacklist)
    } else {
        None
    }
}

/// `protocol == <name>`.
#[verifier::opaque]
pub open spec fn parse_protocol_match(s: Seq<char>, p: int) -> Parsed<Cond> {
    match expect_operator(s, p, "=="@) {
        Err(e) => Err(e),
        Ok((_, q)) => match parse_string_or_identifier(s, q) {
            Err(e) => Err(e),
            Ok((name, r)) => Ok((Cond::ProtocolMatch(name), r)),
        },
    }
}

/// `src_ip|dst_ip|ip == <cidr>`.
#[verifier::opaque]
pub open spec fn parse_ip_match(s: Seq<char>, p: int, field: IpField) -> Parsed<Cond> {
    match expect_operator(s, p, "=="@) {
        Err(e) => Err(e),
        Ok((_, q)) => match parse_string_or_identifier(s, q) {
            Err(e) => Err(e),
            Ok((cidr, r)) => Ok((Cond::IpMatch(field, cidr), r)),
        },
    }
}

/// `src_port|dst_port|port == <min>-<max>`.
#[verifier::opaque]
pub open spec fn parse_port_range(s: Seq<char>, p: int, field: PortField) -> Parsed<Cond> {
    match expect_operator(s, p, "=="@) {
        Err(e) => Err(e),
        Ok((_, q)) => match parse_string_or_identifier(s, q) {
            Err(e) => Err(e),
            Ok((range, r)) => {
                let parts = split_on(range, '-');
                if parts.len() != 2 {
                    Err((msg_port_range(range), Some(r)))
                } else {
                    match parse_u16_spec(parts[0]) {
                        None => Err((msg_port_number(parts[0]), None)),
                        Some(min) => match parse_u16_spec(parts[1]) {
                            None => Err((msg_port_number(parts[1]), None)),
                            Some(max) => Ok((Cond::PortRange(field, min, max), r)),
                        },
                    }
                }
            },
        },
    }
}

/// `length <op> <number>`; the number is taken modulo 2^32.
#[verifier::opaque]
pub open spec fn parse_packet_length(s: Seq<char>, p: int) -> Parsed<Cond> {
    match parse_comparison(s, p) {
        Err(e) => Err(e),
        Ok((op, q)) => match parse_number(s, q) {
            Err(e) => Err(e),
            Ok((n, r)) => Ok((Cond::PacketLength(op, n as u32), r)),
        },
    }
}

/// `tcp_flags == "<flag>,<flag>,..."`, matched in `All` mode.
#[verifier::opaque]
pub open spec fn parse_tcp_flags(s: Seq<char>, p: int) -> Parsed<Cond> {
    match expect_operator(s, p, "=="@) {
        Err(e) => Err(e),
        Ok((_, q)) => match parse_string_or_identifier(s, q) {
            Err(e) => Err(e),
            Ok((text, r)) => Ok(
                (Cond::TcpFlags(flags_named(split_on(text, ',')), FlagMatchMode::All), r),
            ),
        },
    }
}

/// `payload == "<regex>"`.
#[verifier::opaque]
pub open spec fn parse_payload_keyword(s: Seq<char>, p: int) -> Parsed<Cond> {
    match expect_operator(s, p, "=="@) {
        Err(e) => Err(e),
        Ok((_, q)) => match parse_string(s, q) {
            Err(e) => Err(e),
            Ok((pattern, r)) => Ok((Cond::PayloadKeyword(pattern), r)),
        },
    }
}

/// `rate(<window>, <threshold>, src|true|<other>)`.
#[verifier::opaque]
pub open spec fn parse_rate_limit(s: Seq<char>, p: int) -> Parsed<Cond> {
    match expect_token(s, p, '(') {
        Err(e) => Err(e),
        Ok((_, q1)) => match parse_number(s, q1) {
            Err(e) => Err(e),
            Ok((w, q2)) => match expect_token(s, q2, ',') {
                Err(e) => Err(e),
                Ok((_, q3)) => match parse_number(s, q3) {
                    Err(e) => Err(e),
                    Ok((t, q4)) => match expect_token(s, q4, ',') {
                        Err(e) => Err(e),
                        Ok((_, q5)) => match parse_identifier(s, q5) {
                            Err(e) => Err(e),
                            Ok((id, q6)) => match expect_token(s, q6, ')') {
                                Err(e) => Err(e),
                                Ok((_, q7)) => {
                                    let low = lower_text(id);
                                    Ok(
                                        (
                                            Cond::RateLimit(
                                                w as u32,
                                                t as u32,
                                                low == "src"@ || low == "true"@,
                                            ),
                                            q7,
                                        ),
                                    )
                                },
                            },
                        },
                    },
                },
            },
        },
    }
}

/// The `, "<domain>"` continuations of a domain list.
pub open spec fn parse_domains_rest(s: Seq<char>, p: int, acc: Seq<Seq<char>>) -> Parsed<
    Seq<Seq<char>>,
>
    decreases s.len() - p,
{
    let (m, q) = match_token(s, p, ',');
    if m {
        match parse_string(s, q) {
            Err(e) => Err(e),
            Ok((d, r)) => if p < r <= s.len() {
                parse_domains_rest(s, r, acc.push(d))
            } else {
                Ok((acc.push(d), r))
            },
        }
    } else {
        Ok((acc, q))
    }
}

/// `dns_blacklist("<domain>", ...)`.
#[verifier::opaque]
pub open spec fn parse_dns_blacklist(s: Seq<char>, p: int) -> Parsed<Cond> {
    match expect_token(s, p, '(') {
        Err(e) => Err(e),
        Ok((_, q)) => {
            let listed: Parsed<Seq<Seq<char>>> = if !peek_token(s, q, ')') {
                match parse_string(s, q) {
                    Err(e) => Err(e),
                    Ok((d, r)) => parse_domains_rest(s, r, seq![d]),
                }
            } else {
                Ok((Seq::empty(), q))
            };
            close_blacklist(s, listed)
        },
    }
}

/// The closing parenthesis of a domain list.
pub open spec fn close_blacklist(s: Seq<char>, listed: Parsed<Seq<Seq<char>>>) -> Parsed<Cond> {
    match listed {
        Err(e) => Err(e),
        Ok((domains, r)) => match expect_token(s, r, ')') {
            Err(e) => Err(e),
            Ok((_, t)) => Ok((Cond::DnsBlacklist(domains), t)),
        },
    }
}

/// A named condition.
#[verifier::opaque]
pub open spec fn parse_atom(s: Seq<char>, p: int) -> Parsed<Cond> {
    match parse_identifier(s, p) {
        Err(e) => Err(e),
        Ok((name, q)) => match kind_named(lower_text(name)) {
            None => Err((msg_unknown(name), Some(p))),
            Some(k) => match k {
                AtomKind::Protocol => parse_protocol_match(s, q),
                AtomKind::SrcIp => parse_ip_match(s, q, IpField::Src),
                AtomKind::DstIp => parse_ip_match(s, q, IpField::Dst),
                AtomKind::AnyIp => parse_ip_match(s, q, IpField::Either),
                AtomKind::SrcPort => parse_port_range(s, q, PortField::Src),
                AtomKind::DstPort => parse_port_range(s, q, PortField::Dst),
                AtomKind::AnyPort => parse_port_range(s, q, PortField::Either),
                AtomKind::Length => parse_packet_length(s, q),
                AtomKind::Flags => parse_tcp_flags(s, q),
                AtomKind::Payload => parse_payload_keyword(s, q),
                AtomKind::Rate => parse_rate_limit(s, q),
                AtomKind::Blacklist => parse_dns_blacklist(s, q),
            },
        },
    }
}

/// `left OR right`: a left `Or` takes the right operand as one more child.
pub open spec fn combine_or(left: Cond, right: Cond) -> Cond {
    match left {
        Cond::Or(children) => Cond::Or(children.push(right)),
        _ => Cond::Or(seq![left, right]),
    }
}

/// `left AND right`: a left `And` takes the right operand as one more child.
pub open spec fn combine_and(left: Cond, right: Cond) -> Cond {
    match left {
        Cond::And(children) => Cond::And(children.push(right)),
        _ => Cond::And(seq![left, right]),
    }
}

/// The error of a branch that a parse never reaches.
pub open spec fn unreachable<T>() -> Parsed<T> {
    Err((Seq::empty(), None))
}

/// `and ( (OR | "|") and )*`.
pub open spec fn parse_or(s: Seq<char>, p: int) -> Parsed<Cond>
    decreases s.len() - p, 9int,
{
    match parse_and(s, p) {
        Err(e) => Err(e),
        Ok((left, p1)) => {
            let p2 = ws_end(s, p1);
            if p <= p2 <= s.len() {
                or_rest(s, p2, left)
            } else {
                unreachable()
            }
        },
    }
}

/// The `OR` continuations of a disjunction whose left part is `left`.
pub open spec fn or_rest(s: Seq<char>, p: int, left: Cond) -> Parsed<Cond>
    decreases s.len() - p, 8int,
{
    let (m1, q1) = match_keyword(s, p, "OR"@);
    let (m, q) = if m1 { (true, q1) } else { match_token(s, q1, '|') };
    if m {
        let q2 = ws_end(s, q);
        if p < q2 <= s.len() {
            match parse_and(s, q2) {
                Err(e) => Err(e),
                Ok((right, r)) => {
                    let r2 = ws_end(s, r);
                    if q2 <= r2 <= s.len() {
                        or_rest(s, r2, combine_or(left, right))
                    } else {
                        unreachable()
                    }
                },
            }
        } else {
            unreachable()
        }
    } else {
        Ok((left, q))
    }
}

/// `not ( (AND | "&") not )*`.
pub open spec fn parse_and(s: Seq<char>, p: int) -> Parsed<Cond>
    decreases s.len() - p, 7int,
{
    match parse_not(s, p) {
        Err(e) => Err(e),
        Ok((left, p1)) => {
            let p2 = ws_end(s, p1);
            if p <= p2 <= s.len() {
                and_rest(s, p2, left)
            } else {
                unreachable()
            }
        },
    }
}

/// The `AND` continuations of a conjunction whose left part is `left`.
pub open spec fn and_rest(s: Seq<char>, p: int, left: Cond) -> Parsed<Cond>
    decreases s.len() - p, 6int,
{
    let (m1, q1) = match_keyword(s, p, "AND"@);
    let (m, q) = if m1 { (true, q1) } else { match_token(s, q1, '&') };
    if m {
        let q2 = ws_end(s, q);
        if p < q2 <= s.len() {
            match parse_not(s, q2) {
                Err(e) => Err(e),
                Ok((right, r)) => {
                    let r2 = ws_end(s, r);
                    if q2 <= r2 <= s.len() {
                        and_rest(s, r2, combine_and(left, right))
                    } else {
                        unreachable()
                    }
                },
            }
        } else {
            unreachable()
        }
    } else {
        Ok((left, q))
    }
}

/// `(NOT | "!") not | primary`.
pub open spec fn parse_not(s: Seq<char>, p: int) -> Parsed<Cond>
    decreases s.len() - p, 5int,
{
    let (m1, q1) = match_keyword(s, p, "NOT"@);
    let (m, q) = if m1 { (true, q1) } else { match_token(s, q1, '!') };
    if m {
        let q2 = ws_end(s, q);
        if p < q2 <= s.len() {
            match parse_not(s, q2) {
                Err(e) => Err(e),
                Ok((child, r)) => Ok((Cond::Not(Box::new(child)), r)),
            }
        } else {
            unreachable()
        }
    } else if q == p || (p < q && q <= s.len()) {
        parse_primary(s, q)
    } else {
        unreachable()
    }
}

/// `"(" or ")" | atom`.
pub open spec fn parse_primary(s: Seq<char>, p: int) -> Parsed<Cond>
    decreases s.len() - p, 4int,
{
    let q = ws_end(s, p);
    let (m, r) = match_token(s, q, '(');
    if m {
        let r2 = ws_end(s, r);
        if p < r2 <= s.len() {
            match parse_or(s, r2) {
                Err(e) => Err(e),
                Ok((node, t)) => {
                    let t2 = ws_end(s, t);
                    let (m2, u) = match_token(s, t2, ')');
                    if m2 {
                        Ok((node, u))
                    } else {
                        Err(("Expected ')'"@, Some(u)))
                    }
                },
            }
        } else {
            unreachable()
        }
    } else {
        parse_atom(s, r)
    }
}

/// The condition that the input denotes from position `p` to its end, or the
/// error reported for it.
pub open spec fn parse_expression_from(s: Seq<char>, p: int) -> Result<Cond, (Seq<char>, Option<int>)> {
    match parse_or(s, ws_end(s, p)) {
        Err(e) => Err(e),
        Ok((node, p1)) => {
            let p2 = ws_end(s, p1);
            if 0 <= p2 < s.len() {
                Err((msg_unexpected(s[p2]), Some(p2)))
            } else {
                Ok(node)
            }
        },
    }
}

/// The condition that a whole expression denotes, or the error reported for it.
pub open spec fn parse_expression_spec(s: Seq<char>) -> Result<Cond, (Seq<char>, Option<int>)> {
    parse_expression_from(s, 0)
}

} // verus!
