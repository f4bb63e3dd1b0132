//! The rule expression parser, and the printer of conditions back to text.
use vstd::prelude::*;
use crate::text::{
    chars_of, is_alphanumeric, is_ascii_digit, is_whitespace, parse_u16, parse_u64_digits,
    push_char, same_text, string_of, to_lowercase, to_uppercase, trim_chars, is_ws, trimmed,
    lowercase, uppercase, alphanumeric,
};
use super::models::{
    Cond, ConditionNode, FlagMatchMode, IpField, LengthOperator, ParseError, PortField, TcpFlag,
    conds_of, cond_of, lemma_conds_of_push, texts,
};
use super::grammar::{
    Parsed, AtomKind, ascii_lower, combine_and, combine_or, digits_end, expect_operator,
    expect_token, flag_named, flags_named, ident_end, kind_named, match_keyword, match_str,
    match_token, parse_atom, parse_and, parse_comparison, parse_dns_blacklist,
    parse_domains_rest, parse_expression_spec, parse_identifier, parse_ip_match, parse_not,
    parse_number, parse_or, parse_packet_length, parse_payload_keyword, parse_port_range,
    parse_primary, parse_protocol_match, parse_rate_limit, parse_string,
    parse_string_or_identifier, parse_tcp_flags, peek_token, quote_end, split_on, ws_end,
    first_index, and_rest, or_rest, msg_unexpected, parse_expression_from, msg_quote, msg_operator, msg_token,
};

verus! {

/// A recursive-descent parser over the characters of a rule expression.
pub struct ExpressionParser {
    input: Vec<char>,
    pos: usize,
}

/// Whether an exec parse outcome is the one the grammar gives, ending at `pos`.
pub open spec fn agrees_cond(r: Result<ConditionNode, ParseError>, sp: Parsed<Cond>, pos: int) -> bool {
    match (r, sp) {
        (Ok(n), Ok((v, q))) => v == n@ && q == pos,
        (Err(e), Err(x)) => x == e.value(),
        _ => false,
    }
}

pub open spec fn agrees_text(r: Result<String, ParseError>, sp: Parsed<Seq<char>>, pos: int) -> bool {
    match (r, sp) {
        (Ok(n), Ok((v, q))) => v == n@ && q == pos,
        (Err(e), Err(x)) => x == e.value(),
        _ => false,
    }
}

pub open spec fn agrees_num(r: Result<u64, ParseError>, sp: Parsed<u64>, pos: int) -> bool {
    match (r, sp) {
        (Ok(n), Ok((v, q))) => v == n && q == pos,
        (Err(e), Err(x)) => x == e.value(),
        _ => false,
    }
}

pub open spec fn agrees_op(r: Result<LengthOperator, ParseError>, sp: Parsed<LengthOperator>, pos: int) -> bool {
    match (r, sp) {
        (Ok(n), Ok((v, q))) => v == n && q == pos,
        (Err(e), Err(x)) => x == e.value(),
        _ => false,
    }
}

pub open spec fn agrees_unit(r: Result<(), ParseError>, sp: Parsed<()>, pos: int) -> bool {
    match (r, sp) {
        (Ok(_), Ok((_, q))) => q == pos,
        (Err(e), Err(x)) => x == e.value(),
        _ => false,
    }
}

pub proof fn lemma_ws_end(s: Seq<char>, p: int)
    ensures
        p <= ws_end(s, p),
        p <= s.len() ==> ws_end(s, p) <= s.len(),
        p > s.len() || p < 0 ==> ws_end(s, p) == p,
        0 <= ws_end(s, p) < s.len() ==> !is_ws(s[ws_end(s, p)]),
        ws_end(s, ws_end(s, p)) == ws_end(s, p),
    decreases s.len() - p,
{
    if 0 <= p < s.len() && is_ws(s[p]) {
        lemma_ws_end(s, p + 1);
    }
}

fn err(message: String, position: Option<usize>) -> (e: ParseError)
    ensures
        e.message == message,
        e.position == position,
{
    ParseError { message, position }
}

fn msg(text: &str) -> (s: String)
    ensures
        s@ == text@,
{
    String::from_str(text)
}

/// The characters `v[a..b]` as a string.
fn slice_string(v: &Vec<char>, a: usize, b: usize) -> (s: String)
    requires
        a <= b <= v.len(),
    ensures
        s@ == v@.subrange(a as int, b as int),
{
    let mut s = String::new();
    let mut i: usize = a;
    while i < b
        invariant
            a <= i <= b <= v.len(),
            s@ == v@.subrange(a as int, i as int),
        decreases b - i,
    {
        push_char(&mut s, v[i]);
        i = i + 1;
        assert(s@ =~= v@.subrange(a as int, i as int));
    }
    s
}

/// The characters `v[a..b]`.
fn slice_chars(v: &[char], a: usize, b: usize) -> (r: Vec<char>)
    requires
        a <= b <= v.len(),
    ensures
        r@ == v@.subrange(a as int, b as int),
{
    let mut r: Vec<char> = Vec::new();
    let mut i: usize = a;
    while i < b
        invariant
            a <= i <= b <= v.len(),
            r@ == v@.subrange(a as int, i as int),
        decreases b - i,
    {
        r.push(v[i]);
        i = i + 1;
        assert(r@ =~= v@.subrange(a as int, i as int));
    }
    r
}

fn ascii_lower_char(c: char) -> (r: char)
    ensures
        r == ascii_lower(c),
{
    if 'A' <= c && c <= 'Z' {
        let b = c as u8;
        ((b + 32) as u8) as char
    } else {
        c
    }
}

/// The test selected by a lower-cased condition name.
pub fn condition_kind(lower: &str) -> (k: Option<AtomKind>)
    ensures
        k == kind_named(lower@),
{
    if same_text(lower, "protocol") {
        Some(AtomKind::Protocol)
    } else if same_text(lower, "src_ip") || same_text(lower, "srcip") {
        Some(AtomKind::SrcIp)
    } else if same_text(lower, "dst_ip") || same_text(lower, "dstip") {
        Some(AtomKind::DstIp)
    } else if same_text(lower, "ip") {
        Some(AtomKind::AnyIp)
    } else if same_text(lower, "src_port") || same_text(lower, "srcport") {
        Some(AtomKind::SrcPort)
    } else if same_text(lower, "dst_port") || same_text(lower, "dstport") {
        Some(AtomKind::DstPort)
    } else if same_text(lower, "port") {
        Some(AtomKind::AnyPort)
    } else if same_text(lower, "length") || same_text(lower, "len") {
        Some(AtomKind::Length)
    } else if same_text(lower, "tcp_flags") || same_text(lower, "flags") {
        Some(AtomKind::Flags)
    } else if same_text(lower, "payload") || same_text(lower, "content") {
        Some(AtomKind::Payload)
    } else if same_text(lower, "rate") || same_text(lower, "rate_limit") {
        Some(AtomKind::Rate)
    } else if same_text(lower, "dns_blacklist") || same_text(lower, "dns_blocklist") {
        Some(AtomKind::Blacklist)
    } else {
        None
    }
}

/// The flag named by an upper-cased word.
pub fn flag_from_name(upper: &str) -> (f: Option<TcpFlag>)
    ensures
        f == flag_named(upper@),
{
    if same_text(upper, "SYN") {
        Some(TcpFlag::SYN)
    } else if same_text(upper, "ACK") {
        Some(TcpFlag::ACK)
    } else if same_text(upper, "FIN") {
        Some(TcpFlag::FIN)
    } else if same_text(upper, "RST") {
        Some(TcpFlag::RST)
    } else if same_text(upper, "PSH") {
        Some(TcpFlag::PSH)
    } else if same_text(upper, "URG") {
        Some(TcpFlag::URG)
    } else {
        None
    }
}

proof fn lemma_first_index(s: Seq<char>, c: char)
    ensures
        match first_index(s, c) {
            Some(i) => 0 <= i < s.len() && s[i] == c && forall|j: int| 0 <= j < i ==> s[j] != c,
            None => forall|j: int| 0 <= j < s.len() ==> s[j] != c,
        },
    decreases s.len(),
{
    if s.len() > 0 && s[0] != c {
        lemma_first_index(s.drop_first(), c);
        match first_index(s.drop_first(), c) {
            Some(i) => {
                assert forall|j: int| 0 <= j < i + 1 implies s[j] != c by {
                    if j > 0 {
                        assert(s[j] == s.drop_first()[j - 1]);
                    }
                }
            },
            None => {
                assert forall|j: int| 0 <= j < s.len() implies s[j] != c by {
                    if j > 0 {
                        assert(s[j] == s.drop_first()[j - 1]);
                    }
                }
            },
        }
    }
}

/// The pieces of `v` between the occurrences of `c` (`str::split`).
pub fn split_chars(v: &[char], c: char) -> (r: Vec<Vec<char>>)
    ensures
        r@.map_values(|x: Vec<char>| x@) == split_on(v@, c),
{
    let mut out: Vec<Vec<char>> = Vec::new();
    let mut start: usize = 0;
    let mut i: usize = 0;
    assert(v@.subrange(0, v@.len() as int) =~= v@);
    assert(out@.map_values(|x: Vec<char>| x@) =~= Seq::<Seq<char>>::empty());
    while i < v.len()
        invariant
            start <= i <= v.len(),
            forall|j: int| start <= j < i ==> v@[j] != c,
            out@.map_values(|x: Vec<char>| x@) + split_on(v@.subrange(start as int, v@.len() as int), c)
                == split_on(v@, c),
        decreases v.len() - i,
    {
        if v[i] == c {
            let ghost rest = v@.subrange(start as int, v@.len() as int);
            proof {
                lemma_first_index(rest, c);
                assert(rest[i - start] == c);
                assert forall|j: int| 0 <= j < i - start implies rest[j] != c by {
                    assert(rest[j] == v@[start + j]);
                }
                let fi = first_index(rest, c);
                match fi {
                    Some(k) => {
                        if k < i - start {
                            assert(rest[k] != c);
                        }
                        if k > i - start {
                            assert(rest[i - start] != c);
                        }
                    },
                    None => {
                        assert(rest[i - start] != c);
                    },
                }
                assert(rest.subrange(0, i - start) =~= v@.subrange(start as int, i as int));
                assert(rest.subrange(i - start + 1, rest.len() as int) =~= v@.subrange(i + 1, v@.len() as int));
            }
            let piece = slice_chars(v, start, i);
            let ghost before = out@.map_values(|x: Vec<char>| x@);
            out.push(piece);
            proof {
                assert(out@.map_values(|x: Vec<char>| x@) =~= before.push(piece@));
                assert(before.push(piece@) + split_on(v@.subrange(i + 1, v@.len() as int), c)
                    =~= before + (seq![piece@] + split_on(v@.subrange(i + 1, v@.len() as int), c)));
            }
            start = i + 1;
        }
        i = i + 1;
    }
    let ghost rest = v@.subrange(start as int, v@.len() as int);
    proof {
        lemma_first_index(rest, c);
        assert forall|j: int| 0 <= j < rest.len() implies rest[j] != c by {
            assert(rest[j] == v@[start + j]);
        }
        match first_index(rest, c) {
            Some(k) => {
                assert(rest[k] != c);
            },
            None => {},
        }
    }
    let piece = slice_chars(v, start, v.len());
    let ghost before = out@.map_values(|x: Vec<char>| x@);
    out.push(piece);
    assert(out@.map_values(|x: Vec<char>| x@) =~= before.push(piece@));
    assert(before.push(piece@) =~= before + seq![rest]);
    out
}

impl ExpressionParser {
    /// The characters being parsed.
    pub closed spec fn input_chars(&self) -> Seq<char> {
        self.input@
    }

    /// The current position.
    pub closed spec fn position(&self) -> int {
        self.pos as int
    }

    /// The input is short enough for every position to fit in `usize`, and the
    /// position is at most one past the end.
    pub closed spec fn fits(&self) -> bool {
        self.input@.len() + 8 <= usize::MAX && self.pos <= self.input@.len() + 1
    }

    pub fn new(input: &str) -> (p: Self)
        requires
            input@.len() + 8 <= usize::MAX,
        ensures
            p.input_chars() == input@,
            p.position() == 0,
            p.fits(),
    {
        ExpressionParser { input: chars_of(input), pos: 0 }
    }

    fn skip_whitespace(&mut self)
        requires
            old(self).fits(),
        ensures
            final(self).fits(),
            final(self).input@ == old(self).input@,
            final(self).pos == ws_end(old(self).input@, old(self).pos as int),
            old(self).pos <= final(self).pos,
            old(self).pos <= old(self).input@.len() ==> final(self).pos <= final(self).input@.len(),
            old(self).pos > old(self).input@.len() ==> final(self).pos == old(self).pos,
    {
        let ghost s = self.input@;
        let ghost p0 = self.pos as int;
        proof {
            lemma_ws_end(s, p0);
        }
        while self.pos < self.input.len() && is_whitespace(self.input[self.pos])
            invariant
                self.input@ == s,
                self.input@.len() + 8 <= usize::MAX,
                p0 <= self.pos <= s.len() + 1,
                ws_end(s, self.pos as int) == ws_end(s, p0),
            decreases self.input.len() - self.pos,
        {
            self.pos = self.pos + 1;
        }
    }

    fn match_keyword(&mut self, keyword: &str) -> (m: bool)
        requires
            old(self).fits(),
        ensures
            final(self).fits(),
            final(self).input@ == old(self).input@,
            (m, final(self).pos as int) == match_keyword(old(self).input@, old(self).pos as int, keyword@),
            old(self).pos <= final(self).pos,
            old(self).pos <= old(self).input@.len() ==> final(self).pos <= final(self).input@.len(),
            m ==> final(self).pos <= final(self).input@.len(),
            m && keyword@.len() > 0 ==> old(self).pos < final(self).pos,
    {
        self.skip_whitespace();
        proof {
            lemma_ws_end(self.input@, old(self).pos as int);
        }
        let ghost s = self.input@;
        let q = self.pos;
        let len = keyword.unicode_len();
        if len > self.input.len() || q > self.input.len() - len {
            return false;
        }
        let mut i: usize = 0;
        while i < len
            invariant
                i <= len,
                len == keyword@.len(),
                q + len <= s.len(),
                s.len() + 8 <= usize::MAX,
                self.input@ == s,
                s == old(self).input@,
                q as int == ws_end(s, old(self).pos as int),
                old(self).pos <= q,
                self.pos == q,
                forall|j: int| 0 <= j < i ==> ascii_lower(#[trigger] s[q + j]) == ascii_lower(keyword@[j]),
            decreases len - i,
        {
            let a = ascii_lower_char(self.input[q + i]);
            let b = ascii_lower_char(keyword.get_char(i));
            if a != b {
                return false;
            }
            i = i + 1;
        }
        if q + len < self.input.len() {
            let next = self.input[q + len];
            if is_alphanumeric(next) || next == '_' {
                return false;
            }
        }
        self.pos = q + len;
        true
    }

    fn match_str(&mut self, lit: &str) -> (m: bool)
        requires
            old(self).fits(),
        ensures
            final(self).fits(),
            final(self).input@ == old(self).input@,
            (m, final(self).pos as int) == match_str(old(self).input@, old(self).pos as int, lit@),
            old(self).pos <= final(self).pos,
            old(self).pos <= old(self).input@.len() ==> final(self).pos <= final(self).input@.len(),
            m ==> final(self).pos <= final(self).input@.len(),
            m && lit@.len() > 0 ==> old(self).pos < final(self).pos,
    {
        self.skip_whitespace();
        proof {
            lemma_ws_end(self.input@, old(self).pos as int);
        }
        let ghost s = self.input@;
        let q = self.pos;
        let len = lit.unicode_len();
        if len > self.input.len() || q > self.input.len() - len {
            return false;
        }
        let mut i: usize = 0;
        while i < len
            invariant
                i <= len,
                len == lit@.len(),
                q + len <= s.len(),
                s.len() + 8 <= usize::MAX,
                self.input@ == s,
                s == old(self).input@,
                q as int == ws_end(s, old(self).pos as int),
                old(self).pos <= q,
                self.pos == q,
                forall|j: int| 0 <= j < i ==> s[q + j] == lit@[j],
            decreases len - i,
        {
            if self.input[q + i] != lit.get_char(i) {
                assert(s.subrange(q as int, q + len)[i as int] != lit@[i as int]);
                return false;
            }
            i = i + 1;
        }
        assert(s.subrange(q as int, q + len) =~= lit@);
        self.pos = q + len;
        true
    }

    fn match_token(&mut self, c: char) -> (m: bool)
        requires
            old(self).fits(),
        ensures
            final(self).fits(),
            final(self).input@ == old(self).input@,
            (m, final(self).pos as int) == match_token(old(self).input@, old(self).pos as int, c),
            old(self).pos <= final(self).pos,
            old(self).pos <= old(self).input@.len() ==> final(self).pos <= final(self).input@.len(),
            m ==> final(self).pos <= final(self).input@.len(),
            m ==> old(self).pos < final(self).pos,
    {
        self.skip_whitespace();
        proof {
            lemma_ws_end(self.input@, old(self).pos as int);
        }
        if self.pos < self.input.len() && self.input[self.pos] == c {
            self.pos = self.pos + 1;
            true
        } else {
            false
        }
    }

    fn peek_token(&self, c: char) -> (b: bool)
        requires
            self.fits(),
        ensures
            b == peek_token(self.input@, self.pos as int, c),
    {
        let ghost s = self.input@;
        let mut pos = self.pos;
        while pos < self.input.len() && is_whitespace(self.input[pos])
            invariant
                self.pos <= pos <= s.len() + 1,
                self.input@ == s,
                ws_end(s, pos as int) == ws_end(s, self.pos as int),
            decreases self.input.len() - pos,
        {
            pos = pos + 1;
        }
        pos < self.input.len() && self.input[pos] == c
    }

    fn parse_identifier(&mut self) -> (r: Result<String, ParseError>)
        requires
            old(self).fits(),
        ensures
            final(self).fits(),
            final(self).input@ == old(self).input@,
            agrees_text(r, parse_identifier(old(self).input@, old(self).pos as int), final(self).pos as int),
            r is Ok ==> old(self).pos < final(self).pos <= final(self).input@.len(),
    {
        proof {
            reveal(parse_identifier);
        }
        self.skip_whitespace();
        proof {
            lemma_ws_end(self.input@, old(self).pos as int);
        }
        let ghost s = self.input@;
        let start = self.pos;
        while self.pos < self.input.len() && (is_alphanumeric(self.input[self.pos]) || self.input[self.pos] == '_')
            invariant
                self.input@ == s,
                s.len() + 8 <= usize::MAX,
                start <= self.pos <= s.len() + 1,
                start > s.len() ==> self.pos == start,
                start <= s.len() ==> self.pos <= s.len(),
                ident_end(s, self.pos as int) == ident_end(s, start as int),
            decreases self.input.len() - self.pos,
        {
            self.pos = self.pos + 1;
        }
        if start == self.pos {
            return Err(err(msg("Expected identifier"), Some(start)));
        }
        Ok(slice_string(&self.input, start, self.pos))
    }

    fn parse_number(&mut self) -> (r: Result<u64, ParseError>)
        requires
            old(self).fits(),
        ensures
            final(self).fits(),
            final(self).input@ == old(self).input@,
            agrees_num(r, parse_number(old(self).input@, old(self).pos as int), final(self).pos as int),
            r is Ok ==> old(self).pos < final(self).pos <= final(self).input@.len(),
    {
        proof {
            reveal(parse_number);
        }
        self.skip_whitespace();
        proof {
            lemma_ws_end(self.input@, old(self).pos as int);
        }
        let ghost s = self.input@;
        let start = self.pos;
        while self.pos < self.input.len() && is_ascii_digit(self.input[self.pos])
            invariant
                self.input@ == s,
                s.len() + 8 <= usize::MAX,
                start <= self.pos <= s.len() + 1,
                start > s.len() ==> self.pos == start,
                start <= s.len() ==> self.pos <= s.len(),
                digits_end(s, self.pos as int) == digits_end(s, start as int),
            decreases self.input.len() - self.pos,
        {
            self.pos = self.pos + 1;
        }
        if start == self.pos {
            return Err(err(msg("Expected number"), Some(start)));
        }
        let digits = slice_chars(&self.input, start, self.pos);
        match parse_u64_digits(&digits) {
            Some(v) => Ok(v),
            None => Err(err(msg("Invalid number"), Some(start))),
        }
    }

    fn parse_string(&mut self) -> (r: Result<String, ParseError>)
        requires
            old(self).fits(),
        ensures
            final(self).fits(),
            final(self).input@ == old(self).input@,
            agrees_text(r, parse_string(old(self).input@, old(self).pos as int), final(self).pos as int),
            r is Ok ==> old(self).pos < final(self).pos <= final(self).input@.len(),
    {
        proof {
            reveal(parse_string);
        }
        self.skip_whitespace();
        proof {
            lemma_ws_end(self.input@, old(self).pos as int);
        }
        let ghost s = self.input@;
        if self.pos >= self.input.len() {
            return Err(err(msg("Expected string"), Some(self.pos)));
        }
        let quote = self.input[self.pos];
        if quote != '"' && quote != '\'' {
            let mut m = msg("Expected quote, found '");
            push_char(&mut m, quote);
            m.append("'");
            assert(m@ =~= msg_quote(quote));
            return Err(err(m, Some(self.pos)));
        }
        self.pos = self.pos + 1;
        let start = self.pos;
        while self.pos < self.input.len() && self.input[self.pos] != quote
            invariant
                self.input@ == s,
                s.len() + 8 <= usize::MAX,
                start <= self.pos <= s.len() + 1,
                quote_end(s, self.pos as int, quote) == quote_end(s, start as int, quote),
            decreases self.input.len() + 2 - self.pos,
        {
            if self.input[self.pos] == '\\' {
                self.pos = self.pos + 2;
            } else {
                self.pos = self.pos + 1;
            }
        }
        if self.pos >= self.input.len() {
            return Err(err(msg("Unterminated string"), Some(start - 1)));
        }
        let text = slice_string(&self.input, start, self.pos);
        self.pos = self.pos + 1;
        Ok(text)
    }

    fn parse_string_or_identifier(&mut self) -> (r: Result<String, ParseError>)
        requires
            old(self).fits(),
        ensures
            final(self).fits(),
            final(self).input@ == old(self).input@,
            agrees_text(r, parse_string_or_identifier(old(self).input@, old(self).pos as int), final(self).pos as int),
            r is Ok ==> old(self).pos < final(self).pos <= final(self).input@.len(),
    {
        proof {
            reveal(parse_string_or_identifier);
        }
        self.skip_whitespace();
        proof {
            lemma_ws_end(self.input@, old(self).pos as int);
        }
        if self.pos < self.input.len() {
            let c = self.input[self.pos];
            if c == '"' || c == '\'' {
                return self.parse_string();
            }
        }
        self.parse_identifier()
    }

    fn parse_comparison_operator(&mut self) -> (r: Result<LengthOperator, ParseError>)
        requires
            old(self).fits(),
        ensures
            final(self).fits(),
            final(self).input@ == old(self).input@,
            agrees_op(r, parse_comparison(old(self).input@, old(self).pos as int), final(self).pos as int),
            r is Ok ==> old(self).pos <= final(self).pos <= final(self).input@.len(),
    {
        proof {
            reveal(parse_comparison);
        }
        self.skip_whitespace();
        proof {
            lemma_ws_end(self.input@, old(self).pos as int);
        }
        let ghost s = self.input@;
        if self.match_str(">=") || self.match_str("=>") {
            Ok(LengthOperator::GreaterThan)
        } else if self.match_str("<=") || self.match_str("=<") {
            Ok(LengthOperator::LessThan)
        } else if self.match_str("==") || self.match_str("=") {
            Ok(LengthOperator::Equal)
        } else if self.match_token('>') {
            Ok(LengthOperator::GreaterThan)
        } else if self.match_token('<') {
            Ok(LengthOperator::LessThan)
        } else {
            Err(err(msg("Expected comparison operator"), Some(self.pos)))
        }
    }

    fn expect_operator(&mut self, op: &str) -> (r: Result<(), ParseError>)
        requires
            old(self).fits(),
            1 <= op@.len(),
        ensures
            final(self).fits(),
            final(self).input@ == old(self).input@,
            agrees_unit(r, expect_operator(old(self).input@, old(self).pos as int, op@), final(self).pos as int),
            r is Ok ==> old(self).pos < final(self).pos <= final(self).input@.len(),
    {
        proof {
            reveal(expect_operator);
        }
        self.skip_whitespace();
        proof {
            lemma_ws_end(self.input@, old(self).pos as int);
        }
        if self.match_str(op) {
            Ok(())
        } else {
            let mut m = msg("Expected operator '");
            m.append(op);
            m.append("'");
            assert(m@ =~= msg_operator(op@));
            Err(err(m, Some(self.pos)))
        }
    }

    fn expect_token(&mut self, c: char) -> (r: Result<(), ParseError>)
        requires
            old(self).fits(),
        ensures
            final(self).fits(),
            final(self).input@ == old(self).input@,
            agrees_unit(r, expect_token(old(self).input@, old(self).pos as int, c), final(self).pos as int),
            r is Ok ==> old(self).pos < final(self).pos <= final(self).input@.len(),
    {
        proof {
            reveal(expect_token);
        }
        self.skip_whitespace();
        proof {
            lemma_ws_end(self.input@, old(self).pos as int);
        }
        if self.match_token(c) {
            Ok(())
        } else {
            let mut m = msg("Expected '");
            push_char(&mut m, c);
            m.append("'");
            assert(m@ =~= msg_token(c));
            Err(err(m, Some(self.pos)))
        }
    }

    fn parse_protocol_match(&mut self) -> (r: Result<ConditionNode, ParseError>)
        requires
            old(self).fits(),
        ensures
            final(self).fits(),
            final(self).input@ == old(self).input@,
            agrees_cond(r, parse_protocol_match(old(self).input@, old(self).pos as int), final(self).pos as int),
            r is Ok ==> old(self).pos < final(self).pos <= final(self).input@.len(),
    {
        proof {
            reveal(parse_protocol_match);
        }
        proof { reveal_strlit("=="); }
        match self.expect_operator("==") {
            Err(e) => return Err(e),
            Ok(_) => {},
        }
        match self.parse_string_or_identifier() {
            Err(e) => Err(e),
            Ok(protocol) => Ok(ConditionNode::ProtocolMatch { protocol }),
        }
    }

    fn parse_ip_match(&mut self, field: IpField) -> (r: Result<ConditionNode, ParseError>)
        requires
            old(self).fits(),
        ensures
            final(self).fits(),
            final(self).input@ == old(self).input@,
            agrees_cond(r, parse_ip_match(old(self).input@, old(self).pos as int, field), final(self).pos as int),
            r is Ok ==> old(self).pos < final(self).pos <= final(self).input@.len(),
    {
        proof {
            reveal(parse_ip_match);
        }
        proof { reveal_strlit("=="); }
        match self.expect_operator("==") {
            Err(e) => return Err(e),
            Ok(_) => {},
        }
        match self.parse_string_or_identifier() {
            Err(e) => Err(e),
            Ok(cidr) => Ok(ConditionNode::IpMatch { field, cidr }),
        }
    }

    fn parse_port_range(&mut self, field: PortField) -> (r: Result<ConditionNode, ParseError>)
        requires
            old(self).fits(),
        ensures
            final(self).fits(),
            final(self).input@ == old(self).input@,
            agrees_cond(r, parse_port_range(old(self).input@, old(self).pos as int, field), final(self).pos as int),
            r is Ok ==> old(self).pos < final(self).pos <= final(self).input@.len(),
    {
        proof {
            reveal(parse_port_range);
        }
        proof { reveal_strlit("=="); }
        match self.expect_operator("==") {
            Err(e) => return Err(e),
            Ok(_) => {},
        }
        let range_str = match self.parse_string_or_identifier() {
            Err(e) => return Err(e),
            Ok(v) => v,
        };
        let range_chars = chars_of(range_str.as_str());
        let parts = split_chars(&range_chars, '-');
        proof {
            assert(parts@.map_values(|x: Vec<char>| x@).len() == parts@.len());
        }
        if parts.len() != 2 {
            let mut m = msg("Invalid port range: '");
            m.append(range_str.as_str());
            m.append("'");
            assert(m@ =~= super::grammar::msg_port_range(range_str@));
            return Err(err(m, Some(self.pos)));
        }
        proof {
            assert(parts@.map_values(|x: Vec<char>| x@)[0] == parts@[0]@);
            assert(parts@.map_values(|x: Vec<char>| x@)[1] == parts@[1]@);
        }
        let min = match parse_u16(&parts[0]) {
            Some(v) => v,
            None => {
                let mut m = msg("Invalid port number: '");
                let t = string_of(&parts[0]);
                m.append(t.as_str());
                m.append("'");
                assert(m@ =~= super::grammar::msg_port_number(parts@[0]@));
                return Err(err(m, None));
            },
        };
        let max = match parse_u16(&parts[1]) {
            Some(v) => v,
            None => {
                let mut m = msg("Invalid port number: '");
                let t = string_of(&parts[1]);
                m.append(t.as_str());
                m.append("'");
                assert(m@ =~= super::grammar::msg_port_number(parts@[1]@));
                return Err(err(m, None));
            },
        };
        Ok(ConditionNode::PortRange { field, min, max })
    }

    fn parse_packet_length(&mut self) -> (r: Result<ConditionNode, ParseError>)
        requires
            old(self).fits(),
        ensures
            final(self).fits(),
            final(self).input@ == old(self).input@,
            agrees_cond(r, parse_packet_length(old(self).input@, old(self).pos as int), final(self).pos as int),
            r is Ok ==> old(self).pos < final(self).pos <= final(self).input@.len(),
    {
        proof {
            reveal(parse_packet_length);
        }
        let operator = match self.parse_comparison_operator() {
            Err(e) => return Err(e),
            Ok(o) => o,
        };
        match self.parse_number() {
            Err(e) => Err(e),
            Ok(n) => Ok(ConditionNode::PacketLength { operator, value: n as u32 }),
        }
    }

    fn parse_tcp_flags(&mut self) -> (r: Result<ConditionNode, ParseError>)
        requires
            old(self).fits(),
        ensures
            final(self).fits(),
            final(self).input@ == old(self).input@,
            agrees_cond(r, parse_tcp_flags(old(self).input@, old(self).pos as int), final(self).pos as int),
            r is Ok ==> old(self).pos < final(self).pos <= final(self).input@.len(),
    {
        proof {
            reveal(parse_tcp_flags);
        }
        proof { reveal_strlit("=="); }
        match self.expect_operator("==") {
            Err(e) => return Err(e),
            Ok(_) => {},
        }
        let flags_str = match self.parse_string_or_identifier() {
            Err(e) => return Err(e),
            Ok(v) => v,
        };
        let text = chars_of(flags_str.as_str());
        let pieces = split_chars(&text, ',');
        let ghost views = pieces@.map_values(|x: Vec<char>| x@);
        let mut flags: Vec<TcpFlag> = Vec::new();
        let mut i: usize = 0;
        while i < pieces.len()
            invariant
                i <= pieces.len(),
                views == pieces@.map_values(|x: Vec<char>| x@),
                flags@ == flags_named(views.subrange(0, i as int)),
            decreases pieces.len() - i,
        {
            let trimmed_piece = trim_chars(&pieces[i]);
            let word = string_of(&trimmed_piece);
            let upper = to_uppercase(word.as_str());
            let f = flag_from_name(upper.as_str());
            proof {
                assert(views.subrange(0, i + 1).drop_last() =~= views.subrange(0, i as int));
                assert(views[i as int] == pieces@[i as int]@);
            }
            match f {
                Some(flag) => flags.push(flag),
                None => {},
            }
            i = i + 1;
        }
        assert(views.subrange(0, views.len() as int) =~= views);
        Ok(ConditionNode::TcpFlags { flags, mode: FlagMatchMode::All })
    }

    fn parse_payload_keyword(&mut self) -> (r: Result<ConditionNode, ParseError>)
        requires
            old(self).fits(),
        ensures
            final(self).fits(),
            final(self).input@ == old(self).input@,
            agrees_cond(r, parse_payload_keyword(old(self).input@, old(self).pos as int), final(self).pos as int),
            r is Ok ==> old(self).pos < final(self).pos <= final(self).input@.len(),
    {
        proof {
            reveal(parse_payload_keyword);
        }
        proof { reveal_strlit("=="); }
        match self.expect_operator("==") {
            Err(e) => return Err(e),
            Ok(_) => {},
        }
        match self.parse_string() {
            Err(e) => Err(e),
            Ok(pattern) => Ok(ConditionNode::PayloadKeyword { pattern }),
        }
    }

    fn parse_rate_limit(&mut self) -> (r: Result<ConditionNode, ParseError>)
        requires
            old(self).fits(),
        ensures
            final(self).fits(),
            final(self).input@ == old(self).input@,
            agrees_cond(r, parse_rate_limit(old(self).input@, old(self).pos as int), final(self).pos as int),
            r is Ok ==> old(self).pos < final(self).pos <= final(self).input@.len(),
    {
        proof {
            reveal(parse_rate_limit);
        }
        match self.expect_token('(') {
            Err(e) => return Err(e),
            Ok(_) => {},
        }
        let window_secs = match self.parse_number() {
            Err(e) => return Err(e),
            Ok(n) => n as u32,
        };
        match self.expect_token(',') {
            Err(e) => return Err(e),
            Ok(_) => {},
        }
        let threshold = match self.parse_number() {
            Err(e) => return Err(e),
            Ok(n) => n as u32,
        };
        match self.expect_token(',') {
            Err(e) => return Err(e),
            Ok(_) => {},
        }
        let id = match self.parse_identifier() {
            Err(e) => return Err(e),
            Ok(v) => v,
        };
        let low = to_lowercase(id.as_str());
        let src_ip = same_text(low.as_str(), "src") || same_text(low.as_str(), "true");
        match self.expect_token(')') {
            Err(e) => return Err(e),
            Ok(_) => {},
        }
        Ok(ConditionNode::RateLimit { window_secs, threshold, src_ip })
    }

    fn parse_dns_blacklist(&mut self) -> (r: Result<ConditionNode, ParseError>)
        requires
            old(self).fits(),
        ensures
            final(self).fits(),
            final(self).input@ == old(self).input@,
            agrees_cond(r, parse_dns_blacklist(old(self).input@, old(self).pos as int), final(self).pos as int),
            r is Ok ==> old(self).pos < final(self).pos <= final(self).input@.len(),
    {
        proof {
            reveal(parse_dns_blacklist);
        }
        let ghost s = self.input@;
        match self.expect_token('(') {
            Err(e) => return Err(e),
            Ok(_) => {},
        }
        let ghost q = self.pos as int;
        let mut domains: Vec<String> = Vec::new();
        let ghost mut listed: Parsed<Seq<Seq<char>>> = Ok((Seq::empty(), q));
        if !self.peek_token(')') {
            let first = match self.parse_string() {
                Err(e) => return Err(e),
                Ok(d) => d,
            };
            domains.push(first);
            proof {
                assert(texts(domains@) =~= seq![first@]);
                listed = parse_domains_rest(s, self.pos as int, seq![first@]);
            }
            loop
                invariant_except_break
                    self.fits(),
                    self.input@ == s,
                    q < self.pos <= s.len(),
                    s == old(self).input@,
                    parse_dns_blacklist(s, old(self).pos as int) == super::grammar::close_blacklist(s, listed),
                    listed == parse_domains_rest(s, self.pos as int, texts(domains@)),
                ensures
                    self.fits(),
                    self.input@ == s,
                    q <= self.pos,
                    s == old(self).input@,
                    parse_dns_blacklist(s, old(self).pos as int) == super::grammar::close_blacklist(s, listed),
                    listed == Ok::<(Seq<Seq<char>>, int), (Seq<char>, Option<int>)>((texts(domains@), self.pos as int)),
                decreases s.len() - self.pos,
            {
                let ghost p = self.pos as int;
                if !self.match_token(',') {
                    break;
                }
                let d = match self.parse_string() {
                    Err(e) => return Err(e),
                    Ok(d) => d,
                };
                let ghost before = texts(domains@);
                domains.push(d);
                proof {
                    assert(texts(domains@) =~= before.push(d@));
                }
            }
        } else {
            assert(texts(domains@) =~= Seq::<Seq<char>>::empty());
        }
        match self.expect_token(')') {
            Err(e) => Err(e),
            Ok(_) => Ok(ConditionNode::DnsBlacklist { domains }),
        }
    }

    fn parse_condition_atom(&mut self) -> (r: Result<ConditionNode, ParseError>)
        requires
            old(self).fits(),
        ensures
            final(self).fits(),
            final(self).input@ == old(self).input@,
            agrees_cond(r, parse_atom(old(self).input@, old(self).pos as int), final(self).pos as int),
            r is Ok ==> old(self).pos < final(self).pos <= final(self).input@.len(),
    {
        proof {
            reveal(parse_atom);
        }
        let start_pos = self.pos;
        let name = match self.parse_identifier() {
            Err(e) => return Err(e),
            Ok(n) => n,
        };
        let lower = to_lowercase(name.as_str());
        match condition_kind(lower.as_str()) {
            Some(AtomKind::Protocol) => self.parse_protocol_match(),
            Some(AtomKind::SrcIp) => self.parse_ip_match(IpField::Src),
            Some(AtomKind::DstIp) => self.parse_ip_match(IpField::Dst),
            Some(AtomKind::AnyIp) => self.parse_ip_match(IpField::Either),
            Some(AtomKind::SrcPort) => self.parse_port_range(PortField::Src),
            Some(AtomKind::DstPort) => self.parse_port_range(PortField::Dst),
            Some(AtomKind::AnyPort) => self.parse_port_range(PortField::Either),
            Some(AtomKind::Length) => self.parse_packet_length(),
            Some(AtomKind::Flags) => self.parse_tcp_flags(),
            Some(AtomKind::Payload) => self.parse_payload_keyword(),
            Some(AtomKind::Rate) => self.parse_rate_limit(),
            Some(AtomKind::Blacklist) => self.parse_dns_blacklist(),
            None => {
                let mut m = msg("Unknown condition: '");
                m.append(name.as_str());
                m.append("'");
                assert(m@ =~= super::grammar::msg_unknown(name@));
                Err(err(m, Some(start_pos)))
            },
        }
    }

    fn parse_or(&mut self) -> (r: Result<ConditionNode, ParseError>)
        requires
            old(self).fits(),
        ensures
            final(self).fits(),
            final(self).input@ == old(self).input@,
            agrees_cond(r, parse_or(old(self).input@, old(self).pos as int), final(self).pos as int),
            r is Ok ==> old(self).pos < final(self).pos <= final(self).input@.len(),
        decreases old(self).input@.len() - old(self).pos, 9int,
    {
        let ghost s = self.input@;
        let ghost p0 = self.pos as int;
        let mut left = match self.parse_and() {
            Err(e) => return Err(e),
            Ok(n) => n,
        };
        self.skip_whitespace();
        proof {
            lemma_ws_end(s, old(self).pos as int);
            reveal_strlit("OR");
        }
        loop
            invariant
                self.fits(),
                self.input@ == s,
                s == old(self).input@,
                p0 == old(self).pos as int,
                p0 < self.pos <= s.len(),
                parse_or(s, p0) == or_rest(s, self.pos as int, left@),
            decreases s.len() - self.pos,
        {
            let ghost p = self.pos as int;
            let ghost left0 = left@;
            proof {
                reveal_strlit("OR");
            }
            let m1 = self.match_keyword("OR");
            let ghost q1 = self.pos as int;
            let mut m = m1;
            if !m {
                m = self.match_token('|');
            }
            let ghost q = self.pos as int;
            assert((m, q) == (if m1 { (true, q1) } else { match_token(s, q1, '|') }));
            if !m {
                assert(or_rest(s, p, left0) == Ok::<(Cond, int), (Seq<char>, Option<int>)>((left0, q)));
                return Ok(left);
            }
            self.skip_whitespace();
            let ghost q2 = self.pos as int;
            assert(p < q2 <= s.len());
            let right = match self.parse_and() {
                Err(e) => {
                    assert(or_rest(s, p, left0) == parse_and(s, q2));
                    return Err(e);
                },
                Ok(n) => n,
            };
            let ghost r = self.pos as int;
            left = combine_or_node(left, right);
            self.skip_whitespace();
            let ghost r2 = self.pos as int;
            assert(q2 <= r2 <= s.len());
            assert(or_rest(s, p, left0) == or_rest(s, r2, left@));
        }
    }

    fn parse_and(&mut self) -> (r: Result<ConditionNode, ParseError>)
        requires
            old(self).fits(),
        ensures
            final(self).fits(),
            final(self).input@ == old(self).input@,
            agrees_cond(r, parse_and(old(self).input@, old(self).pos as int), final(self).pos as int),
            r is Ok ==> old(self).pos < final(self).pos <= final(self).input@.len(),
        decreases old(self).input@.len() - old(self).pos, 7int,
    {
        let ghost s = self.input@;
        let ghost p0 = self.pos as int;
        let mut left = match self.parse_not() {
            Err(e) => return Err(e),
            Ok(n) => n,
        };
        self.skip_whitespace();
        proof {
            lemma_ws_end(s, old(self).pos as int);
            reveal_strlit("AND");
        }
        loop
            invariant
                self.fits(),
                self.input@ == s,
                s == old(self).input@,
                p0 == old(self).pos as int,
                p0 < self.pos <= s.len(),
                parse_and(s, p0) == and_rest(s, self.pos as int, left@),
            decreases s.len() - self.pos,
        {
            let ghost p = self.pos as int;
            let ghost left0 = left@;
            proof {
                reveal_strlit("AND");
            }
            let m1 = self.match_keyword("AND");
            let ghost q1 = self.pos as int;
            let mut m = m1;
            if !m {
                m = self.match_token('&');
            }
            let ghost q = self.pos as int;
            assert((m, q) == (if m1 { (true, q1) } else { match_token(s, q1, '&') }));
            if !m {
                assert(and_rest(s, p, left0) == Ok::<(Cond, int), (Seq<char>, Option<int>)>((left0, q)));
                return Ok(left);
            }
            self.skip_whitespace();
            let ghost q2 = self.pos as int;
            assert(p < q2 <= s.len());
            let right = match self.parse_not() {
                Err(e) => {
                    assert(and_rest(s, p, left0) == parse_not(s, q2));
                    return Err(e);
                },
                Ok(n) => n,
            };
            let ghost r = self.pos as int;
            left = combine_and_node(left, right);
            self.skip_whitespace();
            let ghost r2 = self.pos as int;
            assert(q2 <= r2 <= s.len());
            assert(and_rest(s, p, left0) == and_rest(s, r2, left@));
        }
    }

    fn parse_not(&mut self) -> (r: Result<ConditionNode, ParseError>)
        requires
            old(self).fits(),
        ensures
            final(self).fits(),
            final(self).input@ == old(self).input@,
            agrees_cond(r, parse_not(old(self).input@, old(self).pos as int), final(self).pos as int),
            r is Ok ==> old(self).pos < final(self).pos <= final(self).input@.len(),
        decreases old(self).input@.len() - old(self).pos, 5int,
    {
        let ghost s = self.input@;
        proof {
            reveal_strlit("NOT");
            lemma_ws_end(s, old(self).pos as int);
        }
        let mut m = self.match_keyword("NOT");
        if !m {
            m = self.match_token('!');
        }
        if m {
            self.skip_whitespace();
            proof {
                lemma_ws_end(s, self.pos as int);
            }
            match self.parse_not() {
                Err(e) => Err(e),
                Ok(child) => Ok(ConditionNode::Not { child: Box::new(child) }),
            }
        } else {
            self.parse_primary()
        }
    }

    fn parse_primary(&mut self) -> (r: Result<ConditionNode, ParseError>)
        requires
            old(self).fits(),
        ensures
            final(self).fits(),
            final(self).input@ == old(self).input@,
            agrees_cond(r, parse_primary(old(self).input@, old(self).pos as int), final(self).pos as int),
            r is Ok ==> old(self).pos < final(self).pos <= final(self).input@.len(),
        decreases old(self).input@.len() - old(self).pos, 4int,
    {
        let ghost s = self.input@;
        self.skip_whitespace();
        proof {
            lemma_ws_end(s, old(self).pos as int);
        }
        if self.match_token('(') {
            self.skip_whitespace();
            proof {
                lemma_ws_end(s, self.pos as int);
            }
            let node = match self.parse_or() {
                Err(e) => return Err(e),
                Ok(n) => n,
            };
            self.skip_whitespace();
            if !self.match_token(')') {
                return Err(err(msg("Expected ')'"), Some(self.pos)));
            }
            return Ok(node);
        }
        self.parse_condition_atom()
    }

    /// Parses the input from the current position to its end.
    pub fn parse(&mut self) -> (r: Result<ConditionNode, ParseError>)
        requires
            old(self).fits(),
        ensures
            final(self).fits(),
            final(self).input_chars() == old(self).input_chars(),
            match r {
                Ok(n) => parse_expression_from(old(self).input_chars(), old(self).position()) == Ok::<Cond, (Seq<char>, Option<int>)>(n@),
                Err(e) => parse_expression_from(old(self).input_chars(), old(self).position()) == Err::<Cond, (Seq<char>, Option<int>)>(e.value()),
            },
    {
        self.skip_whitespace();
        let node = match self.parse_or() {
            Err(e) => return Err(e),
            Ok(n) => n,
        };
        self.skip_whitespace();
        if self.pos < self.input.len() {
            let c = self.input[self.pos];
            let mut m = msg("Unexpected character '");
            push_char(&mut m, c);
            m.append("'");
            assert(m@ =~= msg_unexpected(c));
            return Err(err(m, Some(self.pos)));
        }
        Ok(node)
    }
}

fn combine_or_node(left: ConditionNode, right: ConditionNode) -> (r: ConditionNode)
    ensures
        r@ == combine_or(left@, right@),
{
    match left {
        ConditionNode::Or { children } => {
            let mut ch = children;
            proof {
                lemma_conds_of_push(ch@, right);
            }
            ch.push(right);
            ConditionNode::Or { children: ch }
        },
        other => {
            let mut v: Vec<ConditionNode> = Vec::new();
            proof {
                lemma_conds_of_push(v@, other);
                lemma_conds_of_push(v@.push(other), right);
                assert(conds_of(Seq::<ConditionNode>::empty()) =~= Seq::<Cond>::empty());
                assert(conds_of(v@.push(other).push(right)) =~= seq![other@, right@]);
            }
            v.push(other);
            v.push(right);
            ConditionNode::Or { children: v }
        },
    }
}

fn combine_and_node(left: ConditionNode, right: ConditionNode) -> (r: ConditionNode)
    ensures
        r@ == combine_and(left@, right@),
{
    match left {
        ConditionNode::And { children } => {
            let mut ch = children;
            proof {
                lemma_conds_of_push(ch@, right);
            }
            ch.push(right);
            ConditionNode::And { children: ch }
        },
        other => {
            let mut v: Vec<ConditionNode> = Vec::new();
            proof {
                lemma_conds_of_push(v@, other);
                lemma_conds_of_push(v@.push(other), right);
                assert(conds_of(Seq::<ConditionNode>::empty()) =~= Seq::<Cond>::empty());
                assert(conds_of(v@.push(other).push(right)) =~= seq![other@, right@]);
            }
            v.push(other);
            v.push(right);
            ConditionNode::And { children: v }
        },
    }
}

/// Parses a whole rule expression.
pub fn parse_expression(expr: &str) -> (r: Result<ConditionNode, ParseError>)
    requires
        expr@.len() + 8 <= usize::MAX,
    ensures
        match r {
            Ok(n) => parse_expression_spec(expr@) == Ok::<Cond, (Seq<char>, Option<int>)>(n@),
            Err(e) => parse_expression_spec(expr@) == Err::<Cond, (Seq<char>, Option<int>)>(e.value()),
        },
{
    let mut parser = ExpressionParser::new(expr);
    parser.parse()
}

/// `\` doubled and `"` escaped with a backslash.
pub open spec fn escaped(s: Seq<char>) -> Seq<char>
    decreases s.len(),
{
    if s.len() == 0 {
        Seq::empty()
    } else {
        let c = s.last();
        escaped(s.drop_last()) + if c == '\\' {
            seq!['\\', '\\']
        } else if c == '"' {
            seq!['\\', '"']
        } else {
            seq![c]
        }
    }
}

/// `"` + text + `"`.
pub open spec fn quoted(t: Seq<char>) -> Seq<char> {
    seq!['"'] + t + seq!['"']
}

pub open spec fn ip_field_name(f: IpField) -> Seq<char> {
    match f {
        IpField::Src => "src_ip"@,
        IpField::Dst => "dst_ip"@,
        IpField::Either => "ip"@,
    }
}

pub open spec fn port_field_name(f: PortField) -> Seq<char> {
    match f {
        PortField::Src => "src_port"@,
        PortField::Dst => "dst_port"@,
        PortField::Either => "port"@,
    }
}

pub open spec fn operator_text(o: LengthOperator) -> Seq<char> {
    match o {
        LengthOperator::GreaterThan => ">"@,
        LengthOperator::LessThan => "<"@,
        LengthOperator::Equal => "=="@,
    }
}

pub open spec fn flag_text(f: TcpFlag) -> Seq<char> {
    match f {
        TcpFlag::SYN => "SYN"@,
        TcpFlag::ACK => "ACK"@,
        TcpFlag::FIN => "FIN"@,
        TcpFlag::RST => "RST"@,
        TcpFlag::PSH => "PSH"@,
        TcpFlag::URG => "URG"@,
    }
}

/// The text of a condition in the expression language.
pub open spec fn expr_text(c: Cond) -> Seq<char>
    decreases c, 0int,
{
    match c {
        Cond::And(children) => if children.len() == 0 {
            "true"@
        } else {
            crate::text::join(operand_texts(children, false), " AND "@)
        },
        Cond::Or(children) => if children.len() == 0 {
            "false"@
        } else {
            crate::text::join(operand_texts(children, true), " OR "@)
        },
        Cond::Not(child) => "NOT "@ + operand_text(*child, false),
        Cond::ProtocolMatch(p) => "protocol == "@ + quoted(p),
        Cond::IpMatch(f, cidr) => ip_field_name(f) + " == "@ + quoted(cidr),
        Cond::PortRange(f, min, max) => port_field_name(f) + " == "@ + quoted(
            crate::text::dec_digits(min as nat) + "-"@ + crate::text::dec_digits(max as nat),
        ),
        Cond::PacketLength(o, v) => "length "@ + operator_text(o) + " "@ + crate::text::dec_digits(v as nat),
        Cond::TcpFlags(flags, _) => "tcp_flags == "@ + quoted(
            crate::text::join(flags.map_values(|f: TcpFlag| flag_text(f)), ","@),
        ),
        Cond::PayloadKeyword(p) => "payload == "@ + quoted(escaped(p)),
        Cond::RateLimit(w, t, src) => "rate("@ + crate::text::dec_digits(w as nat) + ", "@
            + crate::text::dec_digits(t as nat) + ", "@ + (if src { "src"@ } else { "dst"@ }) + ")"@,
        Cond::DnsBlacklist(domains) => "dns_blacklist("@ + crate::text::join(
            domains.map_values(|d: Seq<char>| quoted(d)),
            ", "@,
        ) + ")"@,
    }
}

/// The text of an operand: a conjunction inside a disjunction, or a disjunction
/// inside a conjunction or negation, is parenthesized when it has more than one child.
pub open spec fn operand_text(c: Cond, in_or: bool) -> Seq<char>
    decreases c, 1int,
{
    match c {
        Cond::And(children) => if in_or && children.len() > 1 {
            "("@ + expr_text(c) + ")"@
        } else {
            expr_text(c)
        },
        Cond::Or(children) => if !in_or && children.len() > 1 {
            "("@ + expr_text(c) + ")"@
        } else {
            expr_text(c)
        },
        _ => expr_text(c),
    }
}

/// The operand texts of a list of conditions.
pub open spec fn operand_texts(cs: Seq<Cond>, in_or: bool) -> Seq<Seq<char>>
    decreases cs, 2int,
{
    if cs.len() == 0 {
        Seq::empty()
    } else {
        proof {
            vstd::seq::axiom_seq_len_decreases(cs, cs.drop_last());
        }
        operand_texts(cs.drop_last(), in_or).push(operand_text(cs.last(), in_or))
    }
}

/// The pattern with `\` doubled and `"` escaped with a backslash.
pub fn escape_string(text: &str) -> (r: String)
    ensures
        r@ == escaped(text@),
{
    let v = chars_of(text);
    let mut r = String::new();
    let mut i: usize = 0;
    while i < v.len()
        invariant
            i <= v.len(),
            v@ == text@,
            r@ == escaped(v@.subrange(0, i as int)),
        decreases v.len() - i,
    {
        let c = v[i];
        if c == '\\' {
            r.append("\\\\");
        } else if c == '"' {
            r.append("\\\"");
        } else {
            push_char(&mut r, c);
        }
        proof {
            reveal_strlit("\\\\");
            reveal_strlit("\\\"");
            assert(v@.subrange(0, i + 1).drop_last() =~= v@.subrange(0, i as int));
            assert(r@ =~= escaped(v@.subrange(0, i + 1)));
        }
        i = i + 1;
    }
    assert(v@.subrange(0, v@.len() as int) =~= v@);
    r
}

fn flag_str(f: TcpFlag) -> (s: &'static str)
    ensures
        s@ == flag_text(f),
{
    match f {
        TcpFlag::SYN => "SYN",
        TcpFlag::ACK => "ACK",
        TcpFlag::FIN => "FIN",
        TcpFlag::RST => "RST",
        TcpFlag::PSH => "PSH",
        TcpFlag::URG => "URG",
    }
}

proof fn lemma_operand_texts_step(cs: Seq<Cond>, i: int, in_or: bool)
    requires
        0 <= i < cs.len(),
    ensures
        operand_texts(cs.subrange(0, i + 1), in_or) == operand_texts(cs.subrange(0, i), in_or).push(
            operand_text(cs[i], in_or),
        ),
{
    assert(cs.subrange(0, i + 1).drop_last() =~= cs.subrange(0, i));
}

/// Appends the operand texts of `children`, joined by `sep`.
fn push_operands(out: &mut String, children: &Vec<ConditionNode>, in_or: bool, sep: &str)
    requires
        old(out)@.len() == 0,
    ensures
        final(out)@ == crate::text::join(operand_texts(conds_of(children@), in_or), sep@),
    decreases children, 3int,
{
    proof {
        super::models::lemma_conds_of(children@);
    }
    let ghost cs = conds_of(children@);
    let mut i: usize = 0;
    assert(cs.subrange(0, 0) =~= Seq::<Cond>::empty());
    assert(out@ =~= crate::text::join(operand_texts(cs.subrange(0, 0), in_or), sep@));
    while i < children.len()
        invariant
            i <= children.len(),
            cs == conds_of(children@),
            cs.len() == children@.len(),
            forall|j: int| 0 <= j < children@.len() ==> #[trigger] cs[j] == cond_of(children@[j]),
            out@ == crate::text::join(operand_texts(cs.subrange(0, i as int), in_or), sep@),
        decreases children.len() - i,
    {
        proof {
            vstd::std_specs::vec::axiom_vec_index_decreases(*children, i as int);
        }
        let t = format_operand(&children[i], in_or);
        proof {
            lemma_operand_texts_step(cs, i as int, in_or);
        }
        crate::text::push_joined(out, Ghost(operand_texts(cs.subrange(0, i as int), in_or)), i == 0, sep, t.as_str());
        i = i + 1;
    }
    assert(cs.subrange(0, cs.len() as int) =~= cs);
}

fn format_operand(node: &ConditionNode, in_or: bool) -> (r: String)
    ensures
        r@ == operand_text(node@, in_or),
    decreases node, 1int,
{
    match node {
        ConditionNode::And { children } => {
            if in_or && children.len() > 1 {
                proof { super::models::lemma_conds_of(children@); }
                let inner = node_to_expression(node);
                let mut r = String::from_str("(");
                r.append(inner.as_str());
                r.append(")");
                r
            } else {
                proof { super::models::lemma_conds_of(children@); }
                node_to_expression(node)
            }
        },
        ConditionNode::Or { children } => {
            if !in_or && children.len() > 1 {
                proof { super::models::lemma_conds_of(children@); }
                let inner = node_to_expression(node);
                let mut r = String::from_str("(");
                r.append(inner.as_str());
                r.append(")");
                r
            } else {
                proof { super::models::lemma_conds_of(children@); }
                node_to_expression(node)
            }
        },
        _ => node_to_expression(node),
    }
}

/// The text of a condition in the expression language.
pub fn node_to_expression(node: &ConditionNode) -> (r: String)
    ensures
        r@ == expr_text(node@),
    decreases node, 0int,
{
    match node {
        ConditionNode::And { children } => {
            proof { super::models::lemma_conds_of(children@); }
            if children.len() == 0 {
                String::from_str("true")
            } else {
                let mut out = String::new();
                push_operands(&mut out, children, false, " AND ");
                out
            }
        },
        ConditionNode::Or { children } => {
            proof { super::models::lemma_conds_of(children@); }
            if children.len() == 0 {
                String::from_str("false")
            } else {
                let mut out = String::new();
                push_operands(&mut out, children, true, " OR ");
                out
            }
        },
        ConditionNode::Not { child } => {
            let inner = format_operand(child, false);
            let mut out = String::from_str("NOT ");
            out.append(inner.as_str());
            out
        },
        ConditionNode::ProtocolMatch { protocol } => {
            let mut out = String::from_str("protocol == \"");
            out.append(protocol.as_str());
            out.append("\"");
            proof { reveal_strlit("protocol == \""); reveal_strlit("protocol == "); reveal_strlit("\""); }
            assert(out@ =~= expr_text(node@));
            out
        },
        ConditionNode::IpMatch { field, cidr } => {
            let mut out = String::from_str(match field {
                IpField::Src => "src_ip",
                IpField::Dst => "dst_ip",
                IpField::Either => "ip",
            });
            out.append(" == \"");
            out.append(cidr.as_str());
            out.append("\"");
            proof { reveal_strlit(" == \""); reveal_strlit(" == "); reveal_strlit("\""); }
            assert(out@ =~= expr_text(node@));
            out
        },
        ConditionNode::PortRange { field, min, max } => {
            let mut out = String::from_str(match field {
                PortField::Src => "src_port",
                PortField::Dst => "dst_port",
                PortField::Either => "port",
            });
            out.append(" == \"");
            crate::text::push_decimal(&mut out, *min as u64);
            out.append("-");
            crate::text::push_decimal(&mut out, *max as u64);
            out.append("\"");
            proof { reveal_strlit(" == \""); reveal_strlit(" == "); reveal_strlit("\""); }
            assert(out@ =~= expr_text(node@));
            out
        },
        ConditionNode::PacketLength { operator, value } => {
            let mut out = String::from_str("length ");
            out.append(match operator {
                LengthOperator::GreaterThan => ">",
                LengthOperator::LessThan => "<",
                LengthOperator::Equal => "==",
            });
            out.append(" ");
            crate::text::push_decimal(&mut out, *value as u64);
            assert(out@ =~= expr_text(node@));
            out
        },
        ConditionNode::TcpFlags { flags, mode: _ } => {
            let mut list = String::new();
            let ghost texts_all = flags@.map_values(|f: TcpFlag| flag_text(f));
            let mut i: usize = 0;
            assert(list@ =~= crate::text::join(texts_all.subrange(0, 0), ","@));
            while i < flags.len()
                invariant
                    i <= flags.len(),
                    texts_all == flags@.map_values(|f: TcpFlag| flag_text(f)),
                    list@ == crate::text::join(texts_all.subrange(0, i as int), ","@),
                decreases flags.len() - i,
            {
                let t = flag_str(flags[i]);
                proof {
                    assert(texts_all.subrange(0, i + 1) =~= texts_all.subrange(0, i as int).push(t@));
                }
                crate::text::push_joined(&mut list, Ghost(texts_all.subrange(0, i as int)), i == 0, ",", t);
                i = i + 1;
            }
            assert(texts_all.subrange(0, texts_all.len() as int) =~= texts_all);
            let mut out = String::from_str("tcp_flags == \"");
            out.append(list.as_str());
            out.append("\"");
            proof { reveal_strlit("tcp_flags == \""); reveal_strlit("tcp_flags == "); reveal_strlit("\""); }
            assert(out@ =~= expr_text(node@));
            out
        },
        ConditionNode::PayloadKeyword { pattern } => {
            let esc = escape_string(pattern.as_str());
            let mut out = String::from_str("payload == \"");
            out.append(esc.as_str());
            out.append("\"");
            proof { reveal_strlit("payload == \""); reveal_strlit("payload == "); reveal_strlit("\""); }
            assert(out@ =~= expr_text(node@));
            out
        },
        ConditionNode::RateLimit { window_secs, threshold, src_ip } => {
            let mut out = String::from_str("rate(");
            crate::text::push_decimal(&mut out, *window_secs as u64);
            out.append(", ");
            crate::text::push_decimal(&mut out, *threshold as u64);
            out.append(", ");
            out.append(if *src_ip { "src" } else { "dst" });
            out.append(")");
            assert(out@ =~= expr_text(node@));
            out
        },
        ConditionNode::DnsBlacklist { domains } => {
            let mut list = String::new();
            let ghost all = texts(domains@).map_values(|d: Seq<char>| quoted(d));
            let mut i: usize = 0;
            assert(list@ =~= crate::text::join(all.subrange(0, 0), ", "@));
            while i < domains.len()
                invariant
                    i <= domains.len(),
                    all == texts(domains@).map_values(|d: Seq<char>| quoted(d)),
                    list@ == crate::text::join(all.subrange(0, i as int), ", "@),
                decreases domains.len() - i,
            {
                let mut q = String::from_str("\"");
                q.append(domains[i].as_str());
                q.append("\"");
                proof {
                    reveal_strlit("\"");
                    assert(q@ =~= quoted(domains@[i as int]@));
                    assert(all.subrange(0, i + 1) =~= all.subrange(0, i as int).push(q@));
                }
                crate::text::push_joined(&mut list, Ghost(all.subrange(0, i as int)), i == 0, ", ", q.as_str());
                i = i + 1;
            }
            assert(all.subrange(0, all.len() as int) =~= all);
            let mut out = String::from_str("dns_blacklist(");
            out.append(list.as_str());
            out.append(")");
            assert(out@ =~= expr_text(node@));
            out
        },
    }
}

/// Whether the text is a network (address and optional prefix length) that
/// `cidr::IpCidr` accepts.
pub fn validate_cidr(cidr: &str) -> (b: bool)
    ensures
        b == crate::rule::engine::cidr_parses(cidr@),
{
    crate::rule::engine::cidr_valid(cidr)
}

} // verus!
