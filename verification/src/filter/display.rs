//! The display filter: a small boolean language over packet summaries,
//! such as `tcp and ip.src==10.0.0.1` or `not (dns or "login")`.
use vstd::prelude::*;
use crate::models::{PacketMetadata, ProtocolType};
use crate::text::{
    all_ws, chars_equal, chars_of, copy_range, has_prefix, is_blank, is_whitespace, is_ws,
    lower_text, occurs_in, contains_chars, parse_u16, parse_u16_spec, same_text, string_of,
    strip_prefix, to_lowercase, trim_chars, trimmed,
};

verus! {

/// A parsed display filter.
#[derive(Debug)]
pub enum FilterNode {
    Protocol(ProtocolType),
    SrcIp(String),
    DstIp(String),
    AnyIp(String),
    SrcPort(u16),
    DstPort(u16),
    AnyPort(u16),
    Contains(String),
    And(Box<FilterNode>, Box<FilterNode>),
    Or(Box<FilterNode>, Box<FilterNode>),
    Not(Box<FilterNode>),
    True,
    False,
}

/// A filter with its texts as character sequences.
pub enum FilterView {
    Protocol(ProtocolType),
    SrcIp(Seq<char>),
    DstIp(Seq<char>),
    AnyIp(Seq<char>),
    SrcPort(u16),
    DstPort(u16),
    AnyPort(u16),
    Contains(Seq<char>),
    And(Box<FilterView>, Box<FilterView>),
    Or(Box<FilterView>, Box<FilterView>),
    Not(Box<FilterView>),
    True,
    False,
}

pub open spec fn node_view(n: FilterNode) -> FilterView
    decreases n,
{
    match n {
        FilterNode::Protocol(p) => FilterView::Protocol(p),
        FilterNode::SrcIp(s) => FilterView::SrcIp(s@),
        FilterNode::DstIp(s) => FilterView::DstIp(s@),
        FilterNode::AnyIp(s) => FilterView::AnyIp(s@),
        FilterNode::SrcPort(p) => FilterView::SrcPort(p),
        FilterNode::DstPort(p) => FilterView::DstPort(p),
        FilterNode::AnyPort(p) => FilterView::AnyPort(p),
        FilterNode::Contains(s) => FilterView::Contains(s@),
        FilterNode::And(l, r) => FilterView::And(Box::new(node_view(*l)), Box::new(node_view(*r))),
        FilterNode::Or(l, r) => FilterView::Or(Box::new(node_view(*l)), Box::new(node_view(*r))),
        FilterNode::Not(n) => FilterView::Not(Box::new(node_view(*n))),
        FilterNode::True => FilterView::True,
        FilterNode::False => FilterView::False,
    }
}

impl View for FilterNode {
    type V = FilterView;

    open spec fn view(&self) -> FilterView {
        node_view(*self)
    }
}

/// A lexical token of the filter language.
#[derive(Debug, Clone)]
pub enum Token {
    Protocol(ProtocolType),
    SrcIp(String),
    DstIp(String),
    AnyIp(String),
    SrcPort(u16),
    DstPort(u16),
    AnyPort(u16),
    Contains(String),
    And,
    Or,
    Not,
    LParen,
    RParen,
    Unknown(String),
}

/// A token with its text as a character sequence.
pub enum TokenV {
    Protocol(ProtocolType),
    SrcIp(Seq<char>),
    DstIp(Seq<char>),
    AnyIp(Seq<char>),
    SrcPort(u16),
    DstPort(u16),
    AnyPort(u16),
    Contains(Seq<char>),
    And,
    Or,
    Not,
    LParen,
    RParen,
    Unknown(Seq<char>),
}

impl View for Token {
    type V = TokenV;

    open spec fn view(&self) -> TokenV {
        match self {
            Token::Protocol(p) => TokenV::Protocol(*p),
            Token::SrcIp(s) => TokenV::SrcIp(s@),
            Token::DstIp(s) => TokenV::DstIp(s@),
            Token::AnyIp(s) => TokenV::AnyIp(s@),
            Token::SrcPort(p) => TokenV::SrcPort(*p),
            Token::DstPort(p) => TokenV::DstPort(*p),
            Token::AnyPort(p) => TokenV::AnyPort(*p),
            Token::Contains(s) => TokenV::Contains(s@),
            Token::And => TokenV::And,
            Token::Or => TokenV::Or,
            Token::Not => TokenV::Not,
            Token::LParen => TokenV::LParen,
            Token::RParen => TokenV::RParen,
            Token::Unknown(s) => TokenV::Unknown(s@),
        }
    }
}

pub open spec fn views(ts: Seq<Token>) -> Seq<TokenV> {
    ts.map_values(|t: Token| t@)
}

pub open spec fn opt_view(t: Option<Token>) -> Option<TokenV> {
    match t {
        Some(t) => Some(t@),
        None => None,
    }
}

// ---------------------------------------------------------------------------
// Lexical structure

/// Characters that end a word: whitespace and parentheses.
pub open spec fn is_delim(c: char) -> bool {
    is_ws(c) || c == '(' || c == ')'
}

/// Every word that begins with `"` is longer than that one character.
pub open spec fn no_lone_quote(s: Seq<char>) -> bool {
    forall|i: int|
        0 <= i < s.len() && #[trigger] s[i] == '"' && (i == 0 || is_delim(s[i - 1])) ==> i + 1
            < s.len() && !is_delim(s[i + 1])
}

/// Length of the word at the front of `s`.
pub open spec fn word_len(s: Seq<char>) -> nat
    decreases s.len(),
{
    if s.len() == 0 || is_delim(s[0]) {
        0
    } else {
        1 + word_len(s.drop_first())
    }
}

pub open spec fn drop_lead_quotes(s: Seq<char>) -> Seq<char>
    decreases s.len(),
{
    if s.len() > 0 && s[0] == '"' {
        drop_lead_quotes(s.drop_first())
    } else {
        s
    }
}

pub open spec fn drop_trail_quotes(s: Seq<char>) -> Seq<char>
    decreases s.len(),
{
    if s.len() > 0 && s.last() == '"' {
        drop_trail_quotes(s.drop_last())
    } else {
        s
    }
}

pub open spec fn after(w: Seq<char>, p: Seq<char>) -> Seq<char> {
    w.skip(p.len() as int)
}

pub open spec fn any_port(rest: Seq<char>) -> Option<TokenV> {
    match parse_u16_spec(rest) {
        Some(p) => Some(TokenV::AnyPort(p)),
        None => None,
    }
}

pub open spec fn src_port(rest: Seq<char>) -> Option<TokenV> {
    match parse_u16_spec(rest) {
        Some(p) => Some(TokenV::SrcPort(p)),
        None => None,
    }
}

pub open spec fn dst_port(rest: Seq<char>) -> Option<TokenV> {
    match parse_u16_spec(rest) {
        Some(p) => Some(TokenV::DstPort(p)),
        None => None,
    }
}

/// The token that a word stands for, given the word and its lower-case form;
/// `None` for a port test whose number does not parse.
pub open spec fn word_token(word: Seq<char>, lower: Seq<char>) -> Option<TokenV> {
    if lower == "and"@ || lower == "&&"@ {
        Some(TokenV::And)
    } else if lower == "or"@ || lower == "||"@ {
        Some(TokenV::Or)
    } else if lower == "not"@ || lower == "!"@ {
        Some(TokenV::Not)
    } else if lower == "http"@ {
        Some(TokenV::Protocol(ProtocolType::HTTP))
    } else if lower == "dns"@ {
        Some(TokenV::Protocol(ProtocolType::DNS))
    } else if lower == "tcp"@ {
        Some(TokenV::Protocol(ProtocolType::TCP))
    } else if lower == "udp"@ {
        Some(TokenV::Protocol(ProtocolType::UDP))
    } else if lower == "tls"@ || lower == "ssl"@ {
        Some(TokenV::Protocol(ProtocolType::TLS))
    } else if lower == "arp"@ {
        Some(TokenV::Protocol(ProtocolType::ARP))
    } else if lower == "icmp"@ {
        Some(TokenV::Protocol(ProtocolType::ICMP))
    } else if has_prefix(word, "ip.src=="@) {
        Some(TokenV::SrcIp(after(word, "ip.src=="@)))
    } else if has_prefix(word, "ip.dst=="@) {
        Some(TokenV::DstIp(after(word, "ip.dst=="@)))
    } else if has_prefix(word, "ip.addr=="@) {
        Some(TokenV::AnyIp(after(word, "ip.addr=="@)))
    } else if has_prefix(word, "ip.src="@) {
        Some(TokenV::SrcIp(after(word, "ip.src="@)))
    } else if has_prefix(word, "ip.dst="@) {
        Some(TokenV::DstIp(after(word, "ip.dst="@)))
    } else if has_prefix(word, "tcp.port=="@) {
        any_port(after(word, "tcp.port=="@))
    } else if has_prefix(word, "tcp.srcport=="@) {
        src_port(after(word, "tcp.srcport=="@))
    } else if has_prefix(word, "tcp.dstport=="@) {
        dst_port(after(word, "tcp.dstport=="@))
    } else if has_prefix(word, "udp.port=="@) {
        any_port(after(word, "udp.port=="@))
    } else if has_prefix(word, "udp.srcport=="@) {
        src_port(after(word, "udp.srcport=="@))
    } else if has_prefix(word, "udp.dstport=="@) {
        dst_port(after(word, "udp.dstport=="@))
    } else if has_prefix(word, "port=="@) {
        any_port(after(word, "port=="@))
    } else if has_prefix(word, "contains"@) {
        Some(TokenV::Contains(trimmed(drop_trail_quotes(drop_lead_quotes(after(word, "contains"@))))))
    } else if word.len() > 0 && word[0] == '"' && word.last() == '"' {
        Some(TokenV::Contains(word.subrange(1, word.len() - 1)))
    } else if word == "ip"@ {
        Some(TokenV::Protocol(ProtocolType::IPv4))
    } else if word == "ipv6"@ {
        Some(TokenV::Protocol(ProtocolType::IPv6))
    } else if word == "eth"@ || word == "ethernet"@ {
        Some(TokenV::Protocol(ProtocolType::Ethernet))
    } else {
        Some(TokenV::Unknown(word))
    }
}

pub proof fn lemma_word_len(s: Seq<char>)
    ensures
        word_len(s) <= s.len(),
        s.len() > 0 && !is_delim(s[0]) ==> word_len(s) >= 1,
    decreases s.len(),
{
    if s.len() > 0 && !is_delim(s[0]) {
        lemma_word_len(s.drop_first());
    }
}

proof fn lemma_word_len_exact(s: Seq<char>, k: nat)
    requires
        k <= s.len(),
        forall|m: int| 0 <= m < k ==> !is_delim(#[trigger] s[m]),
        k == s.len() || is_delim(s[k as int]),
    ensures
        word_len(s) == k,
    decreases k,
{
    if k > 0 {
        let d = s.drop_first();
        assert forall|m: int| 0 <= m < k - 1 implies !is_delim(#[trigger] d[m]) by {
            assert(d[m] == s[m + 1]);
        }
        if k < s.len() {
            assert(d[k - 1] == s[k as int]);
        }
        lemma_word_len_exact(d, (k - 1) as nat);
    }
}

/// The tokens of a filter expression.
pub open spec fn lex(s: Seq<char>) -> Seq<TokenV>
    decreases s.len(),
{
    if s.len() == 0 {
        Seq::empty()
    } else if is_ws(s[0]) {
        lex(s.drop_first())
    } else if s[0] == '(' {
        seq![TokenV::LParen] + lex(s.drop_first())
    } else if s[0] == ')' {
        seq![TokenV::RParen] + lex(s.drop_first())
    } else {
        let k = word_len(s);
        proof {
            lemma_word_len(s);
        }
        let w = s.take(k as int);
        let rest = lex(s.skip(k as int));
        match word_token(w, lower_text(w)) {
            Some(t) => seq![t] + rest,
            None => rest,
        }
    }
}

// ---------------------------------------------------------------------------
// Grammar: or-expression := and-expression [ "or" and-expression ]
//          and-expression := not-expression [ "and" not-expression ]
//          not-expression := [ "not" ] primary
//          primary := "(" or-expression [ ")" ] | test | anything else (false)

pub open spec fn parse_or_spec(t: Seq<TokenV>, pos: int) -> (FilterView, int)
    decreases t.len() - pos, 3int,
{
    let (left, p) = parse_and_spec(t, pos);
    if pos <= p < t.len() && t[p] is Or {
        let (right, q) = parse_and_spec(t, p + 1);
        (FilterView::Or(Box::new(left), Box::new(right)), q)
    } else {
        (left, p)
    }
}

pub open spec fn parse_and_spec(t: Seq<TokenV>, pos: int) -> (FilterView, int)
    decreases t.len() - pos, 2int,
{
    let (left, p) = parse_not_spec(t, pos);
    if pos <= p < t.len() && t[p] is And {
        let (right, q) = parse_not_spec(t, p + 1);
        (FilterView::And(Box::new(left), Box::new(right)), q)
    } else {
        (left, p)
    }
}

pub open spec fn parse_not_spec(t: Seq<TokenV>, pos: int) -> (FilterView, int)
    decreases t.len() - pos, 1int,
{
    if 0 <= pos < t.len() && t[pos] is Not {
        let (node, q) = parse_primary_spec(t, pos + 1);
        (FilterView::Not(Box::new(node)), q)
    } else {
        parse_primary_spec(t, pos)
    }
}

pub open spec fn parse_primary_spec(t: Seq<TokenV>, pos: int) -> (FilterView, int)
    decreases t.len() - pos, 0int,
{
    if pos >= t.len() || pos < 0 {
        (FilterView::True, pos)
    } else {
        match t[pos] {
            TokenV::LParen => {
                let (node, p) = parse_or_spec(t, pos + 1);
                if 0 <= p < t.len() && t[p] is RParen {
                    (node, p + 1)
                } else {
                    (node, p)
                }
            },
            TokenV::Protocol(x) => (FilterView::Protocol(x), pos + 1),
            TokenV::SrcIp(x) => (FilterView::SrcIp(x), pos + 1),
            TokenV::DstIp(x) => (FilterView::DstIp(x), pos + 1),
            TokenV::AnyIp(x) => (FilterView::AnyIp(x), pos + 1),
            TokenV::SrcPort(x) => (FilterView::SrcPort(x), pos + 1),
            TokenV::DstPort(x) => (FilterView::DstPort(x), pos + 1),
            TokenV::AnyPort(x) => (FilterView::AnyPort(x), pos + 1),
            TokenV::Contains(x) => (FilterView::Contains(x), pos + 1),
            _ => (FilterView::False, pos + 1),
        }
    }
}

/// The filter that an expression denotes.
pub open spec fn parse_filter_spec(s: Seq<char>) -> FilterView {
    parse_or_spec(lex(s), 0).0
}

// ---------------------------------------------------------------------------
// Meaning

/// Whether a packet passes a filter. Text tests compare exactly; `contains`
/// ignores case.
pub open spec fn eval_spec(f: FilterView, m: PacketMetadata) -> bool
    decreases f,
{
    match f {
        FilterView::Protocol(p) => m.protocol == p,
        FilterView::SrcIp(ip) => m.src_addr@ == ip,
        FilterView::DstIp(ip) => m.dst_addr@ == ip,
        FilterView::AnyIp(ip) => m.src_addr@ == ip || m.dst_addr@ == ip,
        FilterView::SrcPort(p) => m.src_port == Some(p),
        FilterView::DstPort(p) => m.dst_port == Some(p),
        FilterView::AnyPort(p) => m.src_port == Some(p) || m.dst_port == Some(p),
        FilterView::Contains(k) => occurs_in(lower_text(m.summary@), lower_text(k)),
        FilterView::And(l, r) => eval_spec(*l, m) && eval_spec(*r, m),
        FilterView::Or(l, r) => eval_spec(*l, m) || eval_spec(*r, m),
        FilterView::Not(n) => !eval_spec(*n, m),
        FilterView::True => true,
        FilterView::False => false,
    }
}

/// The packets, in order, that pass the filter.
pub open spec fn select(ps: Seq<PacketMetadata>, f: FilterView) -> Seq<PacketMetadata>
    decreases ps.len(),
{
    if ps.len() == 0 {
        Seq::empty()
    } else {
        let rest = select(ps.drop_last(), f);
        if eval_spec(f, ps.last()) {
            rest.push(ps.last())
        } else {
            rest
        }
    }
}

/// What the display filter keeps of a packet list: everything for a blank
/// expression, else the packets that pass.
pub open spec fn filter_result(ps: Seq<PacketMetadata>, expr: Seq<char>) -> Seq<PacketMetadata> {
    if all_ws(expr) {
        ps
    } else {
        select(ps, parse_filter_spec(expr))
    }
}


// ---------------------------------------------------------------------------
// Executable part

/// Parses a display-filter expression. Parsing never fails: unknown words
/// become tests that no packet passes, a missing operand is a test that every
/// packet passes, and a missing `)` is tolerated.
pub fn parse_filter(expr: &str) -> (r: Result<FilterNode, String>)
    requires
        no_lone_quote(expr@),
    ensures
        match r {
            Ok(n) => n@ == parse_filter_spec(expr@),
            Err(_) => false,
        },
{
    let tokens = match tokenize(expr) {
        Ok(t) => t,
        Err(e) => return Err(e),
    };
    match parse_or(tokens.as_slice(), 0) {
        Ok((node, _)) => Ok(node),
        Err(e) => Err(e),
    }
}

fn strip_quotes(s: &[char]) -> (r: Vec<char>)
    ensures
        r@ == drop_trail_quotes(drop_lead_quotes(s@)),
{
    let mut a: usize = 0;
    assert(s@.skip(0) =~= s@);
    while a < s.len() && s[a] == '"'
        invariant
            a <= s.len(),
            drop_lead_quotes(s@) == drop_lead_quotes(s@.skip(a as int)),
        decreases s.len() - a,
    {
        assert(s@.skip(a as int).drop_first() =~= s@.skip(a + 1));
        a = a + 1;
    }
    let ghost t = s@.skip(a as int);
    assert(drop_lead_quotes(t) == t);
    let mut b: usize = s.len();
    assert(t =~= s@.subrange(a as int, b as int));
    while b > a && s[b - 1] == '"'
        invariant
            a <= b <= s.len(),
            t == s@.skip(a as int),
            drop_trail_quotes(t) == drop_trail_quotes(s@.subrange(a as int, b as int)),
        decreases b,
    {
        assert(s@.subrange(a as int, b as int).drop_last() =~= s@.subrange(a as int, b - 1));
        b = b - 1;
    }
    assert(t =~= s@.subrange(a as int, s.len() as int));
    copy_range(s, a, b)
}

/// The token for one word, given the word and its lower-case form (what
/// `str::to_lowercase` gives for it); `None` where a port number does not parse.
pub fn classify_word(word: &[char], lower: &[char]) -> (r: Option<Token>)
    requires
        !(word@.len() == 1 && word@[0] == '"'),
    ensures
        opt_view(r) == word_token(word@, lower@),
{
    if chars_equal(lower, "and") || chars_equal(lower, "&&") {
        return Some(Token::And);
    }
    if chars_equal(lower, "or") || chars_equal(lower, "||") {
        return Some(Token::Or);
    }
    if chars_equal(lower, "not") || chars_equal(lower, "!") {
        return Some(Token::Not);
    }
    if chars_equal(lower, "http") {
        return Some(Token::Protocol(ProtocolType::HTTP));
    }
    if chars_equal(lower, "dns") {
        return Some(Token::Protocol(ProtocolType::DNS));
    }
    if chars_equal(lower, "tcp") {
        return Some(Token::Protocol(ProtocolType::TCP));
    }
    if chars_equal(lower, "udp") {
        return Some(Token::Protocol(ProtocolType::UDP));
    }
    if chars_equal(lower, "tls") || chars_equal(lower, "ssl") {
        return Some(Token::Protocol(ProtocolType::TLS));
    }
    if chars_equal(lower, "arp") {
        return Some(Token::Protocol(ProtocolType::ARP));
    }
    if chars_equal(lower, "icmp") {
        return Some(Token::Protocol(ProtocolType::ICMP));
    }
    if let Some(rest) = strip_prefix(word, "ip.src==") {
        return Some(Token::SrcIp(string_of(&rest)));
    }
    if let Some(rest) = strip_prefix(word, "ip.dst==") {
        return Some(Token::DstIp(string_of(&rest)));
    }
    if let Some(rest) = strip_prefix(word, "ip.addr==") {
        return Some(Token::AnyIp(string_of(&rest)));
    }
    if let Some(rest) = strip_prefix(word, "ip.src=") {
        return Some(Token::SrcIp(string_of(&rest)));
    }
    if let Some(rest) = strip_prefix(word, "ip.dst=") {
        return Some(Token::DstIp(string_of(&rest)));
    }
    if let Some(rest) = strip_prefix(word, "tcp.port==") {
        return match parse_u16(&rest) {
            Some(p) => Some(Token::AnyPort(p)),
            None => None,
        };
    }
    if let Some(rest) = strip_prefix(word, "tcp.srcport==") {
        return match parse_u16(&rest) {
            Some(p) => Some(Token::SrcPort(p)),
            None => None,
        };
    }
    if let Some(rest) = strip_prefix(word, "tcp.dstport==") {
        return match parse_u16(&rest) {
            Some(p) => Some(Token::DstPort(p)),
            None => None,
        };
    }
    if let Some(rest) = strip_prefix(word, "udp.port==") {
        return match parse_u16(&rest) {
            Some(p) => Some(Token::AnyPort(p)),
            None => None,
        };
    }
    if let Some(rest) = strip_prefix(word, "udp.srcport==") {
        return match parse_u16(&rest) {
            Some(p) => Some(Token::SrcPort(p)),
            None => None,
        };
    }
    if let Some(rest) = strip_prefix(word, "udp.dstport==") {
        return match parse_u16(&rest) {
            Some(p) => Some(Token::DstPort(p)),
            None => None,
        };
    }
    if let Some(rest) = strip_prefix(word, "port==") {
        return match parse_u16(&rest) {
            Some(p) => Some(Token::AnyPort(p)),
            None => None,
        };
    }
    if let Some(rest) = strip_prefix(word, "contains") {
        let unquoted = strip_quotes(&rest);
        let val = trim_chars(&unquoted);
        return Some(Token::Contains(string_of(&val)));
    }
    if word.len() > 0 && word[0] == '"' && word[word.len() - 1] == '"' {
        let inner = copy_range(word, 1, word.len() - 1);
        return Some(Token::Contains(string_of(&inner)));
    }
    if chars_equal(word, "ip") {
        return Some(Token::Protocol(ProtocolType::IPv4));
    }
    if chars_equal(word, "ipv6") {
        return Some(Token::Protocol(ProtocolType::IPv6));
    }
    if chars_equal(word, "eth") || chars_equal(word, "ethernet") {
        return Some(Token::Protocol(ProtocolType::Ethernet));
    }
    Some(Token::Unknown(string_of(word)))
}

/// Splits an expression into tokens. Never fails.
fn tokenize(expr: &str) -> (r: Result<Vec<Token>, String>)
    requires
        no_lone_quote(expr@),
    ensures
        match r {
            Ok(ts) => views(ts@) == lex(expr@),
            Err(_) => false,
        },
{
    let cs = chars_of(expr);
    let mut tokens: Vec<Token> = Vec::new();
    let mut i: usize = 0;
    assert(cs@.skip(0) =~= cs@);
    assert(views(tokens@) + lex(cs@) =~= lex(cs@));
    while i < cs.len()
        invariant
            cs@ == expr@,
            no_lone_quote(cs@),
            i <= cs.len(),
            i == 0 || i == cs@.len() || is_delim(cs@[i - 1]) || is_delim(cs@[i as int]),
            lex(cs@) == views(tokens@) + lex(cs@.skip(i as int)),
        decreases cs.len() - i,
    {
        let ghost s = cs@.skip(i as int);
        assert(s.drop_first() =~= cs@.skip(i + 1));
        let c = cs[i];
        if is_whitespace(c) {
            i = i + 1;
        } else if c == '(' {
            proof {
                assert(views(tokens@.push(Token::LParen)) =~= views(tokens@).push(TokenV::LParen));
                assert(views(tokens@) + (seq![TokenV::LParen] + lex(s.drop_first()))
                    =~= views(tokens@).push(TokenV::LParen) + lex(s.drop_first()));
            }
            tokens.push(Token::LParen);
            i = i + 1;
        } else if c == ')' {
            proof {
                assert(views(tokens@.push(Token::RParen)) =~= views(tokens@).push(TokenV::RParen));
                assert(views(tokens@) + (seq![TokenV::RParen] + lex(s.drop_first()))
                    =~= views(tokens@).push(TokenV::RParen) + lex(s.drop_first()));
            }
            tokens.push(Token::RParen);
            i = i + 1;
        } else {
            let mut j: usize = i;
            while j < cs.len() && !is_whitespace(cs[j]) && cs[j] != '(' && cs[j] != ')'
                invariant
                    i <= j <= cs.len(),
                    forall|m: int| i <= m < j ==> !is_delim(#[trigger] cs@[m]),
                decreases cs.len() - j,
            {
                j = j + 1;
            }
            let word = copy_range(&cs, i, j);
            let word_text = string_of(&word);
            let lowered = to_lowercase(word_text.as_str());
            let lower = chars_of(lowered.as_str());
            proof {
                assert forall|m: int| 0 <= m < j - i implies !is_delim(#[trigger] s[m]) by {
                    assert(s[m] == cs@[i + m]);
                }
                if j < cs.len() {
                    assert(s[j - i] == cs@[j as int]);
                }
                lemma_word_len_exact(s, (j - i) as nat);
                assert(s.take((j - i) as int) =~= word@);
                assert(s.skip((j - i) as int) =~= cs@.skip(j as int));
                if word@.len() == 1 && word@[0] == '"' {
                    assert(cs@[i as int] == '"');
                }
            }
            let t = classify_word(&word, &lower);
            match t {
                Some(tok) => {
                    proof {
                        assert(views(tokens@.push(tok)) =~= views(tokens@).push(tok@));
                        assert(views(tokens@) + (seq![tok@] + lex(cs@.skip(j as int)))
                            =~= views(tokens@).push(tok@) + lex(cs@.skip(j as int)));
                    }
                    tokens.push(tok);
                },
                None => {},
            }
            i = j;
        }
    }
    assert(cs@.skip(i as int) =~= Seq::<char>::empty());
    assert(views(tokens@) + Seq::<TokenV>::empty() =~= views(tokens@));
    Ok(tokens)
}

fn parse_or(tokens: &[Token], pos: usize) -> (r: Result<(FilterNode, usize), String>)
    requires
        pos <= tokens@.len(),
    ensures
        match r {
            Ok((n, q)) => pos <= q <= tokens@.len() && (n@, q as int) == parse_or_spec(
                views(tokens@),
                pos as int,
            ),
            Err(_) => false,
        },
    decreases tokens@.len() - pos, 3int,
{
    let (left, p) = match parse_and(tokens, pos) {
        Ok(x) => x,
        Err(e) => return Err(e),
    };
    if p < tokens.len() {
        match &tokens[p] {
            Token::Or => {
                let (right, q) = match parse_and(tokens, p + 1) {
                    Ok(x) => x,
                    Err(e) => return Err(e),
                };
                return Ok((FilterNode::Or(Box::new(left), Box::new(right)), q));
            },
            _ => {},
        }
    }
    Ok((left, p))
}

fn parse_and(tokens: &[Token], pos: usize) -> (r: Result<(FilterNode, usize), String>)
    requires
        pos <= tokens@.len(),
    ensures
        match r {
            Ok((n, q)) => pos <= q <= tokens@.len() && (n@, q as int) == parse_and_spec(
                views(tokens@),
                pos as int,
            ),
            Err(_) => false,
        },
    decreases tokens@.len() - pos, 2int,
{
    let (left, p) = match parse_not(tokens, pos) {
        Ok(x) => x,
        Err(e) => return Err(e),
    };
    if p < tokens.len() {
        match &tokens[p] {
            Token::And => {
                let (right, q) = match parse_not(tokens, p + 1) {
                    Ok(x) => x,
                    Err(e) => return Err(e),
                };
                return Ok((FilterNode::And(Box::new(left), Box::new(right)), q));
            },
            _ => {},
        }
    }
    Ok((left, p))
}

fn parse_not(tokens: &[Token], pos: usize) -> (r: Result<(FilterNode, usize), String>)
    requires
        pos <= tokens@.len(),
    ensures
        match r {
            Ok((n, q)) => pos <= q <= tokens@.len() && (n@, q as int) == parse_not_spec(
                views(tokens@),
                pos as int,
            ),
            Err(_) => false,
        },
    decreases tokens@.len() - pos, 1int,
{
    if pos < tokens.len() {
        if let Token::Not = &tokens[pos] {
            let (node, q) = match parse_primary(tokens, pos + 1) {
                Ok(x) => x,
                Err(e) => return Err(e),
            };
            return Ok((FilterNode::Not(Box::new(node)), q));
        }
    }
    parse_primary(tokens, pos)
}

fn parse_primary(tokens: &[Token], pos: usize) -> (r: Result<(FilterNode, usize), String>)
    requires
        pos <= tokens@.len(),
    ensures
        match r {
            Ok((n, q)) => pos <= q <= tokens@.len() && (n@, q as int) == parse_primary_spec(
                views(tokens@),
                pos as int,
            ),
            Err(_) => false,
        },
    decreases tokens@.len() - pos, 0int,
{
    if pos >= tokens.len() {
        return Ok((FilterNode::True, pos));
    }
    match &tokens[pos] {
        Token::LParen => {
            let (node, p) = match parse_or(tokens, pos + 1) {
                Ok(x) => x,
                Err(e) => return Err(e),
            };
            if p < tokens.len() {
                if let Token::RParen = &tokens[p] {
                    return Ok((node, p + 1));
                }
            }
            Ok((node, p))
        },
        Token::Protocol(p) => Ok((FilterNode::Protocol(*p), pos + 1)),
        Token::SrcIp(ip) => Ok((FilterNode::SrcIp(ip.clone()), pos + 1)),
        Token::DstIp(ip) => Ok((FilterNode::DstIp(ip.clone()), pos + 1)),
        Token::AnyIp(ip) => Ok((FilterNode::AnyIp(ip.clone()), pos + 1)),
        Token::SrcPort(p) => Ok((FilterNode::SrcPort(*p), pos + 1)),
        Token::DstPort(p) => Ok((FilterNode::DstPort(*p), pos + 1)),
        Token::AnyPort(p) => Ok((FilterNode::AnyPort(*p), pos + 1)),
        Token::Contains(s) => Ok((FilterNode::Contains(s.clone()), pos + 1)),
        _ => Ok((FilterNode::False, pos + 1)),
    }
}

fn same_port(a: Option<u16>, p: u16) -> (b: bool)
    ensures
        b == (a == Some(p)),
{
    match a {
        Some(x) => x == p,
        None => false,
    }
}

/// Whether a packet passes a filter.
pub fn evaluate_filter(node: &FilterNode, meta: &PacketMetadata) -> (b: bool)
    ensures
        b == eval_spec(node@, *meta),
    decreases node,
{
    match node {
        FilterNode::Protocol(p) => meta.protocol == *p,
        FilterNode::SrcIp(ip) => same_text(meta.src_addr.as_str(), ip.as_str()),
        FilterNode::DstIp(ip) => same_text(meta.dst_addr.as_str(), ip.as_str()),
        FilterNode::AnyIp(ip) => same_text(meta.src_addr.as_str(), ip.as_str()) || same_text(
            meta.dst_addr.as_str(),
            ip.as_str(),
        ),
        FilterNode::SrcPort(p) => same_port(meta.src_port, *p),
        FilterNode::DstPort(p) => same_port(meta.dst_port, *p),
        FilterNode::AnyPort(p) => same_port(meta.src_port, *p) || same_port(meta.dst_port, *p),
        FilterNode::Contains(keyword) => {
            let lower = to_lowercase(meta.summary.as_str());
            let key = to_lowercase(keyword.as_str());
            contains_chars(&chars_of(lower.as_str()), &chars_of(key.as_str()))
        },
        FilterNode::And(l, r) => evaluate_filter(&**l, meta) && evaluate_filter(&**r, meta),
        FilterNode::Or(l, r) => evaluate_filter(&**l, meta) || evaluate_filter(&**r, meta),
        FilterNode::Not(n) => !evaluate_filter(&**n, meta),
        FilterNode::True => true,
        FilterNode::False => false,
    }
}

/// The packets that pass a display filter, in their order; all packets for a
/// blank expression.
pub fn filter_packets(packets: &[PacketMetadata], filter_expr: &str) -> (r: Result<
    Vec<PacketMetadata>,
    String,
>)
    requires
        no_lone_quote(filter_expr@),
    ensures
        match r {
            Ok(v) => v@ == filter_result(packets@, filter_expr@),
            Err(_) => false,
        },
{
    if is_blank(filter_expr) {
        let mut all: Vec<PacketMetadata> = Vec::new();
        let mut i: usize = 0;
        while i < packets.len()
            invariant
                i <= packets.len(),
                all@ == packets@.subrange(0, i as int),
            decreases packets.len() - i,
        {
            all.push(packets[i].clone());
            i = i + 1;
        }
        assert(all@ =~= packets@);
        return Ok(all);
    }
    let node = match parse_filter(filter_expr) {
        Ok(n) => n,
        Err(e) => return Err(e),
    };
    let mut kept: Vec<PacketMetadata> = Vec::new();
    let mut i: usize = 0;
    while i < packets.len()
        invariant
            i <= packets.len(),
            kept@ == select(packets@.subrange(0, i as int), node@),
        decreases packets.len() - i,
    {
        assert(packets@.subrange(0, i + 1).drop_last() =~= packets@.subrange(0, i as int));
        if evaluate_filter(&node, &packets[i]) {
            kept.push(packets[i].clone());
        }
        i = i + 1;
    }
    assert(packets@.subrange(0, packets@.len() as int) =~= packets@);
    Ok(kept)
}

// ---------------------------------------------------------------------------
// Laws of port and address tests

/// A port test on either port holds exactly when the source-port or the
/// destination-port test holds, and does not change when source and
/// destination are exchanged; a source test on a packet is the destination
/// test on its reply. So every packet whose destination (or source) port is
/// `p` passes `port == p` and is kept by the filter; the same holds of
/// addresses.
pub proof fn lemma_filter_either_side(m: PacketMetadata, p: u16, ip: Seq<char>, ps: Seq<PacketMetadata>, i: int)
    ensures
        eval_spec(FilterView::AnyPort(p), m) == (eval_spec(FilterView::SrcPort(p), m) || eval_spec(
            FilterView::DstPort(p),
            m,
        )),
        eval_spec(FilterView::AnyPort(p), m) == eval_spec(FilterView::AnyPort(p), crate::models::reply_of(m)),
        eval_spec(FilterView::SrcPort(p), m) == eval_spec(FilterView::DstPort(p), crate::models::reply_of(m)),
        m.dst_port == Some(p) ==> eval_spec(FilterView::AnyPort(p), m),
        m.src_port == Some(p) ==> eval_spec(FilterView::AnyPort(p), m),
        m.src_port != Some(p) && m.dst_port != Some(p) ==> !eval_spec(FilterView::AnyPort(p), m),
        eval_spec(FilterView::AnyIp(ip), m) == (eval_spec(FilterView::SrcIp(ip), m) || eval_spec(
            FilterView::DstIp(ip),
            m,
        )),
        eval_spec(FilterView::AnyIp(ip), m) == eval_spec(FilterView::AnyIp(ip), crate::models::reply_of(m)),
        0 <= i < ps.len() && ps[i].dst_port == Some(p) ==> select(ps, FilterView::AnyPort(p)).contains(ps[i]),
        0 <= i < ps.len() && ps[i].src_port == Some(p) ==> select(ps, FilterView::AnyPort(p)).contains(ps[i]),
{
    if 0 <= i < ps.len() && (ps[i].dst_port == Some(p) || ps[i].src_port == Some(p)) {
        lemma_select_keeps(ps, FilterView::AnyPort(p), i);
    }
}

/// A packet that passes the filter is kept by it.
pub proof fn lemma_select_keeps(ps: Seq<PacketMetadata>, f: FilterView, i: int)
    requires
        0 <= i < ps.len(),
        eval_spec(f, ps[i]),
    ensures
        select(ps, f).contains(ps[i]),
    decreases ps.len(),
{
    let d = ps.drop_last();
    let r = select(d, f);
    if i == ps.len() - 1 {
        assert(ps.last() == ps[i]);
        assert(r.push(ps.last())[r.len() as int] == ps[i]);
    } else {
        assert(d[i] == ps[i]);
        lemma_select_keeps(d, f, i);
        let j = choose|j: int| 0 <= j < r.len() && r[j] == ps[i];
        if eval_spec(f, ps.last()) {
            assert(r.push(ps.last())[j] == ps[i]);
        }
    }
}

// ---------------------------------------------------------------------------
// Laws of port words

proof fn lemma_not_prefix(w: Seq<char>, q: Seq<char>, i: int)
    requires
        0 <= i < q.len(),
        i < w.len(),
        w[i] != q[i],
    ensures
        !has_prefix(w, q),
{
    if q.len() <= w.len() {
        assert(w.subrange(0, q.len() as int)[i] == w[i]);
    }
}

/// `prefix` followed by the decimal text of `p`: lower-cased it stays as it
/// is, it begins with `prefix`, and what follows `prefix` reads as `p`.
proof fn lemma_port_word(prefix: Seq<char>, p: u16)
    requires
        forall|i: int|
            0 <= i < prefix.len() ==> ('a' <= #[trigger] prefix[i] <= 'z') || prefix[i] == '.' || prefix[i] == '=',
    ensures
        ({
            let w = prefix + crate::text::dec_digits(p as nat);
            &&& lower_text(w) == w
            &&& has_prefix(w, prefix)
            &&& after(w, prefix) == crate::text::dec_digits(p as nat)
            &&& parse_u16_spec(after(w, prefix)) == Some(p)
            &&& w.len() >= prefix.len() + 1
            &&& forall|i: int| 0 <= i < prefix.len() ==> #[trigger] w[i] == prefix[i]
        }),
{
    let d = crate::text::dec_digits(p as nat);
    crate::text::lemma_dec_digits(p as nat);
    let w = prefix + d;
    assert forall|i: int| 0 <= i < w.len() implies (#[trigger] w[i] as u32) < 128 by {
        if i < prefix.len() {
            assert(w[i] == prefix[i]);
        } else {
            assert(w[i] == d[i - prefix.len()]);
            assert(crate::text::is_digit(d[i - prefix.len()]));
        }
    }
    assert forall|i: int| 0 <= i < w.len() implies !('A' <= #[trigger] w[i] <= 'Z') by {
        if i < prefix.len() {
            assert(w[i] == prefix[i]);
        } else {
            assert(w[i] == d[i - prefix.len()]);
            assert(crate::text::is_digit(d[i - prefix.len()]));
        }
    }
    assert(crate::text::ascii_lowered(w) =~= w);
    assert(w.subrange(0, prefix.len() as int) =~= prefix);
    assert(w.skip(prefix.len() as int) =~= d);
}

/// Words of the filter that test ports: `tcp.port==<n>`, `udp.port==<n>`
/// and `port==<n>` test either port for `n`; `tcp.srcport==<n>` and
/// `udp.srcport==<n>` the source port; `tcp.dstport==<n>` and
/// `udp.dstport==<n>` the destination port.
pub proof fn lemma_port_words(p: u16)
    ensures
        word_token("tcp.port=="@ + crate::text::dec_digits(p as nat), lower_text("tcp.port=="@ + crate::text::dec_digits(p as nat))) == Some(TokenV::AnyPort(p)),
        word_token("udp.port=="@ + crate::text::dec_digits(p as nat), lower_text("udp.port=="@ + crate::text::dec_digits(p as nat))) == Some(TokenV::AnyPort(p)),
        word_token("port=="@ + crate::text::dec_digits(p as nat), lower_text("port=="@ + crate::text::dec_digits(p as nat))) == Some(TokenV::AnyPort(p)),
        word_token("tcp.srcport=="@ + crate::text::dec_digits(p as nat), lower_text("tcp.srcport=="@ + crate::text::dec_digits(p as nat))) == Some(TokenV::SrcPort(p)),
        word_token("tcp.dstport=="@ + crate::text::dec_digits(p as nat), lower_text("tcp.dstport=="@ + crate::text::dec_digits(p as nat))) == Some(TokenV::DstPort(p)),
        word_token("udp.srcport=="@ + crate::text::dec_digits(p as nat), lower_text("udp.srcport=="@ + crate::text::dec_digits(p as nat))) == Some(TokenV::SrcPort(p)),
        word_token("udp.dstport=="@ + crate::text::dec_digits(p as nat), lower_text("udp.dstport=="@ + crate::text::dec_digits(p as nat))) == Some(TokenV::DstPort(p)),
{
    lemma_word_tcp_port(p);
    lemma_word_tcp_srcport(p);
    lemma_word_tcp_dstport(p);
    lemma_word_udp_port(p);
    lemma_word_udp_srcport(p);
    lemma_word_udp_dstport(p);
    lemma_port_word_bare(p);
}

proof fn lemma_keyword_lengths()
    ensures
        "and"@.len() == 3, "&&"@.len() == 2, "or"@.len() == 2, "||"@.len() == 2, "not"@.len() == 3,
        "!"@.len() == 1, "http"@.len() == 4, "dns"@.len() == 3, "tcp"@.len() == 3, "udp"@.len() == 3,
        "tls"@.len() == 3, "ssl"@.len() == 3, "arp"@.len() == 3, "icmp"@.len() == 4,
        "ip.src=="@ =~= seq!['i', 'p', '.', 's', 'r', 'c', '=', '='],
        "ip.dst=="@ =~= seq!['i', 'p', '.', 'd', 's', 't', '=', '='],
        "ip.addr=="@ =~= seq!['i', 'p', '.', 'a', 'd', 'd', 'r', '=', '='],
        "ip.src="@ =~= seq!['i', 'p', '.', 's', 'r', 'c', '='],
        "ip.dst="@ =~= seq!['i', 'p', '.', 'd', 's', 't', '='],
        "tcp.port=="@ =~= seq!['t', 'c', 'p', '.', 'p', 'o', 'r', 't', '=', '='],
        "tcp.srcport=="@ =~= seq!['t', 'c', 'p', '.', 's', 'r', 'c', 'p', 'o', 'r', 't', '=', '='],
        "tcp.dstport=="@ =~= seq!['t', 'c', 'p', '.', 'd', 's', 't', 'p', 'o', 'r', 't', '=', '='],
        "udp.port=="@ =~= seq!['u', 'd', 'p', '.', 'p', 'o', 'r', 't', '=', '='],
        "udp.srcport=="@ =~= seq!['u', 'd', 'p', '.', 's', 'r', 'c', 'p', 'o', 'r', 't', '=', '='],
        "udp.dstport=="@ =~= seq!['u', 'd', 'p', '.', 'd', 's', 't', 'p', 'o', 'r', 't', '=', '='],
        "port=="@ =~= seq!['p', 'o', 'r', 't', '=', '='],
{
    reveal_strlit("and");
    reveal_strlit("&&");
    reveal_strlit("or");
    reveal_strlit("||");
    reveal_strlit("not");
    reveal_strlit("!");
    reveal_strlit("http");
    reveal_strlit("dns");
    reveal_strlit("tcp");
    reveal_strlit("udp");
    reveal_strlit("tls");
    reveal_strlit("ssl");
    reveal_strlit("arp");
    reveal_strlit("icmp");
    reveal_strlit("ip.src==");
    reveal_strlit("ip.dst==");
    reveal_strlit("ip.addr==");
    reveal_strlit("ip.src=");
    reveal_strlit("ip.dst=");
    reveal_strlit("tcp.port==");
    reveal_strlit("tcp.srcport==");
    reveal_strlit("tcp.dstport==");
    reveal_strlit("udp.port==");
    reveal_strlit("udp.srcport==");
    reveal_strlit("udp.dstport==");
    reveal_strlit("port==");
}

proof fn lemma_word_tcp_port(p: u16)
    ensures
        word_token("tcp.port=="@ + crate::text::dec_digits(p as nat), lower_text("tcp.port=="@ + crate::text::dec_digits(p as nat))) == Some(TokenV::AnyPort(p)),
{
    lemma_keyword_lengths();
    let a = "tcp.port=="@;
    lemma_port_word(a, p);
    let w = a + crate::text::dec_digits(p as nat);
    lemma_not_prefix(w, "ip.src=="@, 0);
    lemma_not_prefix(w, "ip.dst=="@, 0);
    lemma_not_prefix(w, "ip.addr=="@, 0);
    lemma_not_prefix(w, "ip.src="@, 0);
    lemma_not_prefix(w, "ip.dst="@, 0);
}

proof fn lemma_word_tcp_srcport(p: u16)
    ensures
        word_token("tcp.srcport=="@ + crate::text::dec_digits(p as nat), lower_text("tcp.srcport=="@ + crate::text::dec_digits(p as nat))) == Some(TokenV::SrcPort(p)),
{
    lemma_keyword_lengths();
    let a = "tcp.srcport=="@;
    lemma_port_word(a, p);
    let w = a + crate::text::dec_digits(p as nat);
    lemma_not_prefix(w, "ip.src=="@, 0);
    lemma_not_prefix(w, "ip.dst=="@, 0);
    lemma_not_prefix(w, "ip.addr=="@, 0);
    lemma_not_prefix(w, "ip.src="@, 0);
    lemma_not_prefix(w, "ip.dst="@, 0);
    lemma_not_prefix(w, "tcp.port=="@, 4);
}

proof fn lemma_word_tcp_dstport(p: u16)
    ensures
        word_token("tcp.dstport=="@ + crate::text::dec_digits(p as nat), lower_text("tcp.dstport=="@ + crate::text::dec_digits(p as nat))) == Some(TokenV::DstPort(p)),
{
    lemma_keyword_lengths();
    let a = "tcp.dstport=="@;
    lemma_port_word(a, p);
    let w = a + crate::text::dec_digits(p as nat);
    lemma_not_prefix(w, "ip.src=="@, 0);
    lemma_not_prefix(w, "ip.dst=="@, 0);
    lemma_not_prefix(w, "ip.addr=="@, 0);
    lemma_not_prefix(w, "ip.src="@, 0);
    lemma_not_prefix(w, "ip.dst="@, 0);
    lemma_not_prefix(w, "tcp.port=="@, 4);
    lemma_not_prefix(w, "tcp.srcport=="@, 4);
}

proof fn lemma_word_udp_port(p: u16)
    ensures
        word_token("udp.port=="@ + crate::text::dec_digits(p as nat), lower_text("udp.port=="@ + crate::text::dec_digits(p as nat))) == Some(TokenV::AnyPort(p)),
{
    lemma_keyword_lengths();
    let a = "udp.port=="@;
    lemma_port_word(a, p);
    let w = a + crate::text::dec_digits(p as nat);
    lemma_not_prefix(w, "ip.src=="@, 0);
    lemma_not_prefix(w, "ip.dst=="@, 0);
    lemma_not_prefix(w, "ip.addr=="@, 0);
    lemma_not_prefix(w, "ip.src="@, 0);
    lemma_not_prefix(w, "ip.dst="@, 0);
    lemma_not_prefix(w, "tcp.port=="@, 0);
    lemma_not_prefix(w, "tcp.srcport=="@, 0);
    lemma_not_prefix(w, "tcp.dstport=="@, 0);
}

proof fn lemma_word_udp_srcport(p: u16)
    ensures
        word_token("udp.srcport=="@ + crate::text::dec_digits(p as nat), lower_text("udp.srcport=="@ + crate::text::dec_digits(p as nat))) == Some(TokenV::SrcPort(p)),
{
    lemma_keyword_lengths();
    let a = "udp.srcport=="@;
    lemma_port_word(a, p);
    let w = a + crate::text::dec_digits(p as nat);
    lemma_not_prefix(w, "ip.src=="@, 0);
    lemma_not_prefix(w, "ip.dst=="@, 0);
    lemma_not_prefix(w, "ip.addr=="@, 0);
    lemma_not_prefix(w, "ip.src="@, 0);
    lemma_not_prefix(w, "ip.dst="@, 0);
    lemma_not_prefix(w, "tcp.port=="@, 0);
    lemma_not_prefix(w, "tcp.srcport=="@, 0);
    lemma_not_prefix(w, "tcp.dstport=="@, 0);
    lemma_not_prefix(w, "udp.port=="@, 4);
}

proof fn lemma_word_udp_dstport(p: u16)
    ensures
        word_token("udp.dstport=="@ + crate::text::dec_digits(p as nat), lower_text("udp.dstport=="@ + crate::text::dec_digits(p as nat))) == Some(TokenV::DstPort(p)),
{
    lemma_keyword_lengths();
    let a = "udp.dstport=="@;
    lemma_port_word(a, p);
    let w = a + crate::text::dec_digits(p as nat);
    lemma_not_prefix(w, "ip.src=="@, 0);
    lemma_not_prefix(w, "ip.dst=="@, 0);
    lemma_not_prefix(w, "ip.addr=="@, 0);
    lemma_not_prefix(w, "ip.src="@, 0);
    lemma_not_prefix(w, "ip.dst="@, 0);
    lemma_not_prefix(w, "tcp.port=="@, 0);
    lemma_not_prefix(w, "tcp.srcport=="@, 0);
    lemma_not_prefix(w, "tcp.dstport=="@, 0);
    lemma_not_prefix(w, "udp.port=="@, 4);
    lemma_not_prefix(w, "udp.srcport=="@, 4);
}

proof fn lemma_port_word_bare(p: u16)
    ensures
        word_token("port=="@ + crate::text::dec_digits(p as nat), lower_text("port=="@ + crate::text::dec_digits(p as nat))) == Some(TokenV::AnyPort(p)),
{
    lemma_keyword_lengths();
    let a = "port=="@;
    lemma_port_word(a, p);
    let d = crate::text::dec_digits(p as nat);
    let w = a + d;
    lemma_not_prefix(w, "ip.src=="@, 0);
    lemma_not_prefix(w, "ip.dst=="@, 0);
    lemma_not_prefix(w, "ip.addr=="@, 0);
    lemma_not_prefix(w, "ip.src="@, 0);
    lemma_not_prefix(w, "ip.dst="@, 0);
    lemma_not_prefix(w, "tcp.port=="@, 0);
    lemma_not_prefix(w, "tcp.srcport=="@, 0);
    lemma_not_prefix(w, "tcp.dstport=="@, 0);
    lemma_not_prefix(w, "udp.port=="@, 0);
    lemma_not_prefix(w, "udp.srcport=="@, 0);
    lemma_not_prefix(w, "udp.dstport=="@, 0);
}

/// `prefix` followed by an ASCII text `x`: its lower-case form is as long as
/// it, it begins with `prefix`, and what follows `prefix` is `x`.
proof fn lemma_addr_word(prefix: Seq<char>, x: Seq<char>)
    requires
        forall|i: int| 0 <= i < prefix.len() ==> (#[trigger] prefix[i] as u32) < 128,
        crate::text::all_ascii(x),
    ensures
        ({
            let w = prefix + x;
            &&& lower_text(w).len() == w.len()
            &&& has_prefix(w, prefix)
            &&& after(w, prefix) == x
            &&& forall|i: int| 0 <= i < prefix.len() ==> #[trigger] w[i] == prefix[i]
        }),
{
    let w = prefix + x;
    assert forall|i: int| 0 <= i < w.len() implies (#[trigger] w[i] as u32) < 128 by {
        if i < prefix.len() {
            assert(w[i] == prefix[i]);
        } else {
            assert(w[i] == x[i - prefix.len()]);
        }
    }
    assert(w.subrange(0, prefix.len() as int) =~= prefix);
    assert(w.skip(prefix.len() as int) =~= x);
}

proof fn lemma_word_ip_src(x: Seq<char>)
    requires
        crate::text::all_ascii(x),
    ensures
        word_token("ip.src=="@ + x, lower_text("ip.src=="@ + x)) == Some(TokenV::SrcIp(x)),
{
    lemma_keyword_lengths();
    lemma_addr_word("ip.src=="@, x);
}

proof fn lemma_word_ip_dst(x: Seq<char>)
    requires
        crate::text::all_ascii(x),
    ensures
        word_token("ip.dst=="@ + x, lower_text("ip.dst=="@ + x)) == Some(TokenV::DstIp(x)),
{
    lemma_keyword_lengths();
    lemma_addr_word("ip.dst=="@, x);
    lemma_not_prefix("ip.dst=="@ + x, "ip.src=="@, 3);
}

proof fn lemma_word_ip_addr(x: Seq<char>)
    requires
        crate::text::all_ascii(x),
    ensures
        word_token("ip.addr=="@ + x, lower_text("ip.addr=="@ + x)) == Some(TokenV::AnyIp(x)),
{
    lemma_keyword_lengths();
    lemma_addr_word("ip.addr=="@, x);
    lemma_not_prefix("ip.addr=="@ + x, "ip.src=="@, 3);
    lemma_not_prefix("ip.addr=="@ + x, "ip.dst=="@, 3);
}

/// Words of the filter that test addresses: `ip.src==<a>` tests the source
/// address, `ip.dst==<a>` the destination and `ip.addr==<a>` either, for an
/// ASCII address text `a`.
pub proof fn lemma_address_words(x: Seq<char>)
    requires
        crate::text::all_ascii(x),
    ensures
        word_token("ip.src=="@ + x, lower_text("ip.src=="@ + x)) == Some(TokenV::SrcIp(x)),
        word_token("ip.dst=="@ + x, lower_text("ip.dst=="@ + x)) == Some(TokenV::DstIp(x)),
        word_token("ip.addr=="@ + x, lower_text("ip.addr=="@ + x)) == Some(TokenV::AnyIp(x)),
{
    lemma_word_ip_src(x);
    lemma_word_ip_dst(x);
    lemma_word_ip_addr(x);
}
} // verus!
