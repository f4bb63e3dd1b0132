//! TLS session secrets read from an SSLKEYLOGFILE-style key log.
use vstd::prelude::*;
use crate::text::{
    chars_equal, is_whitespace, is_ws, lead_ws, string_of, copy_range, trim_chars, trimmed,
};

verus! {

// ---------------------------------------------------------------------------
// Hexadecimal secrets

pub open spec fn hex_digit_value(c: char) -> Option<u8> {
    if '0' <= c <= '9' {
        Some((c as u32 - '0' as u32) as u8)
    } else if 'a' <= c <= 'f' {
        Some((c as u32 - 'a' as u32 + 10) as u8)
    } else if 'A' <= c <= 'F' {
        Some((c as u32 - 'A' as u32 + 10) as u8)
    } else {
        None
    }
}

/// An even number of hexadecimal digits, either case.
pub open spec fn valid_hex(s: Seq<char>) -> bool {
    s.len() % 2 == 0 && forall|i: int| 0 <= i < s.len() ==> (#[trigger] hex_digit_value(s[i])) is Some
}

/// The bytes that pairs of hexadecimal digits stand for, high digit first.
pub open spec fn hex_bytes(s: Seq<char>) -> Seq<u8> {
    Seq::new(
        s.len() / 2,
        |i: int|
            ((hex_digit_value(s[2 * i]).unwrap() as int) * 16 + (hex_digit_value(
                s[2 * i + 1],
            ).unwrap() as int)) as u8,
    )
}

/// The message `hex::decode` gives for text that is not valid hexadecimal.
pub uninterp spec fn hex_error_message(s: Seq<char>) -> Seq<char>;

pub open spec fn is_ascii_text(s: Seq<char>) -> bool {
    forall|i: int| 0 <= i < s.len() ==> (#[trigger] s[i]) <= '\u{7f}' 
}

/// Calls `hex::decode` and renders its error with `to_string`. It succeeds
/// exactly on an even number of hexadecimal digits, with the bytes they
/// stand for; for ASCII text of odd length the message is the one for an odd
/// number of digits. The message for an invalid character (it quotes the
/// character as `{:?}` prints it, with its byte position) is only named.
#[verifier::external_body]
fn hex_decode(s: &str) -> (r: Result<Vec<u8>, String>)
    ensures
        match r {
            Ok(v) => valid_hex(s@) && v@ == hex_bytes(s@),
            Err(e) => !valid_hex(s@) && e@ == hex_error_message(s@) && (is_ascii_text(s@)
                && s@.len() % 2 == 1 ==> e@ == "Odd number of digits"@),
        },
{
    hex::decode(s).map_err(|e| e.to_string())
}

// ---------------------------------------------------------------------------
// Lines and words

/// Length of the line at the front of `s`, up to a newline or the end.
pub open spec fn line_len(s: Seq<char>) -> nat
    decreases s.len(),
{
    if s.len() == 0 || s[0] == '\n' {
        0
    } else {
        1 + line_len(s.drop_first())
    }
}

/// The lines of a text, without their newlines; a final newline starts no line.
pub open spec fn split_lines(s: Seq<char>) -> Seq<Seq<char>>
    decreases s.len(),
{
    if s.len() == 0 {
        Seq::empty()
    } else {
        let k = line_len(s);
        proof {
            lemma_line_len(s);
        }
        if k < s.len() {
            seq![s.take(k as int)] + split_lines(s.skip(k as int + 1))
        } else {
            seq![s]
        }
    }
}

pub proof fn lemma_line_len(s: Seq<char>)
    ensures
        line_len(s) <= s.len(),
        line_len(s) < s.len() ==> s[line_len(s) as int] == '\n',
        forall|i: int| 0 <= i < line_len(s) ==> #[trigger] s[i] != '\n',
    decreases s.len(),
{
    if s.len() > 0 && s[0] != '\n' {
        lemma_line_len(s.drop_first());
        assert forall|i: int| 0 <= i < line_len(s) implies #[trigger] s[i] != '\n' by {
            if i > 0 {
                assert(s[i] == s.drop_first()[i - 1]);
            }
        }
    }
}

/// Length of the run of non-whitespace at the front of `s`.
pub open spec fn word_len(s: Seq<char>) -> nat
    decreases s.len(),
{
    if s.len() == 0 || is_ws(s[0]) {
        0
    } else {
        1 + word_len(s.drop_first())
    }
}

pub proof fn lemma_word_len(s: Seq<char>)
    ensures
        word_len(s) <= s.len(),
        s.len() > 0 && !is_ws(s[0]) ==> word_len(s) > 0,
    decreases s.len(),
{
    if s.len() > 0 && !is_ws(s[0]) {
        lemma_word_len(s.drop_first());
    }
}

pub proof fn lemma_lead_ws_bound(s: Seq<char>)
    ensures
        lead_ws(s) <= s.len(),
        lead_ws(s) < s.len() ==> !is_ws(s[lead_ws(s) as int]),
    decreases s.len(),
{
    if s.len() > 0 && is_ws(s[0]) {
        lemma_lead_ws_bound(s.drop_first());
    }
}

/// The whitespace-separated words of `s` (`str::split_whitespace`).
pub open spec fn words(s: Seq<char>) -> Seq<Seq<char>>
    decreases s.len(),
{
    let a = lead_ws(s);
    proof {
        lemma_lead_ws_bound(s);
    }
    let t = s.skip(a as int);
    if t.len() == 0 {
        Seq::empty()
    } else {
        let k = word_len(t);
        proof {
            lemma_word_len(t);
        }
        seq![t.take(k as int)] + words(t.skip(k as int))
    }
}

/// The (client random, secret) pair of a key-log line, for a line that is
/// neither blank nor a `#` comment and whose first word is `CLIENT_RANDOM` or
/// `RSA`, followed by at least two more words.
pub open spec fn key_line(line: Seq<char>) -> Option<(Seq<char>, Seq<char>)> {
    let t = trimmed(line);
    if t.len() == 0 || t[0] == '#' {
        None
    } else {
        let parts = words(t);
        if parts.len() >= 3 && (parts[0] == "CLIENT_RANDOM"@ || parts[0] == "RSA"@) {
            Some((parts[1], parts[2]))
        } else {
            None
        }
    }
}

/// Keys with `v` stored under `k`, replacing a key already stored under it.
pub open spec fn put_key(m: Seq<(Seq<char>, Seq<u8>)>, k: Seq<char>, v: Seq<u8>) -> Seq<(Seq<char>, Seq<u8>)>
    decreases m.len(),
{
    if m.len() == 0 {
        seq![(k, v)]
    } else if m[0].0 == k {
        seq![(k, v)] + m.drop_first()
    } else {
        seq![m[0]] + put_key(m.drop_first(), k, v)
    }
}

/// The key stored under `k`.
pub open spec fn find_key(m: Seq<(Seq<char>, Seq<u8>)>, k: Seq<char>) -> Option<Seq<u8>>
    decreases m.len(),
{
    if m.len() == 0 {
        None
    } else if m[0].0 == k {
        Some(m[0].1)
    } else {
        find_key(m.drop_first(), k)
    }
}

/// The keys after reading lines in order, and the error that stopped the
/// reading, if one did: a secret that is not valid hexadecimal.
pub open spec fn load_lines(m: Seq<(Seq<char>, Seq<u8>)>, lines: Seq<Seq<char>>) -> (Seq<(Seq<char>, Seq<u8>)>, Option<Seq<char>>)
    decreases lines.len(),
{
    if lines.len() == 0 {
        (m, None)
    } else {
        match key_line(lines[0]) {
            None => load_lines(m, lines.drop_first()),
            Some((cr, secret)) => if valid_hex(secret) {
                load_lines(put_key(m, cr, hex_bytes(secret)), lines.drop_first())
            } else {
                (m, Some("Invalid hex in key log: "@ + hex_error_message(secret)))
            },
        }
    }
}

pub open spec fn keys_view(k: Seq<(String, Vec<u8>)>) -> Seq<(Seq<char>, Seq<u8>)> {
    k.map_values(|e: (String, Vec<u8>)| (e.0@, e.1@))
}

proof fn lemma_put_key_at(m: Seq<(Seq<char>, Seq<u8>)>, i: int, k: Seq<char>, v: Seq<u8>)
    requires
        0 <= i <= m.len(),
        forall|j: int| 0 <= j < i ==> (#[trigger] m[j]).0 != k,
    ensures
        put_key(m, k, v) == m.take(i) + put_key(m.skip(i), k, v),
        find_key(m, k) == find_key(m.skip(i), k),
    decreases i,
{
    if i == 0 {
        assert(m.skip(0) =~= m);
        assert(m.take(0) + put_key(m, k, v) =~= put_key(m, k, v));
    } else {
        let d = m.drop_first();
        assert forall|j: int| 0 <= j < i - 1 implies (#[trigger] d[j]).0 != k by {
            assert(d[j] == m[j + 1]);
        }
        lemma_put_key_at(d, i - 1, k, v);
        assert(d.skip(i - 1) =~= m.skip(i));
        assert(m.take(i) =~= seq![m[0]] + d.take(i - 1));
        assert(seq![m[0]] + (d.take(i - 1) + put_key(m.skip(i), k, v)) =~= m.take(i) + put_key(
            m.skip(i),
            k,
            v,
        ));
    }
}

/// TLS secrets by client random.
pub struct TlsDecryptor {
    pub keys: Vec<(String, Vec<u8>)>,
    pub loaded: bool,
}

impl TlsDecryptor {
    pub fn new() -> (r: Self)
        ensures
            r.keys@.len() == 0,
            !r.loaded,
    {
        TlsDecryptor { keys: Vec::new(), loaded: false }
    }

    fn store(&mut self, client_random: &[char], secret: Vec<u8>)
        ensures
            keys_view(final(self).keys@) == put_key(keys_view(old(self).keys@), client_random@, secret@),
            final(self).loaded == old(self).loaded,
    {
        let ghost m = keys_view(self.keys@);
        let mut i: usize = 0;
        while i < self.keys.len()
            invariant
                i <= self.keys@.len(),
                m == keys_view(self.keys@),
                forall|j: int| 0 <= j < i ==> (#[trigger] m[j]).0 != client_random@,
            ensures
                i <= self.keys@.len(),
                m == keys_view(self.keys@),
                forall|j: int| 0 <= j < i ==> (#[trigger] m[j]).0 != client_random@,
                i < self.keys@.len() ==> m[i as int].0 == client_random@,
            decreases self.keys.len() - i,
        {
            if chars_equal(client_random, self.keys[i].0.as_str()) {
                break;
            }
            i = i + 1;
        }
        proof {
            lemma_put_key_at(m, i as int, client_random@, secret@);
        }
        let name = string_of(client_random);
        let ghost sv = secret@;
        if i < self.keys.len() {
            self.keys.set(i, (name, secret));
            assert(m.skip(i as int).drop_first() =~= m.skip(i + 1));
            assert(keys_view(self.keys@) =~= m.take(i as int) + put_key(m.skip(i as int), client_random@, sv));
        } else {
            self.keys.push((name, secret));
            assert(m.skip(i as int) =~= Seq::<(Seq<char>, Seq<u8>)>::empty());
            assert(keys_view(self.keys@) =~= m.take(i as int) + put_key(m.skip(i as int), client_random@, sv));
        }
    }

    /// Reads the secrets of a key log's text: each `CLIENT_RANDOM` or `RSA`
    /// line stores its secret under its client random, later lines winning.
    /// A secret that is not valid hexadecimal stops the reading with an error,
    /// keeping the secrets stored before it; otherwise the log counts as loaded.
    pub fn load_sslkeylog(&mut self, content: &str) -> (r: Result<(), String>)
        ensures
            ({
                let (keys, err) = load_lines(keys_view(old(self).keys@), split_lines(content@));
                &&& keys_view(final(self).keys@) == keys
                &&& match r {
                    Ok(()) => err is None && final(self).loaded,
                    Err(e) => err == Some(e@) && final(self).loaded == old(self).loaded,
                }
            }),
    {
        let cs = crate::text::chars_of(content);
        let n = cs.len();
        let mut i: usize = 0;
        assert(cs@.skip(0) =~= cs@);
        while i < n
            invariant
                cs@ == content@,
                n == cs@.len(),
                i <= n,
                self.loaded == old(self).loaded,
                load_lines(keys_view(old(self).keys@), split_lines(content@)) == load_lines(
                    keys_view(self.keys@),
                    split_lines(cs@.skip(i as int)),
                ),
            decreases n - i,
        {
            let ghost s = cs@.skip(i as int);
            let mut j: usize = i;
            while j < n && cs[j] != '\n'
                invariant
                    i <= j <= n,
                    n == cs@.len(),
                    forall|m: int| i <= m < j ==> #[trigger] cs@[m] != '\n',
                decreases n - j,
            {
                j = j + 1;
            }
            proof {
                lemma_line_len_exact(s, (j - i) as nat);
                assert(s.take((j - i) as int) =~= cs@.subrange(i as int, j as int));
                if j < n {
                    assert(s.skip(j - i + 1) =~= cs@.skip(j + 1));
                } else {
                    assert(s =~= cs@.subrange(i as int, j as int));
                    assert(cs@.skip(j as int) =~= Seq::<char>::empty());
                }
            }
            let line = copy_range(&cs, i, j);
            let ghost rest_lines = if j < n {
                split_lines(cs@.skip(j + 1))
            } else {
                Seq::<Seq<char>>::empty()
            };
            assert(split_lines(s) =~= seq![line@] + rest_lines);
            assert((seq![line@] + rest_lines).drop_first() =~= rest_lines);
            match key_of_line(&line) {
                None => {},
                Some((client_random, secret)) => {
                    let secret_text = string_of(&secret);
                    match hex_decode(secret_text.as_str()) {
                        Ok(bytes) => {
                            self.store(&client_random, bytes);
                        },
                        Err(e) => {
                            let mut msg = String::from_str("Invalid hex in key log: ");
                            msg.append(e.as_str());
                            return Err(msg);
                        },
                    }
                },
            }
            i = if j < n {
                j + 1
            } else {
                j
            };
        }
        assert(cs@.skip(i as int) =~= Seq::<char>::empty());
        self.loaded = true;
        Ok(())
    }

    pub fn is_loaded(&self) -> (b: bool)
        ensures
            b == self.loaded,
    {
        self.loaded
    }

    /// The secret stored under a client random.
    pub fn get_key(&self, client_random: &str) -> (r: Option<&Vec<u8>>)
        ensures
            match r {
                Some(v) => find_key(keys_view(self.keys@), client_random@) == Some(v@),
                None => find_key(keys_view(self.keys@), client_random@) is None,
            },
    {
        let ghost m = keys_view(self.keys@);
        let mut i: usize = 0;
        while i < self.keys.len()
            invariant
                i <= self.keys@.len(),
                m == keys_view(self.keys@),
                forall|j: int| 0 <= j < i ==> (#[trigger] m[j]).0 != client_random@,
            decreases self.keys.len() - i,
        {
            if crate::text::same_text(self.keys[i].0.as_str(), client_random) {
                proof {
                    lemma_put_key_at(m, i as int, client_random@, Seq::empty());
                    assert(m.skip(i as int)[0] == m[i as int]);
                }
                return Some(&self.keys[i].1);
            }
            i = i + 1;
        }
        proof {
            lemma_put_key_at(m, i as int, client_random@, Seq::empty());
            assert(m.skip(i as int) =~= Seq::<(Seq<char>, Seq<u8>)>::empty());
        }
        None
    }

    /// How many secrets are stored.
    pub fn key_count(&self) -> (r: usize)
        ensures
            r == self.keys@.len(),
    {
        self.keys.len()
    }
}

proof fn lemma_line_len_exact(s: Seq<char>, k: nat)
    requires
        k <= s.len(),
        forall|m: int| 0 <= m < k ==> #[trigger] s[m] != '\n',
        k == s.len() || s[k as int] == '\n',
    ensures
        line_len(s) == k,
    decreases k,
{
    if k > 0 {
        let d = s.drop_first();
        assert forall|m: int| 0 <= m < k - 1 implies #[trigger] d[m] != '\n' by {
            assert(d[m] == s[m + 1]);
        }
        if k < s.len() {
            assert(d[k - 1] == s[k as int]);
        }
        lemma_line_len_exact(d, (k - 1) as nat);
    }
}

proof fn lemma_word_len_exact(s: Seq<char>, k: nat)
    requires
        k <= s.len(),
        forall|m: int| 0 <= m < k ==> !is_ws(#[trigger] s[m]),
        k == s.len() || is_ws(s[k as int]),
    ensures
        word_len(s) == k,
    decreases k,
{
    if k > 0 {
        let d = s.drop_first();
        assert forall|m: int| 0 <= m < k - 1 implies !is_ws(#[trigger] d[m]) by {
            assert(d[m] == s[m + 1]);
        }
        if k < s.len() {
            assert(d[k - 1] == s[k as int]);
        }
        lemma_word_len_exact(d, (k - 1) as nat);
    }
}

proof fn lemma_lead_ws_exact(s: Seq<char>, k: nat)
    requires
        k <= s.len(),
        forall|m: int| 0 <= m < k ==> is_ws(#[trigger] s[m]),
        k == s.len() || !is_ws(s[k as int]),
    ensures
        lead_ws(s) == k,
    decreases k,
{
    if k > 0 {
        let d = s.drop_first();
        assert forall|m: int| 0 <= m < k - 1 implies is_ws(#[trigger] d[m]) by {
            assert(d[m] == s[m + 1]);
        }
        if k < s.len() {
            assert(d[k - 1] == s[k as int]);
        }
        lemma_lead_ws_exact(d, (k - 1) as nat);
    }
}

/// The whitespace-separated words of `s`.
fn split_words(s: &[char]) -> (r: Vec<Vec<char>>)
    ensures
        r@.map_values(|w: Vec<char>| w@) == words(s@),
{
    let mut out: Vec<Vec<char>> = Vec::new();
    let mut i: usize = 0;
    assert(s@.skip(0) =~= s@);
    while i < s.len()
        invariant
            i <= s@.len(),
            words(s@) == out@.map_values(|w: Vec<char>| w@) + words(s@.skip(i as int)),
        ensures
            i == s@.len(),
            words(s@) == out@.map_values(|w: Vec<char>| w@) + words(s@.skip(i as int)),
        decreases s.len() - i,
    {
        let ghost t0 = s@.skip(i as int);
        let mut a: usize = i;
        while a < s.len() && is_whitespace(s[a])
            invariant
                i <= a <= s@.len(),
                forall|m: int| i <= m < a ==> is_ws(#[trigger] s@[m]),
            decreases s.len() - a,
        {
            a = a + 1;
        }
        proof {
            assert forall|m: int| 0 <= m < a - i implies is_ws(#[trigger] t0[m]) by {
                assert(t0[m] == s@[i + m]);
            }
            if a < s.len() {
                assert(t0[a - i] == s@[a as int]);
            }
            lemma_lead_ws_exact(t0, (a - i) as nat);
            assert(t0.skip((a - i) as int) =~= s@.skip(a as int));
        }
        if a == s.len() {
            assert(s@.skip(a as int) =~= Seq::<char>::empty());
            assert(out@.map_values(|w: Vec<char>| w@) + Seq::<Seq<char>>::empty() =~= out@.map_values(|w: Vec<char>| w@));
            i = a;
            break;
        }
        let mut b: usize = a;
        while b < s.len() && !is_whitespace(s[b])
            invariant
                a <= b <= s@.len(),
                forall|m: int| a <= m < b ==> !is_ws(#[trigger] s@[m]),
            decreases s.len() - b,
        {
            b = b + 1;
        }
        let ghost t = s@.skip(a as int);
        proof {
            assert forall|m: int| 0 <= m < b - a implies !is_ws(#[trigger] t[m]) by {
                assert(t[m] == s@[a + m]);
            }
            if b < s.len() {
                assert(t[b - a] == s@[b as int]);
            }
            lemma_word_len_exact(t, (b - a) as nat);
            assert(t.skip((b - a) as int) =~= s@.skip(b as int));
            assert(t.take((b - a) as int) =~= s@.subrange(a as int, b as int));
        }
        let w = copy_range(s, a, b);
        let ghost before = out@.map_values(|w: Vec<char>| w@);
        out.push(w);
        proof {
            assert(out@.map_values(|w: Vec<char>| w@) =~= before.push(w@));
            assert(before + (seq![w@] + words(s@.skip(b as int))) =~= before.push(w@) + words(s@.skip(b as int)));
        }
        i = b;
    }
    assert(s@.skip(i as int) =~= Seq::<char>::empty());
    assert(out@.map_values(|w: Vec<char>| w@) + words(Seq::<char>::empty()) =~= out@.map_values(|w: Vec<char>| w@));
    out
}

/// The (client random, secret) pair of a key-log line, if it has one.
fn key_of_line(line: &[char]) -> (r: Option<(Vec<char>, Vec<char>)>)
    ensures
        match r {
            Some((c, s)) => key_line(line@) == Some((c@, s@)),
            None => key_line(line@) is None,
        },
{
    let t = trim_chars(line);
    if t.len() == 0 || t[0] == '#' {
        return None;
    }
    let parts = split_words(&t);
    proof {
        assert(parts@.map_values(|w: Vec<char>| w@).len() == parts@.len());
    }
    if parts.len() >= 3 {
        proof {
            assert(parts@.map_values(|w: Vec<char>| w@)[0] == parts@[0]@);
            assert(parts@.map_values(|w: Vec<char>| w@)[1] == parts@[1]@);
            assert(parts@.map_values(|w: Vec<char>| w@)[2] == parts@[2]@);
        }
        if chars_equal(&parts[0], "CLIENT_RANDOM") || chars_equal(&parts[0], "RSA") {
            let c = copy_range(&parts[1], 0, parts[1].len());
            let s = copy_range(&parts[2], 0, parts[2].len());
            assert(c@ =~= parts@[1]@);
            assert(s@ =~= parts@[2]@);
            return Some((c, s));
        }
    }
    None
}

} // verus!
