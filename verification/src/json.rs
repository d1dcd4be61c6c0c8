//! JSON primitives for the registry snapshot: string escaping and
//! unescaping, unsigned decimal numbers, and fixed literals, each with an
//! emitter, a parser, and the proof that parsing what was emitted gives
//! back exactly what went in.

use vstd::prelude::*;

use crate::text::{
    dec_digits, digit_char, digits_end, digits_val, is_digit_char, digit_char_exec,
    digits_end_exec, is_digit_char_exec, push_char, lemma_dec_digits_facts,
    lemma_digits_val_nonneg,
};

verus! {

// ---------------------------------------------------------------------------
// Hex digits
// ---------------------------------------------------------------------------

pub open spec fn hex_digit_char(n: int) -> char
    recommends
        0 <= n <= 15,
{
    if n < 10 {
        digit_char(n)
    } else if n == 10 {
        'a'
    } else if n == 11 {
        'b'
    } else if n == 12 {
        'c'
    } else if n == 13 {
        'd'
    } else if n == 14 {
        'e'
    } else {
        'f'
    }
}

/// Value of a hex digit, either case, or nothing.
pub open spec fn hex_val(c: char) -> Option<int> {
    if is_digit_char(c) {
        Some(c as u32 - '0' as u32)
    } else if 'a' as u32 <= c as u32 && c as u32 <= 'f' as u32 {
        Some(c as u32 - 'a' as u32 + 10)
    } else if 'A' as u32 <= c as u32 && c as u32 <= 'F' as u32 {
        Some(c as u32 - 'A' as u32 + 10)
    } else {
        None
    }
}

proof fn lemma_hex_round_trip(n: int)
    requires
        0 <= n <= 15,
    ensures
        hex_val(hex_digit_char(n)) == Some(n),
{
}

fn hex_digit_char_exec(n: u32) -> (r: char)
    requires
        n <= 15,
    ensures
        r == hex_digit_char(n as int),
{
    if n < 10 {
        digit_char_exec(n)
    } else if n == 10 {
        'a'
    } else if n == 11 {
        'b'
    } else if n == 12 {
        'c'
    } else if n == 13 {
        'd'
    } else if n == 14 {
        'e'
    } else {
        'f'
    }
}

fn hex_val_exec(c: char) -> (r: Option<u32>)
    ensures
        r matches Some(v) ==> hex_val(c) == Some(v as int),
        r is None ==> hex_val(c) is None,
{
    if is_digit_char_exec(c) {
        Some(c as u32 - '0' as u32)
    } else if 'a' as u32 <= c as u32 && c as u32 <= 'f' as u32 {
        Some(c as u32 - 'a' as u32 + 10)
    } else if 'A' as u32 <= c as u32 && c as u32 <= 'F' as u32 {
        Some(c as u32 - 'A' as u32 + 10)
    } else {
        None
    }
}

// ---------------------------------------------------------------------------
// String escaping
// ---------------------------------------------------------------------------

/// How one character is written inside a JSON string.
pub open spec fn escape_char(c: char) -> Seq<char> {
    if c == '"' {
        seq!['\\', '"']
    } else if c == '\\' {
        seq!['\\', '\\']
    } else if c == '\n' {
        seq!['\\', 'n']
    } else if c == '\r' {
        seq!['\\', 'r']
    } else if c == '\t' {
        seq!['\\', 't']
    } else if c == '\u{8}' {
        seq!['\\', 'b']
    } else if c == '\u{c}' {
        seq!['\\', 'f']
    } else if (c as u32) < 0x20 {
        seq![
            '\\',
            'u',
            '0',
            '0',
            hex_digit_char((c as u32 / 16) as int),
            hex_digit_char((c as u32 % 16) as int),
        ]
    } else {
        seq![c]
    }
}

pub open spec fn escape_seq(s: Seq<char>) -> Seq<char>
    decreases s.len(),
{
    if s.len() == 0 {
        Seq::empty()
    } else {
        escape_char(s.first()) + escape_seq(s.drop_first())
    }
}

/// Escaping distributes over concatenation.
pub proof fn lemma_escape_seq_concat(a: Seq<char>, b: Seq<char>)
    ensures
        escape_seq(a + b) == escape_seq(a) + escape_seq(b),
    decreases a.len(),
{
    if a.len() == 0 {
        assert(a + b =~= b);
        assert(escape_seq(a) + escape_seq(b) =~= escape_seq(b));
    } else {
        lemma_escape_seq_concat(a.drop_first(), b);
        assert((a + b).first() == a.first());
        assert((a + b).drop_first() =~= a.drop_first() + b);
        assert(escape_char(a.first()) + (escape_seq(a.drop_first()) + escape_seq(b))
            =~= (escape_char(a.first()) + escape_seq(a.drop_first())) + escape_seq(b));
    }
}

pub proof fn lemma_escape_seq_singleton(c: char)
    ensures
        escape_seq(seq![c]) == escape_char(c),
{
    assert(seq![c].first() == c);
    assert(seq![c].drop_first() =~= Seq::<char>::empty());
    assert(escape_seq(Seq::<char>::empty()) =~= Seq::<char>::empty());
    assert(escape_seq(seq![c]) =~= escape_char(c) + escape_seq(seq![c].drop_first()));
    assert(escape_char(c) + Seq::<char>::empty() =~= escape_char(c));
}

/// A whole string as JSON writes it: quoted and escaped.
pub open spec fn json_string(s: Seq<char>) -> Seq<char> {
    seq!['"'] + escape_seq(s) + seq!['"']
}

/// Appends one escaped character to `out`.
fn write_escaped_char(out: &mut String, c: char)
    ensures
        final(out)@ == old(out)@ + escape_char(c),
{
    if c == '"' {
        push_char(out, '\\');
        push_char(out, '"');
    } else if c == '\\' {
        push_char(out, '\\');
        push_char(out, '\\');
    } else if c == '\n' {
        push_char(out, '\\');
        push_char(out, 'n');
    } else if c == '\r' {
        push_char(out, '\\');
        push_char(out, 'r');
    } else if c == '\t' {
        push_char(out, '\\');
        push_char(out, 't');
    } else if c == '\u{8}' {
        push_char(out, '\\');
        push_char(out, 'b');
    } else if c == '\u{c}' {
        push_char(out, '\\');
        push_char(out, 'f');
    } else if (c as u32) < 0x20 {
        push_char(out, '\\');
        push_char(out, 'u');
        push_char(out, '0');
        push_char(out, '0');
        push_char(out, hex_digit_char_exec(c as u32 / 16));
        push_char(out, hex_digit_char_exec(c as u32 % 16));
    } else {
        push_char(out, c);
    }
    proof {
        assert(final(out)@ =~= old(out)@ + escape_char(c));
    }
}

/// Appends `s` to `out` as a JSON string.
pub fn write_json_string(out: &mut String, s: &str)
    ensures
        final(out)@ == old(out)@ + json_string(s@),
{
    push_char(out, '"');
    let n = s.unicode_len();
    let mut k: usize = 0;
    while k < n
        invariant
            0 <= k <= n,
            n == s@.len(),
            out@ == old(out)@ + seq!['"'] + escape_seq(s@.take(k as int)),
        decreases n - k,
    {
        proof {
            assert(s@.take(k + 1 as int) =~= s@.take(k as int) + seq![s@[k as int]]);
            lemma_escape_seq_concat(s@.take(k as int), seq![s@[k as int]]);
            lemma_escape_seq_singleton(s@[k as int]);
        }
        write_escaped_char(out, s.get_char(k));
        k = k + 1;
    }
    push_char(out, '"');
    proof {
        assert(s@.take(n as int) =~= s@);
        assert(final(out)@ =~= old(out)@ + json_string(s@));
    }
}

// ---------------------------------------------------------------------------
// String parsing
// ---------------------------------------------------------------------------

/// What a single-character escape code stands for.
pub open spec fn unescape_char(e: char) -> Option<char> {
    if e == '"' {
        Some('"')
    } else if e == '\\' {
        Some('\\')
    } else if e == '/' {
        Some('/')
    } else if e == 'n' {
        Some('\n')
    } else if e == 'r' {
        Some('\r')
    } else if e == 't' {
        Some('\t')
    } else if e == 'b' {
        Some('\u{8}')
    } else if e == 'f' {
        Some('\u{c}')
    } else {
        None
    }
}

pub open spec fn cons_char(c: char, rest: Option<(Seq<char>, int)>) -> Option<(Seq<char>, int)> {
    match rest {
        None => None,
        Some(p) => Some((seq![c] + p.0, p.1)),
    }
}

/// The string body beginning at `i` (just after the opening quote): its
/// unescaped content and the position after the closing quote. `\uXXXX`
/// escapes are accepted for ASCII code points, which covers every escape
/// the emitter writes.
pub open spec fn parse_string_body(s: Seq<char>, i: int) -> Option<(Seq<char>, int)>
    recommends
        0 <= i <= s.len(),
    decreases s.len() - i when 0 <= i <= s.len()
{
    if i >= s.len() {
        None
    } else if s[i] == '"' {
        Some((Seq::empty(), i + 1))
    } else if s[i] == '\\' {
        if i + 1 >= s.len() {
            None
        } else if s[i + 1] == 'u' {
            if i + 6 <= s.len() && hex_val(s[i + 2]) is Some && hex_val(s[i + 3]) is Some
                && hex_val(s[i + 4]) is Some && hex_val(s[i + 5]) is Some {
                let v = hex_val(s[i + 2]).unwrap() * 4096 + hex_val(s[i + 3]).unwrap() * 256
                    + hex_val(s[i + 4]).unwrap() * 16 + hex_val(s[i + 5]).unwrap();
                if v < 0x80 {
                    cons_char(((v as u8) as char), parse_string_body(s, i + 6))
                } else {
                    None
                }
            } else {
                None
            }
        } else {
            match unescape_char(s[i + 1]) {
                Some(c) => cons_char(c, parse_string_body(s, i + 2)),
                None => None,
            }
        }
    } else {
        cons_char(s[i], parse_string_body(s, i + 1))
    }
}

pub proof fn lemma_parse_string_body_bounds(s: Seq<char>, i: int)
    requires
        0 <= i <= s.len(),
    ensures
        parse_string_body(s, i) matches Some(p) ==> i < p.1 <= s.len(),
    decreases s.len() - i,
{
    if i < s.len() && s[i] != '"' {
        if s[i] == '\\' {
            if i + 1 < s.len() {
                if s[i + 1] == 'u' {
                    if i + 6 <= s.len() {
                        lemma_parse_string_body_bounds(s, i + 6);
                    }
                } else {
                    lemma_parse_string_body_bounds(s, i + 2);
                }
            }
        } else {
            lemma_parse_string_body_bounds(s, i + 1);
        }
    }
}

spec fn prepend_parsed(acc: Seq<char>, rest: Option<(Seq<char>, int)>) -> Option<(Seq<char>, int)> {
    match rest {
        None => None,
        Some(p) => Some((acc + p.0, p.1)),
    }
}

/// Parses a string body, returning the content and the position after the
/// closing quote.
pub fn parse_string_body_exec(s: &str, i: usize) -> (r: Option<(String, usize)>)
    requires
        i <= s@.len(),
    ensures
        r matches Some(p) ==> parse_string_body(s@, i as int) == Some((p.0@, p.1 as int)) && i
            < p.1 <= s@.len(),
        r is None ==> parse_string_body(s@, i as int) is None,
{
    proof {
        lemma_parse_string_body_bounds(s@, i as int);
    }
    let n = s.unicode_len();
    let mut acc = String::new();
    let mut j = i;
    loop
        invariant
            i <= j <= n,
            n == s@.len(),
            parse_string_body(s@, i as int) == prepend_parsed(acc@, parse_string_body(
                s@,
                j as int,
            )),
        decreases n - j,
    {
        proof {
            lemma_parse_string_body_bounds(s@, j as int);
        }
        if j >= n {
            return None;
        }
        let c = s.get_char(j);
        if c == '"' {
            proof {
                assert(acc@ + Seq::<char>::empty() =~= acc@);
            }
            return Some((acc, j + 1));
        } else if c == '\\' {
            if j + 1 >= n {
                return None;
            }
            let e = s.get_char(j + 1);
            if e == 'u' {
                if n - j < 6 {
                    return None;
                }
                let h0 = hex_val_exec(s.get_char(j + 2));
                let h1 = hex_val_exec(s.get_char(j + 3));
                let h2 = hex_val_exec(s.get_char(j + 4));
                let h3 = hex_val_exec(s.get_char(j + 5));
                match (h0, h1, h2, h3) {
                    (Some(a), Some(b), Some(cc), Some(d)) => {
                        let v = a * 4096 + b * 256 + cc * 16 + d;
                        if v < 0x80 {
                            let ghost old_acc = acc@;
                            let ch = (v as u8) as char;
                            push_char(&mut acc, ch);
                            proof {
                                match parse_string_body(s@, j + 6 as int) {
                                    None => {},
                                    Some(p) => {
                                        assert((old_acc + (seq![ch] + p.0)) =~= (old_acc
                                            + seq![ch]) + p.0);
                                        assert(old_acc.push(ch) =~= old_acc + seq![ch]);
                                    },
                                }
                            }
                            j = j + 6;
                        } else {
                            return None;
                        }
                    },
                    _ => {
                        return None;
                    },
                }
            } else {
                match unescape_char_exec(e) {
                    Some(ch) => {
                        let ghost old_acc = acc@;
                        push_char(&mut acc, ch);
                        proof {
                            match parse_string_body(s@, j + 2 as int) {
                                None => {},
                                Some(p) => {
                                    assert((old_acc + (seq![ch] + p.0)) =~= (old_acc + seq![ch])
                                        + p.0);
                                    assert(old_acc.push(ch) =~= old_acc + seq![ch]);
                                },
                            }
                        }
                        j = j + 2;
                    },
                    None => {
                        return None;
                    },
                }
            }
        } else {
            let ghost old_acc = acc@;
            push_char(&mut acc, c);
            proof {
                match parse_string_body(s@, j + 1 as int) {
                    None => {},
                    Some(p) => {
                        assert((old_acc + (seq![c] + p.0)) =~= (old_acc + seq![c]) + p.0);
                        assert(old_acc.push(c) =~= old_acc + seq![c]);
                    },
                }
            }
            j = j + 1;
        }
    }
}

// ---------------------------------------------------------------------------
// Unsigned numbers
// ---------------------------------------------------------------------------

/// The decimal number beginning at `i` and the position after it.
pub open spec fn parse_u32_at(s: Seq<char>, i: int) -> Option<(u32, int)>
    recommends
        0 <= i <= s.len(),
{
    let e = digits_end(s, i);
    if e == i {
        None
    } else {
        let v = digits_val(s.subrange(i, e));
        if v <= u32::MAX {
            Some((v as u32, e))
        } else {
            None
        }
    }
}

proof fn lemma_digits_end_all_digits(s: Seq<char>, i: int)
    requires
        0 <= i <= s.len(),
    ensures
        forall|k: int| i <= k < digits_end(s, i) ==> is_digit_char(s[k]),
    decreases s.len() - i,
{
    if i < s.len() && is_digit_char(s[i]) {
        lemma_digits_end_all_digits(s, i + 1);
    }
}

/// A run of digits followed by a non-digit (or the end) is exactly what
/// the digit scanner consumes.
proof fn lemma_digits_end_runs(s: Seq<char>, i: int, e: int)
    requires
        0 <= i <= e <= s.len(),
        forall|k: int| i <= k < e ==> is_digit_char(s[k]),
        e == s.len() || !is_digit_char(s[e]),
    ensures
        digits_end(s, i) == e,
    decreases e - i,
{
    if i < e {
        lemma_digits_end_runs(s, i + 1, e);
    }
}

pub fn parse_u32_exec(s: &str, i: usize) -> (r: Option<(u32, usize)>)
    requires
        i <= s@.len(),
    ensures
        r matches Some(p) ==> parse_u32_at(s@, i as int) == Some((p.0, p.1 as int)) && i < p.1
            <= s@.len(),
        r is None ==> parse_u32_at(s@, i as int) is None,
{
    let e = digits_end_exec(s, i);
    if e == i {
        return None;
    }
    proof {
        lemma_digits_end_all_digits(s@, i as int);
    }
    let mut acc: u64 = 0;
    let mut over = false;
    let mut j = i;
    while j < e
        invariant
            i <= j <= e <= s@.len(),
            e == digits_end(s@, i as int),
            forall|k: int| i <= k < e ==> is_digit_char(s@[k]),
            !over ==> acc == digits_val(s@.subrange(i as int, j as int)) && acc <= u32::MAX,
            over ==> digits_val(s@.subrange(i as int, j as int)) > u32::MAX,
        decreases e - j,
    {
        let c = s.get_char(j);
        let ghost pre = s@.subrange(i as int, j as int);
        let ghost cur = s@.subrange(i as int, j as int + 1);
        proof {
            assert(cur.drop_last() =~= pre);
            assert(cur.last() == s@[j as int]);
            assert(forall|k: int| 0 <= k < pre.len() ==> is_digit_char(#[trigger] pre[k]));
            lemma_digits_val_nonneg(pre);
        }
        if over {
            proof {
                assert(digits_val(cur) == 10 * digits_val(pre) + (s@[j as int] as u32
                    - '0' as u32));
            }
        } else if acc > u32::MAX as u64 {
            over = true;
        } else {
            let d = (c as u32) - ('0' as u32);
            assert(d <= 9);
            acc = acc * 10 + (d as u64);
            if acc > u32::MAX as u64 {
                over = true;
            }
            proof {
                assert(acc == digits_val(cur));
            }
        }
        j = j + 1;
    }
    if over {
        return None;
    }
    Some((acc as u32, e))
}

// ---------------------------------------------------------------------------
// Fixed literals
// ---------------------------------------------------------------------------

/// `lit` occurs at position `i` of `s`, character for character.
pub open spec fn lit_at(s: Seq<char>, i: int, lit: Seq<char>) -> bool {
    0 <= i && i + lit.len() <= s.len() && s.subrange(i, i + lit.len()) == lit
}

pub fn expect_lit(s: &str, i: usize, lit: &str) -> (r: bool)
    requires
        i <= s@.len(),
    ensures
        r == lit_at(s@, i as int, lit@),
{
    let n = s.unicode_len();
    let m = lit.unicode_len();
    if m > n - i {
        return false;
    }
    let mut j: usize = 0;
    while j < m
        invariant
            0 <= j <= m,
            m == lit@.len(),
            n == s@.len(),
            i + m <= n,
            forall|k: int| 0 <= k < j ==> s@[i + k] == lit@[k],
        decreases m - j,
    {
        if s.get_char(i + j) != lit.get_char(j) {
            assert(s@.subrange(i as int, i + m as int)[j as int] != lit@[j as int]);
            return false;
        }
        j = j + 1;
    }
    proof {
        assert(s@.subrange(i as int, i + m as int) =~= lit@);
    }
    true
}

// ---------------------------------------------------------------------------
// Round trips: parsing what the emitter wrote
// ---------------------------------------------------------------------------

/// A fixed literal written into a buffer is found there.
pub proof fn lemma_lit_at_of_emit(pre: Seq<char>, lit: Seq<char>, rest: Seq<char>)
    ensures
        lit_at(pre + lit + rest, pre.len() as int, lit),
{
    let s = pre + lit + rest;
    assert(s.subrange(pre.len() as int, (pre.len() + lit.len()) as int) =~= lit);
}

/// Parsing the escaped body the emitter wrote (with its closing quote)
/// yields back the original string.
#[verifier::rlimit(50)]
pub proof fn lemma_parse_body_of_emit(pre: Seq<char>, t: Seq<char>, rest: Seq<char>)
    ensures
        ({
            let s = pre + escape_seq(t) + seq!['"'] + rest;
            parse_string_body(s, pre.len() as int) == Some(
                (t, (pre.len() + escape_seq(t).len() + 1) as int),
            )
        }),
    decreases t.len(),
{
    let s = pre + escape_seq(t) + seq!['"'] + rest;
    if t.len() == 0 {
        assert(escape_seq(t) =~= Seq::<char>::empty());
        assert(s[pre.len() as int] == '"');
        assert(t =~= Seq::<char>::empty());
    } else {
        let c = t.first();
        let t2 = t.drop_first();
        assert(t =~= seq![c] + t2);
        lemma_escape_seq_concat(seq![c], t2);
        lemma_escape_seq_singleton(c);
        assert(escape_seq(t) == escape_char(c) + escape_seq(t2));
        let pre2 = pre + escape_char(c);
        lemma_parse_body_of_emit(pre2, t2, rest);
        let s2 = pre2 + escape_seq(t2) + seq!['"'] + rest;
        assert(s2 =~= s);
        let i = pre.len() as int;
        let ec = escape_char(c);
        assert forall|k: int| 0 <= k < ec.len() implies s[i + k] == ec[k] by {
            assert(escape_seq(t)[k] == ec[k]);
            assert(s[i + k] == escape_seq(t)[k]);
        }
        assert(i + ec.len() == pre2.len());
        assert(parse_string_body(s, pre2.len() as int) == Some(
            (t2, (pre2.len() + escape_seq(t2).len() + 1) as int),
        ));
        assert(i + ec.len() <= s.len());
        if c == '"' || c == '\\' {
            assert(s[i] == '\\');
            assert(unescape_char(s[i + 1]) == Some(c));
            assert(parse_string_body(s, i) == cons_char(c, parse_string_body(s, i + 2)));
        } else if c == '\n' || c == '\r' || c == '\t' || c == '\u{8}' || c == '\u{c}' {
            assert(s[i] == '\\');
            assert(s[i + 1] != 'u');
            assert(unescape_char(s[i + 1]) == Some(c));
            assert(parse_string_body(s, i) == cons_char(c, parse_string_body(s, i + 2)));
        } else if (c as u32) < 0x20 {
            assert(s[i] == '\\');
            assert(s[i + 1] == 'u');
            assert(s[i + 2] == '0');
            assert(s[i + 3] == '0');
            let hi = (c as u32 / 16) as int;
            let lo = (c as u32 % 16) as int;
            assert(s[i + 4] == hex_digit_char(hi));
            assert(s[i + 5] == hex_digit_char(lo));
            lemma_hex_round_trip(hi);
            lemma_hex_round_trip(lo);
            assert(hex_val(s[i + 2]) == Some(0int));
            assert(hex_val(s[i + 3]) == Some(0int));
            let v = hex_val(s[i + 2]).unwrap() * 4096 + hex_val(s[i + 3]).unwrap() * 256
                + hex_val(s[i + 4]).unwrap() * 16 + hex_val(s[i + 5]).unwrap();
            assert(v == 16 * hi + lo);
            vstd::arithmetic::div_mod::lemma_fundamental_div_mod(c as u32 as int, 16);
            assert(v == c as u32);
            let cv = (v as u8) as char;
            assert(cv as u32 == v);
            vstd::utf8::char_u32_cast(cv, cv as u32);
            vstd::utf8::char_u32_cast(c, c as u32);
            assert(cv == c);
            assert(((v as u8) as char) == c);
            assert(parse_string_body(s, i) == cons_char(c, parse_string_body(s, i + 6)));
        } else {
            assert(s[i] == c);
            assert(c != '"' && c != '\\');
            assert(parse_string_body(s, i) == cons_char(c, parse_string_body(s, i + 1)));
        }
        assert(seq![c] + t2 =~= t);
        assert(escape_seq(t).len() == ec.len() + escape_seq(t2).len());
    }
}

/// Parsing the JSON string the emitter wrote yields back the original.
pub proof fn lemma_parse_string_of_emit(pre: Seq<char>, t: Seq<char>, rest: Seq<char>)
    ensures
        ({
            let s = pre + json_string(t) + rest;
            &&& s.len() > pre.len()
            &&& s[pre.len() as int] == '"'
            &&& parse_string_body(s, (pre.len() + 1) as int) == Some(
                (t, (pre.len() + json_string(t).len()) as int),
            )
        }),
{
    let s = pre + json_string(t) + rest;
    let pre2 = pre + seq!['"'];
    assert(pre2 + escape_seq(t) + seq!['"'] + rest =~= s);
    lemma_parse_body_of_emit(pre2, t, rest);
    assert(s[pre.len() as int] == '"');
}

/// Parsing the decimal number the emitter wrote (followed by anything that
/// is not a digit) yields back the original.
pub proof fn lemma_parse_u32_of_emit(pre: Seq<char>, n: u32, rest: Seq<char>)
    requires
        rest.len() > 0,
        !is_digit_char(rest[0]),
    ensures
        ({
            let s = pre + dec_digits(n as int) + rest;
            parse_u32_at(s, pre.len() as int) == Some(
                (n, (pre.len() + dec_digits(n as int).len()) as int),
            )
        }),
{
    let d = dec_digits(n as int);
    let s = pre + d + rest;
    lemma_dec_digits_facts(n as int);
    let i = pre.len() as int;
    let e = i + d.len();
    assert forall|k: int| i <= k < e implies is_digit_char(s[k]) by {
        assert(s[k] == d[k - i]);
    }
    assert(s[e] == rest[0]);
    lemma_digits_end_runs(s, i, e);
    assert(s.subrange(i, e) =~= d);
}

fn unescape_char_exec(e: char) -> (r: Option<char>)
    ensures
        r == unescape_char(e),
{
    if e == '"' {
        Some('"')
    } else if e == '\\' {
        Some('\\')
    } else if e == '/' {
        Some('/')
    } else if e == 'n' {
        Some('\n')
    } else if e == 'r' {
        Some('\r')
    } else if e == 't' {
        Some('\t')
    } else if e == 'b' {
        Some('\u{8}')
    } else if e == 'f' {
        Some('\u{c}')
    } else {
        None
    }
}

} // verus!
