//! Character-level scanning utilities shared by the Modelfile grammar and
//! the registry snapshot codec: whitespace and digit classes, position
//! scanners, case-insensitive matching, and decimal conversions.

use vstd::prelude::*;

verus! {

// ---------------------------------------------------------------------------
// Character classes
// ---------------------------------------------------------------------------

/// Whitespace as the grammar understands it: space, tab, newline, carriage
/// return.
pub open spec fn is_space_char(c: char) -> bool {
    c == ' ' || c == '\t' || c == '\n' || c == '\r'
}

pub open spec fn is_digit_char(c: char) -> bool {
    '0' as u32 <= c as u32 && c as u32 <= '9' as u32
}

pub open spec fn digit_val(c: char) -> int
    recommends
        is_digit_char(c),
{
    c as u32 - '0' as u32
}

pub fn is_space_char_exec(c: char) -> (r: bool)
    ensures
        r == is_space_char(c),
{
    c == ' ' || c == '\t' || c == '\n' || c == '\r'
}

pub fn is_digit_char_exec(c: char) -> (r: bool)
    ensures
        r == is_digit_char(c),
{
    '0' as u32 <= c as u32 && c as u32 <= '9' as u32
}

// ---------------------------------------------------------------------------
// Position scanners
// ---------------------------------------------------------------------------

/// First position at or after `i` holding a non-whitespace character.
pub open spec fn skip_ws(s: Seq<char>, i: int) -> int
    recommends
        0 <= i <= s.len(),
    decreases s.len() - i when 0 <= i <= s.len()
{
    if i < s.len() && is_space_char(s[i]) {
        skip_ws(s, i + 1)
    } else {
        i
    }
}

pub proof fn lemma_skip_ws_bounds(s: Seq<char>, i: int)
    requires
        0 <= i <= s.len(),
    ensures
        i <= skip_ws(s, i) <= s.len(),
        skip_ws(s, i) < s.len() ==> !is_space_char(s[skip_ws(s, i)]),
    decreases s.len() - i,
{
    if i < s.len() && is_space_char(s[i]) {
        lemma_skip_ws_bounds(s, i + 1);
    }
}

pub fn skip_ws_exec(s: &str, i: usize) -> (r: usize)
    requires
        i <= s@.len(),
    ensures
        r == skip_ws(s@, i as int),
        i <= r <= s@.len(),
{
    proof {
        lemma_skip_ws_bounds(s@, i as int);
    }
    let n = s.unicode_len();
    let mut j = i;
    while j < n && is_space_char_exec(s.get_char(j))
        invariant
            i <= j <= n,
            n == s@.len(),
            skip_ws(s@, i as int) == skip_ws(s@, j as int),
        decreases n - j,
    {
        j = j + 1;
    }
    proof {
        lemma_skip_ws_bounds(s@, j as int);
    }
    j
}

/// First position at or after `i` holding whitespace (or the end): the end
/// of the token that starts at `i`.
pub open spec fn token_end(s: Seq<char>, i: int) -> int
    recommends
        0 <= i <= s.len(),
    decreases s.len() - i when 0 <= i <= s.len()
{
    if i < s.len() && !is_space_char(s[i]) {
        token_end(s, i + 1)
    } else {
        i
    }
}

pub proof fn lemma_token_end_bounds(s: Seq<char>, i: int)
    requires
        0 <= i <= s.len(),
    ensures
        i <= token_end(s, i) <= s.len(),
    decreases s.len() - i,
{
    if i < s.len() && !is_space_char(s[i]) {
        lemma_token_end_bounds(s, i + 1);
    }
}

pub fn token_end_exec(s: &str, i: usize) -> (r: usize)
    requires
        i <= s@.len(),
    ensures
        r == token_end(s@, i as int),
        i <= r <= s@.len(),
{
    proof {
        lemma_token_end_bounds(s@, i as int);
    }
    let n = s.unicode_len();
    let mut j = i;
    while j < n && !is_space_char_exec(s.get_char(j))
        invariant
            i <= j <= n,
            n == s@.len(),
            token_end(s@, i as int) == token_end(s@, j as int),
        decreases n - j,
    {
        j = j + 1;
    }
    proof {
        lemma_token_end_bounds(s@, j as int);
    }
    j
}

/// First position at or after `i` holding a non-digit character.
pub open spec fn digits_end(s: Seq<char>, i: int) -> int
    recommends
        0 <= i <= s.len(),
    decreases s.len() - i when 0 <= i <= s.len()
{
    if i < s.len() && is_digit_char(s[i]) {
        digits_end(s, i + 1)
    } else {
        i
    }
}

pub proof fn lemma_digits_end_bounds(s: Seq<char>, i: int)
    requires
        0 <= i <= s.len(),
    ensures
        i <= digits_end(s, i) <= s.len(),
    decreases s.len() - i,
{
    if i < s.len() && is_digit_char(s[i]) {
        lemma_digits_end_bounds(s, i + 1);
    }
}

pub fn digits_end_exec(s: &str, i: usize) -> (r: usize)
    requires
        i <= s@.len(),
    ensures
        r == digits_end(s@, i as int),
        i <= r <= s@.len(),
{
    proof {
        lemma_digits_end_bounds(s@, i as int);
    }
    let n = s.unicode_len();
    let mut j = i;
    while j < n && is_digit_char_exec(s.get_char(j))
        invariant
            i <= j <= n,
            n == s@.len(),
            digits_end(s@, i as int) == digits_end(s@, j as int),
        decreases n - j,
    {
        j = j + 1;
    }
    proof {
        lemma_digits_end_bounds(s@, j as int);
    }
    j
}

/// First position at or after `i` holding a newline (or the end).
pub open spec fn line_end(s: Seq<char>, i: int) -> int
    recommends
        0 <= i <= s.len(),
    decreases s.len() - i when 0 <= i <= s.len()
{
    if i < s.len() && s[i] != '\n' {
        line_end(s, i + 1)
    } else {
        i
    }
}

pub proof fn lemma_line_end_bounds(s: Seq<char>, i: int)
    requires
        0 <= i <= s.len(),
    ensures
        i <= line_end(s, i) <= s.len(),
    decreases s.len() - i,
{
    if i < s.len() && s[i] != '\n' {
        lemma_line_end_bounds(s, i + 1);
    }
}

pub fn line_end_exec(s: &str, i: usize) -> (r: usize)
    requires
        i <= s@.len(),
    ensures
        r == line_end(s@, i as int),
        i <= r <= s@.len(),
{
    proof {
        lemma_line_end_bounds(s@, i as int);
    }
    let n = s.unicode_len();
    let mut j = i;
    while j < n && s.get_char(j) != '\n'
        invariant
            i <= j <= n,
            n == s@.len(),
            line_end(s@, i as int) == line_end(s@, j as int),
        decreases n - j,
    {
        j = j + 1;
    }
    proof {
        lemma_line_end_bounds(s@, j as int);
    }
    j
}

/// Walks back from `j` over trailing whitespace, never before `i`.
pub open spec fn trim_back(s: Seq<char>, i: int, j: int) -> int
    recommends
        0 <= i <= j <= s.len(),
    decreases j - i when 0 <= i <= j <= s.len()
{
    if j > i && is_space_char(s[j - 1]) {
        trim_back(s, i, j - 1)
    } else {
        j
    }
}

pub proof fn lemma_trim_back_bounds(s: Seq<char>, i: int, j: int)
    requires
        0 <= i <= j <= s.len(),
    ensures
        i <= trim_back(s, i, j) <= j,
    decreases j - i,
{
    if j > i && is_space_char(s[j - 1]) {
        lemma_trim_back_bounds(s, i, j - 1);
    }
}

pub fn trim_back_exec(s: &str, i: usize, j: usize) -> (r: usize)
    requires
        i <= j,
        j <= s@.len(),
    ensures
        r == trim_back(s@, i as int, j as int),
        i <= r <= j,
{
    proof {
        lemma_trim_back_bounds(s@, i as int, j as int);
    }
    let mut k = j;
    while k > i && is_space_char_exec(s.get_char(k - 1))
        invariant
            i <= k <= j <= s@.len(),
            trim_back(s@, i as int, j as int) == trim_back(s@, i as int, k as int),
        decreases k,
    {
        k = k - 1;
    }
    k
}

// ---------------------------------------------------------------------------
// Case-insensitive matching (ASCII)
// ---------------------------------------------------------------------------

/// The two characters are equal up to ASCII case.
pub open spec fn char_eq_ci(a: char, b: char) -> bool {
    a == b || ('A' as u32 <= a as u32 && a as u32 <= 'Z' as u32 && a as u32 + 32 == b as u32)
        || ('A' as u32 <= b as u32 && b as u32 <= 'Z' as u32 && b as u32 + 32 == a as u32)
}

pub open spec fn seq_eq_ci(a: Seq<char>, b: Seq<char>) -> bool {
    a.len() == b.len() && forall|k: int| 0 <= k < a.len() ==> char_eq_ci(a[k], b[k])
}

/// `kw` occurs at position `i` of `s`, up to ASCII case.
pub open spec fn matches_ci_at(s: Seq<char>, i: int, kw: Seq<char>) -> bool {
    0 <= i && i + kw.len() <= s.len() && seq_eq_ci(s.subrange(i, i + kw.len()), kw)
}

pub fn char_eq_ci_exec(a: char, b: char) -> (r: bool)
    ensures
        r == char_eq_ci(a, b),
{
    a == b || ('A' as u32 <= a as u32 && a as u32 <= 'Z' as u32 && a as u32 + 32 == b as u32)
        || ('A' as u32 <= b as u32 && b as u32 <= 'Z' as u32 && b as u32 + 32 == a as u32)
}

pub fn matches_ci(s: &str, i: usize, kw: &str) -> (r: bool)
    requires
        i <= s@.len(),
    ensures
        r == matches_ci_at(s@, i as int, kw@),
{
    let n = s.unicode_len();
    let m = kw.unicode_len();
    if m > n - i {
        return false;
    }
    let mut j: usize = 0;
    while j < m
        invariant
            0 <= j <= m,
            m == kw@.len(),
            n == s@.len(),
            i + m <= n,
            forall|k: int| 0 <= k < j ==> char_eq_ci(s@[i + k], kw@[k]),
        decreases m - j,
    {
        if !char_eq_ci_exec(s.get_char(i + j), kw.get_char(j)) {
            assert(!char_eq_ci(s@.subrange(i as int, i + m as int)[j as int], kw@[j as int]));
            return false;
        }
        j = j + 1;
    }
    assert(seq_eq_ci(s@.subrange(i as int, i + m as int), kw@)) by {
        assert forall|k: int| 0 <= k < m implies char_eq_ci(
            s@.subrange(i as int, i + m as int)[k],
            kw@[k],
        ) by {
            assert(s@.subrange(i as int, i + m as int)[k] == s@[i + k]);
        }
    }
    true
}

pub fn seq_eq_ci_exec(a: &str, b: &str) -> (r: bool)
    ensures
        r == seq_eq_ci(a@, b@),
{
    let n = a.unicode_len();
    if n != b.unicode_len() {
        return false;
    }
    let mut j: usize = 0;
    while j < n
        invariant
            0 <= j <= n,
            n == a@.len(),
            n == b@.len(),
            forall|k: int| 0 <= k < j ==> char_eq_ci(a@[k], b@[k]),
        decreases n - j,
    {
        if !char_eq_ci_exec(a.get_char(j), b.get_char(j)) {
            return false;
        }
        j = j + 1;
    }
    true
}

// ---------------------------------------------------------------------------
// Exact string comparison and prefixes
// ---------------------------------------------------------------------------

pub fn str_eq(a: &str, b: &str) -> (r: bool)
    ensures
        r == (a@ == b@),
{
    let n = a.unicode_len();
    if n != b.unicode_len() {
        assert(a@.len() != b@.len());
        return false;
    }
    let mut j: usize = 0;
    while j < n
        invariant
            0 <= j <= n,
            n == a@.len(),
            n == b@.len(),
            forall|k: int| 0 <= k < j ==> a@[k] == b@[k],
        decreases n - j,
    {
        if a.get_char(j) != b.get_char(j) {
            return false;
        }
        j = j + 1;
    }
    proof {
        assert(a@ =~= b@);
    }
    true
}

// ---------------------------------------------------------------------------
// Decimal digit strings
// ---------------------------------------------------------------------------

pub open spec fn all_digits(s: Seq<char>) -> bool {
    forall|k: int| 0 <= k < s.len() ==> is_digit_char(s[k])
}

/// Value of a digit string, most significant first.
pub open spec fn digits_val(s: Seq<char>) -> int
    decreases s.len(),
{
    if s.len() == 0 {
        0
    } else {
        10 * digits_val(s.drop_last()) + digit_val(s.last())
    }
}

pub proof fn lemma_digits_val_nonneg(s: Seq<char>)
    requires
        all_digits(s),
    ensures
        digits_val(s) >= 0,
    decreases s.len(),
{
    if s.len() > 0 {
        assert(all_digits(s.drop_last()));
        lemma_digits_val_nonneg(s.drop_last());
    }
}

pub open spec fn digit_char(n: int) -> char
    recommends
        0 <= n <= 9,
{
    if n == 0 {
        '0'
    } else if n == 1 {
        '1'
    } else if n == 2 {
        '2'
    } else if n == 3 {
        '3'
    } else if n == 4 {
        '4'
    } else if n == 5 {
        '5'
    } else if n == 6 {
        '6'
    } else if n == 7 {
        '7'
    } else if n == 8 {
        '8'
    } else {
        '9'
    }
}

pub fn digit_char_exec(n: u32) -> (r: char)
    requires
        n <= 9,
    ensures
        r == digit_char(n as int),
{
    if n == 0 {
        '0'
    } else if n == 1 {
        '1'
    } else if n == 2 {
        '2'
    } else if n == 3 {
        '3'
    } else if n == 4 {
        '4'
    } else if n == 5 {
        '5'
    } else if n == 6 {
        '6'
    } else if n == 7 {
        '7'
    } else if n == 8 {
        '8'
    } else {
        '9'
    }
}

/// Decimal rendering of a non-negative number, no leading zeros (except for
/// zero itself).
pub open spec fn dec_digits(n: int) -> Seq<char>
    recommends
        n >= 0,
    decreases n when n >= 0
{
    if n < 10 {
        seq![digit_char(n)]
    } else {
        dec_digits(n / 10) + seq![digit_char(n % 10)]
    }
}

pub proof fn lemma_dec_digits_facts(n: int)
    requires
        n >= 0,
    ensures
        dec_digits(n).len() >= 1,
        all_digits(dec_digits(n)),
        digits_val(dec_digits(n)) == n,
    decreases n,
{
    if n < 10 {
        let w = dec_digits(n);
        assert(w == seq![digit_char(n)]);
        assert(w.last() == digit_char(n));
        assert(digit_val(digit_char(n)) == n);
        assert(w.drop_last() =~= Seq::<char>::empty());
        assert(digits_val(w.drop_last()) == 0);
        assert(digits_val(w) == 10 * digits_val(w.drop_last()) + digit_val(w.last()));
    } else {
        lemma_dec_digits_facts(n / 10);
        vstd::arithmetic::div_mod::lemma_fundamental_div_mod(n, 10);
        let d = dec_digits(n / 10);
        let w = d + seq![digit_char(n % 10)];
        assert(dec_digits(n) == w);
        assert(w.drop_last() =~= d);
        assert(w.last() == digit_char(n % 10));
        assert(0 <= n % 10 <= 9);
        assert(digit_val(digit_char(n % 10)) == n % 10);
        assert(digits_val(w) == 10 * digits_val(d) + (n % 10));
        assert(digits_val(w) == n);
        assert(all_digits(w)) by {
            assert(forall|k: int| 0 <= k < d.len() ==> w[k] == d[k]);
        }
    }
}

// ---------------------------------------------------------------------------
// String building (trusted on `String::push`)
// ---------------------------------------------------------------------------

/// Relies on `String::push`: appends the given character to the end of the
/// string.
#[verifier::external_body]
pub fn push_char(s: &mut String, c: char)
    ensures
        final(s)@ == old(s)@.push(c),
{
    s.push(c);
}

pub fn u32_to_string(n: u32) -> (r: String)
    ensures
        r@ == dec_digits(n as int),
    decreases n,
{
    if n < 10 {
        let mut s = String::new();
        push_char(&mut s, digit_char_exec(n));
        proof {
            assert(s@ =~= dec_digits(n as int));
        }
        s
    } else {
        let mut s = u32_to_string(n / 10);
        push_char(&mut s, digit_char_exec(n % 10));
        proof {
            assert(s@ =~= dec_digits(n as int));
        }
        s
    }
}

/// Decimal rendering of a signed number.
pub open spec fn dec_int(n: int) -> Seq<char> {
    if n < 0 {
        seq!['-'] + dec_digits(-n)
    } else {
        dec_digits(n)
    }
}

pub fn i32_to_string(n: i32) -> (r: String)
    ensures
        r@ == dec_int(n as int),
{
    if n < 0 {
        let m = -(n as i64);
        let mut s = String::new();
        push_char(&mut s, '-');
        let d = u32_to_string(m as u32);
        s.append(d.as_str());
        proof {
            assert(s@ =~= dec_int(n as int));
        }
        s
    } else {
        u32_to_string(n as u32)
    }
}

// ---------------------------------------------------------------------------
// Integer token parsing (base 10, as `i32::from_str` accepts it)
// ---------------------------------------------------------------------------

/// Digits of an integer token: everything after an optional leading sign.
pub open spec fn int_digits_part(s: Seq<char>) -> Seq<char> {
    if s.len() > 0 && (s[0] == '-' || s[0] == '+') {
        s.drop_first()
    } else {
        s
    }
}

pub open spec fn int_is_negative(s: Seq<char>) -> bool {
    s.len() > 0 && s[0] == '-'
}

/// What parsing the token as an `i32` yields: an optional sign, one or more
/// digits, and a value within the type's range.
pub open spec fn spec_parse_i32(s: Seq<char>) -> Option<i32> {
    let ds = int_digits_part(s);
    if ds.len() == 0 || !all_digits(ds) {
        None
    } else {
        let v = digits_val(ds);
        if int_is_negative(s) {
            if v <= 0x8000_0000 {
                Some((-v) as i32)
            } else {
                None
            }
        } else {
            if v <= i32::MAX {
                Some(v as i32)
            } else {
                None
            }
        }
    }
}

pub fn parse_i32(s: &str) -> (r: Option<i32>)
    ensures
        r == spec_parse_i32(s@),
{
    let n = s.unicode_len();
    if n == 0 {
        return None;
    }
    let c0 = s.get_char(0);
    let neg = c0 == '-';
    let start: usize = if c0 == '-' || c0 == '+' {
        1
    } else {
        0
    };
    let ghost ds = int_digits_part(s@);
    proof {
        assert(ds =~= s@.subrange(start as int, n as int));
    }
    if start == n {
        return None;
    }
    let mut j = start;
    let mut acc: u64 = 0;
    let mut over = false;
    while j < n
        invariant
            start <= j <= n,
            n == s@.len(),
            start < n,
            ds == s@.subrange(start as int, n as int),
            ds == int_digits_part(s@),
            all_digits(s@.subrange(start as int, j as int)),
            !over ==> acc == digits_val(s@.subrange(start as int, j as int)) && acc <= u32::MAX,
            over ==> digits_val(s@.subrange(start as int, j as int)) > u32::MAX,
        decreases n - j,
    {
        let c = s.get_char(j);
        if !is_digit_char_exec(c) {
            assert(!all_digits(ds)) by {
                assert(ds[j - start] == s@[j as int]);
            }
            return None;
        }
        let ghost pre = s@.subrange(start as int, j as int);
        let ghost cur = s@.subrange(start as int, j as int + 1);
        proof {
            assert(cur.drop_last() =~= pre);
            assert(cur.last() == s@[j as int]);
            assert(all_digits(cur));
            lemma_digits_val_nonneg(pre);
        }
        if over {
            proof {
                assert(digits_val(cur) == 10 * digits_val(pre) + digit_val(cur.last()));
            }
        } else if acc > u32::MAX as u64 {
            over = true;
        } else {
            let d = (c as u32) - ('0' as u32);
            assert(d <= 9);
            acc = acc * 10 + (d as u64);
            if acc > u32::MAX as u64 {
                over = true;
            }
            proof {
                assert(acc == digits_val(cur));
            }
            if over {
                assert(digits_val(cur) > u32::MAX);
            }
        }
        j = j + 1;
    }
    proof {
        assert(s@.subrange(start as int, n as int) =~= ds);
    }
    if over {
        return None;
    }
    assert(acc == digits_val(ds));
    if neg {
        if acc <= 0x8000_0000u64 {
            let v = -(acc as i64);
            Some(v as i32)
        } else {
            None
        }
    } else {
        if acc <= i32::MAX as u64 {
            Some(acc as i32)
        } else {
            None
        }
    }
}

// ---------------------------------------------------------------------------
// Float token validation (the grammar `f32::from_str` accepts)
// ---------------------------------------------------------------------------

/// Exponent part: `e`/`E`, optional sign, one or more digits, running to the
/// end of the token.
pub open spec fn is_exponent_part(s: Seq<char>, i: int) -> bool
    recommends
        0 <= i <= s.len(),
{
    &&& i < s.len()
    &&& (s[i] == 'e' || s[i] == 'E')
    &&& {
        let j = if i + 1 < s.len() && (s[i + 1] == '+' || s[i + 1] == '-') {
            i + 2
        } else {
            i + 1
        };
        j < s.len() && digits_end(s, j) == s.len()
    }
}

/// Mantissa-and-exponent form: digits, an optional dot with more digits, at
/// least one digit in all, then an optional exponent.
pub open spec fn is_number_token(s: Seq<char>) -> bool {
    let p1 = digits_end(s, 0);
    if p1 < s.len() && s[p1] == '.' {
        let p2 = digits_end(s, p1 + 1);
        (p1 > 0 || p2 > p1 + 1) && (p2 == s.len() || is_exponent_part(s, p2))
    } else {
        p1 > 0 && (p1 == s.len() || is_exponent_part(s, p1))
    }
}

/// A token `f32::from_str` accepts: an optional sign, then `inf`,
/// `infinity`, `nan` (any case) or a decimal number.
pub open spec fn is_float_token(s: Seq<char>) -> bool {
    let body = int_digits_part(s);
    ||| seq_eq_ci(body, "inf"@)
    ||| seq_eq_ci(body, "infinity"@)
    ||| seq_eq_ci(body, "nan"@)
    ||| is_number_token(body)
}

fn is_exponent_part_exec(s: &str, i: usize) -> (r: bool)
    requires
        i <= s@.len(),
    ensures
        r == is_exponent_part(s@, i as int),
{
    let n = s.unicode_len();
    if i >= n {
        return false;
    }
    let c = s.get_char(i);
    if c != 'e' && c != 'E' {
        return false;
    }
    let j: usize = if i + 1 < n && (s.get_char(i + 1) == '+' || s.get_char(i + 1) == '-') {
        i + 2
    } else {
        i + 1
    };
    j < n && digits_end_exec(s, j) == n
}

fn is_number_token_exec(s: &str, lo: usize) -> (r: bool)
    requires
        lo <= s@.len(),
    ensures
        r == is_number_token(s@.subrange(lo as int, s@.len() as int)),
{
    let ghost body = s@.subrange(lo as int, s@.len() as int);
    let n = s.unicode_len();
    let p1 = digits_end_exec(s, lo);
    proof {
        lemma_digits_end_sub(s@, lo as int, lo as int);
    }
    if p1 < n && s.get_char(p1) == '.' {
        let p2 = digits_end_exec(s, p1 + 1);
        proof {
            lemma_digits_end_sub(s@, lo as int, p1 + 1 as int);
        }
        let head_ok = p1 > lo || p2 > p1 + 1;
        if !head_ok {
            proof {
                lemma_digits_end_bounds(s@, p1 + 1 as int);
            }
            return false;
        }
        if p2 == n {
            return true;
        }
        let e = is_exponent_part_exec(s, p2);
        proof {
            lemma_exponent_sub(s@, lo as int, p2 as int);
        }
        e
    } else {
        if p1 == lo {
            return false;
        }
        if p1 == n {
            return true;
        }
        let e = is_exponent_part_exec(s, p1);
        proof {
            lemma_exponent_sub(s@, lo as int, p1 as int);
        }
        e
    }
}

/// Scanning for digits within the tail of `s` matches scanning the tail.
proof fn lemma_digits_end_sub(s: Seq<char>, lo: int, i: int)
    requires
        0 <= lo <= i <= s.len(),
    ensures
        digits_end(s, i) - lo == digits_end(s.subrange(lo, s.len() as int), i - lo),
    decreases s.len() - i,
{
    let t = s.subrange(lo, s.len() as int);
    if i < s.len() && is_digit_char(s[i]) {
        lemma_digits_end_sub(s, lo, i + 1);
    }
}

proof fn lemma_exponent_sub(s: Seq<char>, lo: int, i: int)
    requires
        0 <= lo <= i <= s.len(),
    ensures
        is_exponent_part(s, i) == is_exponent_part(s.subrange(lo, s.len() as int), i - lo),
{
    let t = s.subrange(lo, s.len() as int);
    if i < s.len() && (s[i] == 'e' || s[i] == 'E') {
        let j = if i + 1 < s.len() && (s[i + 1] == '+' || s[i + 1] == '-') {
            i + 2
        } else {
            i + 1
        };
        lemma_digits_end_sub(s, lo, j);
    }
}

pub fn is_float_token_exec(s: &str) -> (r: bool)
    ensures
        r == is_float_token(s@),
{
    let n = s.unicode_len();
    let start: usize = if n > 0 && (s.get_char(0) == '-' || s.get_char(0) == '+') {
        1
    } else {
        0
    };
    let ghost body = int_digits_part(s@);
    proof {
        reveal_strlit("inf");
        reveal_strlit("infinity");
        reveal_strlit("nan");
        assert(body =~= s@.subrange(start as int, n as int));
    }
    if matches_ci(s, start, "inf") && n - start == 3 {
        proof {
            lemma_ci_tail(s@, start as int, "inf"@);
        }
        return true;
    }
    if matches_ci(s, start, "infinity") && n - start == 8 {
        proof {
            lemma_ci_tail(s@, start as int, "infinity"@);
        }
        return true;
    }
    if matches_ci(s, start, "nan") && n - start == 3 {
        proof {
            lemma_ci_tail(s@, start as int, "nan"@);
        }
        return true;
    }
    let num = is_number_token_exec(s, start);
    proof {
        lemma_ci_tail_neg(s@, start as int, "inf"@);
        lemma_ci_tail_neg(s@, start as int, "infinity"@);
        lemma_ci_tail_neg(s@, start as int, "nan"@);
    }
    num
}

/// A case-insensitive match that fills the whole tail makes the tail
/// case-insensitively equal to the keyword.
proof fn lemma_ci_tail(s: Seq<char>, i: int, kw: Seq<char>)
    requires
        0 <= i <= s.len(),
        matches_ci_at(s, i, kw),
        s.len() - i == kw.len(),
    ensures
        seq_eq_ci(s.subrange(i, s.len() as int), kw),
{
    assert(s.subrange(i, i + kw.len()) =~= s.subrange(i, s.len() as int));
}

/// And conversely: failing the match (or the length) refutes it.
proof fn lemma_ci_tail_neg(s: Seq<char>, i: int, kw: Seq<char>)
    requires
        0 <= i <= s.len(),
        !(matches_ci_at(s, i, kw) && s.len() - i == kw.len()),
    ensures
        !seq_eq_ci(s.subrange(i, s.len() as int), kw),
{
    let t = s.subrange(i, s.len() as int);
    if seq_eq_ci(t, kw) {
        assert(s.len() - i == kw.len());
        assert(t =~= s.subrange(i, i + kw.len()));
    }
}

/// `s` begins with `p`, character for character.
pub open spec fn starts_with_spec(s: Seq<char>, p: Seq<char>) -> bool {
    p.len() <= s.len() && s.subrange(0, p.len() as int) == p
}

pub fn str_starts_with(s: &str, p: &str) -> (r: bool)
    ensures
        r == starts_with_spec(s@, p@),
{
    let n = s.unicode_len();
    let m = p.unicode_len();
    if m > n {
        return false;
    }
    let mut j: usize = 0;
    while j < m
        invariant
            0 <= j <= m,
            m == p@.len(),
            n == s@.len(),
            m <= n,
            forall|k: int| 0 <= k < j ==> s@[k] == p@[k],
        decreases m - j,
    {
        if s.get_char(j) != p.get_char(j) {
            assert(s@.subrange(0, p@.len() as int)[j as int] != p@[j as int]);
            return false;
        }
        j = j + 1;
    }
    proof {
        assert(s@.subrange(0, p@.len() as int) =~= p@);
    }
    true
}

} // verus!
