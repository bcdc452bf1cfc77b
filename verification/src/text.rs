//! Character-level helpers shared by every module: decimal rendering and
//! parsing, zero padding, whitespace trimming, substring tests, and the
//! conversions between `String` and `Vec<char>`.

use vstd::prelude::*;

verus! {

// ---------------------------------------------------------------------------
// Conversions
// ---------------------------------------------------------------------------

/// The characters of a string, in order.
pub fn chars_of(s: &str) -> (out: Vec<char>)
    ensures
        out@ == s@,
{
    let mut out: Vec<char> = Vec::new();
    for c in it: s.chars()
        invariant
            out@ == it.seq().take(it.index() as int),
            it.seq() == s@,
    {
        out.push(c);
    }
    out
}

/// `String: FromIterator<&char>`: the string made of these characters, in
/// order.
#[verifier::external_body]
pub(crate) fn string_of(cs: &[char]) -> (s: String)
    ensures
        s@ == cs@,
{
    cs.iter().collect()
}

/// Appends all of `tail` to `v`.
pub fn push_all(v: &mut Vec<char>, tail: &[char])
    ensures
        final(v)@ == old(v)@ + tail@,
{
    let mut i: usize = 0;
    while i < tail.len()
        invariant
            i <= tail.len(),
            v@ == old(v)@ + tail@.take(i as int),
        decreases tail.len() - i,
    {
        v.push(tail[i]);
        i += 1;
        assert(tail@.take(i as int) == tail@.take((i - 1) as int).push(tail@[i - 1]));
    }
    assert(tail@.take(tail.len() as int) == tail@);
}

/// Appends the characters of `s` to `v`.
pub fn push_str(v: &mut Vec<char>, s: &str)
    ensures
        final(v)@ == old(v)@ + s@,
{
    let cs = chars_of(s);
    push_all(v, cs.as_slice());
}

/// `str::to_lowercase`: the lowercase form of a string, as Unicode defines it.
pub uninterp spec fn spec_lowercase(s: Seq<char>) -> Seq<char>;

/// Every character is ASCII.
pub open spec fn all_ascii(s: Seq<char>) -> bool {
    forall|i: int| 0 <= i < s.len() ==> (#[trigger] s[i] as int) < 128
}

/// The Unicode lowercase mapping on ASCII: 'A'..='Z' to 'a'..='z', every
/// other ASCII character unchanged.
pub open spec fn ascii_lower(c: char) -> char {
    if 'A' <= c && c <= 'Z' {
        ((c as int) + 32) as char
    } else {
        c
    }
}

/// The Unicode uppercase mapping on ASCII: 'a'..='z' to 'A'..='Z', every
/// other ASCII character unchanged.
pub open spec fn ascii_upper(c: char) -> char {
    if 'a' <= c && c <= 'z' {
        ((c as int) - 32) as char
    } else {
        c
    }
}

/// `str::to_lowercase`. The result is named by `spec_lowercase` of the
/// input; of the Unicode case mapping only its ASCII part is stated: an
/// ASCII string has its letters lowered, one character for one.
#[verifier::external_body]
pub(crate) fn lowercase(s: &str) -> (out: String)
    ensures
        out@ == spec_lowercase(s@),
        all_ascii(s@) ==> out@ == s@.map_values(|c: char| ascii_lower(c)),
{
    s.to_lowercase()
}

/// `str::to_uppercase`: the uppercase form of a string, as Unicode defines it.
pub uninterp spec fn spec_uppercase(s: Seq<char>) -> Seq<char>;

/// `str::to_uppercase`. The result is named by `spec_uppercase` of the
/// input; of the Unicode case mapping only its ASCII part is stated: an
/// ASCII string has its letters raised, one character for one.
#[verifier::external_body]
pub(crate) fn uppercase(s: &str) -> (out: String)
    ensures
        out@ == spec_uppercase(s@),
        all_ascii(s@) ==> out@ == s@.map_values(|c: char| ascii_upper(c)),
{
    s.to_uppercase()
}

/// The text of the error `u64::from_str` reports for `s`.
pub uninterp spec fn spec_u64_parse_error(s: Seq<char>) -> Seq<char>;

/// `s.parse::<u64>()`, its error as text. It succeeds exactly on an
/// optional '+' followed by decimal digits whose value fits, with that
/// value; the error text is named by `spec_u64_parse_error`.
#[verifier::external_body]
pub(crate) fn u64_from_str(s: &str) -> (r: Result<u64, String>)
    ensures
        r matches Ok(v) ==> parse_unsigned(s@, u64::MAX as nat) == Some(v as nat),
        r matches Err(m) ==> parse_unsigned(s@, u64::MAX as nat) is None && m@ == spec_u64_parse_error(s@),
{
    match s.parse::<u64>() {
        Ok(v) => Ok(v),
        Err(e) => Err(e.to_string()),
    }
}

// ---------------------------------------------------------------------------
// Decimal digits
// ---------------------------------------------------------------------------

pub open spec fn is_digit(c: char) -> bool {
    '0' <= c && c <= '9'
}

pub open spec fn digit_value(c: char) -> nat {
    (c as int - '0' as int) as nat
}

pub open spec fn digit_char(d: nat) -> char
    recommends
        d < 10,
{
    (d + 48) as char
}

/// Decimal rendering of a natural number, without leading zeros.
pub open spec fn dec(n: nat) -> Seq<char>
    decreases n,
{
    if n < 10 {
        seq![digit_char(n)]
    } else {
        dec(n / 10).push(digit_char(n % 10))
    }
}

/// Decimal rendering of an integer: a '-' before the digits when negative.
pub open spec fn dec_int(n: int) -> Seq<char> {
    if n < 0 {
        seq!['-'] + dec((-n) as nat)
    } else {
        dec(n as nat)
    }
}

pub open spec fn all_digits(s: Seq<char>) -> bool {
    forall|i: int| 0 <= i < s.len() ==> is_digit(#[trigger] s[i])
}

/// Value of a sequence of decimal digits.
pub open spec fn digits_value(s: Seq<char>) -> nat
    decreases s.len(),
{
    if s.len() == 0 {
        0
    } else {
        digits_value(s.drop_last()) * 10 + digit_value(s.last())
    }
}

/// The digits part of an unsigned number: the text after an optional '+'.
pub open spec fn unsigned_body(s: Seq<char>) -> Seq<char> {
    if s.len() > 0 && s[0] == '+' {
        s.drop_first()
    } else {
        s
    }
}

/// What `u32::from_str` / `u64::from_str` accept: an optional '+', then one
/// or more ASCII digits whose value is at most `max`.
pub open spec fn parse_unsigned(s: Seq<char>, max: nat) -> Option<nat> {
    let body = unsigned_body(s);
    if body.len() > 0 && all_digits(body) && digits_value(body) <= max {
        Some(digits_value(body))
    } else {
        None
    }
}

fn digit(d: u64) -> (c: char)
    requires
        d < 10,
    ensures
        c == digit_char(d as nat),
{
    let b: u8 = 48 + (d as u8);
    b as char
}

/// Decimal digits of `n`.
pub fn u64_digits(n: u64) -> (out: Vec<char>)
    ensures
        out@ == dec(n as nat),
    decreases n,
{
    if n < 10 {
        let mut v: Vec<char> = Vec::new();
        v.push(digit(n));
        v
    } else {
        let mut v = u64_digits(n / 10);
        v.push(digit(n % 10));
        v
    }
}

/// Decimal rendering of a signed integer (`i64: Display`).
pub fn i64_digits(n: i64) -> (out: Vec<char>)
    ensures
        out@ == dec_int(n as int),
{
    if n < 0 {
        let mut v: Vec<char> = Vec::new();
        v.push('-');
        let mag: u64 = if n == i64::MIN {
            9223372036854775808u64
        } else {
            (-n) as u64
        };
        let d = u64_digits(mag);
        push_all(&mut v, d.as_slice());
        v
    } else {
        u64_digits(n as u64)
    }
}

/// `{:0w}` applied to an integer: zeros are inserted after the sign until
/// the text is `width` characters long.
pub open spec fn zero_pad(n: int, width: nat) -> Seq<char> {
    let mag = if n < 0 { dec((-n) as nat) } else { dec(n as nat) };
    let sign: Seq<char> = if n < 0 { seq!['-'] } else { seq![] };
    let fill: int = width - sign.len() - mag.len();
    sign + Seq::new(if fill > 0 { fill as nat } else { 0 }, |i: int| '0') + mag
}

/// `format!("{:0width$}", n)`.
pub fn padded(n: i64, width: usize) -> (out: Vec<char>)
    ensures
        out@ == zero_pad(n as int, width as nat),
{
    let mag: u64 = if n < 0 {
        if n == i64::MIN {
            9223372036854775808u64
        } else {
            (-n) as u64
        }
    } else {
        n as u64
    };
    let digits = u64_digits(mag);
    let mut out: Vec<char> = Vec::new();
    let sign_len: usize = if n < 0 {
        out.push('-');
        1
    } else {
        0
    };
    let ghost sign = out@;
    let fill: usize = if width > sign_len && width - sign_len > digits.len() {
        width - sign_len - digits.len()
    } else {
        0
    };
    let mut i: usize = 0;
    while i < fill
        invariant
            i <= fill,
            out@ == sign + Seq::new(i as nat, |k: int| '0'),
        decreases fill - i,
    {
        out.push('0');
        i += 1;
        assert(out@ =~= sign + Seq::new(i as nat, |k: int| '0'));
    }
    push_all(&mut out, digits.as_slice());
    assert(out@ =~= zero_pad(n as int, width as nat));
    out
}

// ---------------------------------------------------------------------------
// Parsing
// ---------------------------------------------------------------------------

proof fn lemma_digits_value_prefix(s: Seq<char>, k: int)
    requires
        0 <= k <= s.len(),
    ensures
        digits_value(s.take(k)) <= digits_value(s),
    decreases s.len(),
{
    if k < s.len() {
        assert(s.drop_last().take(k) == s.take(k));
        lemma_digits_value_prefix(s.drop_last(), k);
    } else {
        assert(s.take(k) == s);
    }
}

/// Parses an unsigned decimal as `u32::from_str` / `u64::from_str` do,
/// accepting values up to `max`.
pub fn parse_unsigned_exec(s: &[char], max: u64) -> (r: Option<u64>)
    ensures
        r matches Some(v) ==> parse_unsigned(s@, max as nat) == Some(v as nat),
        r is None ==> parse_unsigned(s@, max as nat) is None,
{
    let start: usize = if s.len() > 0 && s[0] == '+' {
        1
    } else {
        0
    };
    let ghost body = unsigned_body(s@);
    assert(body == s@.subrange(start as int, s@.len() as int));
    if start >= s.len() {
        return None;
    }
    let mut acc: u64 = 0;
    let mut i: usize = start;
    while i < s.len()
        invariant
            start <= i <= s.len(),
            body == unsigned_body(s@),
            body == s@.subrange(start as int, s@.len() as int),
            all_digits(body.take(i - start)),
            acc as nat == digits_value(body.take(i - start)),
            acc <= max,
        decreases s.len() - i,
    {
        let c = s[i];
        if !('0' <= c && c <= '9') {
            assert(body[i - start] == c);
            assert(!is_digit(body[i - start]));
            return None;
        }
        let d: u64 = (c as u32 - 48) as u64;
        assert(body.take(i + 1 - start).drop_last() == body.take(i - start));
        assert(body.take(i + 1 - start).last() == c);
        assert(digits_value(body.take(i + 1 - start)) == acc * 10 + d);
        if d > max {
            proof {
                if all_digits(body) {
                    lemma_digits_value_prefix(body, i + 1 - start);
                }
            }
            return None;
        }
        if acc > (max - d) / 10 {
            proof {
                assert(acc * 10 + d > max) by (nonlinear_arith)
                    requires
                        acc > (max - d) / 10,
                        d <= max,
                ;
                if all_digits(body) {
                    lemma_digits_value_prefix(body, i + 1 - start);
                }
            }
            return None;
        }
        assert(acc * 10 + d <= max) by (nonlinear_arith)
            requires
                acc <= (max - d) / 10,
                d <= max,
        ;
        acc = acc * 10 + d;
        i += 1;
    }
    assert(body.take(s.len() - start) == body);
    Some(acc)
}

/// `digits_value` undoes `dec`.
pub proof fn lemma_dec_parses(n: nat)
    ensures
        all_digits(dec(n)),
        dec(n).len() > 0,
        digits_value(dec(n)) == n,
        dec(n)[0] != '+',
    decreases n,
{
    lemma_digit_char(n % 10);
    if n >= 10 {
        lemma_dec_parses(n / 10);
        assert(dec(n).drop_last() == dec(n / 10));
        assert(dec(n).last() == digit_char(n % 10));
        assert(dec(n)[0] == dec(n / 10)[0]);
        assert(digits_value(dec(n)) == digits_value(dec(n / 10)) * 10 + n % 10);
    } else {
        assert(dec(n).drop_last() =~= Seq::<char>::empty());
        assert(dec(n).last() == digit_char(n));
        assert(digits_value(dec(n)) == digits_value(Seq::<char>::empty()) * 10 + n);
    }
}

proof fn lemma_digit_char(d: nat)
    requires
        d < 10,
    ensures
        is_digit(digit_char(d)),
        digit_value(digit_char(d)) == d,
        digit_char(d) != '+',
{
}

/// A padded number starts with a digit when it is not negative, and with
/// a digit or '-' either way.
pub proof fn lemma_zero_pad_first(n: int, width: nat)
    ensures
        zero_pad(n, width).len() > 0,
        n >= 0 ==> is_digit(zero_pad(n, width)[0]),
        is_digit(zero_pad(n, width)[0]) || zero_pad(n, width)[0] == '-',
{
    let mag = if n < 0 { dec((-n) as nat) } else { dec(n as nat) };
    if n < 0 {
        lemma_dec_parses((-n) as nat);
    } else {
        lemma_dec_parses(n as nat);
        assert(is_digit(mag[0]));
    }
}

/// Decimal text starts with a digit, or with '-' when negative.
pub proof fn lemma_dec_int_first(n: int)
    ensures
        dec_int(n).len() > 0,
        is_digit(dec_int(n)[0]) || dec_int(n)[0] == '-',
{
    if n < 0 {
        lemma_dec_parses((-n) as nat);
    } else {
        lemma_dec_parses(n as nat);
        assert(is_digit(dec(n as nat)[0]));
    }
}

/// Two digits with the same value are the same character.
pub proof fn lemma_digit_eq(a: char, b: char)
    requires
        is_digit(a),
        is_digit(b),
        digit_value(a) == digit_value(b),
    ensures
        a == b,
{
}

/// Two digit strings of one length and one value are equal.
pub proof fn lemma_digits_unique(a: Seq<char>, b: Seq<char>)
    requires
        all_digits(a),
        all_digits(b),
        a.len() == b.len(),
        digits_value(a) == digits_value(b),
    ensures
        a == b,
    decreases a.len(),
{
    if a.len() > 0 {
        let (pa, pb) = (a.drop_last(), b.drop_last());
        assert(is_digit(a[a.len() - 1]) && is_digit(b[b.len() - 1]));
        assert(digits_value(a) == digits_value(pa) * 10 + digit_value(a.last()));
        assert(digits_value(b) == digits_value(pb) * 10 + digit_value(b.last()));
        assert(digit_value(a.last()) == digit_value(b.last()));
        lemma_digit_eq(a.last(), b.last());
        assert(all_digits(pa)) by {
            assert forall|i: int| 0 <= i < pa.len() implies is_digit(#[trigger] pa[i]) by {
                assert(pa[i] == a[i]);
            }
        }
        assert(all_digits(pb)) by {
            assert forall|i: int| 0 <= i < pb.len() implies is_digit(#[trigger] pb[i]) by {
                assert(pb[i] == b[i]);
            }
        }
        lemma_digits_unique(pa, pb);
        assert(a =~= pa.push(a.last()));
        assert(b =~= pb.push(b.last()));
    }
}

/// A number renders and then parses back to itself.
pub proof fn lemma_dec_roundtrip(n: nat, max: nat)
    requires
        n <= max,
    ensures
        parse_unsigned(dec(n), max) == Some(n),
{
    lemma_dec_parses(n);
}

// ---------------------------------------------------------------------------
// Searching
// ---------------------------------------------------------------------------

pub open spec fn is_prefix(p: Seq<char>, s: Seq<char>) -> bool {
    p.len() <= s.len() && s.take(p.len() as int) == p
}

/// `needle` occurs in `s` as a contiguous run.
pub open spec fn contains_seq(s: Seq<char>, needle: Seq<char>) -> bool {
    exists|i: int| 0 <= i && i + needle.len() <= s.len() && #[trigger] s.subrange(i, i + needle.len()) == needle
}

pub fn starts_with(s: &[char], prefix: &[char]) -> (r: bool)
    ensures
        r == is_prefix(prefix@, s@),
{
    if prefix.len() > s.len() {
        return false;
    }
    let mut i: usize = 0;
    while i < prefix.len()
        invariant
            i <= prefix.len() <= s.len(),
            s@.take(i as int) == prefix@.take(i as int),
        decreases prefix.len() - i,
    {
        if s[i] != prefix[i] {
            assert(s@.take(prefix.len() as int)[i as int] != prefix@[i as int]);
            return false;
        }
        i += 1;
        assert(s@.take(i as int) =~= prefix@.take(i as int));
    }
    assert(prefix@.take(prefix.len() as int) == prefix@);
    true
}

fn matches_at(s: &[char], needle: &[char], at: usize) -> (r: bool)
    requires
        at + needle.len() <= s.len(),
    ensures
        r == (s@.subrange(at as int, at + needle.len()) == needle@),
{
    let mut i: usize = 0;
    while i < needle.len()
        invariant
            i <= needle.len(),
            at + needle.len() <= s.len(),
            s@.subrange(at as int, at + i) == needle@.take(i as int),
        decreases needle.len() - i,
    {
        if s[at + i] != needle[i] {
            assert(s@.subrange(at as int, at + needle.len())[i as int] != needle@[i as int]);
            return false;
        }
        i += 1;
        assert(s@.subrange(at as int, at + i) =~= needle@.take(i as int));
    }
    assert(needle@.take(needle.len() as int) == needle@);
    true
}

/// `str::contains` for a string pattern.
pub fn contains(s: &[char], needle: &[char]) -> (r: bool)
    ensures
        r == contains_seq(s@, needle@),
{
    if needle.len() > s.len() {
        return false;
    }
    if needle.len() == 0 {
        assert(s@.subrange(0int, 0int + needle@.len()) =~= needle@);
        return true;
    }
    let mut at: usize = 0;
    while at <= s.len() - needle.len()
        invariant
            0 < needle.len() <= s.len(),
            at <= s.len() - needle.len() + 1,
            forall|j: int| 0 <= j < at ==> #[trigger] s@.subrange(j, j + needle.len()) != needle@,
        decreases s.len() - needle.len() + 1 - at,
    {
        if matches_at(s, needle, at) {
            return true;
        }
        at += 1;
    }
    false
}

// ---------------------------------------------------------------------------
// Whitespace
// ---------------------------------------------------------------------------

/// The Unicode `White_Space` property, which `char::is_whitespace` and
/// `str::trim` follow.
pub open spec fn is_ws(c: char) -> bool {
    ||| ('\u{9}' <= c && c <= '\u{d}')
    ||| c == ' '
    ||| c == '\u{85}'
    ||| c == '\u{a0}'
    ||| c == '\u{1680}'
    ||| ('\u{2000}' <= c && c <= '\u{200a}')
    ||| c == '\u{2028}'
    ||| c == '\u{2029}'
    ||| c == '\u{202f}'
    ||| c == '\u{205f}'
    ||| c == '\u{3000}'
}

pub fn is_ws_exec(c: char) -> (r: bool)
    ensures
        r == is_ws(c),
{
    ('\u{9}' <= c && c <= '\u{d}') || c == ' ' || c == '\u{85}' || c == '\u{a0}' || c == '\u{1680}'
        || ('\u{2000}' <= c && c <= '\u{200a}') || c == '\u{2028}' || c == '\u{2029}' || c
        == '\u{202f}' || c == '\u{205f}' || c == '\u{3000}'
}

/// Number of whitespace characters at the front of `s`.
pub open spec fn lead_ws(s: Seq<char>) -> nat
    decreases s.len(),
{
    if s.len() > 0 && is_ws(s[0]) {
        1 + lead_ws(s.drop_first())
    } else {
        0
    }
}

/// Number of whitespace characters at the back of `s`.
pub open spec fn trail_ws(s: Seq<char>) -> nat
    decreases s.len(),
{
    if s.len() > 0 && is_ws(s.last()) {
        1 + trail_ws(s.drop_last())
    } else {
        0
    }
}

/// `str::trim`: `s` without its leading and trailing whitespace.
pub open spec fn trim(s: Seq<char>) -> Seq<char> {
    let front = lead_ws(s);
    let rest = s.skip(front as int);
    rest.take(rest.len() - trail_ws(rest))
}

proof fn lemma_lead_ws(s: Seq<char>, k: int)
    requires
        0 <= k <= s.len(),
        forall|i: int| 0 <= i < k ==> is_ws(#[trigger] s[i]),
    ensures
        lead_ws(s) >= k,
        lead_ws(s) <= s.len(),
        k < s.len() && !is_ws(s[k]) ==> lead_ws(s) == k,
        k == s.len() ==> lead_ws(s) == k,
    decreases k,
{
    if k > 0 {
        lemma_lead_ws(s.drop_first(), k - 1);
    } else {
        lemma_lead_ws_bound(s);
    }
}

proof fn lemma_lead_ws_bound(s: Seq<char>)
    ensures
        lead_ws(s) <= s.len(),
    decreases s.len(),
{
    if s.len() > 0 && is_ws(s[0]) {
        lemma_lead_ws_bound(s.drop_first());
    }
}

proof fn lemma_trail_ws(s: Seq<char>, k: int)
    requires
        0 <= k <= s.len(),
        forall|i: int| s.len() - k <= i < s.len() ==> is_ws(#[trigger] s[i]),
    ensures
        trail_ws(s) >= k,
        trail_ws(s) <= s.len(),
        k < s.len() && !is_ws(s[s.len() - 1 - k]) ==> trail_ws(s) == k,
        k == s.len() ==> trail_ws(s) == k,
    decreases k,
{
    if k > 0 {
        let t = s.drop_last();
        assert forall|i: int| t.len() - (k - 1) <= i < t.len() implies is_ws(#[trigger] t[i]) by {
            assert(t[i] == s[i]);
        }
        lemma_trail_ws(t, k - 1);
        if k < s.len() {
            assert(t[t.len() - 1 - (k - 1)] == s[s.len() - 1 - k]);
        }
    } else {
        lemma_trail_ws_bound(s);
    }
}

proof fn lemma_trail_ws_bound(s: Seq<char>)
    ensures
        trail_ws(s) <= s.len(),
    decreases s.len(),
{
    if s.len() > 0 && is_ws(s.last()) {
        lemma_trail_ws_bound(s.drop_last());
    }
}

/// `s.trim()`, as characters.
pub fn trim_chars(s: &[char]) -> (out: Vec<char>)
    ensures
        out@ == trim(s@),
{
    let n = s.len();
    let mut a: usize = 0;
    while a < n && is_ws_exec(s[a])
        invariant
            a <= n == s.len(),
            forall|i: int| 0 <= i < a ==> is_ws(#[trigger] s@[i]),
        decreases n - a,
    {
        a += 1;
    }
    proof {
        lemma_lead_ws(s@, a as int);
    }
    let ghost rest = s@.skip(a as int);
    let mut b: usize = n;
    while b > a && is_ws_exec(s[b - 1])
        invariant
            a <= b <= n == s.len(),
            rest == s@.skip(a as int),
            forall|i: int| b <= i < n ==> is_ws(#[trigger] s@[i]),
        decreases b,
    {
        b -= 1;
    }
    proof {
        assert forall|i: int| rest.len() - (n - b) <= i < rest.len() implies is_ws(#[trigger] rest[i]) by {
            assert(rest[i] == s@[a + i]);
        }
        lemma_trail_ws(rest, (n - b) as int);
        if b > a {
            assert(rest[rest.len() - 1 - (n - b)] == s@[b - 1]);
        }
    }
    let mut out: Vec<char> = Vec::new();
    let mut i: usize = a;
    while i < b
        invariant
            a <= i <= b <= n == s.len(),
            out@ == s@.subrange(a as int, i as int),
        decreases b - i,
    {
        out.push(s[i]);
        i += 1;
        assert(out@ =~= s@.subrange(a as int, i as int));
    }
    assert(out@ =~= trim(s@));
    out
}

// ---------------------------------------------------------------------------
// Ordering
// ---------------------------------------------------------------------------

/// Lexicographic `<` on character sequences, as `String` orders them.
pub open spec fn seq_lt(a: Seq<char>, b: Seq<char>) -> bool
    decreases a.len(),
{
    if a.len() == 0 {
        b.len() > 0
    } else if b.len() == 0 {
        false
    } else if a[0] != b[0] {
        (a[0] as int) < (b[0] as int)
    } else {
        seq_lt(a.drop_first(), b.drop_first())
    }
}

/// `a < b` for strings (byte order of UTF-8 is code point order).
pub fn chars_lt(a: &[char], b: &[char]) -> (r: bool)
    ensures
        r == seq_lt(a@, b@),
{
    let mut i: usize = 0;
    assert(a@.skip(0) =~= a@);
    assert(b@.skip(0) =~= b@);
    while i < a.len() && i < b.len()
        invariant
            i <= a.len(),
            i <= b.len(),
            a@.take(i as int) == b@.take(i as int),
            seq_lt(a@, b@) == seq_lt(a@.skip(i as int), b@.skip(i as int)),
        decreases a.len() - i,
    {
        if a[i] != b[i] {
            proof {
                assert(a@.skip(i as int)[0] == a@[i as int]);
                assert(b@.skip(i as int)[0] == b@[i as int]);
            }
            return a[i] < b[i];
        }
        proof {
            assert(a@.skip(i as int).drop_first() == a@.skip(i + 1));
            assert(b@.skip(i as int).drop_first() == b@.skip(i + 1));
            assert(a@.take(i + 1) =~= b@.take(i + 1));
        }
        i += 1;
    }
    i < b.len()
}


/// Nothing is below itself.
pub proof fn lemma_seq_lt_irreflexive(a: Seq<char>)
    ensures
        !seq_lt(a, a),
    decreases a.len(),
{
    if a.len() > 0 {
        lemma_seq_lt_irreflexive(a.drop_first());
    }
}

/// The text order is transitive.
pub proof fn lemma_seq_lt_trans(a: Seq<char>, b: Seq<char>, c: Seq<char>)
    requires
        seq_lt(a, b),
        seq_lt(b, c),
    ensures
        seq_lt(a, c),
    decreases a.len(),
{
    if a.len() > 0 && b.len() > 0 && c.len() > 0 && a[0] == b[0] && b[0] == c[0] {
        lemma_seq_lt_trans(a.drop_first(), b.drop_first(), c.drop_first());
    }
}

/// Two texts are equal or one is below the other.
pub proof fn lemma_seq_lt_total(a: Seq<char>, b: Seq<char>)
    ensures
        a == b || seq_lt(a, b) || seq_lt(b, a),
    decreases a.len(),
{
    if a.len() == 0 && b.len() == 0 {
        assert(a =~= b);
    } else if a.len() > 0 && b.len() > 0 && a[0] == b[0] {
        lemma_seq_lt_total(a.drop_first(), b.drop_first());
        if a.drop_first() == b.drop_first() {
            assert(a =~= seq![a[0]] + a.drop_first());
            assert(b =~= seq![b[0]] + b.drop_first());
        }
    } else if a.len() > 0 && b.len() > 0 {
        assert((a[0] as int) != (b[0] as int));
    }
}

/// At most one of `a < b` and `b < a` holds.
pub proof fn lemma_seq_lt_asym(a: Seq<char>, b: Seq<char>)
    requires
        seq_lt(a, b),
    ensures
        !seq_lt(b, a),
        a != b,
{
    lemma_seq_lt_irreflexive(a);
    if seq_lt(b, a) {
        lemma_seq_lt_trans(a, b, a);
    }
}

/// `{:02}` of a number below 100 is its two digits.
pub proof fn lemma_zero_pad_two(n: int)
    requires
        0 <= n < 100,
    ensures
        zero_pad(n, 2).len() == 2,
        is_digit(zero_pad(n, 2)[0]),
        is_digit(zero_pad(n, 2)[1]),
        digit_value(zero_pad(n, 2)[0]) * 10 + digit_value(zero_pad(n, 2)[1]) == n,
{
    let z = zero_pad(n, 2);
    if n < 10 {
        lemma_digit_char(n as nat);
        assert(dec(n as nat) == seq![digit_char(n as nat)]);
        assert(z =~= seq!['0', digit_char(n as nat)]);
    } else {
        lemma_digit_char((n / 10) as nat);
        lemma_digit_char((n % 10) as nat);
        assert(dec((n / 10) as nat) == seq![digit_char((n / 10) as nat)]);
        assert(dec(n as nat) == dec((n / 10) as nat).push(digit_char((n % 10) as nat)));
        assert(z =~= seq![digit_char((n / 10) as nat), digit_char((n % 10) as nat)]);
    }
}

/// A four-digit number renders as four digits.
pub proof fn lemma_dec_four(n: nat)
    requires
        1000 <= n <= 9999,
    ensures
        dec(n).len() == 4,
        all_digits(dec(n)),
        digits_value(dec(n)) == n,
{
    lemma_dec_parses(n);
    assert(dec(n / 10 / 10 / 10).len() == 1);
    assert(dec(n / 10 / 10).len() == 2);
    assert(dec(n / 10).len() == 3);
}

} // verus!
