//! Text of attribute files: trailing whitespace, and numbers in base ten.

use vstd::prelude::*;
use vstd::string::*;

verus! {

/// Whether `c` has the Unicode property `White_Space`.
pub open spec fn whitespace(c: char) -> bool {
    ||| '\u{9}' <= c <= '\u{D}'
    ||| c == ' '
    ||| c == '\u{85}'
    ||| c == '\u{A0}'
    ||| c == '\u{1680}'
    ||| '\u{2000}' <= c <= '\u{200A}'
    ||| c == '\u{2028}'
    ||| c == '\u{2029}'
    ||| c == '\u{202F}'
    ||| c == '\u{205F}'
    ||| c == '\u{3000}'
}

/// Whether `s` holds nothing but whitespace.
pub open spec fn all_whitespace(s: Seq<char>) -> bool {
    forall|i: int| 0 <= i < s.len() ==> whitespace(#[trigger] s[i])
}

/// `s` without the whitespace at its end. Whitespace at its beginning stays.
pub open spec fn trim_end(s: Seq<char>) -> Seq<char>
    decreases s.len(),
{
    if s.len() > 0 && whitespace(s.last()) {
        trim_end(s.drop_last())
    } else {
        s
    }
}

/// Whether `c` is one of the ten digits `0` to `9`.
pub open spec fn digit(c: char) -> bool {
    '0' <= c <= '9'
}

/// The number that the digit `c` stands for.
pub open spec fn digit_value(c: char) -> nat {
    if digit(c) {
        (c as u32 - '0' as u32) as nat
    } else {
        0
    }
}

/// Whether `s` holds nothing but digits.
pub open spec fn all_digits(s: Seq<char>) -> bool {
    forall|i: int| 0 <= i < s.len() ==> digit(#[trigger] s[i])
}

/// The number that the digits `s` denote in base ten, the most significant first.
pub open spec fn digits_value(s: Seq<char>) -> nat
    decreases s.len(),
{
    if s.len() == 0 {
        0
    } else {
        digits_value(s.drop_last()) * 10 + digit_value(s.last())
    }
}

/// The number that `s` denotes without a sign: `s` is one or more digits and nothing
/// else.
pub open spec fn parse_unsigned(s: Seq<char>) -> Option<nat> {
    if s.len() > 0 && all_digits(s) {
        Some(digits_value(s))
    } else {
        None
    }
}

/// The number that `s` denotes: one or more digits, with or without a `+` or a `-`
/// before them, and nothing else.
pub open spec fn parse_signed(s: Seq<char>) -> Option<int> {
    if s.len() > 0 && s[0] == '-' {
        match parse_unsigned(s.skip(1)) {
            Some(v) => Some(-(v as int)),
            None => None,
        }
    } else if s.len() > 0 && s[0] == '+' {
        match parse_unsigned(s.skip(1)) {
            Some(v) => Some(v as int),
            None => None,
        }
    } else {
        match parse_unsigned(s) {
            Some(v) => Some(v as int),
            None => None,
        }
    }
}

/// The `i8` that `s` denotes, if it denotes a number and the number fits.
pub open spec fn parse_i8(s: Seq<char>) -> Option<i8> {
    match parse_signed(s) {
        Some(v) => if i8::MIN <= v <= i8::MAX {
            Some(v as i8)
        } else {
            None
        },
        None => None,
    }
}

/// The `u64` that `s` denotes, if it denotes a number and the number fits. A `-` is not
/// accepted, not even before zero.
pub open spec fn parse_u64(s: Seq<char>) -> Option<u64> {
    if s.len() > 0 && s[0] == '-' {
        None
    } else {
        match parse_signed(s) {
            Some(v) => if v <= u64::MAX {
                Some(v as u64)
            } else {
                None
            },
            None => None,
        }
    }
}

/// The digit that stands for `d`, for `d` below ten.
pub open spec fn digit_char(d: nat) -> char {
    ('0' as u32 + d) as char
}

/// `n` in base ten, without leading zeros; zero is `0`.
pub open spec fn decimal(n: nat) -> Seq<char>
    decreases n,
{
    if n < 10 {
        seq![digit_char(n)]
    } else {
        decimal(n / 10).push(digit_char(n % 10))
    }
}

/// `v` in base ten, with a `-` before it when it is negative.
pub open spec fn signed_decimal(v: int) -> Seq<char> {
    if v < 0 {
        seq!['-'] + decimal((-v) as nat)
    } else {
        decimal(v as nat)
    }
}

/// Whitespace added at the end of a text changes nothing of what trimming leaves.
pub proof fn lemma_trim_end_ignores_trailing(s: Seq<char>, ws: Seq<char>)
    requires
        all_whitespace(ws),
    ensures
        trim_end(s + ws) == trim_end(s),
    decreases ws.len(),
{
    if ws.len() > 0 {
        assert((s + ws).drop_last() == s + ws.drop_last());
        lemma_trim_end_ignores_trailing(s, ws.drop_last());
    }
}

/// Trimming leaves the beginning of a text, up to its last character that is no
/// whitespace. Nothing but whitespace is taken away.
pub proof fn lemma_trim_end_splits(s: Seq<char>)
    ensures
        trim_end(s).len() <= s.len(),
        trim_end(s) == s.take(trim_end(s).len() as int),
        all_whitespace(s.skip(trim_end(s).len() as int)),
        trim_end(s).len() > 0 ==> !whitespace(trim_end(s).last()),
    decreases s.len(),
{
    if s.len() > 0 && whitespace(s.last()) {
        lemma_trim_end_splits(s.drop_last());
        let n = trim_end(s).len() as int;
        assert forall|i: int| 0 <= i < s.skip(n).len() implies whitespace(
            #[trigger] s.skip(n)[i],
        ) by {
            if n + i < s.len() - 1 {
                assert(s.skip(n)[i] == s.drop_last().skip(n)[i]);
            }
        }
    }
}

/// Whitespace at the beginning of a text stays, so a text that begins with whitespace
/// denotes no number, whatever follows.
pub proof fn lemma_leading_whitespace_is_no_number(s: Seq<char>)
    requires
        s.len() > 0,
        whitespace(s[0]),
    ensures
        parse_i8(trim_end(s)) is None,
        parse_u64(trim_end(s)) is None,
{
    lemma_trim_end_splits(s);
}

/// A number written in base ten reads back as itself.
pub proof fn lemma_decimal_reads_back(n: nat)
    ensures
        parse_unsigned(decimal(n)) == Some(n),
    decreases n,
{
    let s = decimal(n);
    if n < 10 {
        assert(digits_value(s.drop_last()) == 0);
    } else {
        lemma_decimal_reads_back(n / 10);
        assert(s.drop_last() == decimal(n / 10));
    }
}

/// A number written in base ten with its sign reads back as itself.
pub proof fn lemma_signed_decimal_reads_back(v: int)
    ensures
        parse_signed(signed_decimal(v)) == Some(v),
{
    if v < 0 {
        lemma_decimal_reads_back((-v) as nat);
        assert(signed_decimal(v).skip(1) == decimal((-v) as nat));
    } else {
        lemma_decimal_reads_back(v as nat);
    }
}

/// The value of the first digits of `s` is no greater than the value of all of them.
proof fn lemma_digits_value_prefix(s: Seq<char>, i: int)
    requires
        0 <= i <= s.len(),
    ensures
        digits_value(s.take(i)) <= digits_value(s),
    decreases s.len(),
{
    if i == s.len() {
        assert(s.take(i) == s);
    } else {
        lemma_digits_value_prefix(s.drop_last(), i);
        assert(s.drop_last().take(i) == s.take(i));
    }
}

/// Tells whether `c` is whitespace.
pub fn is_whitespace(c: char) -> (r: bool)
    ensures
        r == whitespace(c),
{
    ('\u{9}' <= c && c <= '\u{D}') || c == ' ' || c == '\u{85}' || c == '\u{A0}' || c == '\u{1680}'
        || ('\u{2000}' <= c && c <= '\u{200A}') || c == '\u{2028}' || c == '\u{2029}' || c
        == '\u{202F}' || c == '\u{205F}' || c == '\u{3000}'
}

/// Takes the whitespace at the end of `s` away.
pub fn trim_trailing<'a>(s: &'a str) -> (r: &'a str)
    ensures
        r@ == trim_end(s@),
{
    let mut end: usize = s.unicode_len();
    assert(s@.take(end as int) == s@);
    while end > 0
        invariant_except_break
            end <= s@.len(),
            trim_end(s@) == trim_end(s@.take(end as int)),
        ensures
            end <= s@.len(),
            trim_end(s@) == s@.take(end as int),
        decreases end,
    {
        if !is_whitespace(s.get_char(end - 1)) {
            break;
        }
        assert(s@.take(end as int).drop_last() == s@.take(end - 1));
        end -= 1;
    }
    s.substring_char(0, end)
}

/// Reads `s` as a number without a sign that is no greater than `limit`.
fn read_digits(s: &str, limit: u64) -> (r: Option<u64>)
    ensures
        r == match parse_unsigned(s@) {
            Some(v) => if v <= limit {
                Some(v as u64)
            } else {
                None
            },
            None => None,
        },
{
    let mut value: u64 = 0;
    let mut seen: bool = false;
    for c in it: s.chars()
        invariant
            it.seq() == s@,
            all_digits(s@.take(it.index() as int)),
            value == digits_value(s@.take(it.index() as int)),
            value <= limit,
            seen == (it.index() > 0),
    {
        if !('0' <= c && c <= '9') {
            return None;
        }
        let d: u64 = (c as u32 - '0' as u32) as u64;
        let next: u128 = (value as u128) * 10 + (d as u128);
        proof {
            let k = it.index() as int;
            assert(s@.take(k + 1).drop_last() == s@.take(k));
            lemma_digits_value_prefix(s@, k + 1);
        }
        if next > limit as u128 {
            return None;
        }
        value = next as u64;
        seen = true;
    }
    assert(s@.take(s@.len() as int) == s@);
    if seen {
        Some(value)
    } else {
        None
    }
}

/// `s` without its first character.
fn after_first<'a>(s: &'a str) -> (r: &'a str)
    requires
        s@.len() > 0,
    ensures
        r@ == s@.skip(1),
{
    s.substring_char(1, s.unicode_len())
}

/// Reads `s` as an `i8`.
pub fn read_i8(s: &str) -> (r: Option<i8>)
    ensures
        r == parse_i8(s@),
{
    if s.is_empty() {
        return None;
    }
    let first: char = s.get_char(0);
    if first == '-' {
        match read_digits(after_first(s), 128) {
            Some(m) => Some((0 - (m as i16)) as i8),
            None => None,
        }
    } else if first == '+' {
        match read_digits(after_first(s), 127) {
            Some(m) => Some(m as i8),
            None => None,
        }
    } else {
        match read_digits(s, 127) {
            Some(m) => Some(m as i8),
            None => None,
        }
    }
}

/// Reads `s` as a `u64`.
pub fn read_u64(s: &str) -> (r: Option<u64>)
    ensures
        r == parse_u64(s@),
{
    if s.is_empty() {
        return None;
    }
    let first: char = s.get_char(0);
    if first == '-' {
        None
    } else if first == '+' {
        read_digits(after_first(s), u64::MAX)
    } else {
        read_digits(s, u64::MAX)
    }
}

/// The digit that stands for `d`, as a string.
fn digit_str(d: u64) -> (r: &'static str)
    requires
        d < 10,
    ensures
        r@ == seq![digit_char(d as nat)],
{
    proof {
        reveal_strlit("0");
        reveal_strlit("1");
        reveal_strlit("2");
        reveal_strlit("3");
        reveal_strlit("4");
        reveal_strlit("5");
        reveal_strlit("6");
        reveal_strlit("7");
        reveal_strlit("8");
        reveal_strlit("9");
    }
    let r = if d == 0 {
        "0"
    } else if d == 1 {
        "1"
    } else if d == 2 {
        "2"
    } else if d == 3 {
        "3"
    } else if d == 4 {
        "4"
    } else if d == 5 {
        "5"
    } else if d == 6 {
        "6"
    } else if d == 7 {
        "7"
    } else if d == 8 {
        "8"
    } else {
        "9"
    };
    r
}

/// Appends `n` in base ten to `out`.
pub fn push_decimal(out: &mut String, n: u64)
    ensures
        final(out)@ == old(out)@ + decimal(n as nat),
    decreases n,
{
    if n >= 10 {
        push_decimal(out, n / 10);
    }
    out.append(digit_str(n % 10));
}

/// Appends `v` in base ten to `out`, with a `-` before it when it is negative.
pub fn push_signed_decimal(out: &mut String, v: i64)
    ensures
        final(out)@ == old(out)@ + signed_decimal(v as int),
{
    if v < 0 {
        proof {
            reveal_strlit("-");
        }
        out.append("-");
        push_decimal(out, (0 - (v as i128)) as u64);
    } else {
        push_decimal(out, v as u64);
    }
}

} // verus!
