//! Character-level helpers shared by the string-handling code: the characters
//! of a string, string equality, whitespace trimming and decimal numbers.

use vstd::prelude::*;

verus! {

broadcast use vstd::string::group_string_axioms;

/// The characters of each string.
pub open spec fn string_views(v: Seq<String>) -> Seq<Seq<char>> {
    v.map_values(|s: String| s@)
}

/// The characters of `s`, in order.
pub fn chars_of(s: &str) -> (r: Vec<char>)
    ensures
        r@ == s@,
{
    let mut out: Vec<char> = Vec::new();
    for c in it: s.chars()
        invariant
            out@ == it.seq().take(it.index() as int),
            it.seq() == s@,
    {
        out.push(c);
    }
    out
}

/// Whether two character sequences are equal.
pub fn chars_eq(a: &[char], b: &[char]) -> (r: bool)
    ensures
        r == (a@ == b@),
{
    if a.len() != b.len() {
        return false;
    }
    let mut i: usize = 0;
    while i < a.len()
        invariant
            a@.len() == b@.len(),
            i <= a@.len(),
            forall|k: int| 0 <= k < i ==> a@[k] == b@[k],
        decreases a@.len() - i,
    {
        if a[i] != b[i] {
            return false;
        }
        i = i + 1;
    }
    assert(a@ =~= b@);
    true
}

/// Whether two strings hold the same characters.
pub fn str_eq(a: &str, b: &str) -> (r: bool)
    ensures
        r == (a@ == b@),
{
    let ca = chars_of(a);
    let cb = chars_of(b);
    chars_eq(ca.as_slice(), cb.as_slice())
}

/// Whether `c` is an ASCII decimal digit.
pub open spec fn is_digit(c: char) -> bool {
    '0' <= c && c <= '9'
}

/// Whether every character of `s` is an ASCII decimal digit.
pub open spec fn all_digits(s: Seq<char>) -> bool {
    forall|k: int| 0 <= k < s.len() ==> is_digit(#[trigger] s[k])
}

/// The value of one decimal digit.
pub open spec fn digit_value(c: char) -> nat {
    (c as nat - '0' as nat) as nat
}

/// The value of a run of decimal digits, most significant first.
pub open spec fn decimal_value(s: Seq<char>) -> nat
    decreases s.len(),
{
    if s.len() == 0 {
        0
    } else {
        decimal_value(s.drop_last()) * 10 + digit_value(s.last())
    }
}

/// A run of digits is worth at least as much as each of its prefixes.
pub proof fn lemma_decimal_value_prefix(s: Seq<char>, k: int)
    requires
        0 <= k <= s.len(),
        all_digits(s),
    ensures
        decimal_value(s.take(k)) <= decimal_value(s),
    decreases s.len(),
{
    if k < s.len() {
        assert(s.drop_last().take(k) =~= s.take(k));
        lemma_decimal_value_prefix(s.drop_last(), k);
    } else {
        assert(s.take(k) =~= s);
    }
}

/// Unfolding `decimal_value` one digit at a time, from the front.
proof fn lemma_decimal_value_step(s: Seq<char>, i: int)
    requires
        0 <= i < s.len(),
    ensures
        decimal_value(s.take(i + 1)) == decimal_value(s.take(i)) * 10 + digit_value(s[i]),
{
    assert(s.take(i + 1).drop_last() =~= s.take(i));
}

/// The integer that a decimal numeral denotes, as Rust's `str::parse::<i32>`
/// reads it: an optional `+` or `-`, then one or more ASCII digits, with the
/// value in the range of `i32`; `None` for anything else.
pub open spec fn spec_parse_i32(s: Seq<char>) -> Option<i32> {
    let signed = s.len() > 0 && (s[0] == '+' || s[0] == '-');
    let negative = s.len() > 0 && s[0] == '-';
    let digits = if signed { s.drop_first() } else { s };
    let magnitude = decimal_value(digits) as int;
    let value = if negative { -magnitude } else { magnitude };
    if digits.len() > 0 && all_digits(digits) && i32::MIN <= value <= i32::MAX {
        Some(value as i32)
    } else {
        None
    }
}

/// Reads a decimal `i32`, as `str::parse::<i32>` does.
pub fn parse_i32(s: &[char]) -> (r: Option<i32>)
    ensures
        r == spec_parse_i32(s@),
{
    let n = s.len();
    let negative = n > 0 && s[0] == '-';
    let start: usize = if n > 0 && (s[0] == '+' || s[0] == '-') { 1 } else { 0 };
    let ghost digits = if start == 1 { s@.drop_first() } else { s@ };
    assert(digits =~= s@.subrange(start as int, n as int));
    if start == n {
        return None;
    }
    let mut acc: u64 = 0;
    let mut i: usize = start;
    while i < n
        invariant
            start <= i <= n,
            n == s@.len(),
            digits =~= s@.subrange(start as int, n as int),
            all_digits(digits.take(i - start)),
            acc == decimal_value(digits.take(i - start)),
            acc <= 2147483648,
            digits == (if s@.len() > 0 && (s@[0] == '+' || s@[0] == '-') {
                s@.drop_first()
            } else {
                s@
            }),
            negative == (s@.len() > 0 && s@[0] == '-'),
        decreases n - i,
    {
        let c = s[i];
        if !('0' <= c && c <= '9') {
            assert(digits[i - start] == c);
            assert(!all_digits(digits));
            return None;
        }
        proof {
            lemma_decimal_value_step(digits, i - start);
            assert(digits.take(i - start + 1) =~= digits.take(i - start).push(c));
        }
        assert(acc * 10 <= 2147483648 * 10) by (nonlinear_arith)
            requires
                acc <= 2147483648,
        ;
        let d: u64 = (c as u64) - 48;
        acc = acc * 10 + d;
        i = i + 1;
        if acc > 2147483648 {
            proof {
                if all_digits(digits) {
                    lemma_decimal_value_prefix(digits, i - start);
                }
            }
            return None;
        }
    }
    assert(digits.take(n - start) =~= digits);
    if negative {
        Some((0 - acc as i64) as i32)
    } else if acc <= 2147483647 {
        Some(acc as i32)
    } else {
        None
    }
}

/// Unicode's `White_Space` property: the characters `str::trim` removes.
pub open spec fn is_white_space(c: char) -> bool {
    ||| ('\u{0009}' <= c && c <= '\u{000D}')
    ||| c == ' '
    ||| c == '\u{0085}'
    ||| c == '\u{00A0}'
    ||| c == '\u{1680}'
    ||| ('\u{2000}' <= c && c <= '\u{200A}')
    ||| c == '\u{2028}'
    ||| c == '\u{2029}'
    ||| c == '\u{202F}'
    ||| c == '\u{205F}'
    ||| c == '\u{3000}'
}

fn white_space(c: char) -> (r: bool)
    ensures
        r == is_white_space(c),
{
    ('\u{0009}' <= c && c <= '\u{000D}') || c == ' ' || c == '\u{0085}' || c == '\u{00A0}'
        || c == '\u{1680}' || ('\u{2000}' <= c && c <= '\u{200A}') || c == '\u{2028}'
        || c == '\u{2029}' || c == '\u{202F}' || c == '\u{205F}' || c == '\u{3000}'
}

/// `r` is `s` with its leading and trailing white space removed: the part of
/// `s` between its first and last character that is not white space, or
/// nothing when all of `s` is white space.
pub open spec fn is_trim_of(r: Seq<char>, s: Seq<char>) -> bool {
    exists|i: int, j: int|
        {
            &&& 0 <= i <= j <= s.len()
            &&& r == s.subrange(i, j)
            &&& forall|k: int| 0 <= k < i ==> is_white_space(#[trigger] s[k])
            &&& forall|k: int| j <= k < s.len() ==> is_white_space(#[trigger] s[k])
            &&& (i < j ==> !is_white_space(s[i]) && !is_white_space(s[j - 1]))
        }
}

/// There is only one trim of a string.
pub proof fn lemma_trim_unique(r1: Seq<char>, r2: Seq<char>, s: Seq<char>)
    requires
        is_trim_of(r1, s),
        is_trim_of(r2, s),
    ensures
        r1 == r2,
{
    let (i1, j1) = choose|i: int, j: int|
        {
            &&& 0 <= i <= j <= s.len()
            &&& r1 == s.subrange(i, j)
            &&& forall|k: int| 0 <= k < i ==> is_white_space(#[trigger] s[k])
            &&& forall|k: int| j <= k < s.len() ==> is_white_space(#[trigger] s[k])
            &&& (i < j ==> !is_white_space(s[i]) && !is_white_space(s[j - 1]))
        };
    let (i2, j2) = choose|i: int, j: int|
        {
            &&& 0 <= i <= j <= s.len()
            &&& r2 == s.subrange(i, j)
            &&& forall|k: int| 0 <= k < i ==> is_white_space(#[trigger] s[k])
            &&& forall|k: int| j <= k < s.len() ==> is_white_space(#[trigger] s[k])
            &&& (i < j ==> !is_white_space(s[i]) && !is_white_space(s[j - 1]))
        };
    if i1 < j1 && i2 < j2 {
        assert(i1 == i2 && j1 == j2) by {
            if i1 < i2 { assert(is_white_space(s[i1])); }
            if i2 < i1 { assert(is_white_space(s[i2])); }
            if j1 < j2 { assert(is_white_space(s[j2 - 1])); }
            if j2 < j1 { assert(is_white_space(s[j1 - 1])); }
        }
    } else if i1 < j1 {
        assert(is_white_space(s[i1])) by {
            if i1 >= j2 { } else { assert(i1 < i2); }
        }
    } else if i2 < j2 {
        assert(is_white_space(s[i2])) by {
            if i2 >= j1 { } else { assert(i2 < i1); }
        }
    } else {
        assert(r1 =~= r2);
    }
}

/// The white space `trim` removes is exactly Unicode's `White_Space` set, the
/// twenty-five code points U+0009 to U+000D (tab, line feed, vertical tab,
/// form feed, carriage return), U+0020, U+0085, U+00A0, U+1680, U+2000 to
/// U+200A, U+2028, U+2029, U+202F, U+205F and U+3000.
pub proof fn lemma_white_space_is_unicode_white_space(c: char)
    ensures
        is_white_space(c) <==> {
            let u = c as u32;
            ||| u == 9 || u == 10 || u == 11 || u == 12 || u == 13
            ||| u == 32 || u == 133 || u == 160 || u == 5760
            ||| u == 8192 || u == 8193 || u == 8194 || u == 8195 || u == 8196 || u == 8197
            ||| u == 8198 || u == 8199 || u == 8200 || u == 8201 || u == 8202
            ||| u == 8232 || u == 8233 || u == 8239 || u == 8287 || u == 12288
        },
{
}

/// Text that neither starts nor ends with white space, followed by white
/// space only, trims to the text.
proof fn lemma_trim_drops_trailing(x: Seq<char>, w: Seq<char>)
    requires
        x.len() > 0,
        !is_white_space(x[0]),
        !is_white_space(x.last()),
        forall|k: int| 0 <= k < w.len() ==> is_white_space(#[trigger] w[k]),
    ensures
        is_trim_of(x, x + w),
{
    let s = x + w;
    let n = x.len() as int;
    assert(s.subrange(0, n) =~= x);
    assert forall|k: int| n <= k < s.len() implies is_white_space(#[trigger] s[k]) by {
        assert(s[k] == w[k - n]);
    }
    assert(s[0] == x[0]);
    assert(s[n - 1] == x[n - 1]);
    assert(0 <= 0 <= n <= s.len());
}

/// A line ending, `\n` or `\r\n`, after text that neither starts nor ends
/// with white space is trimmed away, leaving the text.
pub proof fn lemma_trim_drops_line_ending(x: Seq<char>)
    requires
        x.len() > 0,
        !is_white_space(x[0]),
        !is_white_space(x.last()),
    ensures
        is_trim_of(x, x + seq!['\r', '\n']),
        is_trim_of(x, x + seq!['\n']),
{
    let crlf = seq!['\r', '\n'];
    assert(is_white_space(crlf[0]) && is_white_space(crlf[1]));
    lemma_trim_drops_trailing(x, crlf);
    let lf = seq!['\n'];
    assert(is_white_space(lf[0]));
    lemma_trim_drops_trailing(x, lf);
}

/// `s` without leading and trailing white space, as `str::trim` gives it.
pub fn trim(s: &str) -> (r: &str)
    ensures
        is_trim_of(r@, s@),
{
    let cs = chars_of(s);
    let n = cs.len();
    let mut i: usize = 0;
    while i < n && white_space(cs[i])
        invariant
            i <= n,
            n == cs@.len(),
            forall|k: int| 0 <= k < i ==> is_white_space(#[trigger] cs@[k]),
        decreases n - i,
    {
        i = i + 1;
    }
    let mut j: usize = n;
    while j > i && white_space(cs[j - 1])
        invariant
            i <= j <= n,
            n == cs@.len(),
            forall|k: int| j <= k < n ==> is_white_space(#[trigger] cs@[k]),
        decreases j,
    {
        j = j - 1;
    }
    let r = s.substring_char(i, j);
    assert(is_trim_of(r@, s@)) by {
        assert(r@ == s@.subrange(i as int, j as int));
    }
    r
}

/// The ASCII digit for a value below ten.
pub open spec fn digit_char(d: nat) -> char {
    ((d + '0' as nat) as u32) as char
}

/// The decimal numeral of `n`, without leading zeros.
pub open spec fn spec_format_nat(n: nat) -> Seq<char>
    decreases n,
{
    if n < 10 {
        seq![digit_char(n)]
    } else {
        spec_format_nat(n / 10).push(digit_char(n % 10))
    }
}

/// The decimal numeral of `x`, with a `-` in front when it is negative, as
/// Rust's `Display` writes an `i32`.
pub open spec fn spec_format_i32(x: i32) -> Seq<char> {
    if x < 0 {
        seq!['-'] + spec_format_nat((-x) as nat)
    } else {
        spec_format_nat(x as nat)
    }
}

/// A numeral is a non-empty run of digits that denotes the number.
pub proof fn lemma_format_nat(n: nat)
    ensures
        spec_format_nat(n).len() > 0,
        all_digits(spec_format_nat(n)),
        decimal_value(spec_format_nat(n)) == n,
    decreases n,
{
    reveal_with_fuel(decimal_value, 2);
    if n >= 10 {
        lemma_format_nat(n / 10);
        let s = spec_format_nat(n);
        let prev = spec_format_nat(n / 10);
        assert(s.drop_last() =~= prev);
        assert(n == (n / 10) * 10 + n % 10) by (nonlinear_arith);
        assert forall|k: int| 0 <= k < s.len() implies is_digit(#[trigger] s[k]) by {
            if k < prev.len() {
                assert(s[k] == prev[k]);
            }
        }
    }
}

/// Reading back the numeral of an `i32` gives the `i32`.
pub proof fn lemma_parse_format_i32(x: i32)
    ensures
        spec_parse_i32(spec_format_i32(x)) == Some(x),
{
    if x < 0 {
        lemma_format_nat((-x) as nat);
        let s = spec_format_i32(x);
        assert(s.drop_first() =~= spec_format_nat((-x) as nat));
    } else {
        lemma_format_nat(x as nat);
        let s = spec_format_nat(x as nat);
        assert(is_digit(s[0]));
    }
}

fn digit_str(d: u32) -> (r: &'static str)
    requires
        d < 10,
    ensures
        r@ == seq![digit_char(d as nat)],
{
    proof {
        reveal_strlit("0");
        reveal_strlit("1");
        reveal_strlit("2");
        reveal_strlit("3");
        reveal_strlit("4");
        reveal_strlit("5");
        reveal_strlit("6");
        reveal_strlit("7");
        reveal_strlit("8");
        reveal_strlit("9");
    }
    match d {
        0 => "0",
        1 => "1",
        2 => "2",
        3 => "3",
        4 => "4",
        5 => "5",
        6 => "6",
        7 => "7",
        8 => "8",
        _ => "9",
    }
}

/// Appends the decimal numeral of `n` to `out`.
pub fn push_decimal(out: &mut String, n: u32)
    ensures
        final(out)@ == old(out)@ + spec_format_nat(n as nat),
    decreases n,
{
    if n >= 10 {
        push_decimal(out, n / 10);
    }
    out.append(digit_str(n % 10));
    proof {
        if n >= 10 {
            assert(old(out)@ + spec_format_nat(n as nat) =~= old(out)@ + spec_format_nat(
                (n / 10) as nat,
            ) + seq![digit_char((n % 10) as nat)]);
        }
    }
}

/// Appends the decimal numeral of `x` to `out`, as `format!("{x}")` writes it.
pub fn push_i32(out: &mut String, x: i32)
    ensures
        final(out)@ == old(out)@ + spec_format_i32(x),
{
    if x < 0 {
        proof {
            reveal_strlit("-");
        }
        out.append("-");
        let magnitude: u32 = (0 - (x as i64)) as u32;
        push_decimal(out, magnitude);
        assert(out@ =~= old(out)@ + spec_format_i32(x));
    } else {
        push_decimal(out, x as u32);
    }
}

/// A canonical numeral: one or more digits, with no leading zero unless the
/// numeral is `0` itself.
pub open spec fn is_canonical_numeral(s: Seq<char>) -> bool {
    &&& s.len() > 0
    &&& all_digits(s)
    &&& (s.len() == 1 || s[0] != '0')
}

/// Two canonical numerals with the same value are the same numeral.
pub proof fn lemma_canonical_numeral_unique(s1: Seq<char>, s2: Seq<char>)
    requires
        is_canonical_numeral(s1),
        is_canonical_numeral(s2),
        decimal_value(s1) == decimal_value(s2),
    ensures
        s1 == s2,
    decreases s1.len(),
{
    let v = decimal_value(s1);
    let p1 = s1.drop_last();
    let p2 = s2.drop_last();
    let d1 = digit_value(s1.last());
    let d2 = digit_value(s2.last());
    assert(is_digit(s1[s1.len() - 1]));
    assert(is_digit(s2[s2.len() - 1]));
    assert(d1 < 10 && d2 < 10);
    assert(v == decimal_value(p1) * 10 + d1);
    assert(v == decimal_value(p2) * 10 + d2);
    assert(d1 == d2 && decimal_value(p1) == decimal_value(p2)) by (nonlinear_arith)
        requires
            v == decimal_value(p1) * 10 + d1,
            v == decimal_value(p2) * 10 + d2,
            d1 < 10,
            d2 < 10,
    ;
    assert(s1.last() == s2.last());
    if s1.len() == 1 && s2.len() == 1 {
        assert(s1 =~= s2);
    } else if s1.len() == 1 || s2.len() == 1 {
        let (short, long) = if s1.len() == 1 { (s1, s2) } else { (s2, s1) };
        let pl = long.drop_last();
        assert(decimal_value(short.drop_last()) == 0) by {
            assert(short.drop_last().len() == 0);
        }
        assert(all_digits(long.take(1))) by {
            assert(long.take(1)[0] == long[0]);
        }
        assert(all_digits(pl)) by {
            assert forall|k: int| 0 <= k < pl.len() implies is_digit(#[trigger] pl[k]) by {
                assert(pl[k] == long[k]);
            }
        }
        lemma_decimal_value_prefix(pl, 1);
        assert(pl.take(1) =~= long.take(1));
        assert(decimal_value(long.take(1)) == digit_value(long[0])) by {
            assert(long.take(1).drop_last() =~= seq![]);
        }
        assert(digit_value(long[0]) >= 1);
    } else {
        assert(is_canonical_numeral(p1)) by {
            assert forall|k: int| 0 <= k < p1.len() implies is_digit(#[trigger] p1[k]) by {
                assert(p1[k] == s1[k]);
            }
        }
        assert(is_canonical_numeral(p2)) by {
            assert forall|k: int| 0 <= k < p2.len() implies is_digit(#[trigger] p2[k]) by {
                assert(p2[k] == s2[k]);
            }
        }
        lemma_canonical_numeral_unique(p1, p2);
        assert(s1 =~= p1.push(s1.last()));
        assert(s2 =~= p2.push(s2.last()));
    }
}

} // verus!
