//! String helpers: decimal rendering with an exact character-level
//! specification, and string equality usable in contracts.

use vstd::prelude::*;

verus! {

/// The character for a single decimal digit value.
pub open spec fn digit_char(d: nat) -> char {
    if d == 0 {
        '0'
    } else if d == 1 {
        '1'
    } else if d == 2 {
        '2'
    } else if d == 3 {
        '3'
    } else if d == 4 {
        '4'
    } else if d == 5 {
        '5'
    } else if d == 6 {
        '6'
    } else if d == 7 {
        '7'
    } else if d == 8 {
        '8'
    } else {
        '9'
    }
}

/// The usual decimal rendering of `n`, most significant digit first,
/// with no leading zeroes (except for `n == 0` itself).
pub open spec fn dec_digits(n: nat) -> Seq<char>
    decreases n,
{
    if n < 10 {
        seq![digit_char(n)]
    } else {
        dec_digits(n / 10) + seq![digit_char(n % 10)]
    }
}

/// One-character string for a digit value.
fn digit_str(d: u64) -> (r: &'static str)
    requires
        d < 10,
    ensures
        r@ == seq![digit_char(d as nat)],
{
    proof {
        reveal_strlit("0");
        reveal_strlit("1");
        reveal_strlit("2");
        reveal_strlit("3");
        reveal_strlit("4");
        reveal_strlit("5");
        reveal_strlit("6");
        reveal_strlit("7");
        reveal_strlit("8");
        reveal_strlit("9");
    }
    match d {
        0 => "0",
        1 => "1",
        2 => "2",
        3 => "3",
        4 => "4",
        5 => "5",
        6 => "6",
        7 => "7",
        8 => "8",
        _ => "9",
    }
}

/// Appends the decimal rendering of `n` to `s`.
pub fn push_dec(s: &mut String, n: u64)
    ensures
        final(s)@ == old(s)@ + dec_digits(n as nat),
    decreases n,
{
    if n < 10 {
        s.append(digit_str(n));
    } else {
        push_dec(s, n / 10);
        s.append(digit_str(n % 10));
    }
}

/// The decimal rendering of a signed number: a minus sign when negative.
pub open spec fn dec_digits_i64(n: int) -> Seq<char> {
    if n >= 0 {
        dec_digits(n as nat)
    } else {
        seq!['-'] + dec_digits((-n) as nat)
    }
}

/// Appends the decimal rendering of a signed number to `s`.
pub fn push_dec_i64(s: &mut String, n: i64)
    ensures
        final(s)@ == old(s)@ + dec_digits_i64(n as int),
{
    proof {
        reveal_strlit("-");
    }
    if n >= 0 {
        push_dec(s, n as u64);
    } else {
        s.append("-");
        // `-(i64::MIN)` does not fit an i64.
        let m: u64 = if n == i64::MIN {
            9223372036854775808u64
        } else {
            (-n) as u64
        };
        push_dec(s, m);
    }
}

/// A Unicode whitespace character (the White_Space property), as
/// `str::split_whitespace` splits the command line and the `cmd` option
/// into words.
pub open spec fn is_space(c: char) -> bool {
    ||| c == '\t'
    ||| c == '\n'
    ||| c == '\u{b}'
    ||| c == '\u{c}'
    ||| c == '\r'
    ||| c == ' '
    ||| c == '\u{85}'
    ||| c == '\u{a0}'
    ||| c == '\u{1680}'
    ||| ('\u{2000}' <= c && c <= '\u{200a}')
    ||| c == '\u{2028}'
    ||| c == '\u{2029}'
    ||| c == '\u{202f}'
    ||| c == '\u{205f}'
    ||| c == '\u{3000}'
}

/// Executable twin of [`is_space`].
pub fn char_is_space(c: char) -> (r: bool)
    ensures
        r == is_space(c),
{
    c == '\t' || c == '\n' || c == '\u{b}' || c == '\u{c}' || c == '\r' || c == ' '
        || c == '\u{85}' || c == '\u{a0}' || c == '\u{1680}' || ('\u{2000}' <= c
        && c <= '\u{200a}') || c == '\u{2028}' || c == '\u{2029}' || c == '\u{202f}'
        || c == '\u{205f}' || c == '\u{3000}'
}

/// The position of the first whitespace character at or after `i`
/// (the length when there is none).
pub open spec fn break_from(s: Seq<char>, i: int) -> int
    decreases s.len() - i,
{
    if i < 0 || i >= s.len() || is_space(s[i]) {
        i
    } else {
        break_from(s, i + 1)
    }
}

pub proof fn lemma_break_from(s: Seq<char>, i: int)
    requires
        0 <= i <= s.len(),
    ensures
        i <= break_from(s, i) <= s.len(),
        forall|m: int| i <= m < break_from(s, i) ==> !is_space(s[m]),
        break_from(s, i) < s.len() ==> is_space(s[break_from(s, i)]),
    decreases s.len() - i,
{
    if i < s.len() && !is_space(s[i]) {
        lemma_break_from(s, i + 1);
    }
}

/// The whitespace-separated words of `s`, starting at position `i`.
pub open spec fn tokens_from(s: Seq<char>, i: int) -> Seq<Seq<char>>
    decreases s.len() - i,
    via tokens_from_dec
{
    if i < 0 || i >= s.len() {
        Seq::empty()
    } else if is_space(s[i]) {
        tokens_from(s, i + 1)
    } else {
        seq![s.subrange(i, break_from(s, i))] + tokens_from(s, break_from(s, i))
    }
}

#[via_fn]
proof fn tokens_from_dec(s: Seq<char>, i: int) {
    if 0 <= i && i < s.len() && !is_space(s[i]) {
        lemma_break_from(s, i + 1);
    }
}

/// The whitespace-separated words of `s`.
pub open spec fn tokens(s: Seq<char>) -> Seq<Seq<char>> {
    tokens_from(s, 0)
}

pub proof fn lemma_break_from_is(s: Seq<char>, i: int, j: int)
    requires
        0 <= i <= j <= s.len(),
        forall|m: int| i <= m < j ==> !is_space(s[m]),
        j == s.len() || is_space(s[j]),
    ensures
        break_from(s, i) == j,
    decreases j - i,
{
    if i < j {
        lemma_break_from_is(s, i + 1, j);
    }
}

/// Splits a string into its whitespace-separated words.
#[verifier::loop_isolation(false)]
pub fn split_ws(s: &str) -> (parts: Vec<String>)
    ensures
        parts.deep_view() == tokens(s@),
{
    let n = s.unicode_len();
    let mut parts: Vec<String> = Vec::new();
    let mut i: usize = 0;
    while i < n
        invariant
            i <= n,
            tokens(s@) == parts.deep_view() + tokens_from(s@, i as int),
        decreases n - i,
    {
        if char_is_space(s.get_char(i)) {
            i = i + 1;
        } else {
            let mut j = i + 1;
            while j < n
                invariant
                    i < j <= n,
                    forall|m: int| i <= m < j ==> !is_space(s@[m]),
                decreases n - j,
            {
                if char_is_space(s.get_char(j)) {
                    break ;
                }
                j = j + 1;
            }
            proof {
                lemma_break_from_is(s@, i as int, j as int);
            }
            let word = s.substring_char(i, j).to_owned();
            let ghost parts0 = parts.deep_view();
            parts.push(word);
            proof {
                assert(parts.deep_view() =~= parts0.push(s@.subrange(i as int, j as int)));
                assert(parts.deep_view() + tokens_from(s@, j as int) =~= parts0 + tokens_from(
                    s@,
                    i as int,
                ));
            }
            i = j;
        }
    }
    proof {
        assert(parts.deep_view() =~= tokens(s@));
    }
    parts
}

/// The value of a decimal digit character; ten for any other character.
pub open spec fn digit_of(c: char) -> nat {
    if c == '0' {
        0
    } else if c == '1' {
        1
    } else if c == '2' {
        2
    } else if c == '3' {
        3
    } else if c == '4' {
        4
    } else if c == '5' {
        5
    } else if c == '6' {
        6
    } else if c == '7' {
        7
    } else if c == '8' {
        8
    } else if c == '9' {
        9
    } else {
        10
    }
}

/// A decimal digit.
pub open spec fn is_digit(c: char) -> bool {
    digit_of(c) < 10
}

/// The number the digit string denotes.
pub open spec fn dec_val(s: Seq<char>) -> nat
    decreases s.len(),
{
    if s.len() == 0 {
        0
    } else {
        dec_val(s.drop_last()) * 10 + digit_of(s.last())
    }
}

/// A non-empty string of decimal digits, optionally after one plus sign:
/// what `usize::from_str_radix` with radix ten accepts.
pub open spec fn dec_digits_of(s: Seq<char>) -> Seq<char> {
    if s.len() >= 1 && s[0] == '+' {
        s.drop_first()
    } else {
        s
    }
}

/// Whether the string denotes an unsigned decimal number that fits.
pub open spec fn is_dec_usize(s: Seq<char>) -> bool {
    &&& dec_digits_of(s).len() >= 1
    &&& forall|i: int|
        0 <= i < dec_digits_of(s).len() ==> is_digit(#[trigger] dec_digits_of(s)[i])
    &&& dec_val(dec_digits_of(s)) <= usize::MAX
}

fn digit_value(c: char) -> (r: u64)
    ensures
        r == digit_of(c),
{
    if c == '0' {
        0
    } else if c == '1' {
        1
    } else if c == '2' {
        2
    } else if c == '3' {
        3
    } else if c == '4' {
        4
    } else if c == '5' {
        5
    } else if c == '6' {
        6
    } else if c == '7' {
        7
    } else if c == '8' {
        8
    } else if c == '9' {
        9
    } else {
        10
    }
}

/// Parses an unsigned decimal number the way `usize::from_str_radix`
/// does with radix ten: digits after at most one leading plus sign;
/// `None` on anything else or on overflow.
#[verifier::loop_isolation(false)]
pub fn parse_usize(s: &str) -> (r: Option<usize>)
    ensures
        r matches Some(v) ==> is_dec_usize(s@) && v == dec_val(dec_digits_of(s@)),
        r is None ==> !is_dec_usize(s@),
{
    let n = s.unicode_len();
    let start: usize = if n >= 1 && s.get_char(0) == '+' {
        1
    } else {
        0
    };
    proof {
        if start == 1 {
            assert(dec_digits_of(s@) =~= s@.subrange(1, n as int));
        } else {
            assert(dec_digits_of(s@) =~= s@.subrange(0, n as int));
        }
    }
    if n == start {
        return None;
    }
    let ghost digits = dec_digits_of(s@);
    let mut acc: usize = 0;
    let mut i: usize = start;
    while i < n
        invariant
            start <= i <= n,
            digits == dec_digits_of(s@),
            digits =~= s@.subrange(start as int, n as int),
            forall|m: int| 0 <= m < i - start ==> is_digit(#[trigger] digits[m]),
            acc == dec_val(digits.subrange(0, i - start)),
        decreases n - i,
    {
        let c = s.get_char(i);
        let d = digit_value(c);
        if d >= 10 {
            proof {
                assert(digits[i - start] == s@[i as int]);
                assert(!is_digit(digits[i - start]));
            }
            return None;
        }
        let next = match acc.checked_mul(10) {
            Some(m) => m.checked_add(d as usize),
            None => None,
        };
        match next {
            Some(v) => {
                proof {
                    let k = i - start + 1;
                    assert(digits.subrange(0, k).drop_last() =~= digits.subrange(0, k - 1));
                    assert(digits.subrange(0, k).last() == s@[i as int]);
                }
                acc = v;
            },
            None => {
                proof {
                    let k = i - start + 1;
                    assert(digits.subrange(0, k).drop_last() =~= digits.subrange(0, k - 1));
                    assert(digits.subrange(0, k).last() == s@[i as int]);
                    lemma_dec_val_prefix_le(digits, k);
                }
                return None;
            },
        }
        i = i + 1;
    }
    proof {
        assert(digits.subrange(0, n - start) =~= digits);
    }
    Some(acc)
}

/// A longer digit string never denotes a smaller number.
proof fn lemma_dec_val_prefix_le(s: Seq<char>, k: int)
    requires
        0 <= k <= s.len(),
    ensures
        dec_val(s.subrange(0, k)) <= dec_val(s),
    decreases s.len() - k,
{
    if k < s.len() {
        lemma_dec_val_prefix_le(s, k + 1);
        assert(s.subrange(0, k + 1).drop_last() =~= s.subrange(0, k));
        assert(dec_val(s.subrange(0, k + 1)) == dec_val(s.subrange(0, k)) * 10 + digit_of(
            s.subrange(0, k + 1).last(),
        ));
    } else {
        assert(s.subrange(0, k) =~= s);
    }
}

/// String equality over views.
pub fn str_eq(a: &str, b: &str) -> (r: bool)
    ensures
        r == (a@ == b@),
{
    let sa: String = a.to_owned();
    let sb: String = b.to_owned();
    sa == sb
}

} // verus!
