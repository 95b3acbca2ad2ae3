//! Literals: integers written in decimal, and quoted strings with escapes.
use vstd::prelude::*;
use crate::lexer::is_digit;
use crate::text::to_chars;

verus! {

/// The value of a decimal digit.
pub open spec fn digit_value(c: char) -> int {
    c as int - '0' as int
}

/// Every character is a decimal digit.
pub open spec fn all_digits(s: Seq<char>) -> bool {
    forall|i: int| 0 <= i < s.len() ==> is_digit(#[trigger] s[i])
}

/// The number that a sequence of digits writes in base ten.
pub open spec fn decimal(s: Seq<char>) -> int
    decreases s.len(),
{
    if s.len() == 0 {
        0
    } else {
        decimal(s.drop_last()) * 10 + digit_value(s.last())
    }
}

/// Whether a text starts with a sign.
pub open spec fn has_sign(s: Seq<char>) -> bool {
    s.len() > 0 && (s[0] == '-' || s[0] == '+')
}

/// The number that a text writes: an optional `-` or `+`, then one or more
/// digits. `None` when the text is not of that form.
pub open spec fn written_number(s: Seq<char>) -> Option<int> {
    let negative = s.len() > 0 && s[0] == '-';
    let digits = if has_sign(s) {
        s.skip(1)
    } else {
        s
    };
    if digits.len() == 0 || !all_digits(digits) {
        None
    } else if negative {
        Some(-decimal(digits))
    } else {
        Some(decimal(digits))
    }
}

/// The integer that a literal stands for, if it is a number that fits in
/// 128 bits.
pub open spec fn integer_of(s: Seq<char>) -> Option<int> {
    match written_number(s) {
        Some(v) => if i128::MIN <= v <= i128::MAX {
            Some(v)
        } else {
            None
        },
        None => None,
    }
}

/// The character for a digit.
pub open spec fn digit_char(d: int) -> char {
    if d == 0 {
        '0'
    } else if d == 1 {
        '1'
    } else if d == 2 {
        '2'
    } else if d == 3 {
        '3'
    } else if d == 4 {
        '4'
    } else if d == 5 {
        '5'
    } else if d == 6 {
        '6'
    } else if d == 7 {
        '7'
    } else if d == 8 {
        '8'
    } else {
        '9'
    }
}

/// The digits that write a natural number in base ten, without leading
/// zeros.
pub open spec fn digits(n: nat) -> Seq<char>
    decreases n,
{
    if n < 10 {
        seq![digit_char(n as int)]
    } else {
        digits(n / 10).push(digit_char((n % 10) as int))
    }
}

/// The text that writes an integer: its digits, after a `-` when it is
/// negative.
pub open spec fn numeral(i: int) -> Seq<char> {
    if i < 0 {
        seq!['-'] + digits((-i) as nat)
    } else {
        digits(i as nat)
    }
}

/// The digits of a number are digits, and they write the number.
pub proof fn lemma_digits(n: nat)
    ensures
        digits(n).len() >= 1,
        all_digits(digits(n)),
        decimal(digits(n)) == n,
    decreases n,
{
    if n < 10 {
        let s = digits(n);
        assert(s.drop_last() =~= Seq::<char>::empty());
        assert(decimal(s.drop_last()) == 0);
        assert(digit_value(s.last()) == n);
    } else {
        lemma_digits(n / 10);
        let front = digits(n / 10);
        let s = digits(n);
        assert(s.drop_last() =~= front);
        assert(digit_value(s.last()) == n % 10);
        assert forall|i: int| 0 <= i < s.len() implies is_digit(#[trigger] s[i]) by {
            if i < front.len() {
                assert(s[i] == front[i]);
            }
        }
    }
}

/// Reading what writes an integer gives the integer.
pub proof fn lemma_numeral(i: int)
    ensures
        written_number(numeral(i)) == Some(i),
        i128::MIN <= i <= i128::MAX ==> integer_of(numeral(i)) == Some(i),
{
    if i < 0 {
        let d = digits((-i) as nat);
        lemma_digits((-i) as nat);
        let s = numeral(i);
        assert(s[0] == '-');
        assert(s.skip(1) =~= d);
    } else {
        lemma_digits(i as nat);
        let s = numeral(i);
        assert(is_digit(s[0]));
    }
}

/// More digits never write a smaller number.
proof fn lemma_decimal_grows(s: Seq<char>, k: int)
    requires
        all_digits(s),
        0 <= k <= s.len(),
    ensures
        0 <= decimal(s.take(k)) <= decimal(s),
    decreases s.len() - k,
{
    if k == s.len() {
        assert(s.take(k) == s);
        lemma_decimal_nonnegative(s);
    } else {
        lemma_decimal_grows(s, k + 1);
        let longer = s.take(k + 1);
        assert(longer.drop_last() == s.take(k));
        assert(longer.last() == s[k]);
        assert(is_digit(s[k]));
        lemma_decimal_nonnegative(s.take(k));
    }
}

proof fn lemma_decimal_nonnegative(s: Seq<char>)
    requires
        all_digits(s),
    ensures
        0 <= decimal(s),
    decreases s.len(),
{
    if s.len() > 0 {
        assert(all_digits(s.drop_last())) by {
            assert forall|i: int| 0 <= i < s.drop_last().len() implies is_digit(
                #[trigger] s.drop_last()[i],
            ) by {
                assert(s.drop_last()[i] == s[i]);
            }
        }
        lemma_decimal_nonnegative(s.drop_last());
        assert(is_digit(s[s.len() - 1]));
    }
}

fn digit_of(c: char) -> (d: i128)
    requires
        is_digit(c),
    ensures
        d == digit_value(c),
        0 <= d <= 9,
{
    let code: u32 = c as u32;
    let zero: u32 = '0' as u32;
    (code - zero) as i128
}

/// Reads an integer literal: an optional `-` or `+`, then decimal digits.
/// `None` when the text is no such number or when the number does not fit.
pub fn parse_integer(s: &str) -> (r: Option<i128>)
    ensures
        match r {
            Some(v) => integer_of(s@) == Some(v as int),
            None => integer_of(s@) is None,
        },
{
    let chars = to_chars(s);
    let negative = chars.len() > 0 && chars[0] == '-';
    let signed = negative || (chars.len() > 0 && chars[0] == '+');
    let first: usize = if signed {
        1
    } else {
        0
    };
    if chars.len() == first {
        return None;
    }
    let ghost digits = if signed {
        s@.skip(1)
    } else {
        s@
    };
    let mut acc: i128 = 0;
    let mut i: usize = first;
    while i < chars.len()
        invariant
            chars@ == s@,
            first <= i <= chars.len(),
            first == (if signed { 1int } else { 0int }),
            negative == (s@.len() > 0 && s@[0] == '-'),
            signed == has_sign(s@),
            digits == (if signed { s@.skip(1) } else { s@ }),
            all_digits(digits.take(i - first)),
            acc == (if negative { -decimal(digits.take(i - first)) } else { decimal(digits.take(i - first)) }),
        decreases chars.len() - i,
    {
        let c = chars[i];
        let ghost k = i - first;
        assert(digits[k] == c);
        if !('0' <= c && c <= '9') {
            assert(!all_digits(digits));
            return None;
        }
        let d = digit_of(c);
        proof {
            let longer = digits.take(k + 1);
            assert(longer.drop_last() == digits.take(k));
            assert(longer.last() == c);
            assert(all_digits(longer)) by {
                assert forall|j: int| 0 <= j < longer.len() implies is_digit(#[trigger] longer[j]) by {
                    if j < k {
                        assert(digits.take(k)[j] == longer[j]);
                    }
                }
            }
            if all_digits(digits) {
                lemma_decimal_grows(digits, k + 1);
            }
        }
        let scaled = match acc.checked_mul(10) {
            Some(v) => v,
            None => {
                proof {
                    lemma_decimal_nonnegative(digits.take(k));
                }
                return None;
            },
        };
        let next = if negative {
            scaled.checked_sub(d)
        } else {
            scaled.checked_add(d)
        };
        match next {
            Some(v) => {
                acc = v;
            },
            None => {
                return None;
            },
        }
        i += 1;
    }
    assert(digits.take(i - first) == digits);
    Some(acc)
}

/// The character that an escaped character stands for.
pub open spec fn escaped(c: char) -> char {
    if c == 'n' {
        '\n'
    } else if c == 'r' {
        '\r'
    } else if c == 't' {
        '\t'
    } else {
        c
    }
}

/// The text that the body of a quoted string stands for: a backslash and
/// the character after it stand for one character, `\n`, `\r` and `\t` for
/// line feed, carriage return and tab, and any other escaped character for
/// itself. A backslash at the very end stands for nothing.
pub open spec fn unescaped(body: Seq<char>) -> Seq<char>
    decreases body.len(),
{
    if body.len() == 0 {
        Seq::<char>::empty()
    } else if body[0] == '\\' {
        if body.len() == 1 {
            Seq::<char>::empty()
        } else {
            seq![escaped(body[1])] + unescaped(body.skip(2))
        }
    } else {
        seq![body[0]] + unescaped(body.skip(1))
    }
}

/// The text of a quoted string without its first and last character.
pub open spec fn quoted_body(s: Seq<char>) -> Seq<char> {
    s.subrange(1, s.len() - 1)
}

/// The text that a quoted string stands for. The argument is the string as
/// written, with its two quotes.
pub fn unescape(s: &str) -> (r: String)
    requires
        s@.len() >= 2,
    ensures
        r@ == unescaped(quoted_body(s@)),
{
    let chars = to_chars(s);
    let end = chars.len() - 1;
    let ghost body = quoted_body(s@);
    let mut res = String::new();
    let mut i: usize = 1;
    assert(body.skip(0) == body);
    assert(res@ + unescaped(body) == unescaped(body));
    while i < end
        invariant
            chars@ == s@,
            end == chars.len() - 1,
            1 <= i <= end,
            body == quoted_body(s@),
            unescaped(body) == res@ + unescaped(body.skip(i - 1)),
        decreases end - i,
    {
        let c = chars[i];
        let ghost rest = body.skip(i - 1);
        assert(rest[0] == c);
        if c == '\\' {
            if i + 1 < end {
                let e = chars[i + 1];
                assert(rest[1] == e);
                assert(rest.skip(2) == body.skip(i + 1));
                let ghost before = res@;
                if e == 'n' {
                    res.push('\n');
                } else if e == 'r' {
                    res.push('\r');
                } else if e == 't' {
                    res.push('\t');
                } else {
                    res.push(e);
                }
                assert(before + (seq![escaped(e)] + unescaped(rest.skip(2))) == before.push(
                    escaped(e),
                ) + unescaped(rest.skip(2)));
                i += 2;
            } else {
                assert(rest.len() == 1);
                assert(unescaped(rest) == Seq::<char>::empty());
                assert(body.skip(end - 1).len() == 0);
                i = end;
            }
        } else {
            let ghost before = res@;
            res.push(c);
            assert(rest.skip(1) == body.skip(i as int));
            assert(before + (seq![c] + unescaped(rest.skip(1))) == before.push(c) + unescaped(
                rest.skip(1),
            ));
            i += 1;
        }
    }
    assert(body.skip(end - 1).len() == 0);
    assert(res@ + Seq::<char>::empty() == res@);
    res
}

fn digit_char_of(d: u128) -> (c: char)
    requires
        d < 10,
    ensures
        c == digit_char(d as int),
{
    if d == 0 {
        '0'
    } else if d == 1 {
        '1'
    } else if d == 2 {
        '2'
    } else if d == 3 {
        '3'
    } else if d == 4 {
        '4'
    } else if d == 5 {
        '5'
    } else if d == 6 {
        '6'
    } else if d == 7 {
        '7'
    } else if d == 8 {
        '8'
    } else {
        '9'
    }
}

/// Writes an integer in base ten: its digits without leading zeros, after
/// a `-` when it is negative.
pub fn write_integer(i: i128) -> (s: String)
    ensures
        s@ == numeral(i as int),
{
    let magnitude: u128 = if i >= 0 {
        i as u128
    } else {
        (-(i + 1)) as u128 + 1
    };
    assert(magnitude == (if i >= 0 { i as int } else { -(i as int) }));
    // The digits after the first, the last one first.
    let mut low: Vec<char> = Vec::new();
    let mut rest: u128 = magnitude;
    assert(digits(rest as nat) + low@.reverse() =~= digits(magnitude as nat));
    while rest >= 10
        invariant
            digits(magnitude as nat) == digits(rest as nat) + low@.reverse(),
        decreases rest,
    {
        let ghost before = low@;
        let d = digit_char_of(rest % 10);
        low.push(d);
        assert(low@.reverse() =~= seq![d] + before.reverse());
        assert(digits(rest as nat) == digits((rest / 10) as nat).push(d));
        assert(digits((rest / 10) as nat).push(d) + before.reverse() =~= digits((rest / 10) as nat)
            + (seq![d] + before.reverse()));
        rest = rest / 10;
    }
    let mut s = String::new();
    if i < 0 {
        s.push('-');
    }
    let ghost sign = s@;
    s.push(digit_char_of(rest));
    let ghost head = s@;
    assert(head == sign + digits(rest as nat));
    let mut k: usize = low.len();
    assert(low@.reverse().take(0) =~= Seq::<char>::empty());
    assert(head + Seq::<char>::empty() =~= head);
    while k > 0
        invariant
            k <= low.len(),
            s@ == head + low@.reverse().take(low.len() - k),
        decreases k,
    {
        let ghost written = low@.reverse().take(low.len() - k);
        k -= 1;
        s.push(low[k]);
        assert(low@.reverse()[low.len() - 1 - k] == low@[k as int]);
        assert(low@.reverse().take(low.len() - k) =~= written.push(low@[k as int]));
        assert(head + written.push(low@[k as int]) =~= (head + written).push(low@[k as int]));
    }
    assert(low@.reverse().take(low.len() as int) =~= low@.reverse());
    assert(s@ =~= sign + (digits(rest as nat) + low@.reverse()));
    s
}

} // verus!
