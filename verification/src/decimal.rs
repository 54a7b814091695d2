//! Whole numbers written in decimal, as they appear in file names and
//! encoder arguments.

use vstd::prelude::*;

verus! {

/// The character that stands for a digit.
pub open spec fn digit_char(digit: nat) -> char {
    seq!['0', '1', '2', '3', '4', '5', '6', '7', '8', '9'][digit as int]
}

/// Whether a character is a decimal digit.
pub open spec fn is_digit(c: char) -> bool {
    '0' <= c <= '9'
}

/// The digit that a character stands for.
pub open spec fn digit_value(c: char) -> nat {
    (c as nat - '0' as nat) as nat
}

/// `n` in decimal, without leading zeros.
pub open spec fn decimal(n: nat) -> Seq<char>
    decreases n,
{
    if n < 10 {
        seq![digit_char(n)]
    } else {
        decimal(n / 10).push(digit_char(n % 10))
    }
}

/// `count` zeros.
pub open spec fn zeros(count: nat) -> Seq<char> {
    Seq::new(count, |i: int| '0')
}

/// `n` in decimal, with zeros in front where it has fewer than `width` digits.
pub open spec fn padded(n: nat, width: nat) -> Seq<char> {
    if decimal(n).len() >= width {
        decimal(n)
    } else {
        zeros((width - decimal(n).len()) as nat) + decimal(n)
    }
}

/// The number that a row of digits stands for.
pub open spec fn value_of(digits: Seq<char>) -> nat
    decreases digits.len(),
{
    if digits.len() == 0 {
        0
    } else {
        value_of(digits.drop_last()) * 10 + digit_value(digits.last())
    }
}

/// Whether every character is a decimal digit.
pub open spec fn all_digits(s: Seq<char>) -> bool {
    forall|i: int| 0 <= i < s.len() ==> is_digit(#[trigger] s[i])
}

/// A digit's character is a digit and stands for it.
pub proof fn lemma_digit_char(digit: nat)
    requires
        digit < 10,
    ensures
        is_digit(digit_char(digit)),
        digit_value(digit_char(digit)) == digit,
{
}

/// A number in decimal has at least one character, all of them digits, and
/// reads back as the number.
pub proof fn lemma_decimal_reads_back(n: nat)
    ensures
        decimal(n).len() > 0,
        all_digits(decimal(n)),
        value_of(decimal(n)) == n,
    decreases n,
{
    if n < 10 {
        lemma_digit_char(n);
        assert(decimal(n).drop_last() =~= Seq::<char>::empty());
        assert(value_of(decimal(n).drop_last()) == 0);
    } else {
        lemma_decimal_reads_back(n / 10);
        lemma_digit_char(n % 10);
        assert(decimal(n).drop_last() =~= decimal(n / 10));
    }
}

/// Zeros in front do not change what a row of digits stands for.
pub proof fn lemma_leading_zeros(count: nat, digits: Seq<char>)
    ensures
        value_of(zeros(count) + digits) == value_of(digits),
    decreases digits.len(), count,
{
    let whole = zeros(count) + digits;
    if digits.len() > 0 {
        assert(whole.drop_last() =~= zeros(count) + digits.drop_last());
        lemma_leading_zeros(count, digits.drop_last());
    } else if count > 0 {
        assert(whole.drop_last() =~= zeros((count - 1) as nat) + digits);
        lemma_leading_zeros((count - 1) as nat, digits);
    } else {
        assert(whole =~= digits);
    }
}

/// A padded number has at least `width` characters, all of them digits,
/// and reads back as the number.
pub proof fn lemma_padded_reads_back(n: nat, width: nat)
    ensures
        padded(n, width).len() >= width,
        padded(n, width).len() > 0,
        all_digits(padded(n, width)),
        value_of(padded(n, width)) == n,
{
    lemma_decimal_reads_back(n);
    if decimal(n).len() < width {
        lemma_leading_zeros((width - decimal(n).len()) as nat, decimal(n));
    }
}

/// Different numbers are written differently, padded or not.
pub proof fn lemma_padded_is_injective(a: nat, b: nat, width: nat)
    requires
        padded(a, width) == padded(b, width),
    ensures
        a == b,
{
    lemma_padded_reads_back(a, width);
    lemma_padded_reads_back(b, width);
}

/// The text of one digit.
fn digit_text(digit: u8) -> (text: &'static str)
    requires
        digit < 10,
    ensures
        text@ == seq![digit_char(digit as nat)],
{
    proof {
        reveal_strlit("0");
        reveal_strlit("1");
        reveal_strlit("2");
        reveal_strlit("3");
        reveal_strlit("4");
        reveal_strlit("5");
        reveal_strlit("6");
        reveal_strlit("7");
        reveal_strlit("8");
        reveal_strlit("9");
    }
    let text = match digit {
        0 => "0",
        1 => "1",
        2 => "2",
        3 => "3",
        4 => "4",
        5 => "5",
        6 => "6",
        7 => "7",
        8 => "8",
        _ => "9",
    };
    assert(text@ =~= seq![digit_char(digit as nat)]);
    text
}

/// How many digits `n` has in decimal.
pub fn decimal_len(n: u128) -> (len: usize)
    ensures
        len == decimal(n as nat).len(),
        0 < len <= 39,
    decreases n,
{
    if n < 10 {
        1
    } else {
        let shorter = decimal_len(n / 10);
        proof {
            lemma_decimal_len_bound(n as nat);
        }
        shorter + 1
    }
}

proof fn lemma_decimal_len_bound(n: nat)
    requires
        n <= u128::MAX,
    ensures
        decimal(n).len() <= 39,
{
    reveal_with_fuel(decimal, 40);
}

/// Writes `n` in decimal at the end of `out`.
pub fn push_decimal(out: &mut String, n: u128)
    ensures
        final(out)@ == old(out)@ + decimal(n as nat),
    decreases n,
{
    if n < 10 {
        out.append(digit_text(n as u8));
    } else {
        push_decimal(out, n / 10);
        out.append(digit_text((n % 10) as u8));
        assert(out@ =~= old(out)@ + decimal(n as nat));
    }
}

/// Writes `n` in decimal at the end of `out`, with zeros in front where it
/// has fewer than `width` digits.
pub fn push_padded(out: &mut String, n: u128, width: usize)
    ensures
        final(out)@ == old(out)@ + padded(n as nat, width as nat),
{
    let len = decimal_len(n);
    let mut written: usize = len;
    while written < width
        invariant
            len == decimal(n as nat).len(),
            len <= written,
            written <= width || written == len,
            out@ == old(out)@ + zeros((written - len) as nat),
        decreases width - written,
    {
        proof {
            reveal_strlit("0");
        }
        out.append("0");
        written += 1;
        assert(out@ =~= old(out)@ + zeros((written - len) as nat));
    }
    push_decimal(out, n);
    assert(out@ =~= old(out)@ + padded(n as nat, width as nat));
}

/// Ten to the power of `n`.
pub open spec fn pow10(n: nat) -> nat
    decreases n,
{
    if n == 0 {
        1
    } else {
        10 * pow10((n - 1) as nat)
    }
}

/// The first position at or after `from` that holds `c`, or the length of
/// the text where none does.
pub open spec fn find_char(text: Seq<char>, c: char, from: int) -> int
    decreases text.len() - from,
{
    if from < 0 || from >= text.len() {
        text.len() as int
    } else if text[from] == c {
        from
    } else {
        find_char(text, c, from + 1)
    }
}

/// What follows the first `.` of a text; nothing where it has none.
pub open spec fn after_point(text: Seq<char>) -> Seq<char> {
    if find_char(text, '.', 0) < text.len() {
        text.skip(find_char(text, '.', 0) + 1)
    } else {
        Seq::empty()
    }
}

/// The number that a text stands for, as a whole number and the count of
/// its digits that follow the point: `12.50` is `(1250, 2)`. A number is
/// one or more digits, with at most one `.` before, between or behind
/// them; it has no sign and no exponent.
pub open spec fn decimal_of(text: Seq<char>) -> Option<(nat, nat)> {
    let whole = text.take(find_char(text, '.', 0));
    let fraction = after_point(text);
    if all_digits(whole) && all_digits(fraction) && whole.len() + fraction.len() > 0 {
        Some((value_of(whole + fraction), fraction.len()))
    } else {
        None
    }
}

/// A number as it is held: `mantissa / 10^places`.
#[derive(Debug, Clone, Copy, PartialEq, Eq, Structural)]
pub struct DecimalNumber {
    pub mantissa: u64,
    pub places: usize,
}

/// The number as it is held, where it can be.
pub open spec fn held(number: Option<(nat, nat)>) -> Option<DecimalNumber> {
    match number {
        Some((mantissa, places)) => if mantissa <= u64::MAX && places <= usize::MAX {
            Some(DecimalNumber { mantissa: mantissa as u64, places: places as usize })
        } else {
            None
        },
        None => None,
    }
}

/// Ten to any power is at least one.
pub proof fn lemma_pow10_positive(n: nat)
    ensures
        pow10(n) >= 1,
    decreases n,
{
    if n > 0 {
        lemma_pow10_positive((n - 1) as nat);
    }
}

/// Powers of ten multiply by adding their exponents.
pub proof fn lemma_pow10_split(a: nat, b: nat)
    ensures
        pow10(a + b) == pow10(a) * pow10(b),
    decreases a,
{
    if a == 0 {
        assert(1 * pow10(b) == pow10(b)) by (nonlinear_arith);
    } else {
        lemma_pow10_split((a - 1) as nat, b);
        assert(10 * (pow10((a - 1) as nat) * pow10(b)) == (10 * pow10((a - 1) as nat)) * pow10(b))
            by (nonlinear_arith);
    }
}

/// `find_char` finds the first position that holds the character.
pub proof fn lemma_find_char(text: Seq<char>, c: char, from: int)
    requires
        0 <= from <= text.len(),
    ensures
        from <= find_char(text, c, from) <= text.len(),
        find_char(text, c, from) < text.len() ==> text[find_char(text, c, from)] == c,
        forall|j: int| from <= j < find_char(text, c, from) ==> text[j] != c,
    decreases text.len() - from,
{
    if from < text.len() && text[from] != c {
        lemma_find_char(text, c, from + 1);
    }
}

/// A position that holds the character, with none before it from `from`
/// on, is what `find_char` finds; so is the length where none holds it.
pub proof fn lemma_find_char_is(text: Seq<char>, c: char, from: int, at: int)
    requires
        0 <= from <= at <= text.len(),
        forall|j: int| from <= j < at ==> text[j] != c,
        at < text.len() ==> text[at] == c,
    ensures
        find_char(text, c, from) == at,
    decreases at - from,
{
    if from < at {
        lemma_find_char_is(text, c, from + 1, at);
    }
}

/// More digits behind a row of digits do not make its number smaller.
pub proof fn lemma_value_grows(digits: Seq<char>, more: Seq<char>)
    ensures
        value_of(digits + more) >= value_of(digits),
    decreases more.len(),
{
    if more.len() == 0 {
        assert(digits + more =~= digits);
    } else {
        assert((digits + more).drop_last() =~= digits + more.drop_last());
        lemma_value_grows(digits, more.drop_last());
    }
}

/// The characters of a text, one by one.
pub fn chars_of(text: &str) -> (chars: Vec<char>)
    ensures
        chars@ == text@,
{
    let mut chars: Vec<char> = Vec::new();
    for c in it: text.chars()
        invariant
            it.seq() == text@,
            chars@ == text@.take(it.index()),
    {
        assert(text@.take(it.index() + 1) =~= text@.take(it.index()).push(c));
        chars.push(c);
    }
    assert(text@.take(text@.len() as int) =~= text@);
    chars
}

/// Reads the number that stands between two positions of a text. `None`
/// where no number stands there, or one that is too long to hold.
pub fn parse_decimal(chars: &Vec<char>, from: usize, to: usize) -> (parsed: Option<DecimalNumber>)
    requires
        from <= to <= chars@.len(),
    ensures
        parsed == held(decimal_of(chars@.subrange(from as int, to as int))),
{
    let ghost text = chars@.subrange(from as int, to as int);
    let mut mantissa: u64 = 0;
    let mut point: Option<usize> = None;
    let mut i: usize = from;
    let ghost mut digits: Seq<char> = Seq::empty();
    while i < to
        invariant
            from <= i <= to <= chars@.len(),
            text == chars@.subrange(from as int, to as int),
            all_digits(digits),
            mantissa == value_of(digits),
            match point {
                None => {
                    &&& digits == text.take(i - from)
                    &&& forall|j: int| 0 <= j < i - from ==> text[j] != '.'
                },
                Some(p) => {
                    &&& from <= p < i
                    &&& find_char(text, '.', 0) == p - from
                    &&& digits == text.take(p - from) + text.subrange(p - from + 1, i - from)
                },
            },
        decreases to - i,
    {
        let c = chars[i];
        let ghost k = i - from;
        assert(text[k] == c);
        if c == '.' && point.is_none() {
            proof {
                lemma_find_char_is(text, '.', 0, k);
                assert(text.subrange(k + 1, k + 1) =~= Seq::<char>::empty());
                assert(text.take(k) + text.subrange(k + 1, k + 1) =~= text.take(k));
            }
            point = Some(i);
        } else if '0' <= c && c <= '9' {
            let digit: u64 = (c as u64) - ('0' as u64);
            proof {
                assert(digits.push(c).drop_last() =~= digits);
                match point {
                    None => {
                        assert(text.take(k + 1) =~= text.take(k).push(c));
                    },
                    Some(p) => {
                        assert(text.take(p - from) + text.subrange(p - from + 1, k + 1)
                            =~= digits.push(c));
                    },
                }
            }
            if mantissa > (u64::MAX - digit) / 10 {
                proof {
                    let longer = digits.push(c);
                    assert(value_of(longer) > u64::MAX);
                    lemma_find_char(text, '.', 0);
                    let whole = text.take(find_char(text, '.', 0));
                    let fraction = after_point(text);
                    if decimal_of(text) is Some {
                        match point {
                            None => {
                                let at = find_char(text, '.', 0);
                                assert(at > k);
                                assert(whole + fraction =~= longer + (text.subrange(k + 1, at)
                                    + fraction));
                            },
                            Some(p) => {
                                assert(whole + fraction =~= longer + text.skip(k + 1));
                            },
                        }
                        lemma_value_grows(longer, (whole + fraction).skip(longer.len() as int));
                        assert(whole + fraction =~= longer + (whole + fraction).skip(
                            longer.len() as int,
                        ));
                    }
                }
                return None;
            }
            mantissa = mantissa * 10 + digit;
            proof {
                digits = digits.push(c);
            }
        } else {
            proof {
                lemma_find_char(text, '.', 0);
                match point {
                    None => {
                        let at = find_char(text, '.', 0);
                        assert(at > k);
                        assert(text.take(at)[k] == c);
                    },
                    Some(p) => {
                        assert(after_point(text)[k - (p - from) - 1] == c);
                    },
                }
            }
            return None;
        }
        i += 1;
    }
    proof {
        lemma_find_char(text, '.', 0);
        let whole = text.take(find_char(text, '.', 0));
        let fraction = after_point(text);
        match point {
            None => {
                lemma_find_char_is(text, '.', 0, text.len() as int);
                assert(whole =~= digits);
                assert(fraction =~= Seq::<char>::empty());
                assert(whole + fraction =~= digits);
            },
            Some(p) => {
                assert(text.subrange(p - from + 1, to - from) =~= fraction);
                assert(whole + fraction == digits);
                assert forall|j: int| 0 <= j < whole.len() implies is_digit(
                    #[trigger] whole[j],
                ) by {
                    assert(digits[j] == whole[j]);
                }
                assert forall|j: int| 0 <= j < fraction.len() implies is_digit(
                    #[trigger] fraction[j],
                ) by {
                    assert(digits[whole.len() + j] == fraction[j]);
                }
            },
        }
    }
    let places: usize = match point {
        None => 0,
        Some(p) => to - p - 1,
    };
    let count: usize = match point {
        None => to - from,
        Some(p) => to - from - 1,
    };
    if count == 0 {
        None
    } else {
        Some(DecimalNumber { mantissa, places })
    }
}

/// `value * 10^places`, where it fits.
pub fn scale_up(value: u64, places: usize) -> (scaled: Option<u64>)
    ensures
        value * pow10(places as nat) <= u64::MAX ==> scaled == Some(
            (value * pow10(places as nat)) as u64,
        ),
        value * pow10(places as nat) > u64::MAX ==> scaled is None,
{
    if value == 0 {
        assert(0 * pow10(places as nat) == 0) by (nonlinear_arith);
        return Some(0);
    }
    let mut scaled: u64 = value;
    let mut done: usize = 0;
    proof {
        assert(value * 1 == value) by (nonlinear_arith);
    }
    while done < places
        invariant
            done <= places,
            value > 0,
            scaled == value * pow10(done as nat),
        decreases places - done,
    {
        proof {
            lemma_scale_step(value as nat, done as nat, places as nat);
        }
        if scaled > u64::MAX / 10 {
            return None;
        }
        scaled = scaled * 10;
        done += 1;
    }
    Some(scaled)
}

/// One more power of ten makes a positive number ten times as large, and
/// never smaller than it gets in the end.
proof fn lemma_scale_step(value: nat, done: nat, places: nat)
    requires
        done < places,
        value > 0,
    ensures
        value * pow10(done + 1) == 10 * (value * pow10(done)),
        value * pow10(places) >= value * pow10(done + 1),
    decreases places - done,
{
    assert(value * (10 * pow10(done)) == 10 * (value * pow10(done))) by (nonlinear_arith);
    if done + 1 < places {
        lemma_scale_step(value, done + 1, places);
        assert(value * (10 * pow10(done + 1)) == 10 * (value * pow10(done + 1)))
            by (nonlinear_arith);
    }
}

} // verus!
