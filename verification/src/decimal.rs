//! Decimal text of integers, as the line protocol writes them.

use vstd::prelude::*;

verus! {

/// The character that stands for one decimal digit.
pub open spec fn digit_char(d: int) -> char {
    if d == 0 {
        '0'
    } else if d == 1 {
        '1'
    } else if d == 2 {
        '2'
    } else if d == 3 {
        '3'
    } else if d == 4 {
        '4'
    } else if d == 5 {
        '5'
    } else if d == 6 {
        '6'
    } else if d == 7 {
        '7'
    } else if d == 8 {
        '8'
    } else {
        '9'
    }
}

/// The decimal digits of a natural number, most significant first, without
/// leading zeros; zero is the single digit `0`.
pub open spec fn decimal_digits(n: nat) -> Seq<char>
    decreases n,
{
    if n < 10 {
        seq![digit_char(n as int)]
    } else {
        decimal_digits(n / 10).push(digit_char((n % 10) as int))
    }
}

/// The decimal text of an integer: a minus sign for a negative number, then
/// the digits of its magnitude.
pub open spec fn decimal(i: int) -> Seq<char> {
    if i < 0 {
        seq!['-'] + decimal_digits((-i) as nat)
    } else {
        decimal_digits(i as nat)
    }
}

/// The digits of `n` that `rest` leaves to write, followed by the digits
/// already taken off its low end, in the order they belong.
pub open spec fn digits_with_tail(rest: nat, low: Seq<char>) -> Seq<char> {
    decimal_digits(rest) + low.reverse()
}

fn digit_of(d: u8) -> (c: char)
    requires
        d < 10,
    ensures
        c == digit_char(d as int),
{
    match d {
        0 => '0',
        1 => '1',
        2 => '2',
        3 => '3',
        4 => '4',
        5 => '5',
        6 => '6',
        7 => '7',
        8 => '8',
        _ => '9',
    }
}

/// Appends the decimal digits of `n` to `data`.
pub fn append_unsigned(data: &mut String, n: u64)
    ensures
        final(data)@ == old(data)@ + decimal_digits(n as nat),
{
    // Digits come off the low end first; they are written back in reverse.
    let mut low: Vec<char> = Vec::new();
    let mut rest: u64 = n;
    while rest >= 10
        invariant
            digits_with_tail(rest as nat, low@) == decimal_digits(n as nat),
        decreases rest,
    {
        let d: u8 = (rest % 10) as u8;
        let c = digit_of(d);
        proof {
            let next = (rest / 10) as nat;
            assert(decimal_digits(rest as nat) == decimal_digits(next).push(c));
            assert(low@.push(c).reverse() =~= seq![c] + low@.reverse());
            assert(decimal_digits(next) + low@.push(c).reverse() =~= decimal_digits(next).push(c)
                + low@.reverse());
        }
        low.push(c);
        rest = rest / 10;
    }
    let first = digit_of(rest as u8);
    data.push(first);
    let mut i: usize = low.len();
    while i > 0
        invariant
            i <= low.len(),
            data@ == old(data)@ + decimal_digits(rest as nat) + low@.reverse().subrange(
                0,
                low.len() - i,
            ),
        decreases i,
    {
        i = i - 1;
        let c = low[i];
        proof {
            let r = low@.reverse();
            let k = low.len() - i - 1;
            assert(r[k] == low@[i as int]);
            assert(r.subrange(0, k + 1) =~= r.subrange(0, k).push(c));
        }
        data.push(c);
    }
    proof {
        assert(low@.reverse().subrange(0, low.len() as int) =~= low@.reverse());
        assert(old(data)@ + decimal_digits(rest as nat) + low@.reverse() =~= old(data)@ + (
        decimal_digits(rest as nat) + low@.reverse()));
    }
}

/// Appends the decimal text of `i` to `data`.
pub fn append_signed(data: &mut String, i: i64)
    ensures
        final(data)@ == old(data)@ + decimal(i as int),
{
    if i < 0 {
        data.push('-');
        // The magnitude of the least `i64` does not fit in an `i64`.
        let magnitude: u64 = ((-(i + 1)) as u64) + 1;
        append_unsigned(data, magnitude);
        proof {
            assert(magnitude as int == -(i as int));
            assert(old(data)@.push('-') + decimal_digits(magnitude as nat) =~= old(data)@ + (
            seq!['-'] + decimal_digits(magnitude as nat)));
        }
    } else {
        append_unsigned(data, i as u64);
    }
}

/// The value of one decimal digit.
pub open spec fn digit_value(c: char) -> Option<nat> {
    if c == '0' {
        Some(0)
    } else if c == '1' {
        Some(1)
    } else if c == '2' {
        Some(2)
    } else if c == '3' {
        Some(3)
    } else if c == '4' {
        Some(4)
    } else if c == '5' {
        Some(5)
    } else if c == '6' {
        Some(6)
    } else if c == '7' {
        Some(7)
    } else if c == '8' {
        Some(8)
    } else if c == '9' {
        Some(9)
    } else {
        None
    }
}

/// The number that a text of decimal digits stands for; nothing where the
/// text is empty or holds anything but digits.
pub open spec fn digits_value(text: Seq<char>) -> Option<nat>
    decreases text.len(),
{
    if text.len() == 0 {
        None
    } else if text.len() == 1 {
        digit_value(text[0])
    } else {
        match (digits_value(text.drop_last()), digit_value(text.last())) {
            (Some(high), Some(low)) => Some(10 * high + low),
            _ => None,
        }
    }
}

/// The decimal digits of a number stand for that number: the text that is
/// written can be read back, and gives the number again.
pub proof fn lemma_decimal_digits_value(n: nat)
    ensures
        decimal_digits(n).len() >= 1,
        digits_value(decimal_digits(n)) == Some(n),
    decreases n,
{
    if n >= 10 {
        let high = n / 10;
        let low = digit_char((n % 10) as int);
        lemma_decimal_digits_value(high);
        let text = decimal_digits(high).push(low);
        assert(text.drop_last() =~= decimal_digits(high));
        assert(text.last() == low);
    }
}

/// The decimal text of a number that is not negative has no sign, and that
/// of a negative number is a minus sign before the digits of its magnitude.
pub proof fn lemma_decimal_sign(i: int)
    ensures
        i >= 0 ==> digits_value(decimal(i)) == Some(i as nat),
        i < 0 ==> decimal(i)[0] == '-' && digits_value(decimal(i).skip(1)) == Some((-i) as nat),
{
    if i >= 0 {
        lemma_decimal_digits_value(i as nat);
    } else {
        lemma_decimal_digits_value((-i) as nat);
        assert(decimal(i).skip(1) =~= decimal_digits((-i) as nat));
    }
}

} // verus!
