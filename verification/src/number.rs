//! Numbers in decimal notation.
//!
//! The server takes its numeric settings as JSON numbers. Integers are
//! printed in the usual way; a setting with a fraction is held as a
//! [`Decimal`], an integer with a count of fractional digits, and printed
//! digit by digit, so that what is sent is exactly what was set. A decimal
//! is read from the same notation, and what is written is read back as it
//! was.

use crate::text::chars_of;
use vstd::prelude::*;

verus! {

/// A decimal number: `mantissa` divided by ten to the power of `scale`.
#[derive(Clone, Copy, Debug, PartialEq, Eq, Structural)]
pub struct Decimal {
    pub mantissa: i64,
    pub scale: u8,
}

/// The character of a decimal digit.
pub open spec fn digit(d: int) -> char {
    if d == 0 {
        '0'
    } else if d == 1 {
        '1'
    } else if d == 2 {
        '2'
    } else if d == 3 {
        '3'
    } else if d == 4 {
        '4'
    } else if d == 5 {
        '5'
    } else if d == 6 {
        '6'
    } else if d == 7 {
        '7'
    } else if d == 8 {
        '8'
    } else {
        '9'
    }
}

/// The digits of a natural number, without leading zeros.
pub open spec fn natural_text(n: nat) -> Seq<char>
    decreases n,
{
    if n < 10 {
        seq![digit(n as int)]
    } else {
        natural_text(n / 10).push(digit((n % 10) as int))
    }
}

/// The last `width` digits of a natural number, with zeros in front where it
/// has fewer.
pub open spec fn padded_text(n: nat, width: nat) -> Seq<char>
    decreases width,
{
    if width == 0 {
        Seq::empty()
    } else {
        padded_text(n / 10, (width - 1) as nat).push(digit((n % 10) as int))
    }
}

/// The absolute value of an integer.
pub open spec fn magnitude(n: int) -> nat {
    if n < 0 {
        (-n) as nat
    } else {
        n as nat
    }
}

/// The sign that is printed in front of an integer.
pub open spec fn sign_text(n: int) -> Seq<char> {
    if n < 0 {
        seq!['-']
    } else {
        Seq::empty()
    }
}

/// An integer in decimal notation.
pub open spec fn integer_text(n: int) -> Seq<char> {
    sign_text(n) + natural_text(magnitude(n))
}

/// Ten to the power of `e`.
pub open spec fn pow10(e: nat) -> nat
    decreases e,
{
    if e == 0 {
        1
    } else {
        10 * pow10((e - 1) as nat)
    }
}

/// A decimal number in decimal notation: the sign, the whole part, and,
/// where `scale` is not zero, a point and exactly `scale` fractional digits.
pub open spec fn decimal_text(mantissa: int, scale: nat) -> Seq<char> {
    let whole = sign_text(mantissa) + natural_text(magnitude(mantissa) / pow10(scale));
    if scale == 0 {
        whole
    } else {
        whole + seq!['.'] + padded_text(magnitude(mantissa), scale)
    }
}

/// The powers of ten grow with the exponent.
pub proof fn lemma_pow10_grows(a: nat, b: nat)
    requires
        a <= b,
    ensures
        1 <= pow10(a) <= pow10(b),
    decreases b,
{
    if b == 0 {
    } else if a == b {
        lemma_pow10_grows(0, (b - 1) as nat);
    } else {
        lemma_pow10_grows(a, (b - 1) as nat);
    }
}

fn digit_str(d: u8) -> (s: &'static str)
    requires
        d < 10,
    ensures
        s@ == seq![digit(d as int)],
{
    proof {
        reveal_strlit("0");
        reveal_strlit("1");
        reveal_strlit("2");
        reveal_strlit("3");
        reveal_strlit("4");
        reveal_strlit("5");
        reveal_strlit("6");
        reveal_strlit("7");
        reveal_strlit("8");
        reveal_strlit("9");
    }
    let s = if d == 0 {
        "0"
    } else if d == 1 {
        "1"
    } else if d == 2 {
        "2"
    } else if d == 3 {
        "3"
    } else if d == 4 {
        "4"
    } else if d == 5 {
        "5"
    } else if d == 6 {
        "6"
    } else if d == 7 {
        "7"
    } else if d == 8 {
        "8"
    } else {
        "9"
    };
    assert(s@ =~= seq![digit(d as int)]);
    s
}

fn push_natural(out: &mut String, n: u64)
    ensures
        final(out)@ == old(out)@ + natural_text(n as nat),
    decreases n,
{
    if n >= 10 {
        push_natural(out, n / 10);
    }
    out.append(digit_str((n % 10) as u8));
    assert(final(out)@ =~= old(out)@ + natural_text(n as nat));
}

fn push_padded(out: &mut String, n: u64, width: u8)
    ensures
        final(out)@ == old(out)@ + padded_text(n as nat, width as nat),
    decreases width,
{
    if width > 0 {
        push_padded(out, n / 10, width - 1);
        out.append(digit_str((n % 10) as u8));
    }
    assert(final(out)@ =~= old(out)@ + padded_text(n as nat, width as nat));
}

fn push_sign(out: &mut String, n: i64) -> (m: u64)
    ensures
        final(out)@ == old(out)@ + sign_text(n as int),
        m == magnitude(n as int),
{
    if n < 0 {
        proof {
            reveal_strlit("-");
        }
        out.append("-");
        assert(final(out)@ =~= old(out)@ + sign_text(n as int));
        if n == i64::MIN {
            9223372036854775808u64
        } else {
            (-n) as u64
        }
    } else {
        assert(old(out)@ =~= old(out)@ + sign_text(n as int));
        n as u64
    }
}

/// Appends an integer in decimal notation.
pub fn push_integer(out: &mut String, n: i64)
    ensures
        final(out)@ == old(out)@ + integer_text(n as int),
{
    let m = push_sign(out, n);
    push_natural(out, m);
    assert(final(out)@ =~= old(out)@ + integer_text(n as int));
}

/// Ten to the power of `e`, for the exponents whose power fits.
fn power_of_ten(e: u8) -> (p: u64)
    requires
        e <= 19,
    ensures
        p == pow10(e as nat),
{
    let mut p: u64 = 1;
    let mut i: u8 = 0;
    while i < e
        invariant
            i <= e <= 19,
            p == pow10(i as nat),
        decreases e - i,
    {
        proof {
            lemma_pow10_grows(i as nat, 18);
            assert(pow10(18) == 1000000000000000000) by {
                reveal_with_fuel(pow10, 19);
            }
        }
        p = p * 10;
        i += 1;
    }
    p
}

/// Appends a decimal number in decimal notation.
pub fn push_decimal(out: &mut String, number: Decimal)
    ensures
        final(out)@ == old(out)@ + decimal_text(number.mantissa as int, number.scale as nat),
{
    let m = push_sign(out, number.mantissa);
    let whole = if number.scale <= 19 {
        let p = power_of_ten(number.scale);
        proof {
            lemma_pow10_grows(0, number.scale as nat);
        }
        m / p
    } else {
        proof {
            lemma_pow10_grows(20, number.scale as nat);
            assert(pow10(20) == 100000000000000000000) by {
                reveal_with_fuel(pow10, 21);
            }
            let d = pow10(number.scale as nat) as int;
            assert(0 <= m < d ==> m as int / d == 0) by (nonlinear_arith);
        }
        0
    };
    push_natural(out, whole);
    if number.scale > 0 {
        proof {
            reveal_strlit(".");
        }
        out.append(".");
        push_padded(out, m, number.scale);
    }
    assert(final(out)@ =~= old(out)@ + decimal_text(
        number.mantissa as int,
        number.scale as nat,
    ));
}

/// Whether a character is a decimal digit.
pub open spec fn is_digit(c: char) -> bool {
    48 <= c as u32 <= 57
}

/// The number that a decimal digit stands for.
pub open spec fn digit_value(c: char) -> nat {
    (c as u32 - 48) as nat
}

/// Whether a text is a string of decimal digits, at least one.
pub open spec fn is_digits(text: Seq<char>) -> bool {
    &&& text.len() > 0
    &&& forall|i: int| 0 <= i < text.len() ==> is_digit(#[trigger] text[i])
}

/// The number that a string of decimal digits stands for.
pub open spec fn value_of(digits: Seq<char>) -> nat
    decreases digits.len(),
{
    if digits.len() == 0 {
        0
    } else {
        value_of(digits.drop_last()) * 10 + digit_value(digits.last())
    }
}

/// The number of characters before the first point, or the length of the
/// text where it has none.
pub open spec fn point_at(text: Seq<char>) -> int
    decreases text.len(),
{
    if text.len() == 0 || text[0] == '.' {
        0
    } else {
        1 + point_at(text.drop_first())
    }
}

/// Whether a text starts with a minus sign.
pub open spec fn is_signed(text: Seq<char>) -> bool {
    text.len() > 0 && text[0] == '-'
}

/// A text without the minus sign in front of it, if it has one.
pub open spec fn unsigned_part(text: Seq<char>) -> Seq<char> {
    if is_signed(text) {
        text.drop_first()
    } else {
        text
    }
}

/// What stands before the first point of a text.
pub open spec fn whole_part(text: Seq<char>) -> Seq<char> {
    text.take(point_at(text))
}

/// What stands behind the first point of a text; nothing where it has no
/// point.
pub open spec fn fraction_part(text: Seq<char>) -> Seq<char> {
    if point_at(text) < text.len() {
        text.skip(point_at(text) + 1)
    } else {
        Seq::empty()
    }
}

/// The decimal number that a text in plain decimal notation stands for: an
/// optional minus sign, digits, and optionally a point and more digits. The
/// digits before and behind the point, read as one integer, are the
/// mantissa, and the number of digits behind the point is the scale. The
/// text stands for no number where it has another form, where it has more
/// than 255 digits behind the point, or where the mantissa does not fit.
pub open spec fn decimal_of_text(text: Seq<char>) -> Option<Decimal> {
    let body = unsigned_part(text);
    let whole = whole_part(body);
    let fraction = fraction_part(body);
    let value = value_of(whole + fraction);
    let mantissa = if is_signed(text) {
        -value
    } else {
        value as int
    };
    if is_digits(whole) && (point_at(body) == body.len() || is_digits(fraction)) && fraction.len()
        <= u8::MAX && i64::MIN <= mantissa <= i64::MAX {
        Some(Decimal { mantissa: mantissa as i64, scale: fraction.len() as u8 })
    } else {
        None
    }
}

/// `point_at` is the one position that has no point before it and either
/// holds a point or is the end.
pub proof fn lemma_point_at(text: Seq<char>, at: int)
    requires
        0 <= at <= text.len(),
        forall|i: int| 0 <= i < at ==> text[i] != '.',
        at == text.len() || text[at] == '.',
    ensures
        point_at(text) == at,
    decreases text.len(),
{
    if at > 0 {
        assert(text[0] != '.');
        lemma_point_at(text.drop_first(), at - 1);
    }
}

/// A string of digits stands for no smaller a number when digits are put
/// behind it.
pub proof fn lemma_value_of_grows(digits: Seq<char>, more: Seq<char>)
    ensures
        value_of(digits) <= value_of(digits + more),
    decreases more.len(),
{
    if more.len() == 0 {
        assert(digits + more =~= digits);
    } else {
        lemma_value_of_grows(digits, more.drop_last());
        assert((digits + more).drop_last() =~= digits + more.drop_last());
    }
}

/// The parts of the text behind position `start`, where its first point
/// stands at position `point`, or nowhere and `point` is the end.
proof fn lemma_parts(chars: Seq<char>, start: int, point: int)
    requires
        0 <= start <= point <= chars.len(),
        forall|k: int| start <= k < point ==> chars[k] != '.',
        point == chars.len() || chars[point] == '.',
    ensures
        point_at(chars.skip(start)) == point - start,
        whole_part(chars.skip(start)) == chars.subrange(start, point),
        fraction_part(chars.skip(start)) == if point < chars.len() {
            chars.subrange(point + 1, chars.len() as int)
        } else {
            Seq::empty()
        },
{
    let body = chars.skip(start);
    assert forall|i: int| 0 <= i < point - start implies body[i] != '.' by {
        assert(body[i] == chars[i + start]);
    }
    lemma_point_at(body, point - start);
    assert(body.take(point - start) =~= chars.subrange(start, point));
    if point < chars.len() {
        assert(body.skip(point - start + 1) =~= chars.subrange(point + 1, chars.len() as int));
    }
}

/// The characters between two positions are digits exactly when the text
/// between the positions holds digits alone.
proof fn lemma_digits_between(chars: Seq<char>, from: int, to: int)
    requires
        0 <= from <= to <= chars.len(),
    ensures
        (forall|k: int| from <= k < to ==> is_digit(#[trigger] chars[k])) <==> (forall|i: int|
            0 <= i < to - from ==> is_digit(#[trigger] chars.subrange(from, to)[i])),
{
    let part = chars.subrange(from, to);
    if forall|k: int| from <= k < to ==> is_digit(#[trigger] chars[k]) {
        assert forall|i: int| 0 <= i < to - from implies is_digit(#[trigger] part[i]) by {
            assert(part[i] == chars[i + from]);
        }
    }
    if forall|i: int| 0 <= i < to - from ==> is_digit(#[trigger] part[i]) {
        assert forall|k: int| from <= k < to implies is_digit(#[trigger] chars[k]) by {
            assert(part[k - from] == chars[k]);
        }
    }
}

/// The digits of a natural number are digits, and stand for the number.
pub proof fn lemma_natural_text(n: nat)
    ensures
        is_digits(natural_text(n)),
        value_of(natural_text(n)) == n,
    decreases n,
{
    let text = natural_text(n);
    if n < 10 {
        assert(text.drop_last() =~= Seq::<char>::empty());
        assert(value_of(text.drop_last()) == 0);
    } else {
        lemma_natural_text(n / 10);
        let front = natural_text(n / 10);
        assert(text.drop_last() =~= front);
        assert forall|i: int| 0 <= i < text.len() implies is_digit(#[trigger] text[i]) by {
            if i < front.len() {
                assert(text[i] == front[i]);
            }
        }
    }
}

/// The padded digits of a natural number are as many digits as asked for,
/// and put behind other digits they move those up and add the number's own
/// last digits.
pub proof fn lemma_padded_text(digits: Seq<char>, n: nat, width: nat)
    ensures
        padded_text(n, width).len() == width,
        forall|i: int| 0 <= i < width ==> is_digit(#[trigger] padded_text(n, width)[i]),
        value_of(digits + padded_text(n, width)) == value_of(digits) * pow10(width) + n % pow10(
            width,
        ),
    decreases width,
{
    let text = padded_text(n, width);
    if width == 0 {
        assert(digits + text =~= digits);
    } else {
        let front = padded_text(n / 10, (width - 1) as nat);
        lemma_padded_text(digits, n / 10, (width - 1) as nat);
        assert forall|i: int| 0 <= i < width implies is_digit(#[trigger] text[i]) by {
            if i < front.len() {
                assert(text[i] == front[i]);
            }
        }
        assert((digits + text).drop_last() =~= digits + front);
        assert((digits + text).last() == digit((n % 10) as int));
        let p = pow10((width - 1) as nat);
        lemma_pow10_grows(0, (width - 1) as nat);
        assert(((n / 10) % p) * 10 + n % 10 == n % (10 * p)) by (nonlinear_arith)
            requires
                p >= 1,
        ;
        let v = value_of(digits) as int;
        let r = ((n / 10) % p) as int;
        assert((v * p + r) * 10 == v * (10 * p) + r * 10) by (nonlinear_arith);
    }
}

/// What is written for a decimal number is read back as that number.
pub proof fn lemma_written_decimal_is_read_back(number: Decimal)
    ensures
        decimal_of_text(decimal_text(number.mantissa as int, number.scale as nat)) == Some(
            number,
        ),
{
    let m = magnitude(number.mantissa as int);
    let scale = number.scale as nat;
    let p = pow10(scale);
    lemma_pow10_grows(0, scale);
    let whole = natural_text(m / p);
    let fraction = padded_text(m, scale);
    let body = if scale == 0 {
        whole
    } else {
        whole + seq!['.'] + fraction
    };
    let text = decimal_text(number.mantissa as int, number.scale as nat);
    lemma_natural_text(m / p);
    lemma_padded_text(whole, m, scale);
    assert(text =~= sign_text(number.mantissa as int) + body);
    assert(body[0] == whole[0]);
    assert(is_digit(whole[0]));
    if number.mantissa < 0 {
        assert(text[0] == '-');
        assert(text.drop_first() =~= body);
    } else {
        assert(text =~= body);
        assert(text[0] != '-');
    }
    assert(unsigned_part(text) == body);
    assert forall|i: int| 0 <= i < whole.len() implies body[i] != '.' by {
        assert(body[i] == whole[i]);
        assert(is_digit(whole[i]));
    }
    lemma_point_at(body, whole.len() as int);
    assert(whole_part(body) =~= whole);
    if scale == 0 {
        assert(fraction_part(body) =~= fraction);
    } else {
        assert(fraction_part(body) =~= fraction);
        assert(is_digits(fraction));
    }
    assert((m / p) * p + m % p == m) by (nonlinear_arith)
        requires
            p >= 1,
    ;
    assert(value_of(whole + fraction) == m);
}

fn all_digits(chars: &Vec<char>, from: usize, to: usize) -> (b: bool)
    requires
        from <= to <= chars@.len(),
    ensures
        b == forall|k: int| from <= k < to ==> is_digit(#[trigger] chars@[k]),
{
    let mut i: usize = from;
    while i < to
        invariant
            from <= i <= to <= chars@.len(),
            forall|k: int| from <= k < i ==> is_digit(#[trigger] chars@[k]),
        decreases to - i,
    {
        let code = chars[i] as u32;
        if code < 48 || code > 57 {
            assert(!is_digit(chars@[i as int]));
            return false;
        }
        i += 1;
    }
    true
}

/// Reads the digits between two positions behind the digits read so far:
/// the number that all of them stand for, or `None` where it is above
/// `limit`.
fn read_digits(
    chars: &Vec<char>,
    from: usize,
    to: usize,
    so_far: u64,
    limit: u64,
    Ghost(seen): Ghost<Seq<char>>,
) -> (r: Option<u64>)
    requires
        from <= to <= chars@.len(),
        forall|k: int| from <= k < to ==> is_digit(#[trigger] chars@[k]),
        so_far == value_of(seen),
        so_far <= limit,
        9 <= limit <= 9223372036854775808,
    ensures
        match r {
            Some(value) => value == value_of(seen + chars@.subrange(from as int, to as int))
                && value <= limit,
            None => value_of(seen + chars@.subrange(from as int, to as int)) > limit,
        },
{
    let ghost digits = chars@.subrange(from as int, to as int);
    let mut value = so_far;
    let mut i: usize = from;
    assert(seen + digits.take(0) =~= seen);
    while i < to
        invariant
            from <= i <= to <= chars@.len(),
            digits == chars@.subrange(from as int, to as int),
            forall|k: int| from <= k < to ==> is_digit(#[trigger] chars@[k]),
            value == value_of(seen + digits.take(i - from)),
            value <= limit,
            9 <= limit <= 9223372036854775808,
        decreases to - i,
    {
        let ghost before = seen + digits.take(i - from);
        let ghost after = seen + digits.take(i - from + 1);
        let c = chars[i];
        assert(is_digit(chars@[i as int]));
        let code = c as u32;
        let d = (code - 48) as u64;
        proof {
            assert(after.drop_last() =~= before);
            assert(after.last() == c);
            assert(value_of(after) == value * 10 + d);
        }
        if value > (limit - d) / 10 {
            proof {
                lemma_value_of_grows(after, digits.skip(i - from + 1));
                assert(after + digits.skip(i - from + 1) =~= seen + digits);
            }
            return None;
        }
        value = value * 10 + d;
        i += 1;
    }
    assert(digits.take(to - from) =~= digits);
    Some(value)
}

impl Decimal {
    /// Reads a number in plain decimal notation.
    pub fn parse(text: &str) -> (r: Option<Decimal>)
        ensures
            r == decimal_of_text(text@),
    {
        let chars = chars_of(text);
        let n = chars.len();
        let negative = n > 0 && chars[0] == '-';
        let start: usize = if negative {
            1
        } else {
            0
        };
        let mut p: usize = start;
        while p < n && chars[p] != '.'
            invariant
                start <= p <= n,
                n == chars@.len(),
                forall|k: int| start <= k < p ==> chars@[k] != '.',
            decreases n - p,
        {
            p += 1;
        }
        let q: usize = if p < n {
            p + 1
        } else {
            n
        };
        let ghost whole = chars@.subrange(start as int, p as int);
        let ghost fraction = chars@.subrange(q as int, n as int);
        proof {
            assert(chars@.skip(start as int) =~= unsigned_part(text@));
            lemma_parts(chars@, start as int, p as int);
            lemma_digits_between(chars@, start as int, p as int);
            lemma_digits_between(chars@, q as int, n as int);
            assert(whole == whole_part(unsigned_part(text@)));
            assert(fraction =~= fraction_part(unsigned_part(text@)));
        }
        if p == start || (p < n && q == n) || n - q > 255 {
            return None;
        }
        if !all_digits(&chars, start, p) || !all_digits(&chars, q, n) {
            return None;
        }
        let limit: u64 = if negative {
            9223372036854775808
        } else {
            9223372036854775807
        };
        proof {
            assert(Seq::<char>::empty() + whole =~= whole);
            lemma_value_of_grows(whole, fraction);
        }
        let value = match read_digits(&chars, start, p, 0, limit, Ghost(Seq::empty())) {
            Some(value) => value,
            None => {
                return None;
            },
        };
        let value = match read_digits(&chars, q, n, value, limit, Ghost(whole)) {
            Some(value) => value,
            None => {
                return None;
            },
        };
        let mantissa: i64 = if !negative {
            value as i64
        } else if value == 9223372036854775808 {
            i64::MIN
        } else {
            -(value as i64)
        };
        Some(Decimal { mantissa, scale: (n - q) as u8 })
    }

    /// The number in decimal notation.
    pub fn to_text(&self) -> (text: String)
        ensures
            text@ == decimal_text(self.mantissa as int, self.scale as nat),
    {
        let mut text = String::new();
        push_decimal(&mut text, *self);
        assert(text@ =~= decimal_text(self.mantissa as int, self.scale as nat));
        text
    }
}

/// An integer in decimal notation.
pub fn integer_string(n: i64) -> (text: String)
    ensures
        text@ == integer_text(n as int),
{
    let mut text = String::new();
    push_integer(&mut text, n);
    assert(text@ =~= integer_text(n as int));
    text
}

} // verus!
