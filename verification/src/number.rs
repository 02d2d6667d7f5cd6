//! Numbers as text: decimal with zero padding, hexadecimal, and reading integers.
use vstd::prelude::*;
use vstd::arithmetic::div_mod::lemma_div_denominator;
use vstd::arithmetic::power::{lemma_pow0, lemma_pow1, lemma_pow_adds, lemma_pow_positive, pow};
use vstd::slice::slice_subrange;

verus! {

/// The character for a decimal digit.
pub open spec fn digit_char(d: int) -> char {
    ('0' as int + d) as char
}

/// The decimal notation of a natural number, without leading zeros.
pub open spec fn decimal(n: nat) -> Seq<char>
    decreases n,
{
    if n < 10 {
        seq![digit_char(n as int)]
    } else {
        decimal(n / 10).push(digit_char((n % 10) as int))
    }
}

/// A text brought to at least `width` characters by zeros in front.
pub open spec fn zero_padded(s: Seq<char>, width: nat) -> Seq<char> {
    if s.len() < width {
        Seq::new((width - s.len()) as nat, |i: int| '0') + s
    } else {
        s
    }
}

/// The decimal notation of an integer.
pub open spec fn signed_decimal(i: int) -> Seq<char> {
    if i < 0 {
        seq!['-'] + decimal((-i) as nat)
    } else {
        decimal(i as nat)
    }
}

/// The decimal notation of an integer in at least `width` characters; the zeros go
/// behind the sign, and the sign counts.
pub open spec fn padded_decimal(i: int, width: nat) -> Seq<char> {
    if i < 0 {
        seq!['-'] + zero_padded(decimal((-i) as nat), (width - 1) as nat)
    } else {
        zero_padded(decimal(i as nat), width)
    }
}

fn digit_of(d: u64) -> (c: char)
    requires
        d < 10,
    ensures
        c == digit_char(d as int),
{
    (48u8 + d as u8) as char
}

/// Appends the decimal notation of `n`.
pub fn push_decimal(out: &mut Vec<char>, n: u64)
    ensures
        final(out)@ == old(out)@ + decimal(n as nat),
    decreases n,
{
    let ghost before = out@;
    if n >= 10 {
        push_decimal(out, n / 10);
    }
    out.push(digit_of(n % 10));
    assert(out@ =~= before + decimal(n as nat));
}

/// The decimal notation of `n`.
pub fn decimal_of(n: u64) -> (v: Vec<char>)
    ensures
        v@ == decimal(n as nat),
{
    let mut v: Vec<char> = Vec::new();
    push_decimal(&mut v, n);
    assert(v@ =~= decimal(n as nat));
    v
}

/// Appends `s` with zeros in front, at least `width` characters in all.
pub fn push_padded(out: &mut Vec<char>, s: &Vec<char>, width: usize)
    ensures
        final(out)@ == old(out)@ + zero_padded(s@, width as nat),
{
    let ghost before = out@;
    let mut have: usize = s.len();
    while have < width
        invariant
            s@.len() <= have,
            have <= width || have == s@.len(),
            out@ =~= before + Seq::new((have - s@.len()) as nat, |i: int| '0'),
        decreases width - have,
    {
        out.push('0');
        have = have + 1;
    }
    let ghost mid = out@;
    let mut i: usize = 0;
    while i < s.len()
        invariant
            i <= s@.len(),
            out@ =~= mid + s@.take(i as int),
        decreases s@.len() - i,
    {
        out.push(s[i]);
        i = i + 1;
    }
    assert(s@.take(s@.len() as int) =~= s@);
    assert(out@ =~= before + zero_padded(s@, width as nat));
}

/// The magnitude of an integer.
fn magnitude(i: i64) -> (n: u64)
    ensures
        n == (if i < 0 {
            -i
        } else {
            i as int
        }),
{
    if i < 0 {
        (0i128 - i as i128) as u64
    } else {
        i as u64
    }
}

/// Appends the decimal notation of `i` in at least `width` characters.
pub fn push_padded_decimal(out: &mut Vec<char>, i: i64, width: usize)
    requires
        width >= 1,
    ensures
        final(out)@ == old(out)@ + padded_decimal(i as int, width as nat),
{
    let ghost before = out@;
    let digits = decimal_of(magnitude(i));
    if i < 0 {
        out.push('-');
        push_padded(out, &digits, width - 1);
    } else {
        push_padded(out, &digits, width);
    }
    assert(out@ =~= before + padded_decimal(i as int, width as nat));
}

/// Appends the decimal notation of `i`.
pub fn push_signed_decimal(out: &mut Vec<char>, i: i64)
    ensures
        final(out)@ == old(out)@ + signed_decimal(i as int),
{
    let ghost before = out@;
    if i < 0 {
        out.push('-');
    }
    push_decimal(out, magnitude(i));
    assert(out@ =~= before + signed_decimal(i as int));
}

// ---------------------------------------------------------------- hexadecimal

/// The character for a hexadecimal digit, in lower case.
pub open spec fn hex_char(d: int) -> char {
    if d < 10 {
        digit_char(d)
    } else {
        ('a' as int + d - 10) as char
    }
}

/// The last `width` hexadecimal digits of a natural number.
pub open spec fn hex(n: nat, width: nat) -> Seq<char>
    decreases width,
{
    if width == 0 {
        Seq::empty()
    } else {
        hex(n / 16, (width - 1) as nat).push(hex_char((n % 16) as int))
    }
}

/// Appends the last `width` hexadecimal digits of `n`.
pub fn push_hex(out: &mut Vec<char>, n: u64, width: usize)
    ensures
        final(out)@ == old(out)@ + hex(n as nat, width as nat),
    decreases width,
{
    let ghost before = out@;
    if width > 0 {
        push_hex(out, n / 16, width - 1);
        let d: u64 = n % 16;
        if d < 10 {
            out.push(digit_of(d));
        } else {
            out.push((97u8 + (d - 10) as u8) as char);
        }
    }
    assert(out@ =~= before + hex(n as nat, width as nat));
}

/// The value of a hexadecimal digit given as a byte.
pub open spec fn hex_value(b: u8) -> Option<u8> {
    if 48 <= b <= 57 {
        Some((b - 48) as u8)
    } else if 65 <= b <= 70 {
        Some((b - 55) as u8)
    } else if 97 <= b <= 102 {
        Some((b - 87) as u8)
    } else {
        None
    }
}

pub fn hex_value_of(b: u8) -> (r: Option<u8>)
    ensures
        r == hex_value(b),
{
    if 48 <= b && b <= 57 {
        Some(b - 48)
    } else if 65 <= b && b <= 70 {
        Some(b - 55)
    } else if 97 <= b && b <= 102 {
        Some(b - 87)
    } else {
        None
    }
}

// ---------------------------------------------------------------- reading integers

/// A nonempty text of decimal digits.
pub open spec fn is_digits(s: Seq<char>) -> bool {
    s.len() > 0 && forall|i: int| 0 <= i < s.len() ==> '0' <= #[trigger] s[i] <= '9'
}

/// The number that a text of decimal digits denotes.
pub open spec fn digits_value(s: Seq<char>) -> nat
    decreases s.len(),
{
    if s.len() == 0 {
        0
    } else {
        digits_value(s.drop_last()) * 10 + (s.last() as int - '0' as int) as nat
    }
}

/// The integer that a text denotes: an optional sign, then digits, in the range of `i64`.
pub open spec fn integer(s: Seq<char>) -> Option<i64> {
    let signed = s.len() > 0 && (s[0] == '-' || s[0] == '+');
    let body = if signed {
        s.drop_first()
    } else {
        s
    };
    let value = if signed && s[0] == '-' {
        -digits_value(body)
    } else {
        digits_value(body) as int
    };
    if is_digits(body) && i64::MIN <= value <= i64::MAX {
        Some(value as i64)
    } else {
        None
    }
}

/// One more than the largest `i64`.
const BOUND: u64 = 9223372036854775808;

/// The value of the digits, if there are only digits and it is at most `max`.
fn read_digits(s: &[char], max: u64) -> (r: Option<u64>)
    ensures
        r is Some <==> is_digits(s@) && digits_value(s@) <= max,
        r matches Some(n) ==> n == digits_value(s@),
{
    if s.len() == 0 {
        return None;
    }
    let mut acc: u64 = 0;
    let mut big: bool = false;
    let mut i: usize = 0;
    while i < s.len()
        invariant
            i <= s@.len(),
            forall|j: int| 0 <= j < i ==> '0' <= #[trigger] s@[j] <= '9',
            !big ==> acc == digits_value(s@.take(i as int)) && acc <= max,
            big ==> digits_value(s@.take(i as int)) > max,
        decreases s@.len() - i,
    {
        let c = s[i];
        if c < '0' || c > '9' {
            assert(!('0' <= s@[i as int] <= '9'));
            return None;
        }
        let d: u64 = (c as u32 - 48) as u64;
        assert(s@.take(i + 1).drop_last() =~= s@.take(i as int));
        assert(s@.take(i + 1).last() == c);
        if !big {
            let next: u128 = (acc as u128) * 10 + d as u128;
            if next > max as u128 {
                big = true;
            } else {
                acc = next as u64;
            }
        }
        i = i + 1;
    }
    assert(s@.take(s@.len() as int) =~= s@);
    if big {
        None
    } else {
        Some(acc)
    }
}

/// Reads an integer.
pub fn read_integer(s: &[char]) -> (r: Option<i64>)
    ensures
        r == integer(s@),
{
    if s.len() > 0 && (s[0] == '-' || s[0] == '+') {
        let body = slice_subrange(s, 1, s.len());
        assert(body@ =~= s@.drop_first());
        match read_digits(body, BOUND) {
            None => None,
            Some(n) => {
                if s[0] == '-' {
                    Some((0i128 - n as i128) as i64)
                } else if n < BOUND {
                    Some(n as i64)
                } else {
                    None
                }
            },
        }
    } else {
        match read_digits(s, BOUND) {
            None => None,
            Some(n) => {
                if n < BOUND {
                    Some(n as i64)
                } else {
                    None
                }
            },
        }
    }
}

/// The natural number that a text denotes: an optional plus sign, then digits, up to `max`.
pub open spec fn natural(s: Seq<char>, max: nat) -> Option<nat> {
    let body = if s.len() > 0 && s[0] == '+' {
        s.drop_first()
    } else {
        s
    };
    if is_digits(body) && digits_value(body) <= max {
        Some(digits_value(body))
    } else {
        None
    }
}

/// Reads a natural number up to `max`.
pub fn read_natural(s: &[char], max: u64) -> (r: Option<u64>)
    ensures
        r is Some <==> natural(s@, max as nat) is Some,
        r matches Some(n) ==> natural(s@, max as nat) == Some(n as nat),
{
    let body = if s.len() > 0 && s[0] == '+' {
        let rest = slice_subrange(s, 1, s.len());
        assert(rest@ =~= s@.drop_first());
        rest
    } else {
        s
    };
    read_digits(body, max)
}

// ---------------------------------------------------------------- reading back what was written

/// Decimal notation is made of digits and denotes the number it was made from.
pub proof fn lemma_decimal_reads_back(n: nat)
    ensures
        is_digits(decimal(n)),
        digits_value(decimal(n)) == n,
    decreases n,
{
    if n < 10 {
        let s = decimal(n);
        assert(s.drop_last() =~= Seq::empty());
        assert(digits_value(s.drop_last()) == 0);
    } else {
        lemma_decimal_reads_back(n / 10);
        let s = decimal(n);
        let d = digit_char((n % 10) as int);
        assert(s.drop_last() =~= decimal(n / 10));
        assert(s.last() == d);
        assert forall|i: int| 0 <= i < s.len() implies '0' <= #[trigger] s[i] <= '9' by {
            if i < s.len() - 1 {
                assert(s[i] == decimal(n / 10)[i]);
            }
        }
    }
}

/// Reading an integer gives back the integer whose decimal notation was written.
pub proof fn law_integer_reads_back(i: i64)
    ensures
        integer(signed_decimal(i as int)) == Some(i),
{
    if i < 0 {
        lemma_decimal_reads_back((-i) as nat);
        assert((seq!['-'] + decimal((-i) as nat)).drop_first() =~= decimal((-i) as nat));
    } else {
        lemma_decimal_reads_back(i as nat);
    }
}

/// Zeros in front do not change the number that digits denote.
proof fn lemma_zeros_in_front(s: Seq<char>, n: nat)
    requires
        is_digits(s),
    ensures
        is_digits(Seq::new(n, |i: int| '0') + s),
        digits_value(Seq::new(n, |i: int| '0') + s) == digits_value(s),
    decreases s.len(),
{
    let zeros = Seq::new(n, |i: int| '0');
    let all = zeros + s;
    assert(all.last() == s.last());
    assert(all.drop_last() =~= zeros + s.drop_last());
    if s.len() > 1 {
        lemma_zeros_in_front(s.drop_last(), n);
    } else {
        assert(s.drop_last() =~= Seq::empty());
        assert(zeros + s.drop_last() =~= zeros);
        lemma_zeros(n);
    }
}

proof fn lemma_zeros(n: nat)
    ensures
        digits_value(Seq::new(n, |i: int| '0')) == 0,
    decreases n,
{
    if n > 0 {
        let zeros = Seq::new(n, |i: int| '0');
        assert(zeros.drop_last() =~= Seq::new((n - 1) as nat, |i: int| '0'));
        lemma_zeros((n - 1) as nat);
    }
}

/// Reading an integer gives back the integer that was written with zeros in front.
pub proof fn law_padded_integer_reads_back(i: i64, width: nat)
    requires
        width >= 1,
    ensures
        integer(padded_decimal(i as int, width)) == Some(i),
{
    let digits = decimal(if i < 0 {
        (-i) as nat
    } else {
        i as nat
    });
    lemma_decimal_reads_back(
        if i < 0 {
            (-i) as nat
        } else {
            i as nat
        },
    );
    let room = if i < 0 {
        (width - 1) as nat
    } else {
        width
    };
    if digits.len() < room {
        lemma_zeros_in_front(digits, (room - digits.len()) as nat);
    }
    let body = zero_padded(digits, room);
    if i < 0 {
        assert((seq!['-'] + body).drop_first() =~= body);
    } else {
        assert(body[0] != '-' && body[0] != '+');
    }
}

/// Hexadecimal notation has as many digits as it was asked for.
pub proof fn lemma_hex_digits(n: nat, width: nat)
    ensures
        hex(n, width).len() == width,
        forall|i: int|
            0 <= i < width ==> ('0' <= #[trigger] hex(n, width)[i] <= '9' || 'a' <= hex(
                n,
                width,
            )[i] <= 'f'),
    decreases width,
{
    if width > 0 {
        lemma_hex_digits(n / 16, (width - 1) as nat);
        let rest = hex(n / 16, (width - 1) as nat);
        assert forall|i: int| 0 <= i < width implies ('0' <= #[trigger] hex(n, width)[i] <= '9'
            || 'a' <= hex(n, width)[i] <= 'f') by {
            if i < width - 1 {
                assert(hex(n, width)[i] == rest[i]);
            }
        }
    }
}

// ---------------------------------------------------------------- what notation means

/// Decimal notation has a digit for every power of ten that the number holds, the highest
/// first, and no zero in front.
pub proof fn law_decimal_is_positional(n: nat, i: int)
    requires
        0 <= i < decimal(n).len(),
    ensures
        decimal(n)[decimal(n).len() - 1 - i] as int == '0' as int + (n as int / pow(10, i as nat))
            % 10,
        n < pow(10, decimal(n).len()),
        decimal(n).len() > 1 ==> decimal(n)[0] != '0',
    decreases n,
{
    let s = decimal(n);
    lemma_pow0(10);
    lemma_pow1(10);
    if n < 10 {
        assert(s.len() == 1 && i == 0);
        assert(n as int / 1 == n);
        assert(s[0] as int == '0' as int + n);
    } else {
        let t = decimal(n / 10);
        lemma_decimal_reads_back(n / 10);
        assert(t.len() > 0);
        assert(s.len() == t.len() + 1);
        assert(s[s.len() - 1] as int == '0' as int + n % 10);
        law_decimal_is_positional(n / 10, 0);
        lemma_pow_adds(10, 1, t.len());
        assert(pow(10, s.len()) == 10 * pow(10, t.len()));
        assert(n as int / 10 < pow(10, t.len()));
        assert(n < 10 * pow(10, t.len()));
        if i > 0 {
            law_decimal_is_positional(n / 10, i - 1);
            assert(s[s.len() - 1 - i] == t[t.len() - 1 - (i - 1)]);
            lemma_pow_adds(10, 1, (i - 1) as nat);
            lemma_pow_positive(10, (i - 1) as nat);
            lemma_div_denominator(n as int, 10, pow(10, (i - 1) as nat));
        } else {
            assert(n as int / 1 == n);
        }
        assert(s[0] == t[0]);
        if t.len() == 1 {
            assert(n / 10 < 10) by {
                assert(n as int / 10 < pow(10, 1));
            }
            assert(t[0] as int == '0' as int + n / 10);
        }
    }
}

/// Reading digits takes the number read so far ten times and adds the next digit.
pub proof fn law_digits_are_read_in_order(s: Seq<char>, c: char)
    requires
        '0' <= c <= '9',
    ensures
        digits_value(Seq::empty()) == 0,
        digits_value(s.push(c)) == 10 * digits_value(s) + (c as int - '0' as int),
{
    assert(s.push(c).drop_last() =~= s);
}

/// An integer is read exactly from a nonempty row of digits, with a sign in front or
/// without one; a minus turns the value round, and a value that does not fit is refused.
pub proof fn law_integers_are_read(digits: Seq<char>)
    requires
        digits.len() > 0,
        forall|i: int| 0 <= i < digits.len() ==> '0' <= #[trigger] digits[i] <= '9',
    ensures
        integer(digits) == (if digits_value(digits) <= i64::MAX {
            Some(digits_value(digits) as i64)
        } else {
            None
        }),
        integer(seq!['+'] + digits) == integer(digits),
        integer(seq!['-'] + digits) == (if digits_value(digits) <= -i64::MIN {
            Some((-digits_value(digits)) as i64)
        } else {
            None
        }),
{
    assert((seq!['+'] + digits).drop_first() =~= digits);
    assert((seq!['-'] + digits).drop_first() =~= digits);
    assert(digits[0] != '-' && digits[0] != '+');
}

/// A text that is empty, or holds anything but digits behind an optional sign, is not
/// read as a number.
pub proof fn law_other_text_is_no_number(s: Seq<char>, i: int, max: nat)
    ensures
        integer(Seq::empty()) is None,
        natural(Seq::empty(), max) is None,
        integer(seq!['-']) is None && integer(seq!['+']) is None,
        0 <= i < s.len() && !('0' <= s[i] <= '9') && (i > 0 || (s[0] != '-' && s[0] != '+'))
            ==> integer(s) is None && natural(s, max) is None,
        s.len() > 0 && s[0] == '-' ==> natural(s, max) is None,
{
    assert(seq!['-'].drop_first() =~= Seq::empty());
    assert(seq!['+'].drop_first() =~= Seq::empty());
    if 0 <= i < s.len() && !('0' <= s[i] <= '9') && (i > 0 || (s[0] != '-' && s[0] != '+')) {
        if s[0] == '-' || s[0] == '+' {
            assert(s.drop_first()[i - 1] == s[i]);
        }
    }
    if s.len() > 0 && s[0] == '-' {
        assert(!('0' <= s[0] <= '9'));
    }
}

/// A natural number is read from digits, with a plus in front or without one, as long as
/// it does not exceed the limit.
pub proof fn law_naturals_are_read(digits: Seq<char>, max: nat)
    requires
        digits.len() > 0,
        forall|i: int| 0 <= i < digits.len() ==> '0' <= #[trigger] digits[i] <= '9',
    ensures
        natural(digits, max) == (if digits_value(digits) <= max {
            Some(digits_value(digits))
        } else {
            None
        }),
        natural(seq!['+'] + digits, max) == natural(digits, max),
{
    assert((seq!['+'] + digits).drop_first() =~= digits);
    assert(digits[0] != '+');
}

/// A negative number is written with a minus in front of its magnitude; zeros that fill a
/// width stand between the sign and the digits, and never make the number shorter.
pub proof fn law_signs_and_zeros(n: nat, width: nat)
    requires
        n > 0,
        width > 0,
    ensures
        signed_decimal(n as int) == decimal(n),
        signed_decimal(-(n as int)) == seq!['-'] + decimal(n),
        padded_decimal(n as int, width).len() == (if decimal(n).len() < width {
            width
        } else {
            decimal(n).len()
        }),
        forall|i: int|
            0 <= i < padded_decimal(n as int, width).len() ==> #[trigger] padded_decimal(
                n as int,
                width,
            )[i] == (if i < padded_decimal(n as int, width).len() - decimal(n).len() {
                '0'
            } else {
                decimal(n)[i - (padded_decimal(n as int, width).len() - decimal(n).len())]
            }),
        padded_decimal(-(n as int), width)[0] == '-',
        padded_decimal(-(n as int), width).drop_first() == padded_decimal(
            n as int,
            (width - 1) as nat,
        ),
{
    assert(-(-(n as int)) == n);
    assert(padded_decimal(-(n as int), width).drop_first() =~= padded_decimal(
        n as int,
        (width - 1) as nat,
    ));
}

/// Hexadecimal notation has a digit for every power of sixteen, the highest first.
pub proof fn law_hex_is_positional(n: nat, width: nat, i: int)
    requires
        0 <= i < width,
    ensures
        hex(n, width).len() == width,
        ({
            let d = (n as int / pow(16, i as nat)) % 16;
            let c = hex(n, width)[width - 1 - i] as int;
            c == (if d < 10 {
                '0' as int + d
            } else {
                'a' as int + d - 10
            })
        }),
    decreases width,
{
    lemma_hex_digits(n, width);
    lemma_hex_digits(n / 16, (width - 1) as nat);
    lemma_pow0(16);
    if i > 0 {
        law_hex_is_positional(n / 16, (width - 1) as nat, i - 1);
        assert(hex(n, width)[width - 1 - i] == hex(n / 16, (width - 1) as nat)[width - 1 - i]);
        lemma_pow1(16);
        lemma_pow_adds(16, 1, (i - 1) as nat);
        lemma_pow_positive(16, (i - 1) as nat);
        lemma_div_denominator(n as int, 16, pow(16, (i - 1) as nat));
    } else {
        assert(n as int / 1 == n);
    }
}

/// Hexadecimal digits are read in lower and upper case, and nothing else is.
pub proof fn law_hex_digits_are_read(d: u8, b: u8)
    ensures
        d < 10 ==> hex_value((48 + d) as u8) == Some(d),
        10 <= d < 16 ==> hex_value((65 + d - 10) as u8) == Some(d) && hex_value((97 + d - 10) as u8)
            == Some(d),
        hex_value(b) matches Some(v) ==> v < 16 && (b == 48 + v || b == 65 + v - 10 || b == 97 + v
            - 10) && (v < 10 <==> b < 58),
        b < 48 || 57 < b < 65 || 70 < b < 97 || b > 102 ==> hex_value(b) is None,
{
}

} // verus!
