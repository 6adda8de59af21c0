//! Decimal notation: writing a number out and reading one back.
use crate::text::Span;
use vstd::prelude::*;
use vstd::string::StringExecFns;

verus! {

/// The character is one of the ten decimal digits.
pub open spec fn is_digit(c: char) -> bool {
    0x30 <= c as u32 <= 0x39
}

/// The number that a decimal digit stands for.
pub open spec fn digit_value(c: char) -> nat {
    (c as u32 - 0x30) as nat
}

/// The digit that stands for a number below ten.
pub open spec fn digit_char(d: nat) -> char {
    (0x30 + d) as char
}

/// A number in decimal notation, without leading zeros.
pub open spec fn decimal(n: nat) -> Seq<char>
    decreases n,
{
    if n < 10 {
        seq![digit_char(n)]
    } else {
        decimal(n / 10).push(digit_char(n % 10))
    }
}

/// An integer in decimal notation, with a minus sign where it is negative.
pub open spec fn signed_decimal(n: int) -> Seq<char> {
    if n < 0 {
        seq!['-'] + decimal((-n) as nat)
    } else {
        decimal(n as nat)
    }
}

/// Every character of the text is a decimal digit.
pub open spec fn all_digits(s: Seq<char>) -> bool {
    forall|i: int| 0 <= i < s.len() ==> is_digit(#[trigger] s[i])
}

/// The number that a run of decimal digits stands for; zero for the empty run.
pub open spec fn digits_value(s: Seq<char>) -> nat
    decreases s.len(),
{
    if s.len() == 0 {
        0
    } else {
        digits_value(s.drop_last()) * 10 + digit_value(s.last())
    }
}

/// What is left of an integer's notation once a leading sign is taken off.
pub open spec fn unsigned_part(s: Seq<char>) -> Seq<char> {
    if s.len() > 0 && (s[0] == '-' || s[0] == '+') {
        s.skip(1)
    } else {
        s
    }
}

/// The integer that a text denotes: an optional sign and then one decimal
/// digit or more, with nothing before, between or after them.
pub open spec fn integer_of(s: Seq<char>) -> Option<int> {
    let body = unsigned_part(s);
    if body.len() == 0 || !all_digits(body) {
        None
    } else if s[0] == '-' {
        Some(-(digits_value(body) as int))
    } else {
        Some(digits_value(body) as int)
    }
}

/// The integer that a text denotes, where it fits in 64 bits with a sign.
pub open spec fn parsed_i64(s: Seq<char>) -> Option<i64> {
    match integer_of(s) {
        Some(n) => if i64::MIN <= n <= i64::MAX {
            Some(n as i64)
        } else {
            None
        },
        None => None,
    }
}

/// Ten to the power of `n`.
pub open spec fn pow10(n: nat) -> nat
    decreases n,
{
    if n == 0 {
        1
    } else {
        10 * pow10((n - 1) as nat)
    }
}

/// A power of ten is at least one, and a higher power is no smaller.
pub proof fn lemma_pow10_grows(a: nat, b: nat)
    requires
        a <= b,
    ensures
        1 <= pow10(a) <= pow10(b),
    decreases b,
{
    if b > 0 {
        if a < b {
            lemma_pow10_grows(a, (b - 1) as nat);
        } else {
            lemma_pow10_grows((a - 1) as nat, (b - 1) as nat);
        }
    }
}

/// A run of digits stands for a number below ten to the power of its length.
pub proof fn lemma_digits_value_bound(s: Seq<char>)
    requires
        all_digits(s),
    ensures
        digits_value(s) < pow10(s.len()),
    decreases s.len(),
{
    if s.len() > 0 {
        lemma_digits_value_bound(s.drop_last());
    }
}

/// The number of two runs of digits, one behind the other: the first one's
/// number, moved up by the length of the second, and the second one's.
pub proof fn lemma_digits_value_joined(a: Seq<char>, b: Seq<char>)
    ensures
        digits_value(a + b) == digits_value(a) * pow10(b.len()) + digits_value(b),
    decreases b.len(),
{
    if b.len() == 0 {
        assert(a + b =~= a);
        assert(digits_value(b) == 0);
        assert(pow10(b.len()) == 1);
        assert(digits_value(a) * 1 == digits_value(a));
    } else {
        let front = b.drop_last();
        assert((a + b).drop_last() =~= a + front);
        lemma_digits_value_joined(a, front);
        let high = digits_value(a);
        let low = digits_value(front);
        let unit = pow10(front.len());
        assert((high * unit + low) * 10 == high * (10 * unit) + low * 10) by (nonlinear_arith);
        assert((a + b).last() == b.last());
        assert(pow10(b.len()) == 10 * unit);
        assert(digits_value(b) == low * 10 + digit_value(b.last()));
        assert(digits_value(a + b) == digits_value(a + front) * 10 + digit_value(b.last()));
        assert(high * pow10(b.len()) == high * (10 * unit));
    }
}

/// The outcome of reading a run of digits.
pub enum DigitRun {
    /// Some character is no decimal digit.
    Invalid,
    /// The digits stand for a number that 64 bits cannot hold.
    TooLarge,
    /// The number that the digits stand for.
    Value(u64),
}

/// The outcome that reading the text as a run of digits has.
pub open spec fn digit_run(s: Seq<char>) -> DigitRun {
    if !all_digits(s) {
        DigitRun::Invalid
    } else if digits_value(s) > u64::MAX {
        DigitRun::TooLarge
    } else {
        DigitRun::Value(digits_value(s) as u64)
    }
}

/// Reads the text of a range as a run of decimal digits.
pub fn read_digits(v: &Vec<char>, within: Span) -> (r: DigitRun)
    requires
        within.fits(v@),
    ensures
        r == digit_run(within.of(v@)),
{
    let ghost w = within.of(v@);
    let mut acc: u128 = 0;
    let mut large = false;
    let mut i: usize = within.start;
    assert(w.take(0) =~= Seq::<char>::empty());
    while i < within.end
        invariant
            within.fits(v@),
            w == within.of(v@),
            within.start <= i <= within.end,
            all_digits(w.take(i - within.start)),
            !large ==> acc == digits_value(w.take(i - within.start)) && acc <= u64::MAX,
            large ==> digits_value(w.take(i - within.start)) > u64::MAX,
        decreases within.end - i,
    {
        let n: u32 = v[i] as u32;
        let ghost k = i - within.start;
        if n < 0x30 || n > 0x39 {
            assert(!is_digit(w[k]));
            return DigitRun::Invalid;
        }
        proof {
            assert(w.take(k + 1).drop_last() =~= w.take(k));
            assert(w.take(k + 1).last() == w[k]);
        }
        if !large {
            acc = acc * 10 + (n - 0x30) as u128;
            if acc > 0xFFFF_FFFF_FFFF_FFFF {
                large = true;
            }
        }
        i += 1;
    }
    assert(w.take(i - within.start) =~= w);
    if large {
        DigitRun::TooLarge
    } else {
        DigitRun::Value(acc as u64)
    }
}

/// Reads the text of a range as an integer of 64 bits with a sign.
pub fn parse_i64(v: &Vec<char>, within: Span) -> (r: Option<i64>)
    requires
        within.fits(v@),
    ensures
        r == parsed_i64(within.of(v@)),
{
    let ghost w = within.of(v@);
    if within.start == within.end {
        return None;
    }
    let first = v[within.start];
    assert(first == w[0]);
    let signed = first == '-' || first == '+';
    let body = Span { start: if signed { within.start + 1 } else { within.start }, end: within.end };
    assert(body.of(v@) =~= unsigned_part(w));
    if body.start == body.end {
        return None;
    }
    match read_digits(v, body) {
        DigitRun::Invalid => None,
        DigitRun::TooLarge => None,
        DigitRun::Value(m) => {
            if first == '-' {
                if m > 0x8000_0000_0000_0000 {
                    None
                } else if m == 0x8000_0000_0000_0000 {
                    Some(i64::MIN)
                } else {
                    Some(0 - (m as i64))
                }
            } else if m > 0x7FFF_FFFF_FFFF_FFFF {
                None
            } else {
                Some(m as i64)
            }
        },
    }
}

/// The one-character string of a decimal digit.
fn digit_str(d: u64) -> (r: &'static str)
    requires
        d < 10,
    ensures
        r@ == seq![digit_char(d as nat)],
{
    proof {
        reveal_strlit("0");
        reveal_strlit("1");
        reveal_strlit("2");
        reveal_strlit("3");
        reveal_strlit("4");
        reveal_strlit("5");
        reveal_strlit("6");
        reveal_strlit("7");
        reveal_strlit("8");
        reveal_strlit("9");
    }
    let r = if d == 0 {
        "0"
    } else if d == 1 {
        "1"
    } else if d == 2 {
        "2"
    } else if d == 3 {
        "3"
    } else if d == 4 {
        "4"
    } else if d == 5 {
        "5"
    } else if d == 6 {
        "6"
    } else if d == 7 {
        "7"
    } else if d == 8 {
        "8"
    } else {
        "9"
    };
    assert(r@ =~= seq![digit_char(d as nat)]);
    r
}

/// Appends a number in decimal notation to a string.
pub fn push_decimal(out: &mut String, n: u64)
    ensures
        final(out)@ == old(out)@ + decimal(n as nat),
    decreases n,
{
    if n >= 10 {
        push_decimal(out, n / 10);
    }
    out.append(digit_str(n % 10));
    assert(final(out)@ =~= old(out)@ + decimal(n as nat));
}

/// Appends an integer in decimal notation to a string.
pub fn push_signed_decimal(out: &mut String, n: i64)
    ensures
        final(out)@ == old(out)@ + signed_decimal(n as int),
{
    if n < 0 {
        proof {
            reveal_strlit("-");
        }
        out.append("-");
        let m: u64 = if n == i64::MIN {
            0x8000_0000_0000_0000
        } else {
            (0 - n) as u64
        };
        push_decimal(out, m);
        assert(final(out)@ =~= old(out)@ + signed_decimal(n as int));
    } else {
        push_decimal(out, n as u64);
    }
}

} // verus!
