//! How long the system has been running: read from the uptime descriptor and
//! written out in days, hours and minutes.
use crate::number::{
    all_digits, decimal, digits_value, integer_of, is_digit, lemma_digits_value_bound,
    lemma_digits_value_joined, lemma_pow10_grows, pow10, push_decimal, read_digits, unsigned_part,
    DigitRun,
};
use crate::text::{
    chars_of, exactly, find_from, lemma_find_from_is, token_spans, tokens, whole_span, Span,
};
use vstd::arithmetic::div_mod::lemma_fundamental_div_mod_converse;
use vstd::prelude::*;
use vstd::string::StringExecFns;

verus! {

/// A span of time since the system started.
#[derive(Clone, Copy, Debug, PartialEq, Eq, Structural)]
pub struct Uptime {
    /// The whole seconds.
    pub seconds: u64,
    /// Whether a fraction of a second has passed beyond them.
    pub partial: bool,
}

/// No time at all.
pub open spec fn zero() -> Uptime {
    Uptime { seconds: 0, partial: false }
}

/// What is left of a number's notation once a leading plus sign is taken off.
pub open spec fn unsigned_number(token: Seq<char>) -> Seq<char> {
    if token.len() > 0 && token[0] == '+' {
        token.skip(1)
    } else {
        token
    }
}

/// The predicate that holds of the letter that opens an exponent.
pub open spec fn exponent_mark() -> spec_fn(char) -> bool {
    |c: char| c == 'e' || c == 'E'
}

/// The part of a number's notation that stands before its exponent.
pub open spec fn mantissa_of(number: Seq<char>) -> Seq<char> {
    number.take(find_from(number, 0, exponent_mark()))
}

/// The exponent of a number's notation: the integer behind the first `e` or
/// `E`, and zero where there is no such letter. A letter with no integer
/// behind it gives no exponent.
pub open spec fn exponent_of(number: Seq<char>) -> Option<int> {
    let mark = find_from(number, 0, exponent_mark());
    if mark < number.len() {
        integer_of(number.skip(mark + 1))
    } else {
        Some(0)
    }
}

/// The digits before the decimal point.
pub open spec fn whole_digits(mantissa: Seq<char>) -> Seq<char> {
    mantissa.take(find_from(mantissa, 0, exactly('.')))
}

/// The digits behind the decimal point; none where there is no point.
pub open spec fn fraction_digits(mantissa: Seq<char>) -> Seq<char> {
    let point = find_from(mantissa, 0, exactly('.'));
    if point < mantissa.len() {
        mantissa.skip(point + 1)
    } else {
        Seq::empty()
    }
}

/// The whole part of the number `n` once its last `places` digits stand
/// behind the decimal point. Fewer than no places means as many zeros more.
pub open spec fn whole_part(n: nat, places: int) -> nat {
    if places <= 0 {
        n * pow10((-places) as nat)
    } else {
        n / pow10(places as nat)
    }
}

/// Whether anything but zeros stands behind the decimal point then.
pub open spec fn has_fraction(n: nat, places: int) -> bool {
    places > 0 && n % pow10(places as nat) != 0
}

/// The time that a run of digits denotes with the decimal point behind its
/// first `point` digits. The point may lie before the run or behind it. The
/// whole seconds must fit in 64 bits.
pub open spec fn pointed(digits: Seq<char>, point: int) -> Option<Uptime> {
    let n = digits_value(digits);
    let places = digits.len() - point;
    if whole_part(n, places) <= u64::MAX {
        Some(Uptime { seconds: whole_part(n, places) as u64, partial: has_fraction(n, places) })
    } else {
        None
    }
}

/// The time that a token denotes. Its notation: an optional plus sign; then
/// decimal digits with at most one decimal point among them, at least one
/// digit in all; then, optionally, `e` or `E` and an integer, by which many
/// places the decimal point moves to the right. The whole seconds must fit in
/// 64 bits.
pub open spec fn reading_of(token: Seq<char>) -> Option<Uptime> {
    let number = unsigned_number(token);
    let mantissa = mantissa_of(number);
    let whole = whole_digits(mantissa);
    let fraction = fraction_digits(mantissa);
    if all_digits(whole) && all_digits(fraction) && whole.len() + fraction.len() > 0 {
        match exponent_of(number) {
            Some(e) => pointed(whole + fraction, whole.len() + e),
            None => None,
        }
    } else {
        None
    }
}

/// The time that the uptime descriptor gives: the reading of its first
/// token. Without a descriptor, without a token, or with a token that is no
/// such number, it is zero.
pub open spec fn uptime_of(source: Option<&str>) -> Uptime {
    match source {
        Some(text) => if tokens(text@).len() > 0 {
            match reading_of(tokens(text@)[0]) {
                Some(time) => time,
                None => zero(),
            }
        } else {
            zero()
        },
        None => zero(),
    }
}

/// What a run of digits denotes, by where the decimal point lies: before
/// the run, inside it, or behind it.
pub proof fn lemma_pointed(digits: Seq<char>, point: int)
    requires
        all_digits(digits),
    ensures
        point <= 0 ==> pointed(digits, point) == Some(
            Uptime { seconds: 0, partial: digits_value(digits) > 0 },
        ),
        0 < point < digits.len() ==> whole_part(digits_value(digits), digits.len() - point)
            == digits_value(digits.take(point)) && has_fraction(
            digits_value(digits),
            digits.len() - point,
        ) == (digits_value(digits.skip(point)) > 0),
        point >= digits.len() ==> whole_part(digits_value(digits), digits.len() - point)
            == digits_value(digits) * pow10((point - digits.len()) as nat) && !has_fraction(
            digits_value(digits),
            digits.len() - point,
        ),
{
    let n = digits_value(digits);
    let places = digits.len() - point;
    if point <= 0 {
        if places > 0 {
            lemma_digits_value_bound(digits);
            lemma_pow10_grows(digits.len(), places as nat);
            lemma_fundamental_div_mod_converse(n as int, pow10(places as nat) as int, 0, n as int);
        } else {
            assert(digits.len() == 0);
            assert(n == 0);
            assert(0 * pow10((-places) as nat) == 0) by (nonlinear_arith);
        }
    } else if point < digits.len() {
        let head = digits.take(point);
        let tail = digits.skip(point);
        assert(head + tail =~= digits);
        lemma_digits_value_joined(head, tail);
        lemma_digits_value_bound(tail);
        lemma_fundamental_div_mod_converse(
            n as int,
            pow10(places as nat) as int,
            digits_value(head) as int,
            digits_value(tail) as int,
        );
    }
}

/// With the decimal point twenty places or more behind the run, only zero
/// still fits in 64 bits.
pub proof fn lemma_pointed_far_behind(digits: Seq<char>, point: int)
    requires
        point >= digits.len() + 20,
    ensures
        pointed(digits, point) == if digits_value(digits) == 0 {
            Some(zero())
        } else {
            None
        },
{
    let n = digits_value(digits);
    let k = (point - digits.len()) as nat;
    lemma_pow10_grows(20, k);
    assert(pow10(20) > u64::MAX) by {
        reveal_with_fuel(pow10, 21);
    }
    if n == 0 {
        assert(0 * pow10(k) == 0) by (nonlinear_arith);
    } else {
        assert(n * pow10(k) >= pow10(k)) by (nonlinear_arith)
            requires
                n >= 1,
        ;
    }
}

/// A run of digits whose number does not fit in 64 bits has twenty digits or
/// more.
pub proof fn lemma_large_run_is_long(s: Seq<char>)
    requires
        all_digits(s),
        digits_value(s) > u64::MAX,
    ensures
        s.len() >= 20,
{
    lemma_digits_value_bound(s);
    if s.len() < 20 {
        lemma_pow10_grows(s.len(), 19);
        assert(pow10(19) <= u64::MAX) by {
            reveal_with_fuel(pow10, 20);
        }
    }
}

/// The characters of two ranges, one behind the other.
fn joined(v: &Vec<char>, first: Span, second: Span) -> (r: Vec<char>)
    requires
        first.fits(v@),
        second.fits(v@),
    ensures
        r@ == first.of(v@) + second.of(v@),
{
    let mut out: Vec<char> = Vec::new();
    let mut i: usize = first.start;
    while i < first.end
        invariant
            first.fits(v@),
            first.start <= i <= first.end,
            out@ == v@.subrange(first.start as int, i as int),
        decreases first.end - i,
    {
        out.push(v[i]);
        assert(out@ =~= v@.subrange(first.start as int, i + 1));
        i += 1;
    }
    let mut j: usize = second.start;
    assert(out@ =~= first.of(v@) + v@.subrange(second.start as int, j as int));
    while j < second.end
        invariant
            second.fits(v@),
            second.start <= j <= second.end,
            out@ == first.of(v@) + v@.subrange(second.start as int, j as int),
        decreases second.end - j,
    {
        out.push(v[j]);
        assert(out@ =~= first.of(v@) + v@.subrange(second.start as int, j + 1));
        j += 1;
    }
    out
}

/// Multiplies a number by ten to the power of `k`, where the product fits in
/// 64 bits.
fn times_pow10(x: u64, k: u128) -> (r: Option<u64>)
    ensures
        match r {
            Some(y) => y == x * pow10(k as nat),
            None => x * pow10(k as nat) > u64::MAX,
        },
{
    if x == 0 {
        assert(0 * pow10(k as nat) == 0) by (nonlinear_arith);
        return Some(0);
    }
    let mut y: u64 = x;
    let mut left: u128 = k;
    while left > 0
        invariant
            y >= 1,
            y * pow10(left as nat) == x * pow10(k as nat),
        decreases left,
    {
        let ghost rest = pow10((left - 1) as nat);
        assert(pow10(left as nat) == 10 * rest);
        if y > 1844674407370955161 {
            proof {
                lemma_pow10_grows(0, (left - 1) as nat);
                assert(y * (10 * rest) > u64::MAX) by (nonlinear_arith)
                    requires
                        y > 1844674407370955161,
                        rest >= 1,
                ;
            }
            return None;
        }
        assert((y * 10) * rest == y * (10 * rest)) by (nonlinear_arith);
        y = y * 10;
        left -= 1;
    }
    assert(y * 1 == y);
    Some(y)
}

/// Reads a run of digits with the decimal point behind its first `point`
/// digits.
fn read_pointed(digits: &Vec<char>, point: i128) -> (r: Option<Uptime>)
    requires
        all_digits(digits@),
    ensures
        r == pointed(digits@, point as int),
{
    let len = digits.len();
    let all = whole_span(digits);
    proof {
        lemma_pointed(digits@, point as int);
    }
    if point <= 0 {
        let partial = match read_digits(digits, all) {
            DigitRun::Value(n) => n > 0,
            _ => true,
        };
        Some(Uptime { seconds: 0, partial })
    } else if point < len as i128 {
        let at = point as usize;
        let head = Span { start: 0, end: at };
        let tail = Span { start: at, end: len };
        assert(head.of(digits@) =~= digits@.take(point as int));
        assert(tail.of(digits@) =~= digits@.skip(point as int));
        match read_digits(digits, head) {
            DigitRun::Value(seconds) => {
                let partial = match read_digits(digits, tail) {
                    DigitRun::Value(n) => n > 0,
                    _ => true,
                };
                Some(Uptime { seconds, partial })
            },
            _ => None,
        }
    } else {
        match read_digits(digits, all) {
            DigitRun::Value(n) => match times_pow10(n, (point - len as i128) as u128) {
                Some(seconds) => Some(Uptime { seconds, partial: false }),
                None => None,
            },
            _ => {
                proof {
                    let k = (point - len) as nat;
                    lemma_pow10_grows(0, k);
                    assert(digits_value(digits@) * pow10(k) >= digits_value(digits@))
                        by (nonlinear_arith)
                        requires
                            pow10(k) >= 1,
                    ;
                }
                None
            },
        }
    }
}

/// The position of the letter that opens the exponent, or the end of the
/// range.
fn find_mark(v: &Vec<char>, number: Span) -> (mark: usize)
    requires
        number.fits(v@),
    ensures
        number.start <= mark <= number.end,
        mark - number.start == find_from(number.of(v@), 0, exponent_mark()),
{
    let ghost w = number.of(v@);
    let mut mark: usize = number.start;
    while mark < number.end && v[mark] != 'e' && v[mark] != 'E'
        invariant
            number.fits(v@),
            w == number.of(v@),
            number.start <= mark <= number.end,
            forall|k: int| 0 <= k < mark - number.start ==> !exponent_mark()(#[trigger] w[k]),
        decreases number.end - mark,
    {
        mark += 1;
    }
    proof {
        lemma_find_from_is(w, 0, exponent_mark(), mark - number.start);
    }
    mark
}

/// The position of the decimal point, or the end of the range.
fn find_point(v: &Vec<char>, mantissa: Span) -> (point: usize)
    requires
        mantissa.fits(v@),
    ensures
        mantissa.start <= point <= mantissa.end,
        point - mantissa.start == find_from(mantissa.of(v@), 0, exactly('.')),
{
    let ghost m = mantissa.of(v@);
    let mut point: usize = mantissa.start;
    while point < mantissa.end && v[point] != '.'
        invariant
            mantissa.fits(v@),
            m == mantissa.of(v@),
            mantissa.start <= point <= mantissa.end,
            forall|k: int| 0 <= k < point - mantissa.start ==> #[trigger] m[k] != '.',
        decreases mantissa.end - point,
    {
        point += 1;
    }
    proof {
        lemma_find_from_is(m, 0, exactly('.'), point - mantissa.start);
    }
    point
}

/// Two runs consist of digits exactly where the two of them, one behind
/// the other, do.
proof fn lemma_all_digits_joined(high: Seq<char>, low: Seq<char>)
    ensures
        all_digits(high + low) == (all_digits(high) && all_digits(low)),
{
    let both = high + low;
    if all_digits(high) && all_digits(low) {
        assert forall|i: int| 0 <= i < both.len() implies is_digit(#[trigger] both[i]) by {
            if i < high.len() {
                assert(both[i] == high[i]);
            } else {
                assert(both[i] == low[i - high.len()]);
            }
        }
    }
    if all_digits(both) {
        assert forall|i: int| 0 <= i < high.len() implies is_digit(#[trigger] high[i]) by {
            assert(both[i] == high[i]);
        }
        assert forall|i: int| 0 <= i < low.len() implies is_digit(#[trigger] low[i]) by {
            assert(both[high.len() + i] == low[i]);
        }
    }
}

/// Reads the part of a number before its exponent: its digits, without the
/// decimal point, where it consists of digits around at most one point and
/// holds a digit at all.
fn read_mantissa(v: &Vec<char>, mantissa: Span, point: usize) -> (r: Option<Vec<char>>)
    requires
        mantissa.fits(v@),
        mantissa.start <= point <= mantissa.end,
        point - mantissa.start == find_from(mantissa.of(v@), 0, exactly('.')),
    ensures
        ({
            let whole = whole_digits(mantissa.of(v@));
            let fraction = fraction_digits(mantissa.of(v@));
            match r {
                Some(digits) => all_digits(whole) && all_digits(fraction) && digits@ == whole
                    + fraction && digits@.len() > 0 && whole.len() == point - mantissa.start,
                None => !(all_digits(whole) && all_digits(fraction) && whole.len() + fraction.len()
                    > 0),
            }
        }),
{
    let ghost m = mantissa.of(v@);
    let whole = Span { start: mantissa.start, end: point };
    let fraction = if point < mantissa.end {
        Span { start: point + 1, end: mantissa.end }
    } else {
        Span { start: point, end: point }
    };
    assert(whole.of(v@) =~= whole_digits(m));
    assert(fraction.of(v@) =~= fraction_digits(m));
    if (whole.end - whole.start) + (fraction.end - fraction.start) == 0 {
        return None;
    }
    let digits = joined(v, whole, fraction);
    proof {
        lemma_all_digits_joined(whole.of(v@), fraction.of(v@));
    }
    match read_digits(&digits, whole_span(&digits)) {
        DigitRun::Invalid => None,
        _ => Some(digits),
    }
}

/// By how many places an exponent moves the decimal point.
enum Shift {
    /// What stands behind the letter is no integer.
    Invalid,
    /// So many places to the right; to the left where it is negative.
    By(i128),
    /// More places to the left than 64 bits can count.
    FarLeft,
    /// More places to the right than 64 bits can count.
    FarRight,
}

/// Reads the integer behind the letter that opens the exponent.
fn read_exponent(v: &Vec<char>, text: Span) -> (r: Shift)
    requires
        text.fits(v@),
    ensures
        match r {
            Shift::Invalid => integer_of(text.of(v@)) is None,
            Shift::By(e) => integer_of(text.of(v@)) == Some(e as int) && -(u64::MAX as int) <= e
                <= u64::MAX,
            Shift::FarLeft => integer_of(text.of(v@)) matches Some(e) && e < -(u64::MAX as int),
            Shift::FarRight => integer_of(text.of(v@)) matches Some(e) && e > u64::MAX
                && text.end - text.start >= 20,
        },
{
    let ghost x = text.of(v@);
    if text.start == text.end {
        return Shift::Invalid;
    }
    let first = v[text.start];
    assert(first == x[0]);
    let body = Span {
        start: if first == '-' || first == '+' {
            text.start + 1
        } else {
            text.start
        },
        end: text.end,
    };
    assert(body.of(v@) =~= unsigned_part(x));
    if body.start == body.end {
        return Shift::Invalid;
    }
    match read_digits(v, body) {
        DigitRun::Invalid => Shift::Invalid,
        DigitRun::Value(amount) => if first == '-' {
            Shift::By(0 - (amount as i128))
        } else {
            Shift::By(amount as i128)
        },
        DigitRun::TooLarge => if first == '-' {
            Shift::FarLeft
        } else {
            proof {
                lemma_large_run_is_long(body.of(v@));
            }
            Shift::FarRight
        },
    }
}

/// Reads the text of a range as a time.
pub fn read_uptime(v: &Vec<char>, token: Span) -> (r: Option<Uptime>)
    requires
        token.fits(v@),
    ensures
        r == reading_of(token.of(v@)),
{
    let ghost t = token.of(v@);
    let start = if token.start < token.end && v[token.start] == '+' {
        token.start + 1
    } else {
        token.start
    };
    let end = token.end;
    let number = Span { start, end };
    let ghost w = number.of(v@);
    assert(w =~= unsigned_number(t));
    let mark = find_mark(v, number);
    let mantissa = Span { start, end: mark };
    assert(mantissa.of(v@) =~= mantissa_of(w));
    let point = find_point(v, mantissa);
    let digits = match read_mantissa(v, mantissa, point) {
        Some(digits) => digits,
        None => {
            return None;
        },
    };
    let before: i128 = (point - start) as i128;
    if mark == end {
        return read_pointed(&digits, before);
    }
    let text = Span { start: mark + 1, end };
    assert(text.of(v@) =~= w.skip(mark - start + 1));
    let ghost e = integer_of(text.of(v@));
    match read_exponent(v, text) {
        Shift::Invalid => None,
        Shift::By(by) => read_pointed(&digits, before + by),
        Shift::FarLeft => {
            proof {
                lemma_pointed(digits@, before + e->Some_0);
                lemma_pointed(digits@, 0);
            }
            read_pointed(&digits, 0)
        },
        Shift::FarRight => {
            proof {
                lemma_pointed_far_behind(digits@, before + e->Some_0);
                lemma_pointed_far_behind(digits@, digits@.len() as int + 20);
            }
            read_pointed(&digits, digits.len() as i128 + 20)
        },
    }
}

/// The time since the system started, from the uptime descriptor: what its
/// first token denotes, in plain decimal notation or with an exponent. Where
/// that cannot be read the time is zero.
pub fn get_uptime(uptime: Option<&str>) -> (r: Uptime)
    ensures
        r == uptime_of(uptime),
{
    let nothing = Uptime { seconds: 0, partial: false };
    match uptime {
        Some(text) => {
            let v = chars_of(text);
            let found = token_spans(&v, whole_span(&v));
            if found.len() > 0 {
                assert(found@[0].within(crate::text::whole(v@)));
                match read_uptime(&v, found[0]) {
                    Some(time) => time,
                    None => nothing,
                }
            } else {
                nothing
            }
        },
        None => nothing,
    }
}

/// The quotient of `part` and a fraction of a second beyond it by `unit`,
/// rounded to the nearest whole number, and to the even one where two are
/// equally near. The unit is even, so only a fraction of zero can stand on
/// the middle.
pub open spec fn rounded(part: nat, unit: nat, partial: bool) -> nat {
    let q = part / unit;
    let r = part % unit;
    if 2 * r > unit || (2 * r == unit && (partial || q % 2 == 1)) {
        q + 1
    } else {
        q
    }
}

/// The whole days in a time.
pub open spec fn whole_days(time: Uptime) -> nat {
    time.seconds as nat / 86400
}

/// The whole hours beyond the whole days.
pub open spec fn whole_hours(time: Uptime) -> nat {
    (time.seconds as nat % 86400) / 3600
}

/// The days of a time, as a rounded figure.
pub open spec fn days_shown(time: Uptime) -> nat {
    rounded(time.seconds as nat, 86400, time.partial)
}

/// The hours beyond the whole days, as a rounded figure.
pub open spec fn hours_shown(time: Uptime) -> nat {
    rounded(time.seconds as nat % 86400, 3600, time.partial)
}

/// The minutes beyond the whole hours, as a rounded figure.
pub open spec fn minutes_shown(time: Uptime) -> nat {
    rounded(time.seconds as nat % 3600, 60, time.partial)
}

/// A time in words. Days are named only where a whole day has passed, and
/// hours only where a whole day or a whole hour beyond the days has. Each
/// figure is rounded by itself, nothing is carried into the next.
pub open spec fn formatted_uptime(time: Uptime) -> Seq<char> {
    if whole_days(time) == 0 && whole_hours(time) == 0 {
        decimal(minutes_shown(time)) + " Minutes"@
    } else if whole_days(time) == 0 {
        decimal(hours_shown(time)) + " Hours "@ + decimal(minutes_shown(time)) + " Minutes"@
    } else {
        decimal(days_shown(time)) + " Days "@ + decimal(hours_shown(time)) + " Hours "@ + decimal(
            minutes_shown(time),
        ) + " Minutes"@
    }
}

/// Rounds the quotient of `part`, and a fraction beyond it, by `unit`.
fn round_quotient(part: u64, unit: u64, partial: bool) -> (r: u64)
    requires
        0 < unit <= 86400,
    ensures
        r == rounded(part as nat, unit as nat, partial),
{
    let q = part / unit;
    let r = part % unit;
    if 2 * r > unit || (2 * r == unit && (partial || q % 2 == 1)) {
        assert(q < u64::MAX) by (nonlinear_arith)
            requires
                q == part / unit,
                r == part % unit,
                2 * r >= unit,
                unit > 0,
                part <= u64::MAX,
        {
            assert(part == unit * (part / unit) + part % unit);
        }
        q + 1
    } else {
        q
    }
}

/// A time written out in days, hours and minutes.
pub fn get_formatted_uptime(time: Uptime) -> (r: String)
    ensures
        r@ == formatted_uptime(time),
{
    let days = time.seconds / 86400;
    let hours = (time.seconds % 86400) / 3600;
    let mut out = String::new();
    if days != 0 {
        push_decimal(&mut out, round_quotient(time.seconds, 86400, time.partial));
        out.append(" Days ");
    }
    if days != 0 || hours != 0 {
        push_decimal(&mut out, round_quotient(time.seconds % 86400, 3600, time.partial));
        out.append(" Hours ");
    }
    push_decimal(&mut out, round_quotient(time.seconds % 3600, 60, time.partial));
    out.append(" Minutes");
    assert(out@ =~= formatted_uptime(time));
    out
}

/// Which units a time is written in depends on the whole seconds alone:
/// under an hour it is minutes, under a day hours and minutes, and from a day
/// on days, hours and minutes. The minutes, and a fraction of a second, have
/// no part in it.
pub proof fn lemma_units_named(time: Uptime)
    ensures
        time.seconds < 3600 ==> formatted_uptime(time) == decimal(minutes_shown(time))
            + " Minutes"@,
        3600 <= time.seconds < 86400 ==> formatted_uptime(time) == decimal(hours_shown(time))
            + " Hours "@ + decimal(minutes_shown(time)) + " Minutes"@,
        time.seconds >= 86400 ==> formatted_uptime(time) == decimal(days_shown(time)) + " Days "@
            + decimal(hours_shown(time)) + " Hours "@ + decimal(minutes_shown(time))
            + " Minutes"@,
        whole_days(time) == whole_days(Uptime { seconds: time.seconds, partial: !time.partial }),
        whole_hours(time) == whole_hours(Uptime { seconds: time.seconds, partial: !time.partial }),
{
}

/// A rounded figure is the whole number nearest to the exact quotient. For
/// a time of `part` seconds and `num/den` of a second, in units of `unit`
/// seconds: the figure is no further than half a unit from the time, and
/// where it is exactly half a unit away it is even.
pub proof fn lemma_rounded_is_nearest(part: nat, unit: nat, num: nat, den: nat)
    requires
        unit > 0,
        unit % 2 == 0,
        num < den,
    ensures
        ({
            let figure = rounded(part, unit, num > 0);
            let exact = part * den + num;
            let shown = figure * unit * den;
            &&& 2 * (exact - shown) <= unit * den
            &&& 2 * (shown - exact) <= unit * den
            &&& (2 * (exact - shown) == unit * den || 2 * (shown - exact) == unit * den)
                ==> figure % 2 == 0
        }),
{
    let q = part / unit;
    let r = part % unit;
    let full = unit * den;
    let rest = r * den;
    assert(part == unit * q + r) by {
        vstd::arithmetic::div_mod::lemma_fundamental_div_mod(part as int, unit as int);
    }
    assert(part * den == q * full + rest) by (nonlinear_arith)
        requires
            part == unit * q + r,
            full == unit * den,
            rest == r * den,
    ;
    assert(q * unit * den == q * full) by (nonlinear_arith)
        requires
            full == unit * den,
    ;
    assert((q + 1) * unit * den == q * full + full) by (nonlinear_arith)
        requires
            full == unit * den,
    ;
    assert(2 * r > unit ==> 2 * rest >= full + den) by (nonlinear_arith)
        requires
            full == unit * den,
            rest == r * den,
    ;
    assert(2 * r < unit ==> 2 * rest + 2 * den <= full) by {
        if 2 * r < unit {
            assert(2 * r + 2 <= unit);
            assert((2 * r + 2) * den <= unit * den) by (nonlinear_arith)
                requires
                    2 * r + 2 <= unit,
            ;
            assert((2 * r + 2) * den == 2 * (r * den) + 2 * den) by (nonlinear_arith);
        }
    }
    assert(2 * r == unit ==> 2 * rest == full) by (nonlinear_arith)
        requires
            full == unit * den,
            rest == r * den,
    ;
    assert(rest + den <= full) by (nonlinear_arith)
        requires
            full == unit * den,
            rest == r * den,
            r < unit,
    ;
    let figure = rounded(part, unit, num > 0);
    let exact = part * den + num;
    let shown = figure * unit * den;
    assert(exact == q * full + rest + num);
    if figure == q {
        assert(shown == q * full);
    } else {
        assert(figure == q + 1);
        assert(shown == q * full + full);
    }
}

} // verus!
