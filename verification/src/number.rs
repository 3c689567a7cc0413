//! The numbers of the feed: unsigned counts and exact decimal fractions, with
//! the text forms that are read and written.

use crate::text::{
    all_digits, digits_value, find_char, index_of, is_digit, lemma_extend_concat,
    lemma_extend_monotone, lemma_index_of_unique, lemma_leading_zeros, lemma_nat_digits,
    nat_digits, push_nat, push_range, scan_digits, to_chars, to_string, zeros,
};
use vstd::prelude::*;

verus! {

/// The largest number of fractional digits that a [`Decimal`] holds.
pub const MAX_SCALE: u8 = 9;

/// An exact decimal fraction: `mantissa / 10^scale`.
#[derive(Clone, Copy, Debug, PartialEq, Eq, Structural)]
pub struct Decimal {
    pub mantissa: i64,
    pub scale: u8,
}

impl View for Decimal {
    type V = Decimal;

    open spec fn view(&self) -> Decimal {
        *self
    }
}

impl DeepView for Decimal {
    type V = Decimal;

    open spec fn deep_view(&self) -> Decimal {
        *self
    }
}

/// `10^k`.
pub open spec fn pow10(k: nat) -> nat
    decreases k,
{
    if k == 0 {
        1
    } else {
        10 * pow10((k - 1) as nat)
    }
}

/// The distance of `x` from zero.
pub open spec fn abs(x: int) -> nat {
    if x < 0 {
        (-x) as nat
    } else {
        x as nat
    }
}

/// What an unsigned count's text reads as: an optional `+`, then one digit
/// or more, the number within `u64`.
pub open spec fn parse_count(s: Seq<char>) -> Option<u64> {
    let digits = if s.len() > 0 && s[0] == '+' {
        s.skip(1)
    } else {
        s
    };
    if digits.len() > 0 && all_digits(digits) && digits_value(digits) <= u64::MAX {
        Some(digits_value(digits) as u64)
    } else {
        None
    }
}

/// What a decimal's text without sign reads as: the number that all digits
/// write and the number of digits behind the point.
pub open spec fn parse_unsigned(body: Seq<char>) -> Option<(nat, nat)> {
    let point = index_of(body, '.');
    let whole = body.take(point);
    let frac = if point < body.len() {
        body.skip(point + 1)
    } else {
        Seq::empty()
    };
    let digits = whole + frac;
    if digits.len() > 0 && all_digits(digits) {
        Some((digits_value(digits), frac.len()))
    } else {
        None
    }
}

/// What a decimal's text reads as: an optional sign, digits with at most one
/// point among them, one digit at least, at most [`MAX_SCALE`] of them behind
/// the point, and all digits together within `i64`.
pub open spec fn parse_decimal(s: Seq<char>) -> Option<Decimal> {
    let signed = s.len() > 0 && (s[0] == '-' || s[0] == '+');
    let body = if signed {
        s.skip(1)
    } else {
        s
    };
    match parse_unsigned(body) {
        Some((magnitude, scale)) => if scale <= MAX_SCALE && magnitude <= i64::MAX {
            Some(
                Decimal {
                    mantissa: (if signed && s[0] == '-' {
                        -(magnitude as int)
                    } else {
                        magnitude as int
                    }) as i64,
                    scale: scale as u8,
                },
            )
        } else {
            None
        },
        None => None,
    }
}

/// The digits of a decimal's magnitude, with zeros before them where there
/// would be no digit before the point.
pub open spec fn padded_digits(d: Decimal) -> Seq<char> {
    let digits = nat_digits(abs(d.mantissa as int));
    if digits.len() <= d.scale {
        zeros((d.scale + 1 - digits.len()) as nat) + digits
    } else {
        digits
    }
}

/// The text of a decimal without its sign: the digits before the point (one
/// at least), and where `scale` is not zero the point and `scale` digits
/// behind it.
pub open spec fn unsigned_text(d: Decimal) -> Seq<char> {
    let padded = padded_digits(d);
    let cut = padded.len() - d.scale;
    let tail = if d.scale > 0 {
        seq!['.'] + padded.skip(cut)
    } else {
        Seq::empty()
    };
    padded.take(cut) + tail
}

/// The text of a decimal: a `-` where it is negative, then the digits with
/// the point among them.
pub open spec fn decimal_text(d: Decimal) -> Seq<char> {
    if d.mantissa < 0 {
        seq!['-'] + unsigned_text(d)
    } else {
        unsigned_text(d)
    }
}

/// The change from `prev` to `last` in percent of `prev`, rounded to two
/// decimals, halves away from zero. `None` where `prev` is zero, where the
/// result is outside `i64` hundredths, or where one of the two is outside a
/// decimal's bounds.
pub open spec fn change_percent(last: Decimal, prev: Decimal) -> Option<Decimal> {
    let a = last.mantissa * pow10(prev.scale as nat);
    let b = prev.mantissa * pow10(last.scale as nat);
    let hundredths = (2 * abs(a - b) * 10000 + abs(b)) / (2 * abs(b));
    if !last.wf() || !prev.wf() || b == 0 || hundredths > i64::MAX {
        None
    } else {
        Some(
            Decimal {
                mantissa: (if (a - b >= 0) == (b > 0) {
                    hundredths as int
                } else {
                    -(hundredths as int)
                }) as i64,
                scale: 2,
            },
        )
    }
}

impl Decimal {
    /// The decimals that reading yields and writing takes.
    pub open spec fn wf(self) -> bool {
        self.scale <= MAX_SCALE && self.mantissa > i64::MIN
    }

    /// Whether the decimal is within the bounds of what is read.
    pub fn is_valid(&self) -> (r: bool)
        ensures
            r == self.wf(),
    {
        self.scale <= MAX_SCALE && self.mantissa > i64::MIN
    }

    /// The decimal `mantissa / 10^scale`.
    pub fn new(mantissa: i64, scale: u8) -> (d: Decimal)
        ensures
            d.mantissa == mantissa,
            d.scale == scale,
    {
        Decimal { mantissa, scale }
    }

    /// Reads a decimal from its text.
    pub fn parse(s: &str) -> (r: Option<Decimal>)
        ensures
            r == parse_decimal(s@),
            r matches Some(d) ==> d.wf(),
    {
        let chars = to_chars(s);
        read_decimal(chars.as_slice())
    }

    /// Writes the decimal as text.
    pub fn to_text(&self) -> (out: String)
        ensures
            out@ == decimal_text(*self),
    {
        let mut chars: Vec<char> = Vec::new();
        push_decimal(&mut chars, *self);
        to_string(chars.as_slice())
    }
}

/// Reads an unsigned count.
pub(crate) fn read_count(s: &[char]) -> (r: Option<u64>)
    ensures
        r == parse_count(s@),
{
    let from: usize = if s.len() > 0 && s[0] == '+' {
        1
    } else {
        0
    };
    let digits = &s[from..s.len()];
    proof {
        assert(digits@ =~= if from == 1 {
            s@.skip(1)
        } else {
            s@
        });
    }
    if digits.len() == 0 {
        return None;
    }
    scan_digits(0, digits, u64::MAX)
}

/// Reads a decimal.
pub(crate) fn read_decimal(s: &[char]) -> (r: Option<Decimal>)
    ensures
        r == parse_decimal(s@),
        r matches Some(d) ==> d.wf(),
{
    let signed: bool = s.len() > 0 && (s[0] == '-' || s[0] == '+');
    let negative: bool = signed && s[0] == '-';
    let from: usize = if signed {
        1
    } else {
        0
    };
    let body = &s[from..s.len()];
    let point: usize = find_char(body, 0, '.');
    let whole = &body[0..point];
    let frac = if point < body.len() {
        &body[point + 1..body.len()]
    } else {
        &body[0..0]
    };
    proof {
        assert(body@ =~= if signed {
            s@.skip(1)
        } else {
            s@
        });
        assert(body@.skip(0) =~= body@);
        assert(whole@ =~= body@.take(point as int));
        assert(frac@ =~= if point < body.len() {
            body@.skip(point + 1)
        } else {
            Seq::empty()
        });
        lemma_extend_concat(0, whole@, frac@);
        lemma_all_digits_concat(whole@, frac@);
    }
    if whole.len() + frac.len() == 0 || frac.len() > MAX_SCALE as usize {
        return None;
    }
    let limit: u64 = i64::MAX as u64;
    match scan_digits(0, whole, limit) {
        None => {
            proof {
                lemma_extend_monotone(0, whole@ + frac@, whole@.len() as int);
                assert((whole@ + frac@).take(whole@.len() as int) =~= whole@);
            }
            None
        },
        Some(high) => match scan_digits(high, frac, limit) {
            None => None,
            Some(magnitude) => {
                let mantissa: i64 = if negative {
                    -(magnitude as i64)
                } else {
                    magnitude as i64
                };
                Some(Decimal { mantissa, scale: frac.len() as u8 })
            },
        },
    }
}

/// The digits of a decimal's magnitude, padded with zeros to one digit more
/// than the scale.
fn pad_digits(d: Decimal) -> (padded: Vec<char>)
    ensures
        padded@ == padded_digits(d),
        padded@.len() > d.scale,
{
    let wide: i128 = d.mantissa as i128;
    let magnitude: u128 = if wide < 0 {
        (-wide) as u128
    } else {
        wide as u128
    };
    let mut digits: Vec<char> = Vec::new();
    push_nat(&mut digits, magnitude);
    proof {
        lemma_nat_digits(magnitude as nat);
        assert(digits@ =~= nat_digits(abs(d.mantissa as int)));
    }
    let scale: usize = d.scale as usize;
    if digits.len() > scale {
        return digits;
    }
    let fill: usize = scale + 1 - digits.len();
    let mut padded: Vec<char> = Vec::new();
    let mut k: usize = 0;
    while k < fill
        invariant
            k <= fill,
            padded@ == zeros(k as nat),
        decreases fill - k,
    {
        padded.push('0');
        k += 1;
        proof {
            assert(padded@ =~= zeros(k as nat));
        }
    }
    let count: usize = digits.len();
    push_range(&mut padded, &digits, 0, count);
    proof {
        assert(digits@.subrange(0, count as int) =~= digits@);
    }
    padded
}

/// Writes a decimal's text at the end of `out`.
pub(crate) fn push_decimal(out: &mut Vec<char>, d: Decimal)
    ensures
        final(out)@ == old(out)@ + decimal_text(d),
{
    let padded = pad_digits(d);
    let total: usize = padded.len();
    let cut: usize = total - d.scale as usize;
    if d.mantissa < 0 {
        out.push('-');
    }
    let ghost signed = out@;
    push_range(out, &padded, 0, cut);
    if d.scale > 0 {
        out.push('.');
        push_range(out, &padded, cut, total);
    }
    proof {
        assert(padded@.subrange(0, cut as int) =~= padded@.take(cut as int));
        assert(padded@.subrange(cut as int, total as int) =~= padded@.skip(cut as int));
        assert(out@ =~= signed + unsigned_text(d));
        assert(out@ =~= old(out)@ + decimal_text(d));
    }
}

/// `10^k` for the scales that a decimal can have.
pub(crate) fn power_of_ten(k: u8) -> (r: i128)
    requires
        k <= MAX_SCALE,
    ensures
        r == pow10(k as nat),
        1 <= r <= 1_000_000_000,
{
    let mut r: i128 = 1;
    let mut i: u8 = 0;
    while i < k
        invariant
            i <= k <= MAX_SCALE,
            r == pow10(i as nat),
            1 <= r,
            i <= 0 ==> r <= 1,
            i <= 1 ==> r <= 10,
            i <= 2 ==> r <= 100,
            i <= 3 ==> r <= 1_000,
            i <= 4 ==> r <= 10_000,
            i <= 5 ==> r <= 100_000,
            i <= 6 ==> r <= 1_000_000,
            i <= 7 ==> r <= 10_000_000,
            i <= 8 ==> r <= 100_000_000,
            r <= 1_000_000_000,
        decreases k - i,
    {
        r = r * 10;
        i += 1;
    }
    r
}

/// The change from `prev` to `last` in percent of `prev`, to two decimals.
pub fn percent_change(last: Decimal, prev: Decimal) -> (r: Option<Decimal>)
    ensures
        r == change_percent(last, prev),
        r matches Some(d) ==> d.wf(),
{
    if !last.is_valid() || !prev.is_valid() {
        return None;
    }
    let p_prev: i128 = power_of_ten(prev.scale);
    let p_last: i128 = power_of_ten(last.scale);
    let m_last: i128 = last.mantissa as i128;
    let m_prev: i128 = prev.mantissa as i128;
    assert(-0x8000_0000_0000_0000 * 1_000_000_000 <= m_last * p_prev <= 0x8000_0000_0000_0000
        * 1_000_000_000) by (nonlinear_arith)
        requires
            -0x8000_0000_0000_0000 <= m_last <= 0x8000_0000_0000_0000,
            1 <= p_prev <= 1_000_000_000,
    ;
    assert(-0x8000_0000_0000_0000 * 1_000_000_000 <= m_prev * p_last <= 0x8000_0000_0000_0000
        * 1_000_000_000) by (nonlinear_arith)
        requires
            -0x8000_0000_0000_0000 <= m_prev <= 0x8000_0000_0000_0000,
            1 <= p_last <= 1_000_000_000,
    ;
    let a: i128 = m_last * p_prev;
    let b: i128 = m_prev * p_last;
    if b == 0 {
        return None;
    }
    let diff: i128 = a - b;
    let diff_abs: u128 = if diff < 0 {
        (-diff) as u128
    } else {
        diff as u128
    };
    let b_abs: u128 = if b < 0 {
        (-b) as u128
    } else {
        b as u128
    };
    let hundredths: u128 = (2 * diff_abs * 10000 + b_abs) / (2 * b_abs);
    if hundredths > i64::MAX as u128 {
        return None;
    }
    let mantissa: i64 = if (diff >= 0) == (b > 0) {
        hundredths as i64
    } else {
        -(hundredths as i64)
    };
    Some(Decimal { mantissa, scale: 2 })
}

/// A run of characters is all digits where both of its halves are.
pub proof fn lemma_all_digits_concat(a: Seq<char>, b: Seq<char>)
    ensures
        all_digits(a + b) <==> all_digits(a) && all_digits(b),
{
    if all_digits(a + b) {
        assert forall|i: int| 0 <= i < a.len() implies is_digit(#[trigger] a[i]) by {
            assert((a + b)[i] == a[i]);
        }
        assert forall|i: int| 0 <= i < b.len() implies is_digit(#[trigger] b[i]) by {
            assert((a + b)[a.len() + i] == b[i]);
        }
    }
    if all_digits(a) && all_digits(b) {
        assert forall|i: int| 0 <= i < (a + b).len() implies is_digit(#[trigger] (a + b)[i]) by {
            if i < a.len() {
                assert((a + b)[i] == a[i]);
            } else {
                assert((a + b)[i] == b[i - a.len()]);
            }
        }
    }
}

/// A count that is written and read again is the same count.
pub proof fn lemma_count_round_trip(n: nat)
    requires
        n <= u64::MAX,
    ensures
        parse_count(nat_digits(n)) == Some(n as u64),
        !nat_digits(n).contains(','),
{
    lemma_nat_digits(n);
    let s = nat_digits(n);
    assert(is_digit(s[0]));
    assert forall|i: int| 0 <= i < s.len() implies s[i] != ',' by {
        assert(is_digit(s[i]));
    }
}

/// The text without sign begins with a digit, holds no comma, and reads as
/// the decimal's magnitude and scale.
proof fn lemma_unsigned_round_trip(d: Decimal)
    ensures
        unsigned_text(d).len() > 0,
        is_digit(unsigned_text(d)[0]),
        !unsigned_text(d).contains(','),
        parse_unsigned(unsigned_text(d)) == Some((abs(d.mantissa as int), d.scale as nat)),
{
    lemma_padded_digits(d);
    let padded = padded_digits(d);
    lemma_cut_round_trip(padded, padded.len() - d.scale);
}

/// The padded digits are digits, more of them than the scale, and write the
/// decimal's magnitude.
proof fn lemma_padded_digits(d: Decimal)
    ensures
        padded_digits(d).len() > d.scale,
        all_digits(padded_digits(d)),
        digits_value(padded_digits(d)) == abs(d.mantissa as int),
{
    let magnitude = abs(d.mantissa as int);
    let digits = nat_digits(magnitude);
    lemma_nat_digits(magnitude);
    if digits.len() <= d.scale {
        let fill = (d.scale + 1 - digits.len()) as nat;
        lemma_leading_zeros(fill, digits);
        lemma_all_digits_concat(zeros(fill), digits);
    }
}

/// Digits with a point put before the last of them: the point is found
/// again, and the digits are all there.
proof fn lemma_cut_round_trip(padded: Seq<char>, cut: int)
    requires
        1 <= cut <= padded.len(),
        all_digits(padded),
    ensures
        ({
            let tail = if cut < padded.len() {
                seq!['.'] + padded.skip(cut)
            } else {
                Seq::empty()
            };
            let body = padded.take(cut) + tail;
            &&& is_digit(body[0])
            &&& !body.contains(',')
            &&& parse_unsigned(body) == Some((digits_value(padded), (padded.len() - cut) as nat))
        }),
{
    let tail = if cut < padded.len() {
        seq!['.'] + padded.skip(cut)
    } else {
        Seq::empty()
    };
    let whole = padded.take(cut);
    let body = whole + tail;
    assert(body[0] == padded[0]);
    assert forall|j: int| 0 <= j < body.len() implies body[j] != ',' && (j < cut ==> body[j] != '.') by {
        if j < cut {
            assert(body[j] == padded[j]);
        } else if j > cut {
            assert(body[j] == padded[j - 1]);
        }
    }
    lemma_index_of_unique(body, '.', cut);
    assert(body.take(cut) =~= whole);
    let frac = if cut < body.len() {
        body.skip(cut + 1)
    } else {
        Seq::empty()
    };
    assert(frac =~= padded.skip(cut));
    assert(whole + frac =~= padded);
}

/// A decimal that is written and read again is the same decimal, and its
/// text holds no comma.
pub proof fn lemma_decimal_round_trip(d: Decimal)
    requires
        d.wf(),
    ensures
        parse_decimal(decimal_text(d)) == Some(d),
        !decimal_text(d).contains(','),
{
    lemma_unsigned_round_trip(d);
    let body = unsigned_text(d);
    let text = decimal_text(d);
    if d.mantissa < 0 {
        assert(text.skip(1) =~= body);
        assert forall|i: int| 0 <= i < text.len() implies text[i] != ',' by {
            if i > 0 {
                assert(text[i] == body[i - 1]);
                assert(body.contains(body[i - 1]));
            }
        }
    }
}

} // verus!
