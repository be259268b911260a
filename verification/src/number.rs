use vstd::prelude::*;

use crate::chars::{digit_char, push_char, push_uint, uint_text};
use crate::reading::{finite_parts, number_parts, scaled_exec, scaled_within, sign_of};

verus! {

/// One million: a decimal counts in millionths.
pub const SCALE: i64 = 1_000_000;

/// A decimal number held in millionths, so that `1.6` is exactly `1_600_000`.
///
/// Its view is the number of millionths.
#[derive(Clone, Copy, Debug, Hash, PartialEq, Eq, Structural, PartialOrd, Ord)]
pub struct Decimal {
    pub micros: i64,
}

impl View for Decimal {
    type V = int;

    open spec fn view(&self) -> int {
        self.micros as int
    }
}

pub open spec fn pow10(n: nat) -> nat
    decreases n,
{
    if n == 0 {
        1
    } else {
        10 * pow10((n - 1) as nat)
    }
}

pub open spec fn is_digit(c: char) -> bool {
    '0' <= c && c <= '9'
}

pub open spec fn all_digits(s: Seq<char>) -> bool {
    forall|i: int| 0 <= i < s.len() ==> is_digit(#[trigger] s[i])
}

/// The value of a run of decimal digits.
pub open spec fn digits_value(s: Seq<char>) -> nat
    decreases s.len(),
{
    if s.len() == 0 {
        0
    } else {
        digits_value(s.drop_last()) * 10 + ((s.last() as nat) - 48) as nat
    }
}

/// The digits before and after the point of an unsigned decimal such as `12`, `1.5`, `.5` or `5.`.
pub open spec fn point_parts(body: Seq<char>) -> Option<(Seq<char>, Seq<char>)> {
    if all_digits(body) {
        Some((body, Seq::empty()))
    } else if exists|k: int|
        0 <= k < body.len() && body[k] == '.' && all_digits(body.take(k)) && all_digits(
            body.skip(k + 1),
        ) {
        let k = choose|k: int|
            0 <= k < body.len() && body[k] == '.' && all_digits(body.take(k)) && all_digits(
                body.skip(k + 1),
            );
        Some((body.take(k), body.skip(k + 1)))
    } else {
        None
    }
}

/// Millionths held by the digits after the point, where there are at most six.
pub open spec fn fraction_micros(frac: Seq<char>) -> nat {
    if frac.len() >= 6 {
        digits_value(frac.take(6))
    } else {
        digits_value(frac) * pow10((6 - frac.len()) as nat)
    }
}

/// The millionths written by an unsigned decimal with no exponent and at
/// most six decimals, if it is one.
pub open spec fn unsigned_micros(body: Seq<char>) -> Option<nat> {
    match point_parts(body) {
        Some((whole, frac)) => if whole.len() + frac.len() == 0 {
            None
        } else {
            Some(digits_value(whole) * 1_000_000 + fraction_micros(frac))
        },
        None => None,
    }
}

/// What `text` denotes in millionths, where it is a finite number as
/// `str::parse::<f64>` reads it (see [`finite_parts`]), a whole number of
/// millionths and no further from zero than a [`Decimal`] holds; `None`
/// otherwise.
pub open spec fn decimal_of(text: Seq<char>) -> Option<int> {
    let (neg, body) = sign_of(text);
    match finite_parts(body) {
        Some((d, p)) => match scaled_within(digits_value(d), p + 6, i64::MAX as nat) {
            Some(m) => Some(
                if neg {
                    -(m as int)
                } else {
                    m as int
                },
            ),
            None => None,
        },
        None => None,
    }
}

pub proof fn lemma_pow10_pos(n: nat)
    ensures
        pow10(n) >= 1,
    decreases n,
{
    if n > 0 {
        lemma_pow10_pos((n - 1) as nat);
    }
}

pub proof fn lemma_pow10_add(a: nat, b: nat)
    ensures
        pow10(a) * pow10(b) == pow10(a + b),
    decreases a,
{
    if a == 0 {
        assert(pow10(0) == 1);
        assert(a + b == b);
    } else {
        let a1 = (a - 1) as nat;
        lemma_pow10_add(a1, b);
        assert(pow10(a) == 10 * pow10(a1));
        assert(a + b == (a1 + b) + 1);
        assert(pow10(a + b) == 10 * pow10(a1 + b));
        let x = pow10(a1);
        let y = pow10(b);
        assert((10 * x) * y == 10 * (x * y)) by (nonlinear_arith);
    }
}

pub proof fn lemma_pow10_mono(n: nat, m: nat)
    requires
        n <= m,
    ensures
        pow10(n) <= pow10(m),
{
    lemma_pow10_add(n, (m - n) as nat);
    lemma_pow10_pos((m - n) as nat);
    assert(pow10(n) <= pow10(n) * pow10((m - n) as nat)) by (nonlinear_arith)
        requires
            pow10((m - n) as nat) >= 1,
    ;
}

pub proof fn lemma_pow10_six()
    ensures
        pow10(6) == 1_000_000,
{
    reveal_with_fuel(pow10, 7);
}

impl Decimal {
    /// `mantissa / 10^places`, as in `Decimal::new(16, 1)` for `1.6`.
    pub fn new(mantissa: i64, places: u32) -> (d: Decimal)
        requires
            places <= 6,
            -9_223_372_036_854_775_807 <= mantissa * pow10((6 - places) as nat) <= i64::MAX,
        ensures
            d@ == mantissa * pow10((6 - places) as nat),
    {
        let mut m: i64 = mantissa;
        let mut p: u32 = places;
        proof {
            assert(pow10(0) == 1);
            assert(mantissa * pow10(0) == mantissa);
        }
        while p < 6
            invariant
                places <= p <= 6,
                m == mantissa * pow10((p - places) as nat),
                -9_223_372_036_854_775_807 <= mantissa * pow10((6 - places) as nat) <= i64::MAX,
            decreases 6 - p,
        {
            proof {
                lemma_pow10_add((p + 1 - places) as nat, (6 - p - 1) as nat);
                lemma_pow10_pos((6 - p - 1) as nat);
                let a = pow10((p - places) as nat);
                let b = pow10((p + 1 - places) as nat);
                let c = pow10((6 - p - 1) as nat);
                assert(b == 10 * a);
                assert(mantissa * pow10((6 - places) as nat) == (mantissa * b) * c) by (nonlinear_arith)
                    requires
                        b * c == pow10((6 - places) as nat),
                ;
                assert(-9_223_372_036_854_775_807 <= mantissa * b <= i64::MAX) by (nonlinear_arith)
                    requires
                        c >= 1,
                        -9_223_372_036_854_775_807 <= (mantissa * b) * c <= i64::MAX,
                ;
                assert(m * 10 == mantissa * b) by (nonlinear_arith)
                    requires
                        m == mantissa * a,
                        b == 10 * a,
                ;
            }
            m = m * 10;
            p = p + 1;
        }
        Decimal { micros: m }
    }

    /// The whole number `n`.
    pub fn from_int(n: i32) -> (d: Decimal)
        ensures
            d@ == n * 1_000_000,
    {
        Decimal { micros: (n as i64) * 1_000_000 }
    }

    /// A number held as millionths.
    pub fn from_micros(micros: i64) -> (d: Decimal)
        ensures
            d@ == micros,
    {
        Decimal { micros }
    }

    /// Reads a decimal such as `14`, `-2`, `8.4`, `.5` or `1e-3`, as
    /// [`decimal_of`] says: numbers that are not a whole number of
    /// millionths, or too large to hold, are refused.
    pub fn parse(text: &str) -> (res: Option<Decimal>)
        ensures
            match decimal_of(text@) {
                Some(v) => res == Some(Decimal { micros: v as i64 }),
                None => res is None,
            },
    {
        let chars = crate::chars::chars_of(text);
        Decimal::parse_chars(&chars)
    }

    /// Reads a decimal from its characters, as [`Decimal::parse`] does.
    pub fn parse_chars(chars: &Vec<char>) -> (res: Option<Decimal>)
        ensures
            match decimal_of(chars@) {
                Some(v) => res == Some(Decimal { micros: v as i64 }),
                None => res is None,
            },
    {
        let ghost parts = finite_parts(sign_of(chars@).1);
        match number_parts(chars.as_slice()) {
            Some((neg, d, pc)) => {
                let ghost p = parts.unwrap().1;
                match scaled_exec(&d, 1, pc + 6, Ghost(p + 6), 9_223_372_036_854_775_807) {
                    Some(m) => {
                        let v = m as i64;
                        if neg {
                            Some(Decimal { micros: -v })
                        } else {
                            Some(Decimal { micros: v })
                        }
                    },
                    None => None,
                }
            },
            None => None,
        }
    }

    pub fn is_positive(&self) -> (b: bool)
        ensures
            b == (self@ > 0),
    {
        self.micros > 0
    }
}

/// `x / d` rounded to the nearest whole number, halves away from zero.
pub open spec fn round_div(x: int, d: int) -> int {
    if x >= 0 {
        (x + d / 2) / d
    } else {
        -((-x + d / 2) / d)
    }
}

/// `whole` followed by up to `places` decimals taken from `frac`, with trailing zeros dropped.
pub open spec fn decimals_text(frac: nat, places: nat) -> Seq<char>
    decreases places,
{
    if frac == 0 || places == 0 {
        Seq::empty()
    } else {
        let unit = pow10((places - 1) as nat);
        seq![digit_char(frac / unit)] + decimals_text(frac % unit, (places - 1) as nat)
    }
}

/// `v` millionths written with at most `places` decimals: rounded half away
/// from zero, no trailing zeros after the point, no point for a whole number.
pub open spec fn rounded_text(v: int, places: nat) -> Seq<char> {
    let r = round_div(v, pow10((6 - places) as nat) as int);
    let a = if r < 0 {
        -r
    } else {
        r
    };
    let unit = pow10(places);
    let whole = (a / unit as int) as nat;
    let frac = (a % unit as int) as nat;
    let sign = if r < 0 {
        seq!['-']
    } else {
        Seq::<char>::empty()
    };
    let tail = if frac == 0 {
        Seq::<char>::empty()
    } else {
        seq!['.'] + decimals_text(frac, places)
    };
    sign + uint_text(whole) + tail
}

/// `10^n`.
pub fn pow10_exec(n: u32) -> (r: u64)
    requires
        n <= 18,
    ensures
        r == pow10(n as nat),
    decreases n,
{
    if n == 0 {
        1
    } else {
        let r = pow10_exec(n - 1);
        proof {
            lemma_pow10_mono((n - 1) as nat, 17);
            assert(pow10(17) == 100_000_000_000_000_000) by {
                reveal_with_fuel(pow10, 18);
            }
        }
        10 * r
    }
}

pub fn push_decimals(s: &mut String, frac: u64, places: u32)
    requires
        places <= 18,
        frac < pow10(places as nat),
    ensures
        final(s)@ == old(s)@ + decimals_text(frac as nat, places as nat),
    decreases places,
{
    if frac == 0 || places == 0 {
        return;
    }
    let unit = pow10_exec(places - 1);
    proof {
        lemma_pow10_pos((places - 1) as nat);
    }
    let q = frac / unit;
    proof {
        assert(pow10(places as nat) == 10 * unit);
        assert(q < 10) by (nonlinear_arith)
            requires
                frac < 10 * unit,
                unit >= 1,
                q == frac / unit,
        ;
    }
    let c = ((q as u8) + 48) as char;
    push_char(s, c);
    push_decimals(s, frac % unit, places - 1);
}

/// Appends `v` millionths written with at most `places` decimals, as [`rounded_text`] says.
pub fn push_rounded(s: &mut String, v: i64, places: u32)
    requires
        places <= 6,
    ensures
        final(s)@ == old(s)@ + rounded_text(v as int, places as nat),
{
    let d = pow10_exec(6 - places) as i128;
    proof {
        lemma_pow10_pos((6 - places) as nat);
        lemma_pow10_mono((6 - places) as nat, 6);
        lemma_pow10_six();
    }
    let x = v as i128;
    let r: i128 = if x >= 0 {
        (x + d / 2) / d
    } else {
        -((-x + d / 2) / d)
    };
    let a: i128 = if r < 0 { -r } else { r };
    let unit = pow10_exec(places) as i128;
    proof {
        lemma_pow10_pos(places as nat);
    }
    let whole = (a / unit) as u64;
    let frac = (a % unit) as u64;
    if r < 0 {
        push_char(s, '-');
    }
    push_uint(s, whole);
    if frac != 0 {
        push_char(s, '.');
        push_decimals(s, frac, places);
    }
}

} // verus!
