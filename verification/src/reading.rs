use vstd::prelude::*;

use crate::number::{
    all_digits, digits_value, fraction_micros, is_digit, lemma_pow10_add, lemma_pow10_pos,
    lemma_pow10_mono, lemma_pow10_six, point_parts, pow10, unsigned_micros,
};

verus! {

/// The sign of a number's text and the rest of it: `-` makes it negative,
/// `+` changes nothing.
pub open spec fn sign_of(text: Seq<char>) -> (bool, Seq<char>) {
    if text.len() > 0 && (text[0] == '-' || text[0] == '+') {
        (text[0] == '-', text.skip(1))
    } else {
        (false, text)
    }
}

pub open spec fn is_exp_mark(c: char) -> bool {
    c == 'e' || c == 'E'
}

/// Where the first exponent mark of `t` at or after `i` stands, or the
/// length of `t` where there is none.
pub open spec fn mark_from(t: Seq<char>, i: int) -> int
    decreases t.len() - i,
{
    if i < 0 || i >= t.len() {
        t.len() as int
    } else if is_exp_mark(t[i]) {
        i
    } else {
        mark_from(t, i + 1)
    }
}

/// An exponent such as `3`, `+3` or `-12`.
pub open spec fn exponent_of(t: Seq<char>) -> Option<int> {
    let (neg, body) = sign_of(t);
    if body.len() > 0 && all_digits(body) {
        Some(
            if neg {
                -(digits_value(body) as int)
            } else {
                digits_value(body) as int
            },
        )
    } else {
        None
    }
}

/// An unsigned finite number as `str::parse::<f64>` reads it: digits with
/// at most one point among them and at least one digit, then, after an `e`
/// or `E`, an optional exponent. Given as its digits and the power of ten
/// that scales them: `12.5e3` is `125` scaled by `10^2`.
pub open spec fn finite_parts(body: Seq<char>) -> Option<(Seq<char>, int)> {
    let k = mark_from(body, 0);
    let e = if k >= body.len() {
        Some(0int)
    } else {
        exponent_of(body.skip(k + 1))
    };
    match point_parts(body.take(k)) {
        Some((w, f)) => match e {
            Some(x) => if w.len() + f.len() == 0 {
                None
            } else {
                Some((w + f, x - f.len()))
            },
            None => None,
        },
        None => None,
    }
}

/// `n * 10^p`, where that is a whole number.
pub open spec fn scaled(n: nat, p: int) -> Option<nat> {
    if p >= 0 {
        Some(n * pow10(p as nat))
    } else if n % pow10((-p) as nat) == 0 {
        Some(n / pow10((-p) as nat))
    } else {
        None
    }
}

/// `n * 10^p` where that is a whole number no larger than `bound`.
pub open spec fn scaled_within(n: nat, p: int, bound: nat) -> Option<nat> {
    match scaled(n, p) {
        Some(v) => if v <= bound {
            Some(v)
        } else {
            None
        },
        None => None,
    }
}

/// Two powers of ten that agree, or are both so far from zero that no
/// number of this library is scaled by either.
pub open spec fn near(pc: int, p: int, far: int) -> bool {
    ||| pc == p
    ||| (pc >= far && p >= far)
    ||| (pc <= -far && p <= -far)
}

proof fn lemma_push(s: Seq<char>, c: char)
    ensures
        digits_value(s.push(c)) == digits_value(s) * 10 + ((c as nat) - 48) as nat,
{
    assert(s.push(c).drop_last() == s);
}

/// Leading zeros add nothing, and the digits from the first non-zero one
/// on are worth between `10^(len-1)` and `10^len`.
proof fn lemma_value_bounds(s: Seq<char>, a: int, i: int)
    requires
        all_digits(s),
        0 <= a < i <= s.len(),
        forall|j: int| 0 <= j < a ==> s[j] == '0',
        s[a] != '0',
    ensures
        pow10((i - a - 1) as nat) <= digits_value(s.take(i)) < pow10((i - a) as nat),
    decreases i,
{
    assert(s.take(i).drop_last() == s.take(i - 1));
    lemma_push(s.take(i - 1), s[i - 1]);
    assert(s.take(i - 1).push(s[i - 1]) == s.take(i));
    assert(is_digit(s[i - 1]));
    if i == a + 1 {
        lemma_zeros(s, a);
        assert(pow10(0) == 1);
        assert(pow10(1) == 10) by {
            reveal_with_fuel(pow10, 2);
        }
    } else {
        lemma_value_bounds(s, a, i - 1);
        let v = digits_value(s.take(i - 1));
        let d = ((s[i - 1] as nat) - 48) as nat;
        let lo = pow10((i - a - 2) as nat);
        assert(pow10((i - a - 1) as nat) == 10 * lo);
        assert(pow10((i - a) as nat) == 10 * pow10((i - a - 1) as nat));
        assert(v * 10 + d < pow10((i - a - 1) as nat) * 10) by (nonlinear_arith)
            requires
                v < pow10((i - a - 1) as nat),
                d <= 9,
        ;
        assert(lo * 10 <= v * 10 + d) by (nonlinear_arith)
            requires
                lo <= v,
        ;
    }
}

/// Zeros are worth nothing.
proof fn lemma_zeros(s: Seq<char>, i: int)
    requires
        0 <= i <= s.len(),
        forall|j: int| 0 <= j < i ==> s[j] == '0',
    ensures
        digits_value(s.take(i)) == 0,
    decreases i,
{
    if i > 0 {
        lemma_zeros(s, i - 1);
        assert(s.take(i).drop_last() == s.take(i - 1));
    }
}

/// Trailing zeros multiply what comes before them by ten each.
#[verifier::spinoff_prover]
proof fn lemma_trailing(s: Seq<char>, b: int, i: int)
    requires
        0 <= b < i <= s.len(),
        forall|j: int| b < j < s.len() ==> s[j] == '0',
    ensures
        digits_value(s.take(i)) == digits_value(s.take(b + 1)) * pow10((i - b - 1) as nat),
    decreases i,
{
    if i == b + 1 {
        assert(pow10(0) == 1);
        assert((i - b - 1) as nat == 0);
        assert(digits_value(s.take(b + 1)) * pow10(0) == digits_value(s.take(b + 1)));
    } else {
        lemma_trailing(s, b, i - 1);
        assert(s.take(i - 1).push(s[i - 1]) == s.take(i));
        lemma_push(s.take(i - 1), s[i - 1]);
        assert(s[i - 1] == '0');
        assert(((s[i - 1] as nat) - 48) as nat == 0);
        assert(digits_value(s.take(i)) == digits_value(s.take(i - 1)) * 10);
        assert(pow10((i - b - 1) as nat) == 10 * pow10((i - b - 2) as nat));
        let v = digits_value(s.take(b + 1));
        let p = pow10((i - b - 2) as nat);
        assert(pow10((i - b - 1) as nat) == 10 * p);
        let w = digits_value(s.take(i));
        let w1 = digits_value(s.take(i - 1));
        assert(w == v * pow10((i - b - 1) as nat)) by (nonlinear_arith)
            requires
                w == w1 * 10,
                w1 == v * p,
                pow10((i - b - 1) as nat) == 10 * p,
        ;
        assert(digits_value(s.take(i)) == digits_value(s.take(b + 1)) * pow10((i - b - 1) as nat));
    }
}

/// The last digit of a value is its remainder by ten.
proof fn lemma_last_digit(s: Seq<char>)
    requires
        s.len() > 0,
        all_digits(s),
    ensures
        digits_value(s) % 10 == ((s.last() as nat) - 48) as nat,
{
    assert(is_digit(s.last()));
    let d = ((s.last() as nat) - 48) as nat;
    let v = digits_value(s.drop_last());
    assert((v * 10 + d) % 10 == d) by (nonlinear_arith)
        requires
            d < 10,
    ;
}

/// Scaling by trailing zeros moves the power of ten.
proof fn lemma_scaled_shift(x: nat, z: nat, p: int)
    ensures
        scaled(x * pow10(z), p) == scaled(x, p + z),
{
    lemma_pow10_pos(z);
    let pz = pow10(z);
    if p >= 0 {
        let pp = pow10(p as nat);
        lemma_pow10_add(z, p as nat);
        assert((z + (p as nat)) as nat == (p + z) as nat);
        assert((x * pz) * pp == x * (pz * pp)) by (nonlinear_arith);
        assert(scaled(x * pz, p) == Some((x * pz) * pp));
        assert(scaled(x, p + z) == Some(x * pow10((p + z) as nat)));
    } else {
        let r = (-p) as nat;
        lemma_pow10_pos(r);
        let pr = pow10(r);
        if p + z >= 0 {
            let k = (p + z) as nat;
            lemma_pow10_add(r, k);
            assert(r + k == z);
            let pk = pow10(k);
            assert(x * pz == (x * pk) * pr) by (nonlinear_arith)
                requires
                    pz == pr * pk,
            ;
            vstd::arithmetic::div_mod::lemma_mod_multiples_basic((x * pk) as int, pr as int);
            vstd::arithmetic::div_mod::lemma_div_multiples_vanish((x * pk) as int, pr as int);
            assert((x * pk) * pr == pr * (x * pk)) by (nonlinear_arith);
            assert((x * pz) % pr == 0);
            assert((x * pz) / pr == x * pk);
            assert(scaled(x * pz, p) == Some(x * pk));
            assert(scaled(x, p + z) == Some(x * pk));
        } else {
            let t = (-(p + z)) as nat;
            lemma_pow10_add(t, z);
            assert(t + z == r);
            let pt = pow10(t);
            lemma_pow10_pos(t);
            lemma_cancel(x, pt, pz);
            assert(pr == pt * pz);
            let a = x % pt;
            assert(a * pz == 0 <==> a == 0) by (nonlinear_arith)
                requires
                    pz > 0,
                    a >= 0,
            ;
        }
    }
}

/// Dividing `x * c` by `y * c` is dividing `x` by `y`.
proof fn lemma_cancel(x: nat, y: nat, c: nat)
    requires
        y > 0,
        c > 0,
    ensures
        (x * c) % (y * c) == (x % y) * c,
        (x * c) / (y * c) == x / y,
{
    let q = x / y;
    let r = x % y;
    vstd::arithmetic::div_mod::lemma_fundamental_div_mod(x as int, y as int);
    assert(x * c == q * (y * c) + r * c) by (nonlinear_arith)
        requires
            x == y * q + r,
    ;
    assert(r * c < y * c) by (nonlinear_arith)
        requires
            r < y,
            c > 0,
    ;
    vstd::arithmetic::div_mod::lemma_fundamental_div_mod_converse(
        (x * c) as int,
        (y * c) as int,
        q as int,
        (r * c) as int,
    );
}

/// A number that does not end in zero, times one or six, is no multiple
/// of a hundred.
proof fn lemma_no_hundred(n: nat, u: nat)
    requires
        n % 10 != 0,
        u == 1 || u == 6,
    ensures
        (n * u) % 100 != 0,
{
    if (n * u) % 100 == 0 {
        let a = n / 50;
        let b = n % 50;
        vstd::arithmetic::div_mod::lemma_fundamental_div_mod(n as int, 50);
        if u == 1 {
            assert(n % 10 == 0) by (nonlinear_arith)
                requires
                    n % 100 == 0,
            ;
        } else {
            assert((6 * b) % 100 == 0) by (nonlinear_arith)
                requires
                    n == 50 * a + b,
                    (n * 6) % 100 == 0,
            ;
            let bb = b as u64;
            assert(bb < 50 && (6 * bb) % 100 == 0 ==> bb == 0) by (bit_vector);
            assert(n % 10 == 0) by (nonlinear_arith)
                requires
                    n == 50 * a,
            ;
        }
    }
}

/// A whole number of at least twenty-two significant digits, not ending in
/// zero, scaled by a unit of this library, is either no whole number or too
/// large for 64 bits.
proof fn lemma_large(np: nat, mult: nat, q: int, bound: nat)
    requires
        np >= pow10(31),
        np % 10 != 0,
        mult == 1 || mult == 1000 || mult == 60000,
        bound <= 100_000_000_000_000_000_000_000_000_000,
    ensures
        scaled_within(np * mult, q, bound) is None,
{
    assert(pow10(31) == 10_000_000_000_000_000_000_000_000_000_000) by {
        reveal_with_fuel(pow10, 32);
    }
    let x = np * mult;
    assert(x >= np) by (nonlinear_arith)
        requires
            mult >= 1,
            x == np * mult,
    ;
    if q >= 0 {
        lemma_pow10_pos(q as nat);
        assert(x * pow10(q as nat) >= x) by (nonlinear_arith)
            requires
                pow10(q as nat) >= 1,
        ;
    } else {
        let r = (-q) as nat;
        let (u, k): (nat, nat) = if mult == 1 {
            (1, 0)
        } else if mult == 1000 {
            (1, 3)
        } else {
            (6, 4)
        };
        assert(mult == u * pow10(k)) by {
            reveal_with_fuel(pow10, 5);
        }
        lemma_pow10_pos(r);
        if x % pow10(r) == 0 {
            let v = x / pow10(r);
            vstd::arithmetic::div_mod::lemma_fundamental_div_mod(x as int, pow10(r) as int);
            assert(x == v * pow10(r)) by (nonlinear_arith)
                requires
                    x == pow10(r) * (x / pow10(r)) + x % pow10(r),
                    x % pow10(r) == 0,
                    v == x / pow10(r),
            ;
            if r <= k + 1 {
                lemma_pow10_mono(r, k + 1);
                assert(pow10(k + 1) == 10 * pow10(k));
                lemma_pow10_pos(k);
                assert(v * 10 >= np) by (nonlinear_arith)
                    requires
                        x == v * pow10(r),
                        pow10(r) <= 10 * pow10(k),
                        x == np * (u * pow10(k)),
                        u >= 1,
                        pow10(k) >= 1,
                ;
            } else {
                let s = (r - k - 2) as nat;
                lemma_pow10_add(s + 2, k);
                lemma_pow10_add(s, 2);
                assert(pow10(2) == 100) by {
                    reveal_with_fuel(pow10, 3);
                }
                assert(s + 2 + k == r);
                lemma_pow10_pos(k);
                lemma_pow10_pos(s);
                assert(np * u == (v * pow10(s)) * 100) by (nonlinear_arith)
                    requires
                        x == v * pow10(r),
                        pow10(r) == pow10(s + 2) * pow10(k),
                        pow10(s + 2) == pow10(s) * 100,
                        x == np * (u * pow10(k)),
                        pow10(k) >= 1,
                ;
                vstd::arithmetic::div_mod::lemma_mod_multiples_basic((v * pow10(s)) as int, 100);
                lemma_no_hundred(np, u);
            }
        }
    }
}

/// `n * mult * 10^p` for the digits `d`, where it is a whole number no
/// larger than `bound`, as [`scaled_within`] says; `pc` gives `p`, or a
/// power as far from zero as it is.
#[verifier::rlimit(60)]
pub fn scaled_exec(d: &Vec<char>, mult: u64, pc: i128, Ghost(p): Ghost<int>, bound: u128) -> (r:
    Option<u128>)
    requires
        all_digits(d@),
        mult == 1 || mult == 1000 || mult == 60000,
        near(pc as int, p, 100_000_000_000_000_000_000),
        -100_000_000_000_000_000_000_000 <= pc <= 100_000_000_000_000_000_000_000,
        bound <= 100_000_000_000_000_000_000_000_000_000,
    ensures
        match scaled_within(digits_value(d@) * (mult as nat), p, bound as nat) {
            Some(v) => r == Some(v as u128),
            None => r is None,
        },
{
    let n = d.len();
    let mut a: usize = 0;
    while a < n && d[a] == '0'
        invariant
            a <= n,
            n == d.len(),
            forall|j: int| 0 <= j < a ==> d@[j] == '0',
        decreases n - a,
    {
        a = a + 1;
    }
    if a == n {
        proof {
            lemma_zeros(d@, n as int);
            assert(d@.take(n as int) == d@);
            lemma_pow10_pos((if p >= 0 { p } else { -p }) as nat);
            if p < 0 {
                vstd::arithmetic::div_mod::lemma_mod_multiples_basic(0, pow10((-p) as nat) as int);
            }
        }
        return Some(0);
    }
    let mut b: usize = n - 1;
    while d[b] == '0'
        invariant
            a <= b < n,
            n == d.len(),
            d@[a as int] != '0',
            forall|j: int| b < j < n ==> d@[j] == '0',
        decreases b,
    {
        b = b - 1;
    }
    let z = n - 1 - b;
    let len = b - a + 1;
    let ghost np = digits_value(d@.take(b + 1));
    proof {
        lemma_trailing(d@, b as int, n as int);
        assert(d@.take(n as int) == d@);
        lemma_value_bounds(d@, a as int, b + 1);
        assert(all_digits(d@.take(b + 1))) by {
            assert forall|i: int| 0 <= i < b + 1 implies is_digit(#[trigger] d@.take(b + 1)[i]) by {
                assert(d@.take(b + 1)[i] == d@[i]);
            }
        }
        lemma_last_digit(d@.take(b + 1));
        assert(d@.take(b + 1).last() == d@[b as int]);
        assert(is_digit(d@[b as int]));
        assert(np % 10 != 0);
        assert(digits_value(d@) * mult == (np * mult) * pow10(z as nat)) by (nonlinear_arith)
            requires
                digits_value(d@) == np * pow10(z as nat),
        ;
        lemma_scaled_shift(np * (mult as nat), z as nat, p);
    }
    let ghost q = p + z;
    let qc: i128 = pc + z as i128;
    if len > 32 {
        proof {
            lemma_pow10_mono(31, (len - 1) as nat);
            lemma_large(np, mult as nat, q, bound as nat);
        }
        return None;
    }
    // the significant digits, in full
    let mut acc: u128 = 0;
    let mut i: usize = a;
    proof {
        lemma_zeros(d@, a as int);
    }
    while i <= b
        invariant
            a <= i <= b + 1,
            b < n,
            n == d.len(),
            len == b - a + 1,
            len <= 32,
            all_digits(d@),
            forall|j: int| 0 <= j < a ==> d@[j] == '0',
            d@[a as int] != '0',
            acc == digits_value(d@.take(i as int)),
        decreases b + 1 - i,
    {
        proof {
            assert(d@.take(i + 1).drop_last() == d@.take(i as int));
            lemma_value_bounds(d@, a as int, i + 1);
            lemma_pow10_mono((i + 1 - a) as nat, 32);
            assert(pow10(32) == 100_000_000_000_000_000_000_000_000_000_000) by {
                reveal_with_fuel(pow10, 33);
            }
            assert(is_digit(d@[i as int]));
        }
        acc = acc * 10 + (d[i] as u32 - 48) as u128;
        i = i + 1;
    }
    proof {
        lemma_value_bounds(d@, a as int, b + 1);
        lemma_pow10_mono(len as nat, 32);
        assert(pow10(32) == 100_000_000_000_000_000_000_000_000_000_000) by {
            reveal_with_fuel(pow10, 33);
        }
        assert(np >= 1) by {
            lemma_pow10_pos((len - 1) as nat);
        }
    }
    let x: u128 = acc * mult as u128;
    proof {
        assert(x >= 1) by (nonlinear_arith)
            requires
                acc >= 1,
                mult >= 1,
                x == acc * mult,
        ;
        assert(x < 10_000_000_000_000_000_000_000_000_000_000_000_000) by (nonlinear_arith)
            requires
                acc < 100_000_000_000_000_000_000_000_000_000_000,
                mult <= 60000,
                x == acc * mult,
        ;
    }
    proof {
        assert(near(qc as int, q, 40));
    }
    scale_small(x, qc, Ghost(q), bound)
}

/// `x * 10^q` where it is a whole number no larger than `bound`, for a
/// small `x` that is not zero; `qc` gives `q`, or a power as far from zero.
proof fn lemma_pow10_30()
    ensures
        pow10(30) == 1_000_000_000_000_000_000_000_000_000_000,
{
    reveal_with_fuel(pow10, 31);
}

proof fn lemma_pow10_38()
    ensures
        pow10(38) == 100_000_000_000_000_000_000_000_000_000_000_000_000,
{
    reveal_with_fuel(pow10, 39);
}

#[verifier::rlimit(20)]
fn scale_small(x: u128, qc: i128, Ghost(q): Ghost<int>, bound: u128) -> (r: Option<u128>)
    requires
        1 <= x < 10_000_000_000_000_000_000_000_000_000_000_000_000,
        bound <= 100_000_000_000_000_000_000_000_000_000,
        near(qc as int, q, 40),
    ensures
        match scaled_within(x as nat, q, bound as nat) {
            Some(v) => r == Some(v as u128),
            None => r is None,
        },
{
    if qc >= 30 {
        proof {
            assert(q >= 30);
            lemma_pow10_mono(30, q as nat);
            lemma_pow10_30();
            assert(x * pow10(q as nat) >= pow10(q as nat)) by (nonlinear_arith)
                requires
                    x >= 1,
            ;
        }
        return None;
    }
    if qc <= -38 {
        proof {
            assert(q <= -38);
            lemma_pow10_mono(38, (-q) as nat);
            lemma_pow10_38();
            vstd::arithmetic::div_mod::lemma_small_mod(x as nat, pow10((-q) as nat));
        }
        return None;
    }
    assert(qc == q);
    if qc >= 0 {
        scale_up(x, qc as u32, bound)
    } else {
        scale_down(x, (-qc) as u32, bound)
    }
}

/// `x * 10^q`, where it is no larger than `bound`.
fn scale_up(x: u128, qc: u32, bound: u128) -> (r: Option<u128>)
    requires
        1 <= x < 10_000_000_000_000_000_000_000_000_000_000_000_000,
        bound <= 100_000_000_000_000_000_000_000_000_000,
        qc < 30,
    ensures
        match scaled_within(x as nat, qc as int, bound as nat) {
            Some(v) => r == Some(v as u128),
            None => r is None,
        },
{
    let mut v: u128 = x;
    let mut t: u32 = 0;
    assert(pow10(0) == 1);
    assert(x * pow10(0) == x);
    while t < qc
        invariant
            0 <= t <= qc,
            qc < 30,
            x >= 1,
            bound <= 100_000_000_000_000_000_000_000_000_000,
            v == x * pow10(t as nat),
            v <= 100_000_000_000_000_000_000_000_000_000_000_000_000,
        decreases qc - t,
    {
        if v > bound {
            proof {
                lemma_pow10_pos((qc - t) as nat);
                lemma_pow10_add(t as nat, (qc - t) as nat);
                assert(x * pow10(qc as nat) == v * pow10((qc - t) as nat)) by (nonlinear_arith)
                    requires
                        v == x * pow10(t as nat),
                        pow10(qc as nat) == pow10(t as nat) * pow10((qc - t) as nat),
                ;
                assert(v * pow10((qc - t) as nat) >= v) by (nonlinear_arith)
                    requires
                        pow10((qc - t) as nat) >= 1,
                ;
            }
            return None;
        }
        proof {
            assert(pow10((t + 1) as nat) == 10 * pow10(t as nat));
            assert(v * 10 == x * pow10((t + 1) as nat)) by (nonlinear_arith)
                requires
                    v == x * pow10(t as nat),
                    pow10((t + 1) as nat) == 10 * pow10(t as nat),
            ;
        }
        v = v * 10;
        t = t + 1;
    }
    if v > bound {
        return None;
    }
    return Some(v);
}

/// `x / 10^r`, where it is a whole number no larger than `bound`.
fn scale_down(x: u128, r: u32, bound: u128) -> (res: Option<u128>)
    requires
        1 <= x < 10_000_000_000_000_000_000_000_000_000_000_000_000,
        1 <= r <= 37,
    ensures
        match scaled_within(x as nat, -(r as int), bound as nat) {
            Some(v) => res == Some(v as u128),
            None => res is None,
        },
{
    let mut unit: u128 = 1;
    let mut k: u32 = 0;
    proof {
        assert(pow10(0) == 1);
        assert(pow10(36) == 1_000_000_000_000_000_000_000_000_000_000_000_000) by {
            reveal_with_fuel(pow10, 37);
        }
    }
    while k < r
        invariant
            k <= r,
            r <= 37,
            unit == pow10(k as nat),
            pow10(36) == 1_000_000_000_000_000_000_000_000_000_000_000_000,
        decreases r - k,
    {
        proof {
            lemma_pow10_mono(k as nat, 36);
            assert(pow10((k + 1) as nat) == 10 * pow10(k as nat));
        }
        unit = unit * 10;
        k = k + 1;
    }
    proof {
        lemma_pow10_pos(r as nat);
    }
    if x % unit != 0 {
        return None;
    }
    let v = x / unit;
    if v > bound {
        return None;
    }
    Some(v)
}

/// Where the first exponent mark stands, found by scanning.
proof fn lemma_mark_from(t: Seq<char>, i: int, m: int)
    requires
        0 <= i <= m <= t.len(),
        forall|j: int| i <= j < m ==> !is_exp_mark(#[trigger] t[j]),
        m == t.len() || is_exp_mark(t[m]),
    ensures
        mark_from(t, i) == m,
    decreases m - i,
{
    if i < m {
        lemma_mark_from(t, i + 1, m);
    }
}

/// The digits of `m` without its point and how many came after the point,
/// as [`point_parts`] splits it.
fn point_split(m: &[char]) -> (r: Option<(Vec<char>, usize)>)
    ensures
        match point_parts(m@) {
            Some((w, f)) => r matches Some((wf, fl)) && wf@ == w + f && fl == f.len(),
            None => r is None,
        },
{
    let n = m.len();
    let mut i: usize = 0;
    while i < n && '0' <= m[i] && m[i] <= '9'
        invariant
            i <= n,
            n == m.len(),
            forall|j: int| 0 <= j < i ==> is_digit(#[trigger] m@[j]),
        decreases n - i,
    {
        i = i + 1;
    }
    if i == n {
        let mut out: Vec<char> = Vec::new();
        let mut k: usize = 0;
        while k < n
            invariant
                k <= n,
                n == m.len(),
                out@ == m@.take(k as int),
            decreases n - k,
        {
            out.push(m[k]);
            assert(m@.take(k + 1) == m@.take(k as int).push(m@[k as int]));
            k = k + 1;
        }
        proof {
            assert(all_digits(m@));
            assert(m@.take(n as int) == m@);
            assert(m@ + Seq::<char>::empty() == m@);
        }
        return Some((out, 0));
    }
    if m[i] != '.' {
        proof {
            assert(!is_digit(m@[i as int]));
            assert(!all_digits(m@));
            assert forall|k2: int|
                0 <= k2 < m@.len() && m@[k2] == '.' implies !(all_digits(m@.take(k2)) && all_digits(
                m@.skip(k2 + 1))) by {
                if k2 < i {
                    assert(is_digit(m@[k2]));
                } else {
                    assert(k2 != i);
                    assert(m@.take(k2)[i as int] == m@[i as int]);
                }
            }
        }
        return None;
    }
    let mut j: usize = i + 1;
    while j < n && '0' <= m[j] && m[j] <= '9'
        invariant
            i < j <= n,
            n == m.len(),
            forall|q: int| i < q < j ==> is_digit(#[trigger] m@[q]),
        decreases n - j,
    {
        j = j + 1;
    }
    if j < n {
        proof {
            assert(!is_digit(m@[j as int]));
            assert(!all_digits(m@)) by {
                assert(!is_digit(m@[i as int]));
            }
            assert forall|k2: int|
                0 <= k2 < m@.len() && m@[k2] == '.' implies !(all_digits(m@.take(k2)) && all_digits(
                m@.skip(k2 + 1))) by {
                if k2 < i {
                    assert(is_digit(m@[k2]));
                } else if k2 == i {
                    assert(m@.skip(k2 + 1)[j - i - 1] == m@[j as int]);
                } else {
                    assert(m@.take(k2)[i as int] == m@[i as int]);
                }
            }
        }
        return None;
    }
    let mut out: Vec<char> = Vec::new();
    let mut k: usize = 0;
    while k < i
        invariant
            k <= i,
            i < n,
            n == m.len(),
            out@ == m@.take(k as int),
        decreases i - k,
    {
        out.push(m[k]);
        assert(m@.take(k + 1) == m@.take(k as int).push(m@[k as int]));
        k = k + 1;
    }
    let mut k: usize = i + 1;
    while k < n
        invariant
            i < k <= n,
            n == m.len(),
            out@ == m@.take(i as int) + m@.subrange(i + 1, k as int),
        decreases n - k,
    {
        out.push(m[k]);
        assert(m@.subrange(i + 1, k + 1) == m@.subrange(i + 1, k as int).push(m@[k as int]));
        k = k + 1;
    }
    proof {
        let w = m@.take(i as int);
        let f = m@.skip(i + 1);
        assert(m@.subrange(i + 1, n as int) == f);
        assert(all_digits(w)) by {
            assert forall|q: int| 0 <= q < w.len() implies is_digit(#[trigger] w[q]) by {
                assert(w[q] == m@[q]);
            }
        }
        assert(all_digits(f)) by {
            assert forall|q: int| 0 <= q < f.len() implies is_digit(#[trigger] f[q]) by {
                assert(f[q] == m@[i + 1 + q]);
            }
        }
        assert(!all_digits(m@)) by {
            assert(!is_digit(m@[i as int]));
        }
        let c = choose|k2: int|
            0 <= k2 < m@.len() && m@[k2] == '.' && all_digits(m@.take(k2)) && all_digits(
                m@.skip(k2 + 1),
            );
        assert(0 <= (i as int) < m@.len() && m@[i as int] == '.' && all_digits(m@.take(i as int))
            && all_digits(m@.skip(i + 1)));
        if c < i {
            assert(is_digit(m@[c]));
        } else if c > i {
            assert(m@.take(c)[i as int] == m@[i as int]);
            assert(!is_digit(m@.take(c)[i as int]));
        }
        assert(c == i);
    }
    Some((out, n - 1 - i))
}

/// The sign, digits and power of ten of a finite number, as [`sign_of`]
/// and [`finite_parts`] read it; the power may be replaced by one as far
/// from zero where it is beyond any this library holds.
pub fn number_parts(t: &[char]) -> (r: Option<(bool, Vec<char>, i128)>)
    ensures
        match finite_parts(sign_of(t@).1) {
            Some((d, p)) => r matches Some((neg, dv, pc)) && neg == sign_of(t@).0 && dv@ == d
                && near(pc as int, p, 1_000_000_000_000_000_000_000)
                && -20_000_000_000_000_000_000_000 <= pc <= 20_000_000_000_000_000_000_000
                && all_digits(dv@),
            None => r is None,
        },
{
    let n = t.len();
    let neg = n > 0 && t[0] == '-';
    let start: usize = if n > 0 && (t[0] == '-' || t[0] == '+') {
        1
    } else {
        0
    };
    let ghost body = sign_of(t@).1;
    assert(body == t@.skip(start as int));
    let mut k: usize = start;
    while k < n && t[k] != 'e' && t[k] != 'E'
        invariant
            start <= k <= n,
            n == t.len(),
            body == t@.skip(start as int),
            forall|j: int| 0 <= j < k - start ==> !is_exp_mark(#[trigger] body[j]),
        decreases n - k,
    {
        assert(body[k - start] == t@[k as int]);
        k = k + 1;
    }
    proof {
        if k < n {
            assert(body[k - start] == t@[k as int]);
        }
        lemma_mark_from(body, 0, k - start);
    }
    let mant = crate::chars::slice_of(t, start, k);
    assert(mant@ == body.take(k - start));
    let parts = point_split(mant.as_slice());
    let (digits, flen) = match parts {
        Some(x) => x,
        None => {
            return None;
        },
    };
    if digits.len() == 0 {
        return None;
    }
    proof {
        let (w, f) = point_parts(body.take(k - start)).unwrap();
        if point_parts(body.take(k - start)) is Some {
            let bt = body.take(k - start);
            if all_digits(bt) {
                assert(all_digits(w + f));
            } else {
                let c = choose|k2: int|
                    0 <= k2 < bt.len() && bt[k2] == '.' && all_digits(bt.take(k2)) && all_digits(
                        bt.skip(k2 + 1),
                    );
                assert forall|q: int| 0 <= q < (w + f).len() implies is_digit(#[trigger] (w + f)[q]) by {
                    if q < w.len() {
                        assert((w + f)[q] == w[q]);
                    } else {
                        assert((w + f)[q] == f[q - w.len()]);
                    }
                }
            }
        }
    }
    let mut e: i128 = 0;
    if k < n {
        proof {
            assert(body.skip(k - start + 1) == t@.skip(k + 1));
        }
        match read_exponent(t, k + 1) {
            Some(x) => {
                e = x;
            },
            None => {
                return None;
            },
        }
    }
    let pc = e - flen as i128;
    Some((neg, digits, pc))
}

/// The exponent written from `t[from]` on, as [`exponent_of`] reads it,
/// held to within ten sextillion of zero.
fn read_exponent(t: &[char], from: usize) -> (r: Option<i128>)
    requires
        from <= t.len(),
    ensures
        match exponent_of(t@.skip(from as int)) {
            Some(x) => r matches Some(e) && near(e as int, x, 10_000_000_000_000_000_000_000)
                && -10_000_000_000_000_000_000_000 <= e <= 10_000_000_000_000_000_000_000,
            None => r is None,
        },
{
    let n = t.len();
    let cap: u128 = 10_000_000_000_000_000_000_000;
    let mut i = from;
    let eneg = i < n && t[i] == '-';
    if i < n && (t[i] == '-' || t[i] == '+') {
        i = i + 1;
    }
    let ghost et = t@.skip(from as int);
    let ghost edigits = sign_of(et).1;
    proof {
        if i > from {
            assert(et[0] == t@[from as int]);
        }
    }
    assert(edigits == t@.skip(i as int));
    let e0 = i;
    if i == n {
        return None;
    }
    let mut acc: u128 = 0;
    let mut big = false;
    while i < n && '0' <= t[i] && t[i] <= '9'
        invariant
            e0 <= i <= n,
            e0 < n,
            n == t.len(),
            cap == 10_000_000_000_000_000_000_000,
            edigits == t@.skip(e0 as int),
            all_digits(edigits.take(i - e0)),
            !big ==> acc == digits_value(edigits.take(i - e0)) && acc <= cap,
            big ==> digits_value(edigits.take(i - e0)) > cap,
        decreases n - i,
    {
        proof {
            assert(edigits[i - e0] == t@[i as int]);
            assert(edigits.take(i - e0 + 1) == edigits.take(i - e0).push(edigits[i - e0]));
            lemma_push(edigits.take(i - e0), edigits[i - e0]);
            assert(all_digits(edigits.take(i - e0 + 1))) by {
                assert forall|q: int| 0 <= q < i - e0 + 1 implies is_digit(
                    #[trigger] edigits.take(i - e0 + 1)[q],
                ) by {
                    if q < i - e0 {
                        assert(edigits.take(i - e0 + 1)[q] == edigits.take(i - e0)[q]);
                    }
                }
            }
        }
        if !big {
            let dd = (t[i] as u32 - 48) as u128;
            if acc > (cap - dd) / 10 {
                big = true;
            } else {
                acc = acc * 10 + dd;
            }
        }
        i = i + 1;
    }
    if i < n {
        proof {
            assert(edigits[i - e0] == t@[i as int]);
            assert(!is_digit(edigits[i - e0]));
        }
        return None;
    }
    proof {
        assert(edigits.take(n - e0) == edigits);
    }
    let mag: i128 = if big {
        cap as i128
    } else {
        acc as i128
    };
    if eneg {
        Some(-mag)
    } else {
        Some(mag)
    }
}

/// The value of digits followed by more digits.
pub proof fn lemma_digits_concat(w: Seq<char>, f: Seq<char>)
    ensures
        digits_value(w + f) == digits_value(w) * pow10(f.len()) + digits_value(f),
    decreases f.len(),
{
    if f.len() == 0 {
        assert(w + f == w);
        assert(pow10(0) == 1);
    } else {
        let f1 = f.drop_last();
        lemma_digits_concat(w, f1);
        assert((w + f).drop_last() == w + f1);
        assert((w + f).last() == f.last());
        let d = ((f.last() as nat) - 48) as nat;
        let a = digits_value(w);
        let b = digits_value(f1);
        let p = pow10(f1.len());
        assert(pow10(f.len()) == 10 * p);
        assert((a * p + b) * 10 + d == a * (10 * p) + (b * 10 + d)) by (nonlinear_arith);
    }
}

/// Plain digits read as themselves, unscaled.
pub proof fn lemma_digits_reading(t: Seq<char>)
    requires
        t.len() > 0,
        all_digits(t),
    ensures
        sign_of(t) == (false, t),
        finite_parts(t) == Some((t, 0int)),
{
    assert(is_digit(t[0]));
    assert forall|j: int| 0 <= j < t.len() implies !is_exp_mark(#[trigger] t[j]) by {
        assert(is_digit(t[j]));
    }
    lemma_mark_from(t, 0, t.len() as int);
    assert(t.take(t.len() as int) == t);
    assert(point_parts(t) == Some((t, Seq::<char>::empty())));
    assert(t + Seq::<char>::empty() == t);
}

/// A number with no exponent and at most six decimals reads as the
/// millionths [`unsigned_micros`] counts.
pub proof fn lemma_plain_micros(body: Seq<char>, m: nat)
    requires
        unsigned_micros(body) == Some(m),
        forall|j: int| 0 <= j < body.len() ==> is_digit(#[trigger] body[j]) || body[j] == '.',
        point_parts(body) matches Some((w, f)) && f.len() <= 6,
    ensures
        finite_parts(body) matches Some((d, p)) && scaled(digits_value(d), p + 6) == Some(m),
{
    let (w, f) = point_parts(body).unwrap();
    assert forall|j: int| 0 <= j < body.len() implies !is_exp_mark(#[trigger] body[j]) by {
        assert(is_digit(body[j]) || body[j] == '.');
    }
    lemma_mark_from(body, 0, body.len() as int);
    assert(body.take(body.len() as int) == body);
    lemma_digits_concat(w, f);
    let k = (6 - f.len()) as nat;
    lemma_pow10_add(f.len(), k);
    lemma_pow10_six();
    let a = digits_value(w);
    let b = digits_value(f);
    let pf = pow10(f.len());
    let pk = pow10(k);
    assert((a * pf + b) * pk == a * (pf * pk) + b * pk) by (nonlinear_arith);
    if f.len() == 6 {
        assert(f.take(6) == f);
        assert(k == 0);
        assert(pow10(0) == 1);
        assert(fraction_micros(f) == b);
        assert(pk == pow10(0));
        assert(pk == 1);
        assert(b * pk == b) by (nonlinear_arith)
            requires
                pk == 1,
        ;
    } else {
        assert(fraction_micros(f) == digits_value(f) * pow10((6 - f.len()) as nat));
    }
    assert(fraction_micros(f) == b * pk);
}

/// Whether digits are worth nothing.
pub fn is_zero(d: &Vec<char>) -> (b: bool)
    requires
        all_digits(d@),
    ensures
        b == (digits_value(d@) == 0),
{
    let n = d.len();
    let mut a: usize = 0;
    while a < n && d[a] == '0'
        invariant
            a <= n,
            n == d.len(),
            forall|j: int| 0 <= j < a ==> d@[j] == '0',
        decreases n - a,
    {
        a = a + 1;
    }
    proof {
        assert(d@.take(n as int) == d@);
        if a == n {
            lemma_zeros(d@, n as int);
        } else {
            lemma_value_bounds(d@, a as int, n as int);
            lemma_pow10_pos((n - a - 1) as nat);
        }
    }
    a == n
}

} // verus!
