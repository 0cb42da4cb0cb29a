use vstd::prelude::*;

use crate::amount::Amount;
use crate::text::{
    a_decimal_reads_back, a_padded_number_reads_back, all_digits, decimal, decimal_text, number_read,
    padded, padded_text, zeros,
};

verus! {

/// An exact amount in millionths, the six decimals of USDC.
///
/// Sums and differences are exact. Products and quotients are rounded to the
/// nearest millionth, halves away from zero. What lies beyond the range stops at
/// its ends, and the ends stand for every amount beyond them.
#[derive(Clone, Copy, Debug, PartialEq, Eq, Structural)]
pub struct Micros {
    pub units: i64,
}

pub open spec fn clamped(n: int) -> i64 {
    if n > i64::MAX {
        i64::MAX
    } else if n < i64::MIN {
        i64::MIN
    } else {
        n as i64
    }
}

/// The whole number nearest to `n / d`, halves up.
pub open spec fn nearest(n: nat, d: nat) -> nat
    recommends
        d > 0,
{
    (n / d + if 2 * (n % d) >= d {
        1nat
    } else {
        0nat
    }) as nat
}

pub open spec fn distance(n: int) -> nat {
    if n >= 0 {
        n as nat
    } else {
        (-n) as nat
    }
}

/// The whole number nearest to `n / d`, halves away from zero.
pub open spec fn divided(n: int, d: int) -> int
    recommends
        d != 0,
{
    if (n < 0) == (d < 0) {
        nearest(distance(n), distance(d)) as int
    } else {
        -nearest(distance(n), distance(d))
    }
}

/// A power of ten.
pub open spec fn ten_to(n: nat) -> nat
    decreases n,
{
    if n == 0 {
        1
    } else {
        10 * ten_to((n - 1) as nat)
    }
}

/// A whole number without the zeros at its end, at most `digits` of them.
pub open spec fn trimmed(n: nat, digits: nat) -> (nat, nat)
    decreases digits,
{
    if digits > 0 && n % 10 == 0 {
        trimmed(n / 10, (digits - 1) as nat)
    } else {
        (n, digits)
    }
}

pub open spec fn sign_text(n: int) -> Seq<char> {
    if n < 0 {
        "-"@
    } else {
        Seq::empty()
    }
}

impl Micros {
    /// The amount `n` millionths, or the end of the range it lies beyond.
    pub open spec fn at(n: int) -> Micros {
        Micros { units: clamped(n) }
    }
}

fn clamp(n: i128) -> (r: i64)
    ensures
        r == clamped(n as int),
{
    if n > i64::MAX as i128 {
        i64::MAX
    } else if n < i64::MIN as i128 {
        i64::MIN
    } else {
        n as i64
    }
}

fn spread_of(n: i128) -> (r: u128)
    requires
        n > i128::MIN,
    ensures
        r == distance(n as int),
{
    if n >= 0 {
        n as u128
    } else {
        (-n) as u128
    }
}

fn divide(n: i128, d: i128) -> (r: i128)
    requires
        d != 0,
        -0x4000_0000_0000_0000_0000_0000_0000_0000 <= n
            <= 0x4000_0000_0000_0000_0000_0000_0000_0000,
        -0x8000_0000_0000_0000 <= d <= 0x8000_0000_0000_0000,
    ensures
        r == divided(n as int, d as int),
{
    let a: u128 = spread_of(n);
    let b: u128 = spread_of(d);
    let whole: u128 = a / b;
    let rest: u128 = a % b;
    assert(whole <= a) by (nonlinear_arith)
        requires
            whole == a / b,
            b >= 1,
    ;
    assert(rest < b);
    let q: u128 = if 2 * rest >= b {
        whole + 1
    } else {
        whole
    };
    if (n < 0) == (d < 0) {
        q as i128
    } else {
        -(q as i128)
    }
}

proof fn lemma_product_in_range(a: int, b: int)
    requires
        -0x8000_0000_0000_0000 <= a <= 0x8000_0000_0000_0000,
        -0x8000_0000_0000_0000 <= b <= 0x8000_0000_0000_0000,
    ensures
        -0x4000_0000_0000_0000_0000_0000_0000_0000 <= a * b
            <= 0x4000_0000_0000_0000_0000_0000_0000_0000,
{
    assert(-0x4000_0000_0000_0000_0000_0000_0000_0000 <= a * b
        <= 0x4000_0000_0000_0000_0000_0000_0000_0000) by (nonlinear_arith)
        requires
            -0x8000_0000_0000_0000 <= a <= 0x8000_0000_0000_0000,
            -0x8000_0000_0000_0000 <= b <= 0x8000_0000_0000_0000,
    ;
}

fn power_of_ten(n: u8) -> (r: u64)
    requires
        n <= 6,
    ensures
        r == ten_to(n as nat),
        1 <= r <= 1_000_000,
{
    proof {
        reveal_with_fuel(ten_to, 7);
    }
    if n == 0 {
        1
    } else if n == 1 {
        10
    } else if n == 2 {
        100
    } else if n == 3 {
        1_000
    } else if n == 4 {
        10_000
    } else if n == 5 {
        100_000
    } else {
        1_000_000
    }
}

/// The size of an amount with `digits` digits after the point.
pub open spec fn fixed_size(size: nat, digits: nat) -> Seq<char> {
    if digits == 0 {
        decimal_text(nearest(size, 1_000_000))
    } else if digits <= 6 {
        let scaled = nearest(size, ten_to((6 - digits) as nat));
        decimal_text(scaled / ten_to(digits)) + "."@ + padded_text(scaled % ten_to(digits), digits)
    } else {
        decimal_text(size / 1_000_000) + "."@ + padded_text(size % 1_000_000, 6) + zeros(
            (digits - 6) as nat,
        )
    }
}

/// The size of an amount with as many digits after the point as it needs.
pub open spec fn plain_size(size: nat) -> Seq<char> {
    let (rest, digits) = trimmed(size % 1_000_000, 6);
    if digits == 0 {
        decimal_text(size / 1_000_000)
    } else {
        decimal_text(size / 1_000_000) + "."@ + padded_text(rest, digits)
    }
}

fn zero_run(n: u8) -> (r: String)
    ensures
        r@ == zeros(n as nat),
{
    let mut out = String::new();
    let mut i: u8 = 0;
    assert(out@ =~= zeros(0));
    while i < n
        invariant
            i <= n,
            out@ == zeros(i as nat),
        decreases n - i,
    {
        proof {
            reveal_strlit("0");
        }
        out = out.concat("0");
        i = i + 1;
        assert(out@ =~= zeros(i as nat));
    }
    out
}

fn nearest_u64(n: u64, d: u64) -> (r: u64)
    requires
        1 <= d <= 1_000_000,
        n <= 0x8000_0000_0000_0000,
    ensures
        r == nearest(n as nat, d as nat),
{
    let whole: u64 = n / d;
    let rest: u64 = n % d;
    assert(whole <= n) by (nonlinear_arith)
        requires
            whole == n / d,
            d >= 1,
    ;
    if 2 * rest >= d {
        whole + 1
    } else {
        whole
    }
}

impl Micros {
    fn size(self) -> (r: u64)
        ensures
            r == distance(self.units as int),
            r <= 0x8000_0000_0000_0000,
    {
        spread_of(self.units as i128) as u64
    }

    fn signed(self, text: String) -> (r: String)
        ensures
            r@ == sign_text(self.units as int) + text@,
    {
        if self.units < 0 {
            "-".to_owned().concat(&text)
        } else {
            assert(Seq::<char>::empty() + text@ =~= text@);
            text
        }
    }
}

impl Amount for Micros {
    open spec fn whole(n: u64) -> Micros {
        Micros::at(n * 1_000_000)
    }

    open spec fn boundless() -> Micros {
        Micros { units: i64::MAX }
    }

    open spec fn sum(self, other: Micros) -> Micros {
        Micros::at(self.units + other.units)
    }

    open spec fn difference(self, other: Micros) -> Micros {
        Micros::at(self.units - other.units)
    }

    open spec fn product(self, other: Micros) -> Micros {
        Micros::at(divided(self.units * other.units, 1_000_000))
    }

    /// A quotient by zero lies beyond the range on the side of the dividend.
    open spec fn quotient(self, other: Micros) -> Micros {
        if other.units == 0 {
            if self.units > 0 {
                Micros { units: i64::MAX }
            } else if self.units < 0 {
                Micros { units: i64::MIN }
            } else {
                Micros { units: 0 }
            }
        } else {
            Micros::at(divided(self.units * 1_000_000, other.units as int))
        }
    }

    open spec fn magnitude(self) -> Micros {
        Micros::at(distance(self.units as int) as int)
    }

    open spec fn greater(self, other: Micros) -> Micros {
        if self.units >= other.units {
            self
        } else {
            other
        }
    }

    open spec fn lesser(self, other: Micros) -> Micros {
        if self.units <= other.units {
            self
        } else {
            other
        }
    }

    open spec fn nearest_whole(self) -> Micros {
        Micros::at(divided(self.units as int, 1_000_000) * 1_000_000)
    }

    open spec fn less(self, other: Micros) -> bool {
        self.units < other.units
    }

    open spec fn at_most(self, other: Micros) -> bool {
        self.units <= other.units
    }

    open spec fn finite(self) -> bool {
        i64::MIN < self.units < i64::MAX
    }

    open spec fn rank(self) -> i128 {
        self.units as i128
    }

    open spec fn fixed_text(self, digits: nat) -> Seq<char> {
        sign_text(self.units as int) + fixed_size(distance(self.units as int), digits)
    }

    open spec fn plain_text(self) -> Seq<char> {
        sign_text(self.units as int) + plain_size(distance(self.units as int))
    }

    fn of(n: u64) -> (r: Micros) {
        Micros { units: clamp(n as i128 * 1_000_000) }
    }

    fn beyond_all() -> (r: Micros) {
        Micros { units: i64::MAX }
    }

    fn plus(self, other: Micros) -> (r: Micros) {
        Micros { units: clamp(self.units as i128 + other.units as i128) }
    }

    fn minus(self, other: Micros) -> (r: Micros) {
        Micros { units: clamp(self.units as i128 - other.units as i128) }
    }

    fn times(self, other: Micros) -> (r: Micros) {
        let a: i128 = self.units as i128;
        let b: i128 = other.units as i128;
        proof {
            lemma_product_in_range(a as int, b as int);
        }
        Micros { units: clamp(divide(a * b, 1_000_000)) }
    }

    fn over(self, other: Micros) -> (r: Micros) {
        if other.units == 0 {
            Micros {
                units: if self.units > 0 {
                    i64::MAX
                } else if self.units < 0 {
                    i64::MIN
                } else {
                    0
                },
            }
        } else {
            Micros { units: clamp(divide(self.units as i128 * 1_000_000, other.units as i128)) }
        }
    }

    fn absolute(self) -> (r: Micros) {
        Micros { units: clamp(spread_of(self.units as i128) as i128) }
    }

    fn larger_of(self, other: Micros) -> (r: Micros) {
        if self.units >= other.units {
            self
        } else {
            other
        }
    }

    fn smaller_of(self, other: Micros) -> (r: Micros) {
        if self.units <= other.units {
            self
        } else {
            other
        }
    }

    fn rounded(self) -> (r: Micros) {
        let q: i128 = divide(self.units as i128, 1_000_000);
        Micros { units: clamp(q * 1_000_000) }
    }

    fn is_below(self, other: Micros) -> (r: bool) {
        self.units < other.units
    }

    fn is_at_most(self, other: Micros) -> (r: bool) {
        self.units <= other.units
    }

    fn is_finite(self) -> (r: bool) {
        i64::MIN < self.units && self.units < i64::MAX
    }

    fn order_key(self) -> (r: i128) {
        self.units as i128
    }

    fn fixed(self, digits: u8) -> (r: String) {
        let size: u64 = self.size();
        let text = if digits == 0 {
            decimal(nearest_u64(size, 1_000_000) as u128)
        } else if digits <= 6 {
            let scaled: u64 = nearest_u64(size, power_of_ten(6 - digits));
            let unit: u64 = power_of_ten(digits);
            decimal((scaled / unit) as u128).concat(".").concat(&padded(scaled % unit, digits as usize))
        } else {
            decimal((size / 1_000_000) as u128).concat(".").concat(&padded(size % 1_000_000, 6)).concat(
                &zero_run(digits - 6),
            )
        };
        self.signed(text)
    }

    fn plain(self) -> (r: String) {
        let size: u64 = self.size();
        let mut rest: u64 = size % 1_000_000;
        let mut digits: usize = 6;
        while digits > 0 && rest % 10 == 0
            invariant
                digits <= 6,
                trimmed(rest as nat, digits as nat) == trimmed(size as nat % 1_000_000, 6),
            decreases digits,
        {
            rest = rest / 10;
            digits = digits - 1;
        }
        let whole = decimal((size / 1_000_000) as u128);
        let text = if digits == 0 {
            whole
        } else {
            whole.concat(".").concat(&padded(rest, digits))
        };
        self.signed(text)
    }
}

/// Rounding moves a quotient by at most half.
pub proof fn rounding_is_within_half(n: int, d: int)
    requires
        d > 0,
    ensures
        -d <= 2 * (divided(n, d) * d - n) <= d,
{
    let m = distance(n) as int;
    let q = m / d;
    let r = m % d;
    let k = nearest(distance(n), distance(d)) as int;
    vstd::arithmetic::div_mod::lemma_fundamental_div_mod(m, d);
    assert(0 <= r < d) by (nonlinear_arith)
        requires
            r == m % d,
            d > 0,
    ;
    assert(d * q == q * d) by (nonlinear_arith);
    assert((q + 1) * d == q * d + d) by (nonlinear_arith);
    assert(-d <= 2 * (k * d - m) <= d);
    assert((-k) * d == -(k * d)) by (nonlinear_arith);
}

/// A multiple divides exactly.
pub proof fn multiples_divide_exactly(k: int, d: int)
    requires
        d > 0,
    ensures
        divided(k * d, d) == k,
{
    rounding_is_within_half(k * d, d);
    let q = divided(k * d, d);
    assert(q == k) by (nonlinear_arith)
        requires
            d > 0,
            -d <= 2 * (q * d - k * d) <= d,
    ;
}

/// A larger dividend has no smaller rounded quotient.
pub proof fn rounding_is_monotone(a: int, b: int, d: int)
    requires
        d > 0,
        a <= b,
    ensures
        divided(a, d) <= divided(b, d),
{
    let x = divided(a, d);
    let y = divided(b, d);
    rounding_is_within_half(a, d);
    rounding_is_within_half(b, d);
    if x > y {
        assert(x * d >= y * d + d) by (nonlinear_arith)
            requires
                x >= y + 1,
                d > 0,
        ;
        // Both lie exactly half way, so they are one number rounded two ways.
        assert(a == b);
    }
}

/// A half rounds away from zero, and the sign does not change how far.
pub proof fn halves_round_away_from_zero(n: int, d: int)
    requires
        d > 0,
        n >= 0,
    ensures
        2 * n - d < 2 * (divided(n, d) * d) <= 2 * n + d,
        divided(-n, d) == -divided(n, d),
{
    let q = n / d;
    let r = n % d;
    vstd::arithmetic::div_mod::lemma_fundamental_div_mod(n, d);
    assert(0 <= r < d) by (nonlinear_arith)
        requires
            r == n % d,
            d > 0,
    ;
    assert(d * q == q * d) by (nonlinear_arith);
    assert((q + 1) * d == q * d + d) by (nonlinear_arith);
    if n == 0 {
        assert(q == 0) by (nonlinear_arith)
            requires
                q == 0int / d,
                d > 0,
        ;
    }
}

proof fn lemma_digits_needed(n: nat, width: nat)
    requires
        n < ten_to(width),
        width > 0,
    ensures
        decimal_text(n).len() <= width,
    decreases width,
{
    if n >= 10 {
        let less = (width - 1) as nat;
        assert(ten_to(width) == 10 * ten_to(less));
        if less == 0 {
            assert(ten_to(0) == 1);
        }
        lemma_digits_needed(n / 10, less);
    }
}

/// An amount with up to six digits after the point reads as what it is, rounded to the
/// last of them, halves away from zero: a sign where it is negative, the whole
/// dollars, a point, and exactly as many digits as asked for.
pub proof fn a_fixed_text_reads_back(n: Micros, digits: nat)
    requires
        0 < digits <= 6,
    ensures
        ({
            let size = distance(n.units as int);
            let scaled = nearest(size, ten_to((6 - digits) as nat));
            let dollars = decimal_text(scaled / ten_to(digits));
            let rest = padded_text(scaled % ten_to(digits), digits);
            &&& n.fixed_text(digits) == (if n.units < 0 {
                "-"@
            } else {
                Seq::empty()
            }) + (dollars + "."@ + rest)
            &&& rest.len() == digits
            &&& number_read(dollars) * ten_to(digits) + number_read(rest) == scaled
            &&& 2 * size - ten_to((6 - digits) as nat) < 2 * (scaled * ten_to(
                (6 - digits) as nat,
            )) <= 2 * size + ten_to((6 - digits) as nat)
        }),
{
    reveal_with_fuel(ten_to, 7);
    let size = distance(n.units as int);
    let unit = ten_to((6 - digits) as nat);
    let base = ten_to(digits);
    let scaled = nearest(size, unit);
    halves_round_away_from_zero(size as int, unit as int);
    assert(divided(size as int, unit as int) == scaled);
    a_decimal_reads_back(scaled / base);
    a_padded_number_reads_back(scaled % base, digits);
    vstd::arithmetic::div_mod::lemma_fundamental_div_mod(scaled as int, base as int);
    assert(scaled % base < base) by (nonlinear_arith)
        requires
            base > 0,
    ;
    lemma_digits_needed(scaled % base, digits);
    let (a, b) = (scaled / base, base);
    assert(a * b == b * a) by (nonlinear_arith);
}

proof fn lemma_trimmed(n: nat, digits: nat)
    ensures
        trimmed(n, digits).1 <= digits,
        trimmed(n, digits).0 * ten_to((digits - trimmed(n, digits).1) as nat) == n,
        trimmed(n, digits).1 > 0 ==> trimmed(n, digits).0 % 10 != 0,
        n < ten_to(digits) ==> trimmed(n, digits).0 < ten_to(trimmed(n, digits).1),
    decreases digits,
{
    if digits > 0 && n % 10 == 0 {
        let less = (digits - 1) as nat;
        lemma_trimmed(n / 10, less);
        let (rest, left) = trimmed(n, digits);
        let k = (less - left) as nat;
        let unit = ten_to(k);
        assert((digits - left) as nat == k + 1);
        assert(ten_to(k + 1) == 10 * unit);
        assert(rest * (10 * unit) == 10 * (rest * unit)) by (nonlinear_arith);
        assert(rest * unit == n / 10);
        assert(ten_to(digits) == 10 * ten_to(less));
    } else {
        assert(ten_to(0) == 1);
        assert(n * 1 == n);
    }
}

/// A plain text reads back as the amount, exactly: a sign where it is negative, the
/// whole dollars and, where there is a rest, a point and the digits of that rest, the
/// last of which is no zero.
pub proof fn a_plain_text_reads_back(n: Micros)
    ensures
        ({
            let size = distance(n.units as int);
            let sign = if n.units < 0 {
                "-"@
            } else {
                Seq::empty()
            };
            let dollars = decimal_text(size / 1_000_000);
            &&& number_read(dollars) == size / 1_000_000
            &&& size % 1_000_000 == 0 ==> n.plain_text() == sign + dollars
            &&& size % 1_000_000 != 0 ==> exists|rest: Seq<char>|
                {
                    &&& #[trigger] all_digits(rest)
                    &&& 0 < rest.len() <= 6
                    &&& number_read(rest) % 10 != 0
                    &&& number_read(rest) * ten_to((6 - rest.len()) as nat) == size % 1_000_000
                    &&& n.plain_text() == sign + (dollars + "."@ + rest)
                }
        }),
{
    reveal_with_fuel(ten_to, 7);
    let size = distance(n.units as int);
    let part = size % 1_000_000;
    a_decimal_reads_back(size / 1_000_000);
    lemma_trimmed(part, 6);
    let (rest, digits) = trimmed(part, 6);
    if digits == 0 {
        assert(rest * 1_000_000 == part) by {
            assert(ten_to(6) == 1_000_000);
        }
        assert(rest == 0);
    } else {
        a_padded_number_reads_back(rest, digits);
        lemma_digits_needed(rest, digits);
        let text = padded_text(rest, digits);
        assert(all_digits(text));
        let unit = ten_to((6 - digits) as nat);
        assert(rest * unit > 0) by (nonlinear_arith)
            requires
                rest > 0,
                unit > 0,
        ;
    }
}

} // verus!
