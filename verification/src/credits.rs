//! Fixed-point currency.
//!
//! Money is stored as a signed count of cents (1/100 of a credit) in an
//! `i64`. Floating point never touches money. Arithmetic saturates at the
//! `i64` bounds instead of wrapping or panicking.
use crate::text::{decimal, push_char, push_decimal};
use vstd::prelude::*;
use vstd::std_specs::ops::{AddSpecImpl, DivSpecImpl, MulSpecImpl, NegSpecImpl, SubSpecImpl};

verus! {

/// Clamps a mathematical integer into the `i64` range.
pub open spec fn sat(x: int) -> i64 {
    if x > i64::MAX {
        i64::MAX
    } else if x < i64::MIN {
        i64::MIN
    } else {
        x as i64
    }
}

/// Integer division truncating toward zero (Rust's `/`), for `d != 0`.
pub open spec fn trunc_div(a: int, d: int) -> int {
    if a >= 0 {
        a / d
    } else {
        -((-a) / d)
    }
}

/// Truncating division through the magnitudes of its operands.
proof fn lemma_trunc_div_signs(a: int, d: int)
    requires
        d != 0,
    ensures
        a >= 0 && d > 0 ==> trunc_div(a, d) == a / d,
        a >= 0 && d < 0 ==> trunc_div(a, d) == -(a / (-d)),
        a < 0 && d > 0 ==> trunc_div(a, d) == -((-a) / d),
        a < 0 && d < 0 ==> trunc_div(a, d) == (-a) / (-d),
{
    if a >= 0 && d < 0 {
        assert(a / d == -(a / (-d))) by (nonlinear_arith)
            requires a >= 0, d < 0;
    }
    if a < 0 && d < 0 {
        assert(-((-a) / d) == (-a) / (-d)) by (nonlinear_arith)
            requires a < 0, d < 0;
    }
}

/// A quotient of naturals never exceeds the dividend, and halves it for divisors of two or more.
proof fn lemma_div_bound(x: int, y: int)
    requires
        x >= 0,
        y >= 1,
    ensures
        0 <= x / y <= x,
        y >= 2 ==> x / y <= x / 2,
{
    assert(0 <= x / y <= x) by (nonlinear_arith)
        requires x >= 0, y >= 1;
    if y >= 2 {
        assert(x / y <= x / 2) by (nonlinear_arith)
            requires x >= 0, y >= 2;
    }
}

/// Absolute value of a mathematical integer.
pub open spec fn abs_int(a: int) -> nat {
    if a < 0 {
        (-a) as nat
    } else {
        a as nat
    }
}

/// Saturating sum of two `i64` values.
pub fn sat_add(a: i64, b: i64) -> (r: i64)
    ensures
        r == sat(a + b),
{
    match a.checked_add(b) {
        Some(v) => v,
        None => {
            if b > 0 {
                i64::MAX
            } else {
                i64::MIN
            }
        },
    }
}

/// Saturating difference of two `i64` values.
pub fn sat_sub(a: i64, b: i64) -> (r: i64)
    ensures
        r == sat(a - b),
{
    match a.checked_sub(b) {
        Some(v) => v,
        None => {
            if b < 0 {
                i64::MAX
            } else {
                i64::MIN
            }
        },
    }
}

/// Saturating product of two `i64` values.
pub fn sat_mul(a: i64, b: i64) -> (r: i64)
    ensures
        r == sat(a * b),
{
    match a.checked_mul(b) {
        Some(v) => v,
        None => {
            if (a > 0 && b > 0) || (a < 0 && b < 0) {
                assert(a * b > 0) by (nonlinear_arith)
                    requires
                        (a > 0 && b > 0) || (a < 0 && b < 0),
                ;
                i64::MAX
            } else {
                assert(a * b <= 0) by (nonlinear_arith)
                    requires
                        !((a > 0 && b > 0) || (a < 0 && b < 0)),
                ;
                i64::MIN
            }
        },
    }
}

/// Credits, the in-game currency, held as a count of cents.
///
/// `Credits::from_cents(123)` is 1.23 credits.
#[derive(Clone, Copy, Debug, PartialEq, Eq, PartialOrd, Ord, Hash, Structural)]
pub struct Credits(i64);

impl View for Credits {
    type V = i64;

    /// The number of cents.
    closed spec fn view(&self) -> i64 {
        self.0
    }
}

/// `of_cents` and the view are inverse to each other.
pub broadcast proof fn lemma_of_cents_view(n: i64)
    ensures
        #[trigger] Credits::of_cents(n)@ == n,
{
}

/// A value of credits is determined by its cents.
pub broadcast proof fn lemma_view_of_cents(c: Credits)
    ensures
        #[trigger] Credits::of_cents(c@) == c,
{
}

/// The cents that a display string shows, sign first:
/// `"-1234.56 cr"` for -123456 cents.
pub open spec fn credits_text(cents: int) -> Seq<char> {
    let a = abs_int(cents);
    let sign = if cents < 0 {
        seq!['-']
    } else {
        Seq::<char>::empty()
    };
    let frac = a % 100;
    sign + decimal(a / 100) + seq!['.'] + decimal(frac / 10) + decimal(frac % 10) + seq![
        ' ',
        'c',
        'r',
    ]
}

impl Credits {
    /// The credits worth exactly `n` cents.
    pub closed spec fn of_cents(n: i64) -> Credits {
        Credits(n)
    }

    /// Zero credits, the additive identity.
    pub fn zero() -> (c: Credits)
        ensures
            c@ == 0,
    {
        Credits(0)
    }

    /// `n` whole credits, saturating at the bounds of the cent range.
    pub fn from_whole(n: i64) -> (c: Credits)
        ensures
            c@ == sat(n * 100),
    {
        Credits(sat_mul(n, 100))
    }

    /// Exactly `n` cents.
    pub fn from_cents(n: i64) -> (c: Credits)
        ensures
            c@ == n,
            c == Credits::of_cents(n),
    {
        Credits(n)
    }

    /// The raw number of cents.
    pub fn cents(self) -> (r: i64)
        ensures
            r == self@,
    {
        self.0
    }

    /// Whole credits, truncated toward zero.
    pub fn whole(self) -> (r: i64)
        ensures
            r == trunc_div(self@ as int, 100),
    {
        self.0 / 100
    }

    /// Is this a debt (below zero)?
    pub fn is_negative(self) -> (r: bool)
        ensures
            r == (self@ < 0),
    {
        self.0 < 0
    }

    /// Is this strictly above zero?
    pub fn is_positive(self) -> (r: bool)
        ensures
            r == (self@ > 0),
    {
        self.0 > 0
    }

    /// Absolute value, saturating (the most negative value maps to the most positive).
    pub fn abs(self) -> (r: Credits)
        ensures
            r@ == sat(abs_int(self@ as int) as int),
    {
        if self.0 < 0 {
            Credits(sat_sub(0, self.0))
        } else {
            self
        }
    }

    /// `self < other` by cent value.
    pub fn lt(self, other: Credits) -> (r: bool)
        ensures
            r == (self@ < other@),
    {
        self.0 < other.0
    }

    /// `self <= other` by cent value.
    pub fn le(self, other: Credits) -> (r: bool)
        ensures
            r == (self@ <= other@),
    {
        self.0 <= other.0
    }

    /// Human-readable text, e.g. `"1234.56 cr"` or `"-0.05 cr"`.
    pub fn to_display_string(self) -> (s: String)
        ensures
            s@ == credits_text(self@ as int),
    {
        let mut s = String::new();
        let negative = self.0 < 0;
        let a: u64 = if negative {
            (-(self.0 as i128)) as u64
        } else {
            self.0 as u64
        };
        if negative {
            push_char(&mut s, '-');
        }
        push_decimal(&mut s, a / 100);
        push_char(&mut s, '.');
        let frac: u64 = a % 100;
        push_decimal(&mut s, frac / 10);
        push_decimal(&mut s, frac % 10);
        push_char(&mut s, ' ');
        push_char(&mut s, 'c');
        push_char(&mut s, 'r');
        proof {
            let sign = if self@ < 0 {
                seq!['-']
            } else {
                Seq::<char>::empty()
            };
            assert(a == abs_int(self@ as int));
            assert(s@ =~= credits_text(self@ as int));
        }
        s
    }
}

impl Default for Credits {
    fn default() -> (c: Credits)
        ensures
            c@ == 0,
    {
        Credits(0)
    }
}

impl std::ops::Add for Credits {
    type Output = Credits;

    fn add(self, rhs: Credits) -> (r: Credits)
        ensures
            r@ == sat(self@ + rhs@),
    {
        Credits(sat_add(self.0, rhs.0))
    }
}

impl AddSpecImpl for Credits {
    open spec fn obeys_add_spec() -> bool {
        true
    }

    open spec fn add_req(self, rhs: Credits) -> bool {
        true
    }

    closed spec fn add_spec(self, rhs: Credits) -> Credits {
        Credits(sat(self.0 + rhs.0))
    }
}

impl std::ops::Sub for Credits {
    type Output = Credits;

    fn sub(self, rhs: Credits) -> (r: Credits)
        ensures
            r@ == sat(self@ - rhs@),
    {
        Credits(sat_sub(self.0, rhs.0))
    }
}

impl SubSpecImpl for Credits {
    open spec fn obeys_sub_spec() -> bool {
        true
    }

    open spec fn sub_req(self, rhs: Credits) -> bool {
        true
    }

    closed spec fn sub_spec(self, rhs: Credits) -> Credits {
        Credits(sat(self.0 - rhs.0))
    }
}

impl std::ops::Neg for Credits {
    type Output = Credits;

    fn neg(self) -> (r: Credits)
        ensures
            r@ == sat(-(self@ as int)),
    {
        Credits(sat_sub(0, self.0))
    }
}

impl NegSpecImpl for Credits {
    open spec fn obeys_neg_spec() -> bool {
        true
    }

    open spec fn neg_req(self) -> bool {
        true
    }

    closed spec fn neg_spec(self) -> Credits {
        Credits(sat(-(self.0 as int)))
    }
}

impl std::ops::AddAssign for Credits {
    fn add_assign(&mut self, rhs: Credits)
        ensures
            final(self)@ == sat(old(self)@ + rhs@),
    {
        self.0 = sat_add(self.0, rhs.0);
    }
}

impl std::ops::SubAssign for Credits {
    fn sub_assign(&mut self, rhs: Credits)
        ensures
            final(self)@ == sat(old(self)@ - rhs@),
    {
        self.0 = sat_sub(self.0, rhs.0);
    }
}

impl std::ops::Mul<i64> for Credits {
    type Output = Credits;

    fn mul(self, rhs: i64) -> (r: Credits)
        ensures
            r@ == sat(self@ * rhs),
    {
        Credits(sat_mul(self.0, rhs))
    }
}

impl MulSpecImpl<i64> for Credits {
    open spec fn obeys_mul_spec() -> bool {
        true
    }

    open spec fn mul_req(self, rhs: i64) -> bool {
        true
    }

    closed spec fn mul_spec(self, rhs: i64) -> Credits {
        Credits(sat(self.0 * rhs))
    }
}

impl std::ops::Mul<Credits> for i64 {
    type Output = Credits;

    fn mul(self, rhs: Credits) -> (r: Credits)
        ensures
            r@ == sat(self * rhs@),
    {
        Credits(sat_mul(self, rhs.0))
    }
}

impl MulSpecImpl<Credits> for i64 {
    open spec fn obeys_mul_spec() -> bool {
        true
    }

    open spec fn mul_req(self, rhs: Credits) -> bool {
        true
    }

    closed spec fn mul_spec(self, rhs: Credits) -> Credits {
        Credits(sat(rhs.0 * self))
    }
}

impl std::ops::Mul<u32> for Credits {
    type Output = Credits;

    fn mul(self, rhs: u32) -> (r: Credits)
        ensures
            r@ == sat(self@ * rhs),
    {
        Credits(sat_mul(self.0, rhs as i64))
    }
}

impl MulSpecImpl<u32> for Credits {
    open spec fn obeys_mul_spec() -> bool {
        true
    }

    open spec fn mul_req(self, rhs: u32) -> bool {
        true
    }

    closed spec fn mul_spec(self, rhs: u32) -> Credits {
        Credits(sat(self.0 * rhs))
    }
}

impl std::ops::Mul<Credits> for u32 {
    type Output = Credits;

    fn mul(self, rhs: Credits) -> (r: Credits)
        ensures
            r@ == sat(rhs@ * self),
    {
        Credits(sat_mul(rhs.0, self as i64))
    }
}

impl MulSpecImpl<Credits> for u32 {
    open spec fn obeys_mul_spec() -> bool {
        true
    }

    open spec fn mul_req(self, rhs: Credits) -> bool {
        true
    }

    closed spec fn mul_spec(self, rhs: Credits) -> Credits {
        Credits(sat(rhs.0 * self))
    }
}

impl std::ops::Div<i64> for Credits {
    type Output = Credits;

    /// Truncating division. Dividing by zero, or the most negative value by
    /// -1, is outside the domain.
    fn div(self, rhs: i64) -> (r: Credits)
        ensures
            r@ == trunc_div(self@ as int, rhs as int),
    {
        let a: i128 = self.0 as i128;
        let d: i128 = rhs as i128;
        let q: i128 = if a >= 0 {
            if d > 0 {
                a / d
            } else {
                -(a / (-d))
            }
        } else {
            if d > 0 {
                -((-a) / d)
            } else {
                (-a) / (-d)
            }
        };
        proof {
            lemma_trunc_div_signs(a as int, d as int);
            lemma_div_bound(abs_int(a as int) as int, abs_int(d as int) as int);
        }
        Credits(q as i64)
    }
}

impl DivSpecImpl<i64> for Credits {
    open spec fn obeys_div_spec() -> bool {
        true
    }

    open spec fn div_req(self, rhs: i64) -> bool {
        rhs != 0 && !(self@ == i64::MIN && rhs == -1)
    }

    closed spec fn div_spec(self, rhs: i64) -> Credits {
        Credits(trunc_div(self.0 as int, rhs as int) as i64)
    }
}

/// Zero is the identity of addition, and a price times a quantity is the
/// same total in either order (both as the operators compute them).
pub proof fn lemma_zero_identity_and_commuting_totals(a: Credits, q: i64, n: u32)
    ensures
        sat(a@ + 0) == a@,
        sat(0 + a@) == a@,
        sat(a@ * q) == sat(q * a@),
        sat(a@ * n) == sat(n * a@),
{
    vstd::arithmetic::mul::lemma_mul_is_commutative(a@ as int, q as int);
    vstd::arithmetic::mul::lemma_mul_is_commutative(a@ as int, n as int);
}

} // verus!
