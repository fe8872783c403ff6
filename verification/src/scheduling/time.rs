use vstd::prelude::*;
use vstd::string::StringExecFns;
use vstd::std_specs::cmp::{PartialEqSpecImpl, PartialOrdSpecImpl};
use vstd::std_specs::ops::{AddSpecImpl, DivSpecImpl, MulSpecImpl, RemSpecImpl, SubSpecImpl};
use crate::scheduling::calendar::representable;
use std::cmp::Ordering;
use std::ops::{
    Add, AddAssign, Div, DivAssign, Mul, MulAssign, Rem, RemAssign, Sub, SubAssign,
};

verus! {

pub const INDEXED_MONTH_DAYS: [u32; 12] = [31, 28, 31, 30, 31, 30, 31, 31, 30, 31, 30, 31];

pub const HOUR_MILLIS: u64 = 3_600_000;

pub const DAY_MILLIS: u64 = HOUR_MILLIS * 24;

pub const WEEK_MILLIS: u64 = DAY_MILLIS * 7;

/// An instant, counted from the Unix epoch in milliseconds or in seconds.
///
/// Comparisons and arithmetic go by the number of milliseconds, whichever unit the value was
/// made with.
#[derive(Debug, Clone, Copy)]
pub enum Timestamp {
    Millis(i64),
    Second(i64),
}

/// The quotient of `a` by `b`, rounded towards zero.
pub open spec fn quotient_towards_zero(a: int, b: int) -> int
    recommends
        b != 0,
{
    if a >= 0 && b > 0 {
        a / b
    } else if a < 0 && b < 0 {
        (-a) / (-b)
    } else if a < 0 {
        -((-a) / b)
    } else {
        -(a / (-b))
    }
}

/// What is left of `a` after taking out `b` times the quotient rounded towards zero: it has
/// the sign of `a`.
pub open spec fn remainder_towards_zero(a: int, b: int) -> int
    recommends
        b != 0,
{
    if a >= 0 && b > 0 {
        a % b
    } else if a < 0 && b < 0 {
        -((-a) % (-b))
    } else if a < 0 {
        -((-a) % b)
    } else {
        a % (-b)
    }
}

/// The greatest whole number that is not above the ratio of `a` to `b`.
pub open spec fn quotient_floor(a: int, b: int) -> int
    recommends
        b != 0,
{
    if b > 0 {
        a / b
    } else {
        (-a) / (-b)
    }
}

/// The least whole number that is not below the ratio of `a` to `b`.
pub open spec fn quotient_ceil(a: int, b: int) -> int
    recommends
        b != 0,
{
    -quotient_floor(-a, b)
}

/// The whole number nearest to the ratio of `a` to `b`; a ratio halfway between two whole
/// numbers goes to the one farther from zero.
pub open spec fn quotient_round(a: int, b: int) -> int
    recommends
        b != 0,
{
    let n = if a < 0 {
        -a
    } else {
        a
    };
    let d = if b < 0 {
        -b
    } else {
        b
    };
    let magnitude = (2 * n + d) / (2 * d);
    if (a < 0) == (b < 0) {
        magnitude
    } else {
        -magnitude
    }
}

impl View for Timestamp {
    type V = int;

    /// The number of milliseconds since the epoch.
    open spec fn view(&self) -> int {
        match self {
            Timestamp::Second(seconds) => seconds * 1_000,
            Timestamp::Millis(milliseconds) => *milliseconds as int,
        }
    }
}

impl Timestamp {
    /// The number of milliseconds is one that an `i64` holds.
    pub open spec fn fits(&self) -> bool {
        i64::MIN <= self@ <= i64::MAX
    }

    /// The number of milliseconds in a wider integer, which holds it whatever the unit.
    fn wide(&self) -> (r: i128)
        ensures
            r == self@,
    {
        match self {
            Timestamp::Second(seconds) => (*seconds as i128) * 1_000,
            Timestamp::Millis(milliseconds) => *milliseconds as i128,
        }
    }

    /// Convert the timestamp to number of milliseconds if it is in seconds
    pub fn as_ms(&self) -> (r: i64)
        requires
            self.fits(),
        ensures
            r == self@,
    {
        match self {
            Timestamp::Second(seconds) => *seconds * 1_000,
            Timestamp::Millis(milliseconds) => *milliseconds,
        }
    }

    /// Convert the timestamp to number of seconds if it is in milliseconds
    pub fn as_sec(&self) -> (r: i64)
        ensures
            r == match self {
                Timestamp::Second(seconds) => *seconds as int,
                Timestamp::Millis(milliseconds) => quotient_towards_zero(
                    *milliseconds as int,
                    1_000,
                ),
            },
    {
        match self {
            Timestamp::Second(seconds) => *seconds,
            Timestamp::Millis(milliseconds) => {
                let ms: i64 = *milliseconds;
                if ms >= 0 {
                    ms / 1_000
                } else if ms == i64::MIN {
                    -9_223_372_036_854_775i64
                } else {
                    -((-ms) / 1_000)
                }
            },
        }
    }

    /// The distance of the instant from the epoch in milliseconds, without its sign.
    pub fn magnitude_ms(&self) -> (r: u64)
        requires
            self.fits(),
        ensures
            r == if self@ < 0 {
                -self@
            } else {
                self@
            },
    {
        let ms = self.as_ms();
        if ms >= 0 {
            ms as u64
        } else if ms == i64::MIN {
            9_223_372_036_854_775_808u64
        } else {
            (-ms) as u64
        }
    }

    /// The timestamp in words: the number, and `ms` or `s` for its unit.
    pub fn text(&self) -> (text: String)
        ensures
            text@ == match self {
                Timestamp::Millis(ms) => crate::utils::decimal(*ms as int) + "ms"@,
                Timestamp::Second(sec) => crate::utils::decimal(*sec as int) + "s"@,
            },
    {
        match self {
            Timestamp::Millis(ms) => crate::utils::decimal_string(*ms).concat("ms"),
            Timestamp::Second(sec) => crate::utils::decimal_string(*sec).concat("s"),
        }
    }

    /// Converts a whole number of hours to a timestamp in milliseconds
    pub fn from_hours(hours: i64) -> (r: Self)
        requires
            i64::MIN <= hours * HOUR_MILLIS <= i64::MAX,
        ensures
            r == Timestamp::Millis((hours * HOUR_MILLIS) as i64),
    {
        Timestamp::Millis(hours * 3_600_000)
    }

    /// Converts a whole number of days to a timestamp in milliseconds
    pub fn from_days(days: i64) -> (r: Self)
        requires
            i64::MIN <= days * DAY_MILLIS <= i64::MAX,
        ensures
            r == Timestamp::Millis((days * DAY_MILLIS) as i64),
    {
        Timestamp::Millis(days * 86_400_000)
    }

    /// Converts a whole number of weeks to a timestamp in milliseconds
    pub fn from_weeks(weeks: i64) -> (r: Self)
        requires
            i64::MIN <= weeks * WEEK_MILLIS <= i64::MAX,
        ensures
            r == Timestamp::Millis((weeks * WEEK_MILLIS) as i64),
    {
        Timestamp::Millis(weeks * 604_800_000)
    }

    /// The ratio of two timestamps, rounded to the nearest whole number.
    pub fn round_div(&self, rhs: Self) -> (r: Timestamp)
        requires
            rhs@ != 0,
            i64::MIN <= quotient_round(self@, rhs@) <= i64::MAX,
        ensures
            r == Timestamp::Millis(quotient_round(self@, rhs@) as i64),
    {
        let a = self.wide();
        let b = rhs.wide();
        let n: i128 = if a < 0 {
            -a
        } else {
            a
        };
        let d: i128 = if b < 0 {
            -b
        } else {
            b
        };
        let magnitude: i128 = (2 * n + d) / (2 * d);
        if (a < 0) == (b < 0) {
            Timestamp::Millis(magnitude as i64)
        } else {
            Timestamp::Millis((-magnitude) as i64)
        }
    }

    /// The ratio of two timestamps, rounded up to a whole number.
    pub fn ceil_div(&self, rhs: Self) -> (r: Timestamp)
        requires
            rhs@ != 0,
            i64::MIN <= quotient_ceil(self@, rhs@) <= i64::MAX,
        ensures
            r == Timestamp::Millis(quotient_ceil(self@, rhs@) as i64),
    {
        let a = self.wide();
        let b = rhs.wide();
        Timestamp::Millis((-floor_wide(-a, b)) as i64)
    }

    /// The ratio of two timestamps, rounded down to a whole number.
    pub fn floor_div(&self, rhs: Self) -> (r: Timestamp)
        requires
            rhs@ != 0,
            i64::MIN <= quotient_floor(self@, rhs@) <= i64::MAX,
        ensures
            r == Timestamp::Millis(quotient_floor(self@, rhs@) as i64),
    {
        let a = self.wide();
        let b = rhs.wide();
        Timestamp::Millis(floor_wide(a, b) as i64)
    }
}

/// The floor of the ratio of two wide integers.
fn floor_wide(a: i128, b: i128) -> (r: i128)
    requires
        b != 0,
        -0x1_0000_0000_0000_0000_0000 <= a <= 0x1_0000_0000_0000_0000_0000,
        -0x1_0000_0000_0000_0000_0000 <= b <= 0x1_0000_0000_0000_0000_0000,
    ensures
        r == quotient_floor(a as int, b as int),
{
    let (n, d): (i128, i128) = if b > 0 {
        (a, b)
    } else {
        (-a, -b)
    };
    proof {
        lemma_floor_bounds(n as int, d as int);
    }
    match n.checked_div_euclid(d) {
        Some(q) => q,
        None => 0,
    }
}

/// The floor of a ratio with a positive divisor is no farther from zero than the numerator.
proof fn lemma_floor_bounds(n: int, d: int)
    by (nonlinear_arith)
    requires
        d > 0,
    ensures
        n >= 0 ==> 0 <= n / d <= n,
        n < 0 ==> n <= n / d <= 0,
{
}

/// A remainder by a positive divisor is below the divisor and not below zero.
proof fn lemma_remainder_bounds(n: int, d: int)
    by (nonlinear_arith)
    requires
        d > 0,
    ensures
        0 <= n % d < d,
        n == 0 ==> n % d == 0,
{
}

impl PartialEq for Timestamp {
    fn eq(&self, other: &Self) -> (r: bool) {
        self.wide() == other.wide()
    }
}

impl Eq for Timestamp {

}

impl PartialEqSpecImpl for Timestamp {
    open spec fn obeys_eq_spec() -> bool {
        true
    }

    open spec fn eq_spec(&self, other: &Self) -> bool {
        self@ == other@
    }
}

impl PartialOrd for Timestamp {
    fn partial_cmp(&self, other: &Self) -> (r: Option<Ordering>) {
        let a = self.wide();
        let b = other.wide();
        if a < b {
            Some(Ordering::Less)
        } else if a > b {
            Some(Ordering::Greater)
        } else {
            Some(Ordering::Equal)
        }
    }
}

impl PartialOrdSpecImpl for Timestamp {
    open spec fn obeys_partial_cmp_spec() -> bool {
        true
    }

    open spec fn partial_cmp_spec(&self, other: &Self) -> Option<Ordering> {
        if self@ < other@ {
            Some(Ordering::Less)
        } else if self@ > other@ {
            Some(Ordering::Greater)
        } else {
            Some(Ordering::Equal)
        }
    }
}

impl Add for Timestamp {
    type Output = Timestamp;

    fn add(self, rhs: Self) -> (r: Timestamp) {
        Timestamp::Millis(self.as_ms() + rhs.as_ms())
    }
}

impl AddSpecImpl for Timestamp {
    open spec fn obeys_add_spec() -> bool {
        true
    }

    open spec fn add_req(self, rhs: Self) -> bool {
        self.fits() && rhs.fits() && i64::MIN <= self@ + rhs@ <= i64::MAX
    }

    open spec fn add_spec(self, rhs: Self) -> Timestamp {
        Timestamp::Millis((self@ + rhs@) as i64)
    }
}

impl Sub for Timestamp {
    type Output = Timestamp;

    fn sub(self, rhs: Self) -> (r: Timestamp) {
        Timestamp::Millis(self.as_ms() - rhs.as_ms())
    }
}

impl SubSpecImpl for Timestamp {
    open spec fn obeys_sub_spec() -> bool {
        true
    }

    open spec fn sub_req(self, rhs: Self) -> bool {
        self.fits() && rhs.fits() && i64::MIN <= self@ - rhs@ <= i64::MAX
    }

    open spec fn sub_spec(self, rhs: Self) -> Timestamp {
        Timestamp::Millis((self@ - rhs@) as i64)
    }
}

impl Mul for Timestamp {
    type Output = Timestamp;

    fn mul(self, rhs: Self) -> (r: Timestamp) {
        Timestamp::Millis(self.as_ms() * rhs.as_ms())
    }
}

impl MulSpecImpl for Timestamp {
    open spec fn obeys_mul_spec() -> bool {
        true
    }

    open spec fn mul_req(self, rhs: Self) -> bool {
        self.fits() && rhs.fits() && i64::MIN <= self@ * rhs@ <= i64::MAX
    }

    open spec fn mul_spec(self, rhs: Self) -> Timestamp {
        Timestamp::Millis((self@ * rhs@) as i64)
    }
}

impl Div for Timestamp {
    type Output = Timestamp;

    fn div(self, rhs: Self) -> (r: Timestamp) {
        let a = self.as_ms();
        let b = rhs.as_ms();
        match a.checked_div(b) {
            Some(q) => Timestamp::Millis(q),
            None => Timestamp::Millis(0),
        }
    }
}

impl DivSpecImpl for Timestamp {
    open spec fn obeys_div_spec() -> bool {
        true
    }

    open spec fn div_req(self, rhs: Self) -> bool {
        self.fits() && rhs.fits() && rhs@ != 0 && i64::MIN <= quotient_towards_zero(self@, rhs@)
            <= i64::MAX
    }

    open spec fn div_spec(self, rhs: Self) -> Timestamp {
        Timestamp::Millis(quotient_towards_zero(self@, rhs@) as i64)
    }
}

impl Rem for Timestamp {
    type Output = Timestamp;

    fn rem(self, rhs: Self) -> (r: Timestamp) {
        let a = self.as_ms();
        let b = rhs.as_ms();
        proof {
            let n: int = if a < 0 {
                -a
            } else {
                a as int
            };
            let d: int = if b < 0 {
                -b
            } else {
                b as int
            };
            lemma_remainder_bounds(n, d);
        }
        let out = a.checked_rem(b);
        match out {
            Some(q) => Timestamp::Millis(q),
            None => Timestamp::Millis(0),
        }
    }
}

impl RemSpecImpl for Timestamp {
    open spec fn obeys_rem_spec() -> bool {
        true
    }

    open spec fn rem_req(self, rhs: Self) -> bool {
        self.fits() && rhs.fits() && rhs@ != 0 && !(self@ == i64::MIN && rhs@ == -1)
    }

    open spec fn rem_spec(self, rhs: Self) -> Timestamp {
        Timestamp::Millis(remainder_towards_zero(self@, rhs@) as i64)
    }
}

impl AddAssign for Timestamp {
    fn add_assign(&mut self, rhs: Self)
        requires
            old(self).fits(),
            rhs.fits(),
            i64::MIN <= old(self)@ + rhs@ <= i64::MAX,
        ensures
            *final(self) == Timestamp::Millis((old(self)@ + rhs@) as i64),
    {
        *self = *self + rhs;
    }
}

impl SubAssign for Timestamp {
    fn sub_assign(&mut self, rhs: Self)
        requires
            old(self).fits(),
            rhs.fits(),
            i64::MIN <= old(self)@ - rhs@ <= i64::MAX,
        ensures
            *final(self) == Timestamp::Millis((old(self)@ - rhs@) as i64),
    {
        *self = *self - rhs;
    }
}

impl MulAssign for Timestamp {
    fn mul_assign(&mut self, rhs: Self)
        requires
            old(self).fits(),
            rhs.fits(),
            i64::MIN <= old(self)@ * rhs@ <= i64::MAX,
        ensures
            *final(self) == Timestamp::Millis((old(self)@ * rhs@) as i64),
    {
        *self = *self * rhs;
    }
}

impl DivAssign for Timestamp {
    fn div_assign(&mut self, rhs: Self)
        requires
            old(self).fits(),
            rhs.fits(),
            rhs@ != 0,
            i64::MIN <= quotient_towards_zero(old(self)@, rhs@) <= i64::MAX,
        ensures
            *final(self) == Timestamp::Millis(quotient_towards_zero(old(self)@, rhs@) as i64),
    {
        *self = *self / rhs;
    }
}

impl RemAssign for Timestamp {
    fn rem_assign(&mut self, rhs: Self)
        requires
            old(self).fits(),
            rhs.fits(),
            rhs@ != 0,
            !(old(self)@ == i64::MIN && rhs@ == -1),
        ensures
            *final(self) == Timestamp::Millis(remainder_towards_zero(old(self)@, rhs@) as i64),
    {
        *self = *self % rhs;
    }
}

/// `chrono::Utc::now`, read with `timestamp_millis` as milliseconds since the epoch. The
/// clock decides the value. What is claimed of it: it is given in milliseconds, and it is
/// an instant of the calendar, since `chrono` builds it as a date and time of its own, without
/// a leap second, before it counts the milliseconds.
#[verifier::external_body]
#[inline(always)]
pub fn timestamp() -> (now: Timestamp)
    ensures
        now is Millis,
        representable(now@),
{
    Timestamp::Millis(chrono::Utc::now().timestamp_millis())
}

} // verus!
