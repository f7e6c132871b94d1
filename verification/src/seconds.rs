//! Points in time as numbers of seconds with the precision of a double, and the clocks.
use vstd::prelude::*;

verus! {

/// A number of seconds in fixed point, with 63 binary places: as a point in time, the seconds since
/// the Unix epoch. What is computed of it is rounded to the 53 significant bits of a double.
#[derive(Clone, Copy, PartialEq, Eq, Structural, Debug)]
pub struct Seconds {
    /// The number of ticks, of which there are two to the power of 63 in a second.
    pub ticks: i128,
}

impl View for Seconds {
    type V = int;

    /// The number of ticks.
    open spec fn view(&self) -> int {
        self.ticks as int
    }
}

/// The ticks in one second.
pub const SECOND: i128 = 0x8000_0000_0000_0000;

/// The nanoseconds in one second.
pub const NANOS: u64 = 1_000_000_000;

/// The nanoseconds in one millisecond.
pub const NANOS_PER_MILLI: u64 = 1_000_000;

// ---------------------------------------------------------------------------------------------
// Rounding
// ---------------------------------------------------------------------------------------------

/// `value`, moved into the range from `-limit` to `limit`.
pub open spec fn clamp(value: int, limit: int) -> int {
    if value > limit {
        limit
    } else if value < -limit {
        -limit
    } else {
        value
    }
}

/// The quotient without its fraction.
pub open spec fn quotient(value: int, divisor: int) -> int {
    if value >= 0 {
        value / divisor
    } else {
        -((-value) / divisor)
    }
}

/// The number that 53 significant bits can count: two to the power of 53.
pub const SIGNIFICANT: u128 = 0x20_0000_0000_0000;

/// The distance of numbers with 53 significant bits at `size`: a power of two.
pub open spec fn grain(size: nat) -> nat
    decreases size,
{
    if size < SIGNIFICANT {
        1
    } else {
        2 * grain(size / 2)
    }
}

/// The multiple of `step` that is nearest to `size`; of two that are, the even one.
pub open spec fn nearest(size: nat, step: nat) -> nat {
    let q = size / step;
    let r = size % step;
    if 2 * r < step || (2 * r == step && q % 2 == 0) {
        q * step
    } else {
        (q + 1) * step
    }
}

/// The number with 53 significant bits that is nearest to `value`.
pub open spec fn rounded(value: int) -> int {
    if value >= 0 {
        nearest(value as nat, grain(value as nat)) as int
    } else {
        -(nearest((-value) as nat, grain((-value) as nat)) as int)
    }
}

/// The number of ticks that stands for `value` after a computation with doubles: within the range of
/// `i128`, the nearest with 53 significant bits.
pub open spec fn double_near(value: int) -> int {
    clamp(rounded(clamp(value, i128::MAX as int)), i128::MAX as int)
}

/// The time from `start` to `now`.
pub open spec fn age(start: int, now: int) -> int {
    double_near(now - start)
}

/// The whole milliseconds in a number of ticks, within the range of `i64`.
pub open spec fn millis_spec(ticks: int) -> int {
    clamp(quotient(double_near(ticks * 1000), SECOND as int), i64::MAX as int)
}

/// The distance of numbers with 53 significant bits at `size`.
fn grain_of(size: u128) -> (r: u128)
    requires
        size <= i128::MAX,
    ensures
        r == grain(size as nat),
        1 <= r,
        r == 1 || r * 0x10_0000_0000_0000 <= size,
{
    let mut y: u128 = size;
    let mut g: u128 = 1;
    while y >= SIGNIFICANT
        invariant
            size <= i128::MAX,
            1 <= g,
            g * y <= size,
            g == 1 || y >= 0x10_0000_0000_0000,
            grain(size as nat) == g * grain(y as nat),
        decreases y,
    {
        let ghost half = y / 2;
        assert(g * 0x20_0000_0000_0000 <= g * y) by (nonlinear_arith)
            requires
                y >= 0x20_0000_0000_0000,
                g >= 1,
        ;
        assert((g * 2) * half <= g * y) by (nonlinear_arith)
            requires
                half * 2 <= y,
                g >= 1,
        ;
        assert(g * (2 * grain(half as nat)) == (g * 2) * grain(half as nat)) by (nonlinear_arith);
        y = y / 2;
        g = g * 2;
    }
    assert(grain(y as nat) == 1);
    assert(g * 1 == g);
    if g > 1 {
        assert(g * 0x10_0000_0000_0000 <= g * y) by (nonlinear_arith)
            requires
                y >= 0x10_0000_0000_0000,
                g >= 1,
        ;
    }
    g
}

/// The multiple of `step` that is nearest to `size`.
fn nearest_to(size: u128, step: u128) -> (r: u128)
    requires
        1 <= step,
        size + step <= u128::MAX,
        2 * step <= u128::MAX,
    ensures
        r == nearest(size as nat, step as nat),
{
    let q: u128 = size / step;
    let r: u128 = size % step;
    proof {
        vstd::arithmetic::div_mod::lemma_fundamental_div_mod(size as int, step as int);
        assert(q * step <= size) by {
            assert(step * q == q * step) by (nonlinear_arith);
        }
        assert((q + 1) * step == q * step + step) by (nonlinear_arith);
    }
    if 2 * r < step || (2 * r == step && q % 2 == 0) {
        q * step
    } else {
        (q + 1) * step
    }
}

/// The number of ticks that stands for `value` after a computation with doubles.
fn near(value: i128) -> (r: i128)
    ensures
        r == double_near(value as int),
{
    let top: u128 = i128::MAX as u128;
    let size: u128 = if value >= 0 {
        value as u128
    } else if value == i128::MIN {
        top
    } else {
        (-value) as u128
    };
    let step: u128 = grain_of(size);
    let found: u128 = nearest_to(size, step);
    let kept: i128 = if found > top {
        i128::MAX
    } else {
        found as i128
    };
    if value >= 0 {
        kept
    } else {
        -kept
    }
}

impl Seconds {
    /// No seconds at all: as a point in time, the mark of what never happened.
    pub fn zero() -> (r: Seconds)
        ensures
            r@ == 0,
    {
        Seconds { ticks: 0 }
    }

    /// `n` whole seconds.
    pub fn whole(n: i64) -> (r: Seconds)
        ensures
            r@ == n * SECOND,
    {
        Seconds { ticks: (n as i128) * SECOND }
    }

    /// The time from `start` to `self`.
    fn since(self, start: Seconds) -> (r: i128)
        ensures
            r == age(start@, self@),
    {
        match self.ticks.checked_sub(start.ticks) {
            Some(d) => near(d),
            None => if self.ticks > start.ticks {
                near(i128::MAX)
            } else {
                near(-i128::MAX)
            },
        }
    }

    /// Whether the time from `start` to `self` is longer than `limit`.
    pub fn is_past(self, start: Seconds, limit: Seconds) -> (r: bool)
        ensures
            r == (age(start@, self@) > limit@),
    {
        self.since(start) > limit.ticks
    }

    /// Whether the time from `start` to `self` is shorter than `limit`.
    pub fn is_within(self, start: Seconds, limit: Seconds) -> (r: bool)
        ensures
            r == (age(start@, self@) < limit@),
    {
        self.since(start) < limit.ticks
    }

    /// The whole milliseconds, without their fraction and within the range of `i64`.
    pub fn millis(self) -> (r: i64)
        ensures
            r == millis_spec(self@),
    {
        let product: i128 = match self.ticks.checked_mul(1000) {
            Some(p) => near(p),
            None => if self.ticks > 0 {
                near(i128::MAX)
            } else {
                near(-i128::MAX)
            },
        };
        let limit: i128 = i64::MAX as i128;
        if product >= 0 {
            let ms: i128 = product / SECOND;
            if ms > limit {
                i64::MAX
            } else {
                ms as i64
            }
        } else {
            let ms: i128 = (-product) / SECOND;
            if ms > limit {
                -i64::MAX
            } else {
                -(ms as i64)
            }
        }
    }
}

// ---------------------------------------------------------------------------------------------
// Doubles
// ---------------------------------------------------------------------------------------------

/// The biased exponent in the bits of a double.
pub open spec fn double_exponent(bits: u64) -> int {
    (bits as int / 0x10_0000_0000_0000) % 0x800
}

/// The significand in the bits of a double, as a whole number.
pub open spec fn double_significand(bits: u64) -> int {
    bits as int % 0x10_0000_0000_0000 + if double_exponent(bits) == 0 {
        0int
    } else {
        0x10_0000_0000_0000int
    }
}

/// The power of two by which the significand is multiplied.
pub open spec fn double_power(bits: u64) -> int {
    (if double_exponent(bits) == 0 {
        1
    } else {
        double_exponent(bits)
    }) - 1075
}

/// `size`, or 1 where it is 0 for nothing but the fraction that was left out: what is not zero stays
/// apart from it.
pub open spec fn not_lost(size: int, is_zero: bool) -> int {
    if size == 0 && !is_zero {
        1
    } else {
        size
    }
}

/// `n` times two to the power `p`, without its fraction.
pub open spec fn scaled(n: int, p: int) -> int {
    if p >= 0 {
        n * vstd::arithmetic::power2::pow2(p as nat)
    } else {
        n / (vstd::arithmetic::power2::pow2((-p) as nat) as int)
    }
}

/// The ticks in the number of seconds that the bits of a double stand for, within the range of
/// `i128`. A fraction of a tick, which only a number below two to the power of -11 has, is left out,
/// but nothing except zero becomes zero. `None` for an infinity and for what is not a number.
pub open spec fn double_ticks(bits: u64) -> Option<int> {
    if double_exponent(bits) == 0x7ff {
        None
    } else {
        let size = not_lost(
            clamp(scaled(double_significand(bits), double_power(bits) + 63), i128::MAX as int),
            double_significand(bits) == 0,
        );
        Some(
            if bits < 0x8000_0000_0000_0000 {
                size
            } else {
                -size
            },
        )
    }
}

/// `n * 2^p`, at most `i128::MAX`.
fn scale_up(n: u128, p: u32) -> (r: i128)
    requires
        n <= i128::MAX,
    ensures
        r == clamp(n * vstd::arithmetic::power2::pow2(p as nat), i128::MAX as int),
{
    let top: u128 = i128::MAX as u128;
    let mut v: u128 = n;
    let mut k: u32 = 0;
    proof {
        vstd::arithmetic::power2::lemma2_to64();
    }
    while k < p
        invariant
            k <= p,
            v == n * vstd::arithmetic::power2::pow2(k as nat),
            v <= top == i128::MAX,
        decreases p - k,
    {
        if v > top / 2 {
            proof {
                let rest = vstd::arithmetic::power2::pow2((p - k) as nat);
                let done = vstd::arithmetic::power2::pow2(k as nat);
                let whole = vstd::arithmetic::power2::pow2(p as nat);
                vstd::arithmetic::power2::lemma_pow2_adds(k as nat, (p - k) as nat);
                vstd::arithmetic::power2::lemma_pow2_unfold((p - k) as nat);
                vstd::arithmetic::power2::lemma_pow2_pos((p - k - 1) as nat);
                assert(n * whole == v * rest) by (nonlinear_arith)
                    requires
                        v == n * done,
                        whole == done * rest,
                ;
                assert(v * rest >= v * 2) by (nonlinear_arith)
                    requires
                        rest >= 2,
                        v >= 0,
                ;
            }
            return i128::MAX;
        }
        proof {
            vstd::arithmetic::power2::lemma_pow2_unfold((k + 1) as nat);
            let done = vstd::arithmetic::power2::pow2(k as nat);
            let next = vstd::arithmetic::power2::pow2((k + 1) as nat);
            assert(v * 2 == n * next) by (nonlinear_arith)
                requires
                    v == n * done,
                    next == 2 * done,
            ;
        }
        v = v * 2;
        k += 1;
    }
    v as i128
}

/// `n / 2^p`, without its fraction.
fn scale_down(n: u128, p: u32) -> (r: u128)
    ensures
        r == n as int / (vstd::arithmetic::power2::pow2(p as nat) as int),
        r <= n,
{
    let mut v: u128 = n;
    let mut k: u32 = 0;
    proof {
        vstd::arithmetic::power2::lemma2_to64();
    }
    while k < p
        invariant
            k <= p,
            v == n as int / (vstd::arithmetic::power2::pow2(k as nat) as int),
            v <= n,
        decreases p - k,
    {
        proof {
            vstd::arithmetic::power2::lemma_pow2_unfold((k + 1) as nat);
            vstd::arithmetic::power2::lemma_pow2_pos(k as nat);
            let done = vstd::arithmetic::power2::pow2(k as nat);
            vstd::arithmetic::div_mod::lemma_div_denominator(n as int, done as int, 2);
            assert(done * 2 == vstd::arithmetic::power2::pow2((k + 1) as nat));
        }
        v = v / 2;
        k += 1;
    }
    v
}

/// The seconds that the bits of a double stand for. `None` for an infinity and for what is not a
/// number.
pub fn seconds_of_double(bits: u64) -> (r: Option<Seconds>)
    ensures
        r is Some == double_ticks(bits) is Some,
        r matches Some(s) ==> double_ticks(bits) == Some(s@),
{
    let exponent: u64 = (bits / 0x10_0000_0000_0000) % 0x800;
    if exponent == 0x7ff {
        return None;
    }
    let fraction: u64 = bits % 0x10_0000_0000_0000;
    let significand: u64 = if exponent == 0 {
        fraction
    } else {
        fraction + 0x10_0000_0000_0000
    };
    let n: u128 = significand as u128;
    assert(n == double_significand(bits));
    let raised: u64 = if exponent == 0 {
        1
    } else {
        exponent
    };
    let size: i128 = if raised >= 1012 {
        scale_up(n, (raised - 1012) as u32)
    } else {
        let v: u128 = scale_down(n, (1012 - raised) as u32);
        v as i128
    };
    let kept: i128 = if size == 0 && significand != 0 {
        1
    } else {
        size
    };
    let ticks: i128 = if bits < 0x8000_0000_0000_0000 {
        kept
    } else {
        -kept
    };
    Some(Seconds { ticks })
}

// ---------------------------------------------------------------------------------------------
// Instants
// ---------------------------------------------------------------------------------------------

/// The ticks in a number of nanoseconds, as a double has them: the nearest whole number with at most
/// 53 significant bits.
pub open spec fn nano_ticks(nanos: nat) -> nat {
    let ticks = nanos * SECOND as nat;
    nearest(ticks, NANOS as nat * grain(ticks / NANOS as nat)) / NANOS as nat
}

/// The point in time so many seconds and nanoseconds after the epoch, as it is computed with doubles.
pub open spec fn instant_ticks(secs: int, nanos: nat) -> int {
    double_near(double_near(secs * SECOND) + nano_ticks(nanos))
}

/// The ticks in a number of nanoseconds.
fn ticks_of_nanos(nanos: u32) -> (r: i128)
    ensures
        r == nano_ticks(nanos as nat),
        0 <= r,
{
    let whole: u128 = (nanos as u128) * (SECOND as u128);
    let step: u128 = (NANOS as u128) * grain_of(whole / (NANOS as u128));
    proof {
        assert(whole <= 0xffff_ffff * 0x8000_0000_0000_0000) by (nonlinear_arith)
            requires
                whole == nanos * 0x8000_0000_0000_0000,
                nanos <= 0xffff_ffff,
        ;
        let g = grain((whole as int / NANOS as int) as nat);
        assert(g == 1 || g * 0x10_0000_0000_0000 <= whole);
        assert(g <= 0x8000_0000_0000);
    }
    let found: u128 = nearest_to(whole, step);
    proof {
        vstd::arithmetic::div_mod::lemma_fundamental_div_mod(whole as int, step as int);
        let q = whole as int / step as int;
        assert(step * q == q * step) by (nonlinear_arith);
        assert((q + 1) * step == q * step + step) by (nonlinear_arith);
        assert(found <= whole + step);
    }
    (found / (NANOS as u128)) as i128
}

/// The point in time so many seconds and nanoseconds after the epoch.
fn seconds_after_epoch(secs: i128, nanos: u32) -> (r: Seconds)
    requires
        i64::MIN <= secs <= u64::MAX,
    ensures
        r@ == instant_ticks(secs as int, nanos as nat),
        secs >= 0 ==> r@ >= 0,
{
    let coarse: i128 = near(secs * SECOND);
    let fine: i128 = ticks_of_nanos(nanos);
    let ticks: i128 = match coarse.checked_add(fine) {
        Some(sum) => near(sum),
        None => near(i128::MAX),
    };
    Seconds { ticks }
}

/// The instant that `time::OffsetDateTime::parse` reads in a text as RFC 3339: the whole seconds
/// since the Unix epoch and the nanoseconds within the second. `None` where the text is no such
/// date and time.
pub uninterp spec fn rfc3339_instant(text: Seq<char>) -> Option<(i64, u32)>;

/// Reads a date and time with `time::OffsetDateTime::parse`, as RFC 3339, and takes its
/// `unix_timestamp` and its `nanosecond`.
///
/// Taken from `time`: whether the text is a date and time, and which instant it is, depends on
/// the text alone.
#[verifier::external_body]
fn read_rfc3339(text: &str) -> (r: Option<(i64, u32)>)
    ensures
        r == rfc3339_instant(text@),
{
    match time::OffsetDateTime::parse(text, &time::format_description::well_known::Rfc3339) {
        Ok(dt) => Some((dt.unix_timestamp(), dt.nanosecond())),
        Err(_) => None,
    }
}

/// The point in time of an instant.
pub fn seconds_of_instant(instant: (i64, u32)) -> (r: Seconds)
    ensures
        r@ == instant_ticks(instant.0 as int, instant.1 as nat),
{
    seconds_after_epoch(instant.0 as i128, instant.1)
}

/// The point in time that a text gives as RFC 3339.
pub fn seconds_of_rfc3339(text: &str) -> (r: Option<Seconds>)
    ensures
        r is Some == rfc3339_instant(text@) is Some,
        r matches Some(s) ==> ({
            let instant = rfc3339_instant(text@)->0;
            s@ == instant_ticks(instant.0 as int, instant.1 as nat)
        }),
{
    match read_rfc3339(text) {
        Some(instant) => Some(seconds_of_instant(instant)),
        None => None,
    }
}

// ---------------------------------------------------------------------------------------------
// Clocks
// ---------------------------------------------------------------------------------------------

/// The whole seconds since the Unix epoch by the system's clock, and the nanoseconds within the
/// second, with `SystemTime::elapsed` of the epoch; `None` where the clock stands before it.
///
/// Nothing is claimed of the numbers: they are what the clock shows.
#[verifier::external_body]
fn read_clock() -> (r: Option<(u64, u32)>) {
    match std::time::SystemTime::UNIX_EPOCH.elapsed() {
        Ok(d) => Some((d.as_secs(), d.subsec_nanos())),
        Err(_) => None,
    }
}

/// The point in time that a reading of the clock stands for: the epoch where there is none.
pub fn seconds_of_clock(reading: Option<(u64, u32)>) -> (r: Seconds)
    ensures
        r@ == (match reading {
            Some((secs, nanos)) => instant_ticks(secs as int, nanos as nat),
            None => 0,
        }),
        r@ >= 0,
{
    match reading {
        Some((secs, nanos)) => seconds_after_epoch(secs as i128, nanos),
        None => Seconds::zero(),
    }
}

/// The current time; never before the epoch.
pub fn now_secs() -> (r: Seconds)
    ensures
        r@ >= 0,
{
    seconds_of_clock(read_clock())
}

/// A length of time in nanoseconds: as a point in time, since a clock was started that does not jump.
#[derive(Clone, Copy, PartialEq, Eq, Structural, Debug)]
pub struct Elapsed {
    pub nanos: u64,
}

impl View for Elapsed {
    type V = int;

    open spec fn view(&self) -> int {
        self.nanos as int
    }
}

impl Elapsed {
    /// `n` milliseconds.
    pub fn of_millis(n: u32) -> (r: Elapsed)
        ensures
            r@ == n * NANOS_PER_MILLI,
    {
        Elapsed { nanos: (n as u64) * NANOS_PER_MILLI }
    }

    /// `n` seconds.
    pub fn of_secs(n: u32) -> (r: Elapsed)
        ensures
            r@ == n * NANOS,
    {
        Elapsed { nanos: (n as u64) * NANOS }
    }

    /// Whether the time from `start` to `self` is shorter than `limit`.
    pub fn is_within(self, start: Elapsed, limit: Elapsed) -> (r: bool)
        ensures
            r == (self@ - start@ < limit@),
    {
        self.nanos < start.nanos || self.nanos - start.nanos < limit.nanos
    }
}

// ---------------------------------------------------------------------------------------------
// Laws
// ---------------------------------------------------------------------------------------------

/// A number of seconds is held as zero where, and only where, it is zero.
pub proof fn law_zero_is_zero(bits: u64)
    requires
        double_ticks(bits) is Some,
    ensures
        (double_ticks(bits)->0 == 0) == (double_significand(bits) == 0),
        double_ticks(bits)->0 > 0 ==> bits < 0x8000_0000_0000_0000,
{
    let n = double_significand(bits);
    let p = double_power(bits) + 63;
    if p >= 0 {
        vstd::arithmetic::power2::lemma_pow2_pos(p as nat);
        let q = vstd::arithmetic::power2::pow2(p as nat) as int;
        assert(n == 0 ==> n * q == 0) by (nonlinear_arith);
        assert(n >= 0 ==> n * q >= 0) by (nonlinear_arith)
            requires
                q > 0,
        ;
    } else {
        vstd::arithmetic::power2::lemma_pow2_pos((-p) as nat);
        let q = vstd::arithmetic::power2::pow2((-p) as nat) as int;
        assert(n == 0 ==> n / q == 0) by (nonlinear_arith)
            requires
                q > 0,
        ;
        assert(n >= 0 ==> n / q >= 0) by (nonlinear_arith)
            requires
                q > 0,
        ;
    }
}

/// The distance of numbers with 53 significant bits, against the number itself.
pub proof fn lemma_grain(size: nat)
    ensures
        grain(size) >= 1,
        size < grain(size) * 0x20_0000_0000_0000,
        grain(size) == 1 || grain(size) * 0x10_0000_0000_0000 <= size,
    decreases size,
{
    if size >= SIGNIFICANT {
        lemma_grain(size / 2);
    }
}

proof fn lemma_grain_order(a: nat, b: nat)
    requires
        a <= b,
    ensures
        grain(a) == grain(b) || 2 * grain(a) <= grain(b),
    decreases b,
{
    if b >= SIGNIFICANT {
        lemma_grain(b / 2);
        if a >= SIGNIFICANT {
            lemma_grain_order(a / 2, b / 2);
        }
    }
}

proof fn lemma_nearest_bounds(size: nat, step: nat)
    requires
        step >= 1,
    ensures
        (size / step) * step <= nearest(size, step) <= (size / step + 1) * step,
{
    let q = size / step;
    assert((q + 1) * step == q * step + step) by (nonlinear_arith);
}

proof fn lemma_nearest_order(a: nat, b: nat, step: nat)
    requires
        a <= b,
        step >= 1,
    ensures
        nearest(a, step) <= nearest(b, step),
{
    let x = a / step;
    let y = b / step;
    vstd::arithmetic::div_mod::lemma_fundamental_div_mod(a as int, step as int);
    vstd::arithmetic::div_mod::lemma_fundamental_div_mod(b as int, step as int);
    vstd::arithmetic::div_mod::lemma_div_is_ordered(a as int, b as int, step as int);
    lemma_nearest_bounds(a, step);
    lemma_nearest_bounds(b, step);
    if x < y {
        assert((x + 1) * step <= y * step) by (nonlinear_arith)
            requires
                x + 1 <= y,
                step >= 1,
        ;
    } else {
        assert(x == y);
        assert((x + 1) * step == x * step + step) by (nonlinear_arith);
    }
}

proof fn lemma_size_order(a: nat, b: nat)
    requires
        a <= b,
    ensures
        nearest(a, grain(a)) <= nearest(b, grain(b)),
{
    let g = grain(a);
    let h = grain(b);
    lemma_grain(a);
    lemma_grain(b);
    lemma_grain_order(a, b);
    if g == h {
        lemma_nearest_order(a, b, g);
    } else {
        lemma_nearest_bounds(a, g);
        lemma_nearest_bounds(b, h);
        vstd::arithmetic::div_mod::lemma_fundamental_div_mod(a as int, g as int);
        vstd::arithmetic::div_mod::lemma_fundamental_div_mod(b as int, h as int);
        assert(a / g < 0x20_0000_0000_0000) by (nonlinear_arith)
            requires
                a < g * 0x20_0000_0000_0000,
                g >= 1,
        ;
        assert(b / h >= 0x10_0000_0000_0000) by (nonlinear_arith)
            requires
                h * 0x10_0000_0000_0000 <= b,
                h >= 1,
        ;
        assert((a / g + 1) * g <= 0x20_0000_0000_0000 * g) by (nonlinear_arith)
            requires
                a / g + 1 <= 0x20_0000_0000_0000,
                g >= 1,
        ;
        assert(0x10_0000_0000_0000 * h <= (b / h) * h) by (nonlinear_arith)
            requires
                b / h >= 0x10_0000_0000_0000,
                h >= 1,
        ;
    }
}

/// Rounding keeps the order of numbers.
pub proof fn law_rounding_keeps_order(a: int, b: int)
    requires
        a <= b,
    ensures
        double_near(a) <= double_near(b),
{
    let x = clamp(a, i128::MAX as int);
    let y = clamp(b, i128::MAX as int);
    if x >= 0 {
        lemma_size_order(x as nat, y as nat);
    } else if y < 0 {
        lemma_size_order((-y) as nat, (-x) as nat);
    }
}

/// Whole milliseconds keep the order of points in time.
pub proof fn law_millis_keep_order(a: int, b: int)
    requires
        a <= b,
    ensures
        millis_spec(a) <= millis_spec(b),
{
    law_rounding_keeps_order(a * 1000, b * 1000);
}

} // verus!
